//! Addressing of planes and interleaved rows, and the lemmas that keep rows apart.

use vstd::prelude::*;

use crate::support::{YuvChromaSubsampling, YuvSourceChannels};

verus! {

/// Element `col` of row `row` of a plane whose rows are `stride` elements apart.
pub open spec fn plane_at<T>(plane: Seq<T>, stride: int, row: int, col: int) -> T {
    plane[row * stride + col]
}

/// Number of luma columns that share one chroma sample.
pub open spec fn chroma_factor(sampling: YuvChromaSubsampling) -> int {
    match sampling {
        YuvChromaSubsampling::Yuv444 => 1,
        _ => 2,
    }
}

/// Number of luma rows that share one chroma row.
pub open spec fn row_factor(sampling: YuvChromaSubsampling) -> int {
    match sampling {
        YuvChromaSubsampling::Yuv420 => 2,
        _ => 1,
    }
}

/// The second source row averaged into the chroma row that starts at luma row `row`:
/// the next row for 4:2:0, the last row standing in past the bottom edge.
pub open spec fn pair_row(row: int, height: int, sampling: YuvChromaSubsampling) -> int {
    let r = row + row_factor(sampling) - 1;
    if r < height {
        r
    } else {
        height - 1
    }
}

/// Row `y` of a plane of `h` rows, `s` apart, fits the plane.
pub proof fn lemma_row_fits(y: int, h: int, s: int, w: int)
    requires
        0 <= y < h,
        0 <= w <= s,
    ensures
        0 <= y * s,
        y * s + w <= h * s,
        y * s + w <= s * h,
        y * s <= (y + 1) * s,
{
    assert(y * s + w <= h * s && 0 <= y * s && y * s <= (y + 1) * s && h * s == s * h)
        by (nonlinear_arith)
        requires
            0 <= y < h,
            0 <= w <= s,
    ;
}

/// An element of an earlier row lies before the start of a later row.
pub proof fn lemma_rows_disjoint(a: int, b: int, s: int, x: int, w: int)
    requires
        0 <= a < b,
        0 <= x < w <= s,
    ensures
        a * s + x < b * s,
        0 <= a * s + x,
{
    assert(a * s + x < b * s && 0 <= a * s + x) by (nonlinear_arith)
        requires
            0 <= a < b,
            0 <= x < w <= s,
    ;
}

/// Channel `c` of pixel `x` of the interleaved row that starts at `off`.
pub open spec fn px_row<T>(s: Seq<T>, off: int, cn: int, x: int, c: int) -> T {
    s[off + x * cn + c]
}

/// Channel `c` of pixel `x` of row `y` of an interleaved image with rows `stride` apart.
pub open spec fn pixel_of<T>(s: Seq<T>, stride: int, cn: int, y: int, x: int, c: int) -> T {
    s[y * stride + x * cn + c]
}

/// Element `x * cn + c` of a row, for `c < cn`, lies before element `w * cn` when `x < w`.
pub proof fn lemma_channel_in_row(x: int, w: int, cn: int, c: int)
    requires
        0 <= x < w,
        0 <= c < cn,
    ensures
        0 <= x * cn + c < w * cn,
        x * cn + cn <= w * cn,
        0 <= x * cn,
{
    assert(x * cn + cn <= w * cn && 0 <= x * cn) by (nonlinear_arith)
        requires
            0 <= x < w,
            0 <= c < cn,
    ;
}

/// Element `x * cn + c` of an earlier pixel lies before the first element of pixel `x2`.
pub proof fn lemma_pixels_disjoint(x: int, x2: int, cn: int, c: int)
    requires
        0 <= x < x2,
        0 <= c < cn,
    ensures
        x * cn + c < x2 * cn,
{
    assert(x * cn + c < x2 * cn) by (nonlinear_arith)
        requires
            0 <= x < x2,
            0 <= c < cn,
    ;
}

/// Writes one pixel: red, green, blue at their channel offsets, and `alpha` in the
/// fourth channel of a four-channel layout.
pub fn store_pixel<T: Copy>(dst: &mut [T], base: usize, cn: YuvSourceChannels, r: T, g: T, b: T, alpha: T)
    requires
        base + cn.spec_channels() <= old(dst)@.len(),
    ensures
        final(dst)@.len() == old(dst)@.len(),
        forall|i: int|
            0 <= i < old(dst)@.len() ==> final(dst)@[i] == if i == base + cn.spec_r() {
                r
            } else if i == base + 1 {
                g
            } else if i == base + cn.spec_b() {
                b
            } else if cn.spec_has_alpha() && i == base + 3 {
                alpha
            } else {
                old(dst)@[i]
            },
{
    let ro = cn.get_r_channel_offset();
    let bo = cn.get_b_channel_offset();
    let _len = dst.len();
    dst[base + ro] = r;
    dst[base + 1] = g;
    dst[base + bo] = b;
    if cn.has_alpha() {
        dst[base + 3] = alpha;
    }
}

/// Writes the four bytes `b0..b3` at `base`.
pub fn store_word(dst: &mut [u8], base: usize, b0: u8, b1: u8, b2: u8, b3: u8)
    requires
        base + 4 <= old(dst)@.len(),
    ensures
        final(dst)@.len() == old(dst)@.len(),
        forall|i: int|
            0 <= i < old(dst)@.len() ==> final(dst)@[i] == if i == base {
                b0
            } else if i == base + 1 {
                b1
            } else if i == base + 2 {
                b2
            } else if i == base + 3 {
                b3
            } else {
                old(dst)@[i]
            },
{
    let _len = dst.len();
    dst[base] = b0;
    dst[base + 1] = b1;
    dst[base + 2] = b2;
    dst[base + 3] = b3;
}

} // verus!
