//! 8-bit RGB to YCgCo: scalar and lane kernels, the two-cursor row machine, and the
//! image conversion in every chroma layout.

use vstd::prelude::*;

use crate::support::{
    as_result, avg2, rgb_source_error, check_plane, mul_wide, chroma_height, chroma_width, clamp, get_yuv_range,
    plane_error, pow2, reveal_pow2_7, reveal_pow2_8, round_div, spec_yuv_range, ProcessedOffset,
    YuvChromaSubsampling, YuvError, YuvPlanarImageMut, YuvRange, YuvSourceChannels,
};
use crate::layout::{
    chroma_factor, lemma_row_fits, lemma_rows_disjoint, pair_row, plane_at, row_factor,
};

verus! {

/// Fixed-point constants of the 8-bit RGB to YCgCo transform, 8 fractional bits.
#[derive(Clone, Copy, Debug, PartialEq, Eq, Structural)]
pub struct YCgCoCoefficients {
    /// Luma range scale, `range_y * 256 / 255` rounded.
    pub scale_y: u32,
    /// Luma bias with the rounding half added: `bias_y * 256 + 128`.
    pub bias_y: u32,
    /// Chroma range scale, `range_uv * 256 / 255` rounded.
    pub scale_uv: u32,
    /// Chroma bias with the rounding half added: `bias_uv * 256 + 128`.
    pub bias_uv: u32,
}

impl YCgCoCoefficients {
    pub open spec fn wf(self) -> bool {
        self.scale_y <= 512 && self.scale_uv <= 512 && self.bias_y <= 0x10_0000 && self.bias_uv
            <= 0x10_0000
    }
}

pub open spec fn spec_ycgco_coefficients(range: YuvRange) -> YCgCoCoefficients {
    let r = spec_yuv_range(8, range);
    YCgCoCoefficients {
        scale_y: round_div(r.range_y * 256, 255) as u32,
        bias_y: (r.bias_y * 256 + 128) as u32,
        scale_uv: round_div(r.range_uv * 256, 255) as u32,
        bias_uv: (r.bias_uv * 256 + 128) as u32,
    }
}

/// Luma of one pixel.
pub open spec fn ycgco_luma(r: int, g: int, b: int, k: YCgCoCoefficients) -> int {
    clamp((g * k.scale_y / 2 + (r * k.scale_y + b * k.scale_y) / 4 + k.bias_y) / 256, 255)
}

/// Green-difference chroma of one (possibly averaged) pixel.
pub open spec fn ycgco_cg(r: int, g: int, b: int, k: YCgCoCoefficients) -> int {
    clamp((g * k.scale_uv / 2 - (r * k.scale_uv + b * k.scale_uv) / 4 + k.bias_uv) / 256, 255)
}

/// Orange-difference chroma of one (possibly averaged) pixel.
pub open spec fn ycgco_co(r: int, g: int, b: int, k: YCgCoCoefficients) -> int {
    clamp(((r * k.scale_uv - b * k.scale_uv) / 2 + k.bias_uv) / 256, 255)
}

/// Channel `c` of pixel `x` of the row that starts at `off`.
pub open spec fn sample_at(src: Seq<u8>, off: int, cn: YuvSourceChannels, x: int, c: int) -> int {
    src[off + x * cn.spec_channels() + c] as int
}

/// Channel `c` of the chroma input of the chroma sample whose first pixel is `x0`: the
/// rounding average of the pixels it covers in the rows at `off0` and `off1`, the last column standing in for
/// a neighbour past the right edge.
pub open spec fn chroma_sample(
    src: Seq<u8>,
    off0: int,
    off1: int,
    cn: YuvSourceChannels,
    width: int,
    factor: int,
    x0: int,
    c: int,
) -> int {
    let x1 = if x0 + factor - 1 < width {
        x0 + factor - 1
    } else {
        width - 1
    };
    avg2(
        avg2(sample_at(src, off0, cn, x0, c), sample_at(src, off0, cn, x1, c)),
        avg2(sample_at(src, off1, cn, x0, c), sample_at(src, off1, cn, x1, c)),
    )
}

pub open spec fn luma_at(
    src: Seq<u8>,
    off: int,
    cn: YuvSourceChannels,
    x: int,
    k: YCgCoCoefficients,
) -> int {
    ycgco_luma(
        sample_at(src, off, cn, x, cn.spec_r()),
        sample_at(src, off, cn, x, 1),
        sample_at(src, off, cn, x, cn.spec_b()),
        k,
    )
}

pub open spec fn cg_at(
    src: Seq<u8>,
    off0: int,
    off1: int,
    cn: YuvSourceChannels,
    width: int,
    factor: int,
    cx: int,
    k: YCgCoCoefficients,
) -> int {
    ycgco_cg(
        chroma_sample(src, off0, off1, cn, width, factor, cx * factor, cn.spec_r()),
        chroma_sample(src, off0, off1, cn, width, factor, cx * factor, 1),
        chroma_sample(src, off0, off1, cn, width, factor, cx * factor, cn.spec_b()),
        k,
    )
}

pub open spec fn co_at(
    src: Seq<u8>,
    off0: int,
    off1: int,
    cn: YuvSourceChannels,
    width: int,
    factor: int,
    cx: int,
    k: YCgCoCoefficients,
) -> int {
    ycgco_co(
        chroma_sample(src, off0, off1, cn, width, factor, cx * factor, cn.spec_r()),
        chroma_sample(src, off0, off1, cn, width, factor, cx * factor, 1),
        chroma_sample(src, off0, off1, cn, width, factor, cx * factor, cn.spec_b()),
        k,
    )
}

/// Derives the YCgCo constants for 8-bit samples in the given range.
pub fn ycgco_coefficients(range: YuvRange) -> (k: YCgCoCoefficients)
    ensures
        k == spec_ycgco_coefficients(range),
        k.wf(),
{
    let r = get_yuv_range(8, range);
    proof {
        reveal_pow2_7();
        reveal_pow2_8();
        reveal_with_fuel(pow2, 2);
        assert(r.range_y <= 255 && r.range_uv <= 255 && r.bias_y <= 16 && r.bias_uv <= 128);
    }
    YCgCoCoefficients {
        scale_y: (r.range_y * 512 + 255) / 510,
        bias_y: r.bias_y * 256 + 128,
        scale_uv: (r.range_uv * 512 + 255) / 510,
        bias_uv: r.bias_uv * 256 + 128,
    }
}

proof fn lemma_scaled(v: int, s: int)
    requires
        0 <= v <= 255,
        0 <= s <= 512,
    ensures
        0 <= v * s <= 130560,
{
    assert(0 <= v * s <= 255 * 512) by (nonlinear_arith)
        requires
            0 <= v <= 255,
            0 <= s <= 512,
    ;
}

/// Luma of one pixel, saturated to `[0, 255]`.
pub fn ycgco_luma_exec(r: u8, g: u8, b: u8, k: &YCgCoCoefficients) -> (y: u8)
    requires
        k.wf(),
    ensures
        y == ycgco_luma(r as int, g as int, b as int, *k),
{
    proof {
        lemma_scaled(r as int, k.scale_y as int);
        lemma_scaled(g as int, k.scale_y as int);
        lemma_scaled(b as int, k.scale_y as int);
    }
    let s = k.scale_y as u64;
    let t: u64 = (g as u64 * s) / 2 + (r as u64 * s + b as u64 * s) / 4 + k.bias_y as u64;
    let v = t / 256;
    if v > 255 {
        255
    } else {
        v as u8
    }
}

/// Green-difference chroma of one pixel, saturated to `[0, 255]`.
pub fn ycgco_cg_exec(r: u8, g: u8, b: u8, k: &YCgCoCoefficients) -> (cg: u8)
    requires
        k.wf(),
    ensures
        cg == ycgco_cg(r as int, g as int, b as int, *k),
{
    proof {
        lemma_scaled(r as int, k.scale_uv as int);
        lemma_scaled(g as int, k.scale_uv as int);
        lemma_scaled(b as int, k.scale_uv as int);
    }
    let s = k.scale_uv as u64;
    let plus: u64 = (g as u64 * s) / 2 + k.bias_uv as u64;
    let minus: u64 = (r as u64 * s + b as u64 * s) / 4;
    if plus < minus {
        return 0;
    }
    let v = (plus - minus) / 256;
    if v > 255 {
        255
    } else {
        v as u8
    }
}

/// Orange-difference chroma of one pixel, saturated to `[0, 255]`.
pub fn ycgco_co_exec(r: u8, b: u8, k: &YCgCoCoefficients) -> (co: u8)
    requires
        k.wf(),
    ensures
        forall|g: int| co == ycgco_co(r as int, g, b as int, *k),
{
    proof {
        lemma_scaled(r as int, k.scale_uv as int);
        lemma_scaled(b as int, k.scale_uv as int);
    }
    let s = k.scale_uv as u64;
    // The offset keeps the halving of a negative difference a floor division.
    let t: u64 = (r as u64 * s + 131072 - b as u64 * s) / 2 + k.bias_uv as u64;
    if t < 65536 {
        return 0;
    }
    let v = (t - 65536) / 256;
    if v > 255 {
        255
    } else {
        v as u8
    }
}

pub fn avg2_exec(a: u8, b: u8) -> (r: u8)
    ensures
        r == avg2(a as int, b as int),
{
    ((a as u16 + b as u16 + 1) / 2) as u8
}

pub(crate) proof fn lemma_pixel_in_row(x: int, w: int, cn: int, c: int)
    requires
        0 <= x < w,
        0 <= c < cn,
    ensures
        0 <= x * cn + c < w * cn,
        x * cn + cn <= w * cn,
{
    assert(x * cn + cn <= w * cn) by (nonlinear_arith)
        requires
            x < w,
            cn >= 0,
    ;
    assert(x * cn >= 0) by (nonlinear_arith)
        requires
            x >= 0,
            cn >= 0,
    ;
}

/// One channel of the chroma input of the sample whose first pixel is `x0`.
fn chroma_channel(
    src: &[u8],
    off0: usize,
    off1: usize,
    cn: YuvSourceChannels,
    width: usize,
    factor: usize,
    x0: usize,
    c: usize,
) -> (r: u8)
    requires
        factor == 1 || factor == 2,
        c < cn.spec_channels(),
        x0 < width,
        off0 + width * cn.spec_channels() <= src@.len(),
        off1 + width * cn.spec_channels() <= src@.len(),
    ensures
        r == chroma_sample(src@, off0 as int, off1 as int, cn, width as int, factor as int,
            x0 as int, c as int),
{
    let chans = cn.get_channels_count();
    let _src_len = src.len();
    let x1 = if factor == 2 && x0 + 1 < width {
        x0 + 1
    } else if factor == 2 {
        width - 1
    } else {
        x0
    };
    proof {
        lemma_pixel_in_row(x0 as int, width as int, chans as int, c as int);
        lemma_pixel_in_row(x1 as int, width as int, chans as int, c as int);
        assert(off0 + x0 * chans + c < src@.len());
        assert(off0 + x1 * chans + c < src@.len());
        assert(off1 + x0 * chans + c < src@.len());
        assert(off1 + x1 * chans + c < src@.len());
    }
    let a = avg2_exec(src[off0 + x0 * chans + c], src[off0 + x1 * chans + c]);
    let b = avg2_exec(src[off1 + x0 * chans + c], src[off1 + x1 * chans + c]);
    avg2_exec(a, b)
}

pub(crate) proof fn lemma_cursor_inside(cx: int, ux: int, width: int, factor: int)
    requires
        cx == ux * factor,
        0 <= cx < width,
        factor == 1 || factor == 2,
    ensures
        0 <= ux < (width + factor - 1) / factor,
{
    assert(0 <= ux < (width + factor - 1) / factor) by (nonlinear_arith)
        requires
            cx == ux * factor,
            0 <= cx < width,
            factor == 1 || factor == 2,
    ;
}

pub(crate) proof fn lemma_cursor_end(cx: int, ux: int, width: int, factor: int)
    requires
        cx == ux * factor,
        width <= cx < width + factor,
        factor == 1 || factor == 2,
    ensures
        ux == (width + factor - 1) / factor,
{
    assert(ux == (width + factor - 1) / factor) by (nonlinear_arith)
        requires
            cx == ux * factor,
            width <= cx < width + factor,
            factor == 1 || factor == 2,
    ;
}

/// Writes the luma of pixels `from..to` of the row at `src_off` into the row at `y_off`.
fn write_luma(
    y_plane: &mut Vec<u8>,
    src: &[u8],
    y_off: usize,
    src_off: usize,
    width: usize,
    cn: YuvSourceChannels,
    from: usize,
    to: usize,
    k: &YCgCoCoefficients,
)
    requires
        k.wf(),
        from <= to <= width,
        y_off + width <= old(y_plane)@.len(),
        src_off + width * cn.spec_channels() <= src@.len(),
    ensures
        final(y_plane)@.len() == old(y_plane)@.len(),
        forall|i: int|
            0 <= i < old(y_plane)@.len() ==> final(y_plane)@[i] == if y_off + from <= i < y_off
                + to {
                luma_at(src@, src_off as int, cn, i - y_off, *k) as u8
            } else {
                old(y_plane)@[i]
            },
{
    let chans = cn.get_channels_count();
    let ro = cn.get_r_channel_offset();
    let bo = cn.get_b_channel_offset();
    let _src_len = src.len();
    let ghost y0 = y_plane@;
    let mut x = from;
    while x < to
        invariant
            k.wf(),
            from <= x <= to <= width,
            chans == cn.spec_channels(),
            ro == cn.spec_r(),
            bo == cn.spec_b(),
            _src_len == src@.len(),
            y_off + width <= y0.len(),
            src_off + width * chans <= src@.len(),
            y_plane@.len() == y0.len(),
            forall|i: int|
                0 <= i < y0.len() ==> y_plane@[i] == if y_off + from <= i < y_off + x {
                    luma_at(src@, src_off as int, cn, i - y_off, *k) as u8
                } else {
                    y0[i]
                },
        decreases to - x,
    {
        proof {
            lemma_pixel_in_row(x as int, width as int, chans as int, ro as int);
            lemma_pixel_in_row(x as int, width as int, chans as int, 1);
            lemma_pixel_in_row(x as int, width as int, chans as int, bo as int);
        }
        let base = src_off + x * chans;
        let luma = ycgco_luma_exec(src[base + ro], src[base + 1], src[base + bo], k);
        let _y_len = y_plane.len();
        y_plane[y_off + x] = luma;
        x = x + 1;
    }
}

/// Number of pixels that the lane kernel converts per call.
pub const LANES: usize = 16;

/// Luma of `LANES` consecutive pixels from `x0` of the row at `off`, computed lane-wise:
/// the pixels are split into red, green and blue lanes widened to 32 bits, the transform
/// is applied to every lane, and the saturated lanes are narrowed back to bytes. Every
/// lane equals the luma the scalar kernel gives for its pixel.
pub fn ycgco_luma_lanes(
    src: &[u8],
    off: usize,
    cn: YuvSourceChannels,
    x0: usize,
    width: usize,
    k: &YCgCoCoefficients,
) -> (lanes: [u8; 16])
    requires
        k.wf(),
        x0 + 16 <= width,
        off + width * cn.spec_channels() <= src@.len(),
    ensures
        forall|j: int| 0 <= j < 16 ==> lanes@[j] as int == luma_at(src@, off as int, cn, x0 + j, *k),
{
    let chans = cn.get_channels_count();
    let ro = cn.get_r_channel_offset();
    let bo = cn.get_b_channel_offset();
    let _src_len = src.len();
    let mut r = [0u32; 16];
    let mut g = [0u32; 16];
    let mut b = [0u32; 16];
    let mut j: usize = 0;
    while j < 16
        invariant
            j <= 16,
            x0 + 16 <= width,
            chans == cn.spec_channels(),
            ro == cn.spec_r(),
            bo == cn.spec_b(),
            _src_len == src@.len(),
            off + width * chans <= src@.len(),
            r@.len() == 16 && g@.len() == 16 && b@.len() == 16,
            forall|i: int|
                0 <= i < j ==> {
                    &&& r@[i] as int == sample_at(src@, off as int, cn, x0 + i, cn.spec_r())
                    &&& g@[i] as int == sample_at(src@, off as int, cn, x0 + i, 1)
                    &&& b@[i] as int == sample_at(src@, off as int, cn, x0 + i, cn.spec_b())
                },
        decreases 16 - j,
    {
        proof {
            lemma_pixel_in_row((x0 + j) as int, width as int, chans as int, ro as int);
            lemma_pixel_in_row((x0 + j) as int, width as int, chans as int, 1);
            lemma_pixel_in_row((x0 + j) as int, width as int, chans as int, bo as int);
        }
        let base = off + (x0 + j) * chans;
        r[j] = src[base + ro] as u32;
        g[j] = src[base + 1] as u32;
        b[j] = src[base + bo] as u32;
        j = j + 1;
    }
    let s = k.scale_y;
    let mut acc = [0u32; 16];
    let mut j: usize = 0;
    while j < 16
        invariant
            j <= 16,
            k.wf(),
            s == k.scale_y,
            r@.len() == 16 && g@.len() == 16 && b@.len() == 16 && acc@.len() == 16,
            forall|i: int| 0 <= i < 16 ==> r@[i] <= 255 && g@[i] <= 255 && b@[i] <= 255,
            forall|i: int|
                0 <= i < j ==> acc@[i] as int == (g@[i] * s) as int / 2 + (r@[i] * s + b@[i]
                    * s) as int / 4 + k.bias_y,
        decreases 16 - j,
    {
        proof {
            lemma_scaled(r@[j as int] as int, s as int);
            lemma_scaled(g@[j as int] as int, s as int);
            lemma_scaled(b@[j as int] as int, s as int);
        }
        acc[j] = (g[j] * s) / 2 + (r[j] * s + b[j] * s) / 4 + k.bias_y;
        j = j + 1;
    }
    let mut lanes = [0u8; 16];
    let mut j: usize = 0;
    while j < 16
        invariant
            j <= 16,
            acc@.len() == 16 && lanes@.len() == 16,
            forall|i: int| 0 <= i < j ==> lanes@[i] as int == clamp(acc@[i] as int / 256, 255),
        decreases 16 - j,
    {
        let v = acc[j] / 256;
        lanes[j] = if v > 255 {
            255
        } else {
            v as u8
        };
        j = j + 1;
    }
    proof {
        assert forall|j: int| 0 <= j < 16 implies lanes@[j] as int == luma_at(
            src@,
            off as int,
            cn,
            x0 + j,
            *k,
        ) by {
            lemma_scaled(r@[j] as int, s as int);
            lemma_scaled(g@[j] as int, s as int);
            lemma_scaled(b@[j] as int, s as int);
        }
    }
    lanes
}

/// Writes the luma of pixels `from..from + LANES` of the row at `src_off` with the lane
/// kernel.
fn write_luma_lanes(
    y_plane: &mut Vec<u8>,
    src: &[u8],
    y_off: usize,
    src_off: usize,
    width: usize,
    cn: YuvSourceChannels,
    from: usize,
    k: &YCgCoCoefficients,
)
    requires
        k.wf(),
        from + 16 <= width,
        y_off + width <= old(y_plane)@.len(),
        src_off + width * cn.spec_channels() <= src@.len(),
    ensures
        final(y_plane)@.len() == old(y_plane)@.len(),
        forall|i: int|
            0 <= i < old(y_plane)@.len() ==> final(y_plane)@[i] == if y_off + from <= i < y_off
                + from + 16 {
                luma_at(src@, src_off as int, cn, i - y_off, *k) as u8
            } else {
                old(y_plane)@[i]
            },
{
    let lanes = ycgco_luma_lanes(src, src_off, cn, from, width, k);
    let _y_len = y_plane.len();
    let ghost y0 = y_plane@;
    let mut j: usize = 0;
    while j < 16
        invariant
            j <= 16,
            from + 16 <= width,
            _y_len == y_plane@.len() == y0.len(),
            y_off + width <= y0.len(),
            lanes@.len() == 16,
            forall|jj: int|
                0 <= jj < 16 ==> lanes@[jj] as int == luma_at(src@, src_off as int, cn, from + jj, *k),
            forall|i: int|
                0 <= i < y0.len() ==> y_plane@[i] == if y_off + from <= i < y_off + from + j {
                    luma_at(src@, src_off as int, cn, i - y_off, *k) as u8
                } else {
                    y0[i]
                },
        decreases 16 - j,
    {
        y_plane[y_off + from + j] = lanes[j];
        j = j + 1;
    }
}

pub(crate) proof fn lemma_sample_inside(c: int, width: int, factor: int)
    requires
        0 <= c < (width + factor - 1) / factor,
        factor == 1 || factor == 2,
    ensures
        0 <= c * factor < width,
{
    assert(0 <= c * factor < width) by (nonlinear_arith)
        requires
            0 <= c < (width + factor - 1) / factor,
            factor == 1 || factor == 2,
    ;
}

/// Writes chroma samples `from..to` of the chroma rows at `u_off` and `v_off`, each from
/// the pixels it covers in the rows at `off0` and `off1`.
fn write_chroma(
    u_plane: &mut Vec<u8>,
    v_plane: &mut Vec<u8>,
    src: &[u8],
    u_off: usize,
    v_off: usize,
    off0: usize,
    off1: usize,
    width: usize,
    cn: YuvSourceChannels,
    factor: usize,
    from: usize,
    to: usize,
    k: &YCgCoCoefficients,
)
    requires
        k.wf(),
        factor == 1 || factor == 2,
        from <= to <= (width + factor - 1) / (factor as int),
        u_off + to <= old(u_plane)@.len(),
        v_off + to <= old(v_plane)@.len(),
        off0 + width * cn.spec_channels() <= src@.len(),
        off1 + width * cn.spec_channels() <= src@.len(),
    ensures
        final(u_plane)@.len() == old(u_plane)@.len(),
        final(v_plane)@.len() == old(v_plane)@.len(),
        forall|i: int|
            0 <= i < old(u_plane)@.len() ==> final(u_plane)@[i] == if u_off + from <= i < u_off
                + to {
                cg_at(src@, off0 as int, off1 as int, cn, width as int, factor as int, i - u_off, *k) as u8
            } else {
                old(u_plane)@[i]
            },
        forall|i: int|
            0 <= i < old(v_plane)@.len() ==> final(v_plane)@[i] == if v_off + from <= i < v_off
                + to {
                co_at(src@, off0 as int, off1 as int, cn, width as int, factor as int, i - v_off, *k) as u8
            } else {
                old(v_plane)@[i]
            },
{
    let ro = cn.get_r_channel_offset();
    let bo = cn.get_b_channel_offset();
    let _u_len = u_plane.len();
    let _v_len = v_plane.len();
    let ghost u0 = u_plane@;
    let ghost v0 = v_plane@;
    let mut c = from;
    while c < to
        invariant
            k.wf(),
            factor == 1 || factor == 2,
            ro == cn.spec_r(),
            bo == cn.spec_b(),
            from <= c <= to <= (width + factor - 1) / (factor as int),
            _u_len == u_plane@.len() == u0.len(),
            _v_len == v_plane@.len() == v0.len(),
            u_off + to <= u0.len(),
            v_off + to <= v0.len(),
            off0 + width * cn.spec_channels() <= src@.len(),
            off1 + width * cn.spec_channels() <= src@.len(),
            forall|i: int|
                0 <= i < u0.len() ==> u_plane@[i] == if u_off + from <= i < u_off + c {
                    cg_at(src@, off0 as int, off1 as int, cn, width as int, factor as int, i - u_off, *k) as u8
                } else {
                    u0[i]
                },
            forall|i: int|
                0 <= i < v0.len() ==> v_plane@[i] == if v_off + from <= i < v_off + c {
                    co_at(src@, off0 as int, off1 as int, cn, width as int, factor as int, i - v_off, *k) as u8
                } else {
                    v0[i]
                },
        decreases to - c,
    {
        proof {
            lemma_sample_inside(c as int, width as int, factor as int);
        }
        let x0 = c * factor;
        let r = chroma_channel(src, off0, off1, cn, width, factor, x0, ro);
        let g = chroma_channel(src, off0, off1, cn, width, factor, x0, 1);
        let b = chroma_channel(src, off0, off1, cn, width, factor, x0, bo);
        u_plane[u_off + c] = ycgco_cg_exec(r, g, b, k);
        v_plane[v_off + c] = ycgco_co_exec(r, b, k);
        c = c + 1;
    }
}

/// Converts one row: luma for every pixel, and, where `compute_uv` holds, one chroma
/// sample for every `factor` pixels, from the rows at `src_off0` and `src_off1`.
/// The luma cursor `cx` and the chroma cursor `ux` advance together: `LANES` pixels and
/// `LANES / factor` samples per step of the lane kernel while `cx + LANES < width`, then
/// `factor` pixels and one sample per scalar step. At the end the chroma cursor is the
/// luma cursor divided by `factor`, rounded up.
#[verifier::rlimit(60)]
pub fn ycgco_row(
    y_plane: &mut Vec<u8>,
    u_plane: &mut Vec<u8>,
    v_plane: &mut Vec<u8>,
    src: &[u8],
    y_off: usize,
    u_off: usize,
    v_off: usize,
    src_off0: usize,
    src_off1: usize,
    width: usize,
    cn: YuvSourceChannels,
    factor: usize,
    compute_uv: bool,
    k: &YCgCoCoefficients,
) -> (p: ProcessedOffset)
    requires
        k.wf(),
        factor == 1 || factor == 2,
        1 <= width <= 0xffff_ffff,
        y_off + width <= old(y_plane)@.len(),
        compute_uv ==> u_off + (width + factor - 1) / (factor as int) <= old(u_plane)@.len(),
        compute_uv ==> v_off + (width + factor - 1) / (factor as int) <= old(v_plane)@.len(),
        src_off0 + width * cn.spec_channels() <= src@.len(),
        src_off1 + width * cn.spec_channels() <= src@.len(),
    ensures
        p.cx == width,
        p.ux == (width + factor - 1) / (factor as int),
        final(y_plane)@.len() == old(y_plane)@.len(),
        final(u_plane)@.len() == old(u_plane)@.len(),
        final(v_plane)@.len() == old(v_plane)@.len(),
        forall|x: int|
            0 <= x < width ==> final(y_plane)@[y_off + x] == luma_at(
                src@,
                src_off0 as int,
                cn,
                x,
                *k,
            ),
        forall|i: int|
            0 <= i < old(y_plane)@.len() && !(y_off <= i < y_off + width) ==> final(y_plane)@[i]
                == old(y_plane)@[i],
        compute_uv ==> forall|c: int|
            0 <= c < p.ux ==> final(u_plane)@[u_off + c] == cg_at(
                src@,
                src_off0 as int,
                src_off1 as int,
                cn,
                width as int,
                factor as int,
                c,
                *k,
            ),
        compute_uv ==> forall|c: int|
            0 <= c < p.ux ==> final(v_plane)@[v_off + c] == co_at(
                src@,
                src_off0 as int,
                src_off1 as int,
                cn,
                width as int,
                factor as int,
                c,
                *k,
            ),
        forall|i: int|
            0 <= i < old(u_plane)@.len() && !(compute_uv && u_off <= i < u_off + p.ux) ==> final(u_plane)@[i] == old(u_plane)@[i],
        forall|i: int|
            0 <= i < old(v_plane)@.len() && !(compute_uv && v_off <= i < v_off + p.ux) ==> final(v_plane)@[i] == old(v_plane)@[i],
{
    let ghost y0 = y_plane@;
    let ghost u0 = u_plane@;
    let ghost v0 = v_plane@;
    let ghost cw = (width + factor - 1) / (factor as int);
    let mut cx: usize = 0;
    let mut ux: usize = 0;
    while cx < width && width - cx > LANES
        invariant
            k.wf(),
            factor == 1 || factor == 2,
            1 <= width <= 0xffff_ffff,
            cw == (width + factor - 1) / (factor as int),
            cx == ux * factor,
            cx < width,
            y_off + width <= y0.len(),
            compute_uv ==> u_off + cw <= u0.len(),
            compute_uv ==> v_off + cw <= v0.len(),
            src_off0 + width * cn.spec_channels() <= src@.len(),
            src_off1 + width * cn.spec_channels() <= src@.len(),
            y_plane@.len() == y0.len(),
            u_plane@.len() == u0.len(),
            v_plane@.len() == v0.len(),
            forall|i: int|
                0 <= i < y0.len() ==> y_plane@[i] == if y_off <= i < y_off + cx {
                    luma_at(src@, src_off0 as int, cn, i - y_off, *k) as u8
                } else {
                    y0[i]
                },
            forall|i: int|
                0 <= i < u0.len() ==> u_plane@[i] == if compute_uv && u_off <= i < u_off + ux {
                    cg_at(src@, src_off0 as int, src_off1 as int, cn, width as int, factor as int, i - u_off, *k) as u8
                } else {
                    u0[i]
                },
            forall|i: int|
                0 <= i < v0.len() ==> v_plane@[i] == if compute_uv && v_off <= i < v_off + ux {
                    co_at(src@, src_off0 as int, src_off1 as int, cn, width as int, factor as int, i - v_off, *k) as u8
                } else {
                    v0[i]
                },
        decreases width - cx,
    {
        write_luma_lanes(y_plane, src, y_off, src_off0, width, cn, cx, k);
        let step = LANES / factor;
        proof {
            assert((ux + step) * factor == cx + LANES) by (nonlinear_arith)
                requires
                    cx == ux * factor,
                    step * factor == 16,
            ;
            lemma_cursor_inside((cx + LANES - factor) as int, (ux + step - 1) as int, width as int, factor as int);
        }
        if compute_uv {
            write_chroma(
                u_plane,
                v_plane,
                src,
                u_off,
                v_off,
                src_off0,
                src_off1,
                width,
                cn,
                factor,
                ux,
                ux + step,
                k,
            );
        }
        cx = cx + LANES;
        ux = ux + step;
    }
    while cx < width
        invariant
            k.wf(),
            factor == 1 || factor == 2,
            1 <= width <= 0xffff_ffff,
            cw == (width + factor - 1) / (factor as int),
            cx <= width,
            cx == ux * factor || (factor == 2 && cx == width && ux * factor == width + 1),
            y_off + width <= y0.len(),
            compute_uv ==> u_off + cw <= u0.len(),
            compute_uv ==> v_off + cw <= v0.len(),
            src_off0 + width * cn.spec_channels() <= src@.len(),
            src_off1 + width * cn.spec_channels() <= src@.len(),
            y_plane@.len() == y0.len(),
            u_plane@.len() == u0.len(),
            v_plane@.len() == v0.len(),
            forall|i: int|
                0 <= i < y0.len() ==> y_plane@[i] == if y_off <= i < y_off + cx && i < y_off
                    + width {
                    luma_at(src@, src_off0 as int, cn, i - y_off, *k) as u8
                } else {
                    y0[i]
                },
            forall|i: int|
                0 <= i < u0.len() ==> u_plane@[i] == if compute_uv && u_off <= i < u_off + ux {
                    cg_at(src@, src_off0 as int, src_off1 as int, cn, width as int, factor as int, i - u_off, *k) as u8
                } else {
                    u0[i]
                },
            forall|i: int|
                0 <= i < v0.len() ==> v_plane@[i] == if compute_uv && v_off <= i < v_off + ux {
                    co_at(src@, src_off0 as int, src_off1 as int, cn, width as int, factor as int, i - v_off, *k) as u8
                } else {
                    v0[i]
                },
        decreases width - cx,
    {
        let end = if width - cx > factor {
            cx + factor
        } else {
            width
        };
        write_luma(y_plane, src, y_off, src_off0, width, cn, cx, end, k);
        proof {
            lemma_cursor_inside(cx as int, ux as int, width as int, factor as int);
        }
        if compute_uv {
            write_chroma(
                u_plane,
                v_plane,
                src,
                u_off,
                v_off,
                src_off0,
                src_off1,
                width,
                cn,
                factor,
                ux,
                ux + 1,
                k,
            );
        }
        proof {
            if factor == 2 && end == width && width - cx == 1 {
                assert((ux + 1) * factor == width + 1);
            } else {
                assert((ux + 1) * factor == end) by (nonlinear_arith)
                    requires
                        cx == ux * factor,
                        end == cx + factor || (factor == 1 && end == width && width == cx + 1)
                            || (factor == 2 && end == width && width - cx == 2),
                ;
            }
        }
        cx = end;
        ux = ux + 1;
    }
    proof {
        if cx != ux * factor {
            assert(ux == (width + factor - 1) / (factor as int)) by (nonlinear_arith)
                requires
                    ux * factor == width + 1,
                    factor == 2,
                    width >= 1,
            ;
        } else {
            lemma_cursor_end(cx as int, ux as int, width as int, factor as int);
        }
        assert forall|x: int| 0 <= x < width implies y_plane@[y_off + x] == luma_at(
            src@,
            src_off0 as int,
            cn,
            x,
            *k,
        ) by {
            assert(y_plane@[y_off + x] == luma_at(src@, src_off0 as int, cn, x, *k) as u8);
        }
    }
    ProcessedOffset { cx: width, ux }
}

/// The planes of `image` hold the YCgCo form of `src`: the luma of every pixel, and the
/// chroma of every chroma sample computed from the RGB average of the pixels it covers.
pub open spec fn ycgco_written(
    image: &YuvPlanarImageMut<u8>,
    src: Seq<u8>,
    src_stride: int,
    cn: YuvSourceChannels,
    sampling: YuvChromaSubsampling,
    k: YCgCoCoefficients,
) -> bool {
    let w = image.width as int;
    let h = image.height as int;
    let f = chroma_factor(sampling);
    let vf = row_factor(sampling);
    &&& forall|y: int, x: int|
        0 <= y < h && 0 <= x < w ==> #[trigger] plane_at(image.y_plane@, image.y_stride as int, y, x)
            == luma_at(src, y * src_stride, cn, x, k)
    &&& forall|cy: int, c: int|
        0 <= cy < chroma_height(h, sampling) && 0 <= c < chroma_width(w, sampling)
            ==> #[trigger] plane_at(image.u_plane@, image.u_stride as int, cy, c) == cg_at(
            src,
            cy * vf * src_stride,
            pair_row(cy * vf, h, sampling) * src_stride,
            cn,
            w,
            f,
            c,
            k,
        )
    &&& forall|cy: int, c: int|
        0 <= cy < chroma_height(h, sampling) && 0 <= c < chroma_width(w, sampling)
            ==> #[trigger] plane_at(image.v_plane@, image.v_stride as int, cy, c) == co_at(
            src,
            cy * vf * src_stride,
            pair_row(cy * vf, h, sampling) * src_stride,
            cn,
            w,
            f,
            c,
            k,
        )
}

/// What a YCgCo conversion call promises: the validation outcome, an unchanged image
/// on failure, and the converted planes on success.
pub open spec fn ycgco_outcome(
    before: &YuvPlanarImageMut<u8>,
    after: &YuvPlanarImageMut<u8>,
    src: Seq<u8>,
    src_stride: int,
    range: YuvRange,
    cn: YuvSourceChannels,
    sampling: YuvChromaSubsampling,
    r: Result<(), YuvError>,
) -> bool {
    &&& r == as_result(rgb_source_error(before, src.len() as int, src_stride, cn, sampling))
    &&& after.same_shape(before)
    &&& r is Err ==> after.same_planes(before)
    &&& r is Ok ==> ycgco_written(
        after,
        src,
        src_stride,
        cn,
        sampling,
        spec_ycgco_coefficients(range),
    )
}

/// Converts interleaved 8-bit RGB in the layout `cn` to YCgCo planes in the layout
/// `sampling`. Validation happens before anything is written.
pub fn rgbx_to_ycgco(
    image: &mut YuvPlanarImageMut<u8>,
    rgba: &[u8],
    rgba_stride: u32,
    range: YuvRange,
    cn: YuvSourceChannels,
    sampling: YuvChromaSubsampling,
) -> (r: Result<(), YuvError>)
    ensures
        ycgco_outcome(old(image), final(image), rgba@, rgba_stride as int, range, cn, sampling, r),
{
    image.check_constraints(sampling)?;
    let chans = cn.get_channels_count();
    check_plane(mul_wide(image.width, chans as u32), image.height, rgba_stride, rgba.len())?;
    let k = ycgco_coefficients(range);
    let width = image.width as usize;
    let height = image.height as usize;
    let ys = image.y_stride as usize;
    let us = image.u_stride as usize;
    let vs = image.v_stride as usize;
    let ss = rgba_stride as usize;
    let f: usize = match sampling {
        YuvChromaSubsampling::Yuv444 => 1,
        _ => 2,
    };
    let is420 = match sampling {
        YuvChromaSubsampling::Yuv420 => true,
        _ => false,
    };
    let ghost cw = chroma_width(width as int, sampling);
    let ghost ch = chroma_height(height as int, sampling);
    let ghost vf = row_factor(sampling);
    let ghost src = rgba@;
    let _src_len = rgba.len();
    let _y_len = image.y_plane.len();
    let _u_len = image.u_plane.len();
    let _v_len = image.v_plane.len();
    proof {
        if f == 1 {
            assert(cw == (width + f - 1) / (f as int));
        } else {
            assert(cw == (width + f - 1) / (f as int));
        }
    }
    let mut y: usize = 0;
    while y < height
        invariant
            _y_len == image.y_plane@.len(),
            _u_len == image.u_plane@.len(),
            _v_len == image.v_plane@.len(),
            cw == (width + f - 1) / (f as int),
            k == spec_ycgco_coefficients(range),
            k.wf(),
            src == rgba@,
            _src_len == rgba@.len(),
            width == image.width,
            height == image.height,
            ys == image.y_stride,
            us == image.u_stride,
            vs == image.v_stride,
            ss == rgba_stride,
            chans == cn.spec_channels(),
            f == chroma_factor(sampling),
            vf == row_factor(sampling),
            is420 == (sampling == YuvChromaSubsampling::Yuv420),
            cw == chroma_width(width as int, sampling),
            ch == chroma_height(height as int, sampling),
            y <= height,
            image.spec_error(sampling) is None,
            plane_error(width * chans, height as int, ss as int, rgba@.len() as int) is None,
            image.y_plane@.len() == old(image).y_plane@.len(),
            image.u_plane@.len() == old(image).u_plane@.len(),
            image.v_plane@.len() == old(image).v_plane@.len(),
            forall|yy: int, x: int|
                0 <= yy < y && 0 <= x < width ==> #[trigger] plane_at(
                    image.y_plane@,
                    ys as int,
                    yy,
                    x,
                ) == luma_at(src, yy * ss, cn, x, k),
            forall|cy: int, c: int|
                0 <= cy < (y + vf - 1) / vf && 0 <= c < cw ==> #[trigger] plane_at(
                    image.u_plane@,
                    us as int,
                    cy,
                    c,
                ) == cg_at(
                    src,
                    cy * vf * ss,
                    pair_row(cy * vf, height as int, sampling) * ss,
                    cn,
                    width as int,
                    f as int,
                    c,
                    k,
                ),
            forall|cy: int, c: int|
                0 <= cy < (y + vf - 1) / vf && 0 <= c < cw ==> #[trigger] plane_at(
                    image.v_plane@,
                    vs as int,
                    cy,
                    c,
                ) == co_at(
                    src,
                    cy * vf * ss,
                    pair_row(cy * vf, height as int, sampling) * ss,
                    cn,
                    width as int,
                    f as int,
                    c,
                    k,
                ),
        decreases height - y,
    {
        let compute_uv = !is420 || y % 2 == 0;
        let cy = if is420 {
            y / 2
        } else {
            y
        };
        let y1 = if is420 && y + 1 < height {
            y + 1
        } else {
            y
        };
        proof {
            lemma_row_fits(y as int, height as int, ys as int, width as int);
            lemma_row_fits(y as int, height as int, ss as int, width * chans);
            lemma_row_fits(y1 as int, height as int, ss as int, width * chans);
            if compute_uv {
                lemma_row_fits(cy as int, ch, us as int, cw);
                lemma_row_fits(cy as int, ch, vs as int, cw);
            }
        }
        let y_off = y * ys;
        let src_off0 = y * ss;
        let src_off1 = y1 * ss;
        let u_off = if compute_uv {
            cy * us
        } else {
            0
        };
        let v_off = if compute_uv {
            cy * vs
        } else {
            0
        };
        let ghost yp = image.y_plane@;
        let ghost up = image.u_plane@;
        let ghost vp = image.v_plane@;
        let p = ycgco_row(
            &mut image.y_plane,
            &mut image.u_plane,
            &mut image.v_plane,
            rgba,
            y_off,
            u_off,
            v_off,
            src_off0,
            src_off1,
            width,
            cn,
            f,
            compute_uv,
            &k,
        );
        proof {
            assert forall|yy: int, x: int|
                0 <= yy < y + 1 && 0 <= x < width implies #[trigger] plane_at(
                image.y_plane@,
                ys as int,
                yy,
                x,
            ) == luma_at(src, yy * ss, cn, x, k) by {
                if yy < y {
                    lemma_rows_disjoint(yy, y as int, ys as int, x, width as int);
                    assert(plane_at(yp, ys as int, yy, x) == luma_at(src, yy * ss, cn, x, k));
                }
            }
            assert forall|cy2: int, c: int|
                #![trigger plane_at(image.u_plane@, us as int, cy2, c)]
                #![trigger plane_at(image.v_plane@, vs as int, cy2, c)]
                0 <= cy2 < (y + 1 + vf - 1) / vf && 0 <= c < cw implies plane_at(
                image.u_plane@,
                us as int,
                cy2,
                c,
            ) == cg_at(
                src,
                cy2 * vf * ss,
                pair_row(cy2 * vf, height as int, sampling) * ss,
                cn,
                width as int,
                f as int,
                c,
                k,
            ) && plane_at(image.v_plane@, vs as int, cy2, c) == co_at(
                src,
                cy2 * vf * ss,
                pair_row(cy2 * vf, height as int, sampling) * ss,
                cn,
                width as int,
                f as int,
                c,
                k,
            ) by {
                lemma_row_fits(cy2, ch, us as int, cw);
                lemma_row_fits(cy2, ch, vs as int, cw);
                if vf == 2 {
                    if y % 2 == 0 {
                        assert((y + 1 + vf - 1) / vf == y / 2 + 1);
                        assert((y + vf - 1) / vf == y / 2);
                    } else {
                        assert((y + 1 + vf - 1) / vf == (y + vf - 1) / vf);
                    }
                }
                if cy2 < (y + vf - 1) / vf {
                    if compute_uv {
                        lemma_rows_disjoint(cy2, cy as int, us as int, c, cw);
                        lemma_rows_disjoint(cy2, cy as int, vs as int, c, cw);
                    }
                    assert(image.u_plane@[cy2 * us + c] == up[cy2 * us + c]);
                    assert(image.v_plane@[cy2 * vs + c] == vp[cy2 * vs + c]);
                    assert(plane_at(up, us as int, cy2, c) == cg_at(
                        src,
                        cy2 * vf * ss,
                        pair_row(cy2 * vf, height as int, sampling) * ss,
                        cn,
                        width as int,
                        f as int,
                        c,
                        k,
                    ));
                    assert(plane_at(vp, vs as int, cy2, c) == co_at(
                        src,
                        cy2 * vf * ss,
                        pair_row(cy2 * vf, height as int, sampling) * ss,
                        cn,
                        width as int,
                        f as int,
                        c,
                        k,
                    ));
                } else {
                    assert(compute_uv && cy2 == cy);
                    assert(cy2 * vf == y);
                    assert(pair_row(cy2 * vf, height as int, sampling) == y1);
                    assert(image.u_plane@[u_off + c] == cg_at(
                        src,
                        src_off0 as int,
                        src_off1 as int,
                        cn,
                        width as int,
                        f as int,
                        c,
                        k,
                    ));
                }
            }
        }
        y = y + 1;
    }
    Ok(())
}

/// Converts RGB to YCgCo 422 planar: luma and the two chroma planes `Cg` and `Co`.
pub fn rgb_to_ycgco422(
    image: &mut YuvPlanarImageMut<u8>,
    rgb: &[u8],
    rgb_stride: u32,
    range: YuvRange,
) -> (r: Result<(), YuvError>)
    ensures
        ycgco_outcome(
            old(image),
            final(image),
            rgb@,
            rgb_stride as int,
            range,
            YuvSourceChannels::Rgb,
            YuvChromaSubsampling::Yuv422,
            r,
        ),
{
    rgbx_to_ycgco(image, rgb, rgb_stride, range, YuvSourceChannels::Rgb, YuvChromaSubsampling::Yuv422)
}

/// Converts BGR to YCgCo 422 planar: luma and the two chroma planes `Cg` and `Co`.
pub fn bgr_to_ycgco422(
    image: &mut YuvPlanarImageMut<u8>,
    bgr: &[u8],
    bgr_stride: u32,
    range: YuvRange,
) -> (r: Result<(), YuvError>)
    ensures
        ycgco_outcome(
            old(image),
            final(image),
            bgr@,
            bgr_stride as int,
            range,
            YuvSourceChannels::Bgr,
            YuvChromaSubsampling::Yuv422,
            r,
        ),
{
    rgbx_to_ycgco(image, bgr, bgr_stride, range, YuvSourceChannels::Bgr, YuvChromaSubsampling::Yuv422)
}

/// Converts RGBA to YCgCo 422 planar: luma and the two chroma planes `Cg` and `Co`.
pub fn rgba_to_ycgco422(
    image: &mut YuvPlanarImageMut<u8>,
    rgba: &[u8],
    rgba_stride: u32,
    range: YuvRange,
) -> (r: Result<(), YuvError>)
    ensures
        ycgco_outcome(
            old(image),
            final(image),
            rgba@,
            rgba_stride as int,
            range,
            YuvSourceChannels::Rgba,
            YuvChromaSubsampling::Yuv422,
            r,
        ),
{
    rgbx_to_ycgco(image, rgba, rgba_stride, range, YuvSourceChannels::Rgba, YuvChromaSubsampling::Yuv422)
}

/// Converts BGRA to YCgCo 422 planar: luma and the two chroma planes `Cg` and `Co`.
pub fn bgra_to_ycgco422(
    image: &mut YuvPlanarImageMut<u8>,
    bgra: &[u8],
    bgra_stride: u32,
    range: YuvRange,
) -> (r: Result<(), YuvError>)
    ensures
        ycgco_outcome(
            old(image),
            final(image),
            bgra@,
            bgra_stride as int,
            range,
            YuvSourceChannels::Bgra,
            YuvChromaSubsampling::Yuv422,
            r,
        ),
{
    rgbx_to_ycgco(image, bgra, bgra_stride, range, YuvSourceChannels::Bgra, YuvChromaSubsampling::Yuv422)
}

/// Converts RGB to YCgCo 420 planar: luma and the two chroma planes `Cg` and `Co`.
pub fn rgb_to_ycgco420(
    image: &mut YuvPlanarImageMut<u8>,
    rgb: &[u8],
    rgb_stride: u32,
    range: YuvRange,
) -> (r: Result<(), YuvError>)
    ensures
        ycgco_outcome(
            old(image),
            final(image),
            rgb@,
            rgb_stride as int,
            range,
            YuvSourceChannels::Rgb,
            YuvChromaSubsampling::Yuv420,
            r,
        ),
{
    rgbx_to_ycgco(image, rgb, rgb_stride, range, YuvSourceChannels::Rgb, YuvChromaSubsampling::Yuv420)
}

/// Converts BGR to YCgCo 420 planar: luma and the two chroma planes `Cg` and `Co`.
pub fn bgr_to_ycgco420(
    image: &mut YuvPlanarImageMut<u8>,
    bgr: &[u8],
    bgr_stride: u32,
    range: YuvRange,
) -> (r: Result<(), YuvError>)
    ensures
        ycgco_outcome(
            old(image),
            final(image),
            bgr@,
            bgr_stride as int,
            range,
            YuvSourceChannels::Bgr,
            YuvChromaSubsampling::Yuv420,
            r,
        ),
{
    rgbx_to_ycgco(image, bgr, bgr_stride, range, YuvSourceChannels::Bgr, YuvChromaSubsampling::Yuv420)
}

/// Converts RGBA to YCgCo 420 planar: luma and the two chroma planes `Cg` and `Co`.
pub fn rgba_to_ycgco420(
    image: &mut YuvPlanarImageMut<u8>,
    rgba: &[u8],
    rgba_stride: u32,
    range: YuvRange,
) -> (r: Result<(), YuvError>)
    ensures
        ycgco_outcome(
            old(image),
            final(image),
            rgba@,
            rgba_stride as int,
            range,
            YuvSourceChannels::Rgba,
            YuvChromaSubsampling::Yuv420,
            r,
        ),
{
    rgbx_to_ycgco(image, rgba, rgba_stride, range, YuvSourceChannels::Rgba, YuvChromaSubsampling::Yuv420)
}

/// Converts BGRA to YCgCo 420 planar: luma and the two chroma planes `Cg` and `Co`.
pub fn bgra_to_ycgco420(
    image: &mut YuvPlanarImageMut<u8>,
    bgra: &[u8],
    bgra_stride: u32,
    range: YuvRange,
) -> (r: Result<(), YuvError>)
    ensures
        ycgco_outcome(
            old(image),
            final(image),
            bgra@,
            bgra_stride as int,
            range,
            YuvSourceChannels::Bgra,
            YuvChromaSubsampling::Yuv420,
            r,
        ),
{
    rgbx_to_ycgco(image, bgra, bgra_stride, range, YuvSourceChannels::Bgra, YuvChromaSubsampling::Yuv420)
}

/// Converts RGB to YCgCo 444 planar: luma and the two chroma planes `Cg` and `Co`.
pub fn rgb_to_ycgco444(
    image: &mut YuvPlanarImageMut<u8>,
    rgb: &[u8],
    rgb_stride: u32,
    range: YuvRange,
) -> (r: Result<(), YuvError>)
    ensures
        ycgco_outcome(
            old(image),
            final(image),
            rgb@,
            rgb_stride as int,
            range,
            YuvSourceChannels::Rgb,
            YuvChromaSubsampling::Yuv444,
            r,
        ),
{
    rgbx_to_ycgco(image, rgb, rgb_stride, range, YuvSourceChannels::Rgb, YuvChromaSubsampling::Yuv444)
}

/// Converts BGR to YCgCo 444 planar: luma and the two chroma planes `Cg` and `Co`.
pub fn bgr_to_ycgco444(
    image: &mut YuvPlanarImageMut<u8>,
    bgr: &[u8],
    bgr_stride: u32,
    range: YuvRange,
) -> (r: Result<(), YuvError>)
    ensures
        ycgco_outcome(
            old(image),
            final(image),
            bgr@,
            bgr_stride as int,
            range,
            YuvSourceChannels::Bgr,
            YuvChromaSubsampling::Yuv444,
            r,
        ),
{
    rgbx_to_ycgco(image, bgr, bgr_stride, range, YuvSourceChannels::Bgr, YuvChromaSubsampling::Yuv444)
}

/// Converts RGBA to YCgCo 444 planar: luma and the two chroma planes `Cg` and `Co`.
pub fn rgba_to_ycgco444(
    image: &mut YuvPlanarImageMut<u8>,
    rgba: &[u8],
    rgba_stride: u32,
    range: YuvRange,
) -> (r: Result<(), YuvError>)
    ensures
        ycgco_outcome(
            old(image),
            final(image),
            rgba@,
            rgba_stride as int,
            range,
            YuvSourceChannels::Rgba,
            YuvChromaSubsampling::Yuv444,
            r,
        ),
{
    rgbx_to_ycgco(image, rgba, rgba_stride, range, YuvSourceChannels::Rgba, YuvChromaSubsampling::Yuv444)
}

/// Converts BGRA to YCgCo 444 planar: luma and the two chroma planes `Cg` and `Co`.
pub fn bgra_to_ycgco444(
    image: &mut YuvPlanarImageMut<u8>,
    bgra: &[u8],
    bgra_stride: u32,
    range: YuvRange,
) -> (r: Result<(), YuvError>)
    ensures
        ycgco_outcome(
            old(image),
            final(image),
            bgra@,
            bgra_stride as int,
            range,
            YuvSourceChannels::Bgra,
            YuvChromaSubsampling::Yuv444,
            r,
        ),
{
    rgbx_to_ycgco(image, bgra, bgra_stride, range, YuvSourceChannels::Bgra, YuvChromaSubsampling::Yuv444)
}

/// At an odd width, the last chroma sample of a 4:2:2 row is computed from the last
/// pixel's own colour: the column past the edge repeats it, nothing outside the row is
/// read.
pub proof fn lemma_edge_replication(
    src: Seq<u8>,
    off: int,
    cn: YuvSourceChannels,
    width: int,
    k: YCgCoCoefficients,
)
    requires
        width >= 1,
        width % 2 == 1,
    ensures
        cg_at(src, off, off, cn, width, 2, (width - 1) / 2, k) == ycgco_cg(
            sample_at(src, off, cn, width - 1, cn.spec_r()),
            sample_at(src, off, cn, width - 1, 1),
            sample_at(src, off, cn, width - 1, cn.spec_b()),
            k,
        ),
        co_at(src, off, off, cn, width, 2, (width - 1) / 2, k) == ycgco_co(
            sample_at(src, off, cn, width - 1, cn.spec_r()),
            sample_at(src, off, cn, width - 1, 1),
            sample_at(src, off, cn, width - 1, cn.spec_b()),
            k,
        ),
{
    assert((width - 1) / 2 * 2 == width - 1);
}

/// A 4:4:4 chroma sample is computed from its own pixel alone.
pub proof fn lemma_full_chroma_own_pixel(
    src: Seq<u8>,
    off: int,
    cn: YuvSourceChannels,
    width: int,
    x: int,
    c: int,
)
    requires
        0 <= x < width,
    ensures
        chroma_sample(src, off, off, cn, width, 1, x, c) == sample_at(src, off, cn, x, c),
{
}

} // verus!
