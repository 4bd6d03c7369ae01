//! 16-bit RGB to planar YCbCr: forward coefficients, kernels with pre-transform
//! chroma averaging, and storage in the requested justification and byte order.

use vstd::prelude::*;

use crate::layout::{chroma_factor, lemma_row_fits, lemma_rows_disjoint, pair_row, plane_at, row_factor};
use crate::support::{
    as_result, avg2, check_plane, chroma_height, chroma_width, get_yuv_range, lemma_pow2_bounds,
    lemma_pow2_shift8, max_value, mul_wide, plane_error, pow2, pow2_exec,
    rgb_source_error, round_div, spec_yuv_range, ProcessedOffset, YuvBytesPacking,
    YuvChromaSubsampling, YuvEndianness, YuvError, YuvPlanarImageMut, YuvRange, YuvSourceChannels,
    YuvStandardMatrix,
};
use crate::transform::{shift_clamp, shift_clamp_exec, swap_bytes};
use crate::ycgco::{lemma_cursor_end, lemma_cursor_inside, lemma_pixel_in_row};

verus! {

/// Integer coefficients of the RGB to YCbCr transform with 13 fractional bits. The
/// blue-difference row is `cb_b * B - cb_r * R - cb_g * G`, the red-difference row
/// `cr_r * R - cr_g * G - cr_b * B`.
#[derive(Clone, Copy, Debug, PartialEq, Eq, Structural)]
pub struct ForwardTransform {
    pub yr: i64,
    pub yg: i64,
    pub yb: i64,
    pub cb_r: i64,
    pub cb_g: i64,
    pub cb_b: i64,
    pub cr_r: i64,
    pub cr_g: i64,
    pub cr_b: i64,
}

/// The forward coefficients of `matrix` for samples of `depth` bits in `range`, scaled by
/// `2^precision` and rounded: `Y = Kr R + Kg G + Kb B`, `Cb = (B - Y) / (2 (1 - Kb))`,
/// `Cr = (R - Y) / (2 (1 - Kr))`, each scaled from the full sample range to its own range.
pub open spec fn spec_forward_transform(
    precision: nat,
    depth: nat,
    range: YuvRange,
    matrix: YuvStandardMatrix,
) -> ForwardTransform {
    let r = spec_yuv_range(depth, range);
    let m = max_value(depth);
    let s = pow2(precision);
    let kr = matrix.spec_kr();
    let kb = matrix.spec_kb();
    let kg = 10000 - kr - kb;
    let ry = r.range_y as int;
    let ruv = r.range_uv as int;
    ForwardTransform {
        yr: round_div(s * kr * ry, 10000 * m) as i64,
        yg: round_div(s * kg * ry, 10000 * m) as i64,
        yb: round_div(s * kb * ry, 10000 * m) as i64,
        cb_r: round_div(s * kr * ruv, 2 * (10000 - kb) * m) as i64,
        cb_g: round_div(s * kg * ruv, 2 * (10000 - kb) * m) as i64,
        cb_b: round_div(s * ruv, 2 * m) as i64,
        cr_r: round_div(s * ruv, 2 * m) as i64,
        cr_g: round_div(s * kg * ruv, 2 * (10000 - kr) * m) as i64,
        cr_b: round_div(s * kb * ruv, 2 * (10000 - kr) * m) as i64,
    }
}

/// Constants of the 16-bit planar encoder.
#[derive(Clone, Copy, Debug, PartialEq, Eq, Structural)]
pub struct EncodeParams {
    pub f: ForwardTransform,
    pub bias_y: u32,
    pub bias_uv: u32,
    pub max: u32,
    pub endianness: YuvEndianness,
    pub packing: YuvBytesPacking,
    pub depth: u32,
}

impl ForwardTransform {
    pub open spec fn wf(self) -> bool {
        &&& 0 <= self.yr <= 8192
        &&& 0 <= self.yg <= 8192
        &&& 0 <= self.yb <= 8192
        &&& 0 <= self.cb_r <= 8192
        &&& 0 <= self.cb_g <= 8192
        &&& 0 <= self.cb_b <= 8192
        &&& 0 <= self.cr_r <= 8192
        &&& 0 <= self.cr_g <= 8192
        &&& 0 <= self.cr_b <= 8192
    }
}

impl EncodeParams {
    pub open spec fn wf(self) -> bool {
        &&& self.f.wf()
        &&& self.bias_y <= 65535
        &&& self.bias_uv <= 65535
        &&& 8 <= self.depth <= 16
        &&& self.max == max_value(self.depth as nat)
    }
}

pub open spec fn spec_encode_params(
    range: YuvRange,
    matrix: YuvStandardMatrix,
    depth: nat,
    endianness: YuvEndianness,
    packing: YuvBytesPacking,
) -> EncodeParams {
    EncodeParams {
        f: spec_forward_transform(13, depth, range, matrix),
        bias_y: spec_yuv_range(depth, range).bias_y,
        bias_uv: spec_yuv_range(depth, range).bias_uv,
        max: max_value(depth) as u32,
        endianness,
        packing,
        depth: depth as u32,
    }
}

/// The stored word of a `depth`-bit value: shifted to the top of the word when the bits
/// sit there, and byte-swapped when stored big endian.
pub open spec fn stored_sample(
    v: int,
    endianness: YuvEndianness,
    packing: YuvBytesPacking,
    depth: nat,
) -> int {
    let n = match packing {
        YuvBytesPacking::MostSignificantBytes => v * pow2((16 - depth) as nat),
        YuvBytesPacking::LeastSignificantBytes => v,
    };
    match endianness {
        YuvEndianness::BigEndian => swap_bytes(n),
        YuvEndianness::LittleEndian => n,
    }
}

/// Stored luma of one pixel.
pub open spec fn enc_luma(r: int, g: int, b: int, k: EncodeParams) -> int {
    let v = shift_clamp(
        r * k.f.yr + g * k.f.yg + b * k.f.yb + k.bias_y * 8192,
        13,
        4096,
        k.max as int,
    );
    stored_sample(v, k.endianness, k.packing, k.depth as nat)
}

/// Stored blue-difference chroma of one (possibly averaged) pixel.
pub open spec fn enc_cb(r: int, g: int, b: int, k: EncodeParams) -> int {
    let v = shift_clamp(
        b * k.f.cb_b - r * k.f.cb_r - g * k.f.cb_g + k.bias_uv * 8192,
        13,
        4096,
        k.max as int,
    );
    stored_sample(v, k.endianness, k.packing, k.depth as nat)
}

/// Stored red-difference chroma of one (possibly averaged) pixel.
pub open spec fn enc_cr(r: int, g: int, b: int, k: EncodeParams) -> int {
    let v = shift_clamp(
        r * k.f.cr_r - g * k.f.cr_g - b * k.f.cr_b + k.bias_uv * 8192,
        13,
        4096,
        k.max as int,
    );
    stored_sample(v, k.endianness, k.packing, k.depth as nat)
}

/// Channel `c` of pixel `x` of the row that starts at `off`.
pub open spec fn sample16_at(src: Seq<u16>, off: int, cn: YuvSourceChannels, x: int, c: int) -> int {
    src[off + x * cn.spec_channels() + c] as int
}

/// Channel `c` of the chroma input of the sample whose first pixel is `x0`: the rounding
/// average of the pixels it covers in the rows at `off0` and `off1`, the last column
/// standing in for a neighbour past the right edge.
pub open spec fn enc_chroma_sample(
    src: Seq<u16>,
    off0: int,
    off1: int,
    cn: YuvSourceChannels,
    width: int,
    factor: int,
    x0: int,
    c: int,
) -> int {
    let x1 = if x0 + factor - 1 < width {
        x0 + factor - 1
    } else {
        width - 1
    };
    avg2(
        avg2(sample16_at(src, off0, cn, x0, c), sample16_at(src, off0, cn, x1, c)),
        avg2(sample16_at(src, off1, cn, x0, c), sample16_at(src, off1, cn, x1, c)),
    )
}

pub open spec fn enc_luma_at(src: Seq<u16>, off: int, cn: YuvSourceChannels, x: int, k: EncodeParams) -> int {
    enc_luma(
        sample16_at(src, off, cn, x, cn.spec_r()),
        sample16_at(src, off, cn, x, 1),
        sample16_at(src, off, cn, x, cn.spec_b()),
        k,
    )
}

pub open spec fn enc_cb_at(
    src: Seq<u16>,
    off0: int,
    off1: int,
    cn: YuvSourceChannels,
    width: int,
    factor: int,
    cx: int,
    k: EncodeParams,
) -> int {
    enc_cb(
        enc_chroma_sample(src, off0, off1, cn, width, factor, cx * factor, cn.spec_r()),
        enc_chroma_sample(src, off0, off1, cn, width, factor, cx * factor, 1),
        enc_chroma_sample(src, off0, off1, cn, width, factor, cx * factor, cn.spec_b()),
        k,
    )
}

pub open spec fn enc_cr_at(
    src: Seq<u16>,
    off0: int,
    off1: int,
    cn: YuvSourceChannels,
    width: int,
    factor: int,
    cx: int,
    k: EncodeParams,
) -> int {
    enc_cr(
        enc_chroma_sample(src, off0, off1, cn, width, factor, cx * factor, cn.spec_r()),
        enc_chroma_sample(src, off0, off1, cn, width, factor, cx * factor, 1),
        enc_chroma_sample(src, off0, off1, cn, width, factor, cx * factor, cn.spec_b()),
        k,
    )
}

/// `2^(a + b) == 2^a * 2^b`.
proof fn lemma_pow2_add(a: nat, b: nat)
    ensures
        pow2(a + b) == pow2(a) * pow2(b),
    decreases b,
{
    if b > 0 {
        lemma_pow2_add(a, (b - 1) as nat);
        assert(pow2(a + b) == 2 * pow2((a + b - 1) as nat));
        assert(pow2(b) == 2 * pow2((b - 1) as nat));
        assert(pow2(a) * (2 * pow2((b - 1) as nat)) == 2 * (pow2(a) * pow2((b - 1) as nat)))
            by (nonlinear_arith);
    } else {
        assert(pow2(0) == 1);
    }
}

/// Places a `depth`-bit value into its stored word.
pub fn store_sample(v: u16, endianness: YuvEndianness, packing: YuvBytesPacking, depth: u32) -> (r: u16)
    requires
        8 <= depth <= 16,
        v <= max_value(depth as nat),
    ensures
        r == stored_sample(v as int, endianness, packing, depth as nat),
{
    let n: u16 = match packing {
        YuvBytesPacking::MostSignificantBytes => {
            let up = pow2_exec(16 - depth);
            proof {
                lemma_pow2_add(depth as nat, (16 - depth) as nat);
                lemma_pow2_bounds(16);
                lemma_pow2_bounds(depth as nat);
                reveal_with_fuel(pow2, 17);
                assert(v * up <= (pow2(depth as nat) - 1) * up) by (nonlinear_arith)
                    requires
                        v <= pow2(depth as nat) - 1,
                        up >= 0,
                ;
                assert((pow2(depth as nat) - 1) * up <= 65536 - up) by (nonlinear_arith)
                    requires
                        pow2(depth as nat) * up == 65536,
                ;
            }
            (v as u32 * up) as u16
        },
        YuvBytesPacking::LeastSignificantBytes => v,
    };
    match endianness {
        YuvEndianness::BigEndian => (n % 256) * 256 + n / 256,
        YuvEndianness::LittleEndian => n,
    }
}

/// Derives the encoder constants with 13 fractional bits.
pub fn encode_params(
    range: YuvRange,
    matrix: YuvStandardMatrix,
    depth: u32,
    endianness: YuvEndianness,
    packing: YuvBytesPacking,
) -> (k: EncodeParams)
    requires
        8 <= depth <= 16,
    ensures
        k == spec_encode_params(range, matrix, depth as nat, endianness, packing),
        k.wf(),
{
    let r = get_yuv_range(depth, range);
    let full = pow2_exec(depth);
    proof {
        lemma_pow2_bounds(depth as nat);
        lemma_pow2_shift8(depth as nat);
        reveal_with_fuel(pow2, 14);
    }
    let m = (full - 1) as u64;
    let (kr, kb) = matrix.get_kr_kb();
    let kg = 10000 - kr - kb;
    let ry = r.range_y as u64;
    let ruv = r.range_uv as u64;
    proof {
        assert(ry <= m && ruv <= m && m <= 65535 && m >= 255);
    }
    let f = ForwardTransform {
        yr: weighted(kr, ry, 10000, m) as i64,
        yg: weighted(kg, ry, 10000, m) as i64,
        yb: weighted(kb, ry, 10000, m) as i64,
        cb_r: weighted(kr, ruv, 2 * (10000 - kb), m) as i64,
        cb_g: weighted(kg, ruv, 2 * (10000 - kb), m) as i64,
        cb_b: weighted(1, ruv, 2, m) as i64,
        cr_r: weighted(1, ruv, 2, m) as i64,
        cr_g: weighted(kg, ruv, 2 * (10000 - kr), m) as i64,
        cr_b: weighted(kb, ruv, 2 * (10000 - kr), m) as i64,
    };
    proof {
        assert(8192 * 1 * ruv == 8192 * ruv);
    }
    EncodeParams {
        f,
        bias_y: r.bias_y,
        bias_uv: r.bias_uv,
        max: full - 1,
        endianness,
        packing,
        depth,
    }
}

/// `round(2^13 * w * v / (d * m))` for a weight `w <= d` and a range `v <= m`: at most `2^13`.
fn weighted(w: u64, v: u64, d: u64, m: u64) -> (r: u64)
    requires
        w <= d,
        1 <= d <= 20000,
        v <= m,
        1 <= m <= 65535,
    ensures
        r == round_div(8192 * w * v, d * m),
        r <= 8192,
{
    proof {
        assert(w * v <= d * m) by (nonlinear_arith)
            requires
                w <= d,
                v <= m,
                w >= 0,
                v >= 0,
        ;
        assert(8192 * w * v <= 8192 * (d * m)) by (nonlinear_arith)
            requires
                w * v <= d * m,
        ;
        assert(1 <= d * m <= 20000 * 65535) by (nonlinear_arith)
            requires
                1 <= d <= 20000,
                1 <= m <= 65535,
        ;
        assert(8192 * w * v >= 0) by (nonlinear_arith)
            requires
                w >= 0,
                v >= 0,
        ;
        crate::transform::lemma_round_div_le(8192 * w * v, d * m, 8192);
    }
    let n = 8192 * w * v;
    let dd = d * m;
    (2 * n + dd) / (2 * dd)
}

fn clamp_sum(s: i64, k: &EncodeParams) -> (v: u16)
    requires
        k.wf(),
        -0x1000_0000_0000 <= s <= 0x1000_0000_0000,
    ensures
        v == shift_clamp(s as int, 13, 4096, k.max as int),
        v <= k.max,
{
    proof {
        lemma_pow2_bounds(k.depth as nat);
    }
    shift_clamp_exec(s, 13, 4096, k.max as i64) as u16
}

proof fn lemma_term(v: int, c: int)
    requires
        0 <= v <= 65535,
        0 <= c <= 8192,
    ensures
        0 <= v * c <= 65535 * 8192,
{
    assert(0 <= v * c <= 65535 * 8192) by (nonlinear_arith)
        requires
            0 <= v <= 65535,
            0 <= c <= 8192,
    ;
}

/// Stored luma of one pixel.
pub fn enc_luma_exec(r: u16, g: u16, b: u16, k: &EncodeParams) -> (y: u16)
    requires
        k.wf(),
    ensures
        y == enc_luma(r as int, g as int, b as int, *k),
{
    proof {
        lemma_term(r as int, k.f.yr as int);
        lemma_term(g as int, k.f.yg as int);
        lemma_term(b as int, k.f.yb as int);
    }
    let s = r as i64 * k.f.yr + g as i64 * k.f.yg + b as i64 * k.f.yb + k.bias_y as i64 * 8192;
    let v = clamp_sum(s, k);
    store_sample(v, k.endianness, k.packing, k.depth)
}

/// Stored blue-difference chroma of one pixel.
pub fn enc_cb_exec(r: u16, g: u16, b: u16, k: &EncodeParams) -> (cb: u16)
    requires
        k.wf(),
    ensures
        cb == enc_cb(r as int, g as int, b as int, *k),
{
    proof {
        lemma_term(r as int, k.f.cb_r as int);
        lemma_term(g as int, k.f.cb_g as int);
        lemma_term(b as int, k.f.cb_b as int);
    }
    let s = b as i64 * k.f.cb_b - r as i64 * k.f.cb_r - g as i64 * k.f.cb_g + k.bias_uv as i64 * 8192;
    let v = clamp_sum(s, k);
    store_sample(v, k.endianness, k.packing, k.depth)
}

/// Stored red-difference chroma of one pixel.
pub fn enc_cr_exec(r: u16, g: u16, b: u16, k: &EncodeParams) -> (cr: u16)
    requires
        k.wf(),
    ensures
        cr == enc_cr(r as int, g as int, b as int, *k),
{
    proof {
        lemma_term(r as int, k.f.cr_r as int);
        lemma_term(g as int, k.f.cr_g as int);
        lemma_term(b as int, k.f.cr_b as int);
    }
    let s = r as i64 * k.f.cr_r - g as i64 * k.f.cr_g - b as i64 * k.f.cr_b + k.bias_uv as i64 * 8192;
    let v = clamp_sum(s, k);
    store_sample(v, k.endianness, k.packing, k.depth)
}

pub fn avg2_exec16(a: u16, b: u16) -> (r: u16)
    ensures
        r == avg2(a as int, b as int),
{
    ((a as u32 + b as u32 + 1) / 2) as u16
}

/// The planes of `image` hold the YCbCr encoding of `src`: the luma of every pixel, and
/// the chroma of every chroma sample computed from the RGB average of the pixels it covers.
pub open spec fn encoded_written(
    image: &YuvPlanarImageMut<u16>,
    src: Seq<u16>,
    src_stride: int,
    cn: YuvSourceChannels,
    sampling: YuvChromaSubsampling,
    k: EncodeParams,
) -> bool {
    let w = image.width as int;
    let h = image.height as int;
    let f = chroma_factor(sampling);
    let vf = row_factor(sampling);
    &&& forall|y: int, x: int|
        0 <= y < h && 0 <= x < w ==> #[trigger] plane_at(image.y_plane@, image.y_stride as int, y, x)
            == enc_luma_at(src, y * src_stride, cn, x, k)
    &&& forall|cy: int, c: int|
        0 <= cy < chroma_height(h, sampling) && 0 <= c < chroma_width(w, sampling)
            ==> #[trigger] plane_at(image.u_plane@, image.u_stride as int, cy, c) == enc_cb_at(
            src,
            cy * vf * src_stride,
            pair_row(cy * vf, h, sampling) * src_stride,
            cn,
            w,
            f,
            c,
            k,
        )
    &&& forall|cy: int, c: int|
        0 <= cy < chroma_height(h, sampling) && 0 <= c < chroma_width(w, sampling)
            ==> #[trigger] plane_at(image.v_plane@, image.v_stride as int, cy, c) == enc_cr_at(
            src,
            cy * vf * src_stride,
            pair_row(cy * vf, h, sampling) * src_stride,
            cn,
            w,
            f,
            c,
            k,
        )
}

/// What an encode call with the constants `k` promises.
pub open spec fn encode_written_outcome(
    before: &YuvPlanarImageMut<u16>,
    after: &YuvPlanarImageMut<u16>,
    src: Seq<u16>,
    src_stride: int,
    k: EncodeParams,
    cn: YuvSourceChannels,
    sampling: YuvChromaSubsampling,
    r: Result<(), YuvError>,
) -> bool {
    &&& r == as_result(rgb_source_error(before, src.len() as int, src_stride, cn, sampling))
    &&& after.same_shape(before)
    &&& r is Err ==> after.same_planes(before)
    &&& r is Ok ==> encoded_written(after, src, src_stride, cn, sampling, k)
}

/// One channel of the chroma input of the sample whose first pixel is `x0`.
fn enc_chroma_channel(
    src: &[u16],
    off0: usize,
    off1: usize,
    cn: YuvSourceChannels,
    width: usize,
    factor: usize,
    x0: usize,
    c: usize,
) -> (r: u16)
    requires
        factor == 1 || factor == 2,
        c < cn.spec_channels(),
        x0 < width,
        off0 + width * cn.spec_channels() <= src@.len(),
        off1 + width * cn.spec_channels() <= src@.len(),
    ensures
        r == enc_chroma_sample(src@, off0 as int, off1 as int, cn, width as int, factor as int,
            x0 as int, c as int),
{
    let chans = cn.get_channels_count();
    let _src_len = src.len();
    let x1 = if factor == 2 && x0 + 1 < width {
        x0 + 1
    } else if factor == 2 {
        width - 1
    } else {
        x0
    };
    proof {
        lemma_pixel_in_row(x0 as int, width as int, chans as int, c as int);
        lemma_pixel_in_row(x1 as int, width as int, chans as int, c as int);
        assert(off0 + x0 * chans + c < src@.len());
        assert(off0 + x1 * chans + c < src@.len());
        assert(off1 + x0 * chans + c < src@.len());
        assert(off1 + x1 * chans + c < src@.len());
    }
    let a = avg2_exec16(src[off0 + x0 * chans + c], src[off0 + x1 * chans + c]);
    let b = avg2_exec16(src[off1 + x0 * chans + c], src[off1 + x1 * chans + c]);
    avg2_exec16(a, b)
}

/// Writes the luma of pixels `from..to` of the row at `src_off` into the row at `y_off`.
fn write_enc_luma(
    y_plane: &mut Vec<u16>,
    src: &[u16],
    y_off: usize,
    src_off: usize,
    width: usize,
    cn: YuvSourceChannels,
    from: usize,
    to: usize,
    k: &EncodeParams,
)
    requires
        k.wf(),
        from <= to <= width,
        y_off + width <= old(y_plane)@.len(),
        src_off + width * cn.spec_channels() <= src@.len(),
    ensures
        final(y_plane)@.len() == old(y_plane)@.len(),
        forall|i: int|
            0 <= i < old(y_plane)@.len() ==> final(y_plane)@[i] as int == if y_off + from <= i
                < y_off + to {
                enc_luma_at(src@, src_off as int, cn, i - y_off, *k)
            } else {
                old(y_plane)@[i] as int
            },
{
    let chans = cn.get_channels_count();
    let ro = cn.get_r_channel_offset();
    let bo = cn.get_b_channel_offset();
    let _src_len = src.len();
    let ghost y0 = y_plane@;
    let mut x = from;
    while x < to
        invariant
            k.wf(),
            from <= x <= to <= width,
            chans == cn.spec_channels(),
            ro == cn.spec_r(),
            bo == cn.spec_b(),
            _src_len == src@.len(),
            y_off + width <= y0.len(),
            src_off + width * chans <= src@.len(),
            y_plane@.len() == y0.len(),
            forall|i: int|
                0 <= i < y0.len() ==> y_plane@[i] as int == if y_off + from <= i < y_off + x {
                    enc_luma_at(src@, src_off as int, cn, i - y_off, *k)
                } else {
                    y0[i] as int
                },
        decreases to - x,
    {
        proof {
            lemma_pixel_in_row(x as int, width as int, chans as int, ro as int);
            lemma_pixel_in_row(x as int, width as int, chans as int, 1);
            lemma_pixel_in_row(x as int, width as int, chans as int, bo as int);
        }
        let base = src_off + x * chans;
        let luma = enc_luma_exec(src[base + ro], src[base + 1], src[base + bo], k);
        let _y_len = y_plane.len();
        y_plane[y_off + x] = luma;
        x = x + 1;
    }
}

/// Converts one row: luma for every pixel, and, where `compute_uv` holds, one chroma
/// sample for every `factor` pixels, from the rows at `src_off0` and `src_off1`.
/// The luma cursor and the chroma cursor advance together, `factor` pixels and one
/// chroma sample per step.
#[verifier::rlimit(40)]
pub fn encode_row(
    y_plane: &mut Vec<u16>,
    u_plane: &mut Vec<u16>,
    v_plane: &mut Vec<u16>,
    src: &[u16],
    y_off: usize,
    u_off: usize,
    v_off: usize,
    src_off0: usize,
    src_off1: usize,
    width: usize,
    cn: YuvSourceChannels,
    factor: usize,
    compute_uv: bool,
    k: &EncodeParams,
) -> (p: ProcessedOffset)
    requires
        k.wf(),
        factor == 1 || factor == 2,
        1 <= width <= 0xffff_ffff,
        y_off + width <= old(y_plane)@.len(),
        compute_uv ==> u_off + (width + factor - 1) / (factor as int) <= old(u_plane)@.len(),
        compute_uv ==> v_off + (width + factor - 1) / (factor as int) <= old(v_plane)@.len(),
        src_off0 + width * cn.spec_channels() <= src@.len(),
        src_off1 + width * cn.spec_channels() <= src@.len(),
    ensures
        p.cx == width,
        p.ux == (width + factor - 1) / (factor as int),
        final(y_plane)@.len() == old(y_plane)@.len(),
        final(u_plane)@.len() == old(u_plane)@.len(),
        final(v_plane)@.len() == old(v_plane)@.len(),
        forall|x: int|
            0 <= x < width ==> final(y_plane)@[y_off + x] == enc_luma_at(
                src@,
                src_off0 as int,
                cn,
                x,
                *k,
            ),
        forall|i: int|
            0 <= i < old(y_plane)@.len() && !(y_off <= i < y_off + width) ==> final(y_plane)@[i] == old(y_plane)@[i],
        compute_uv ==> forall|c: int|
            0 <= c < p.ux ==> final(u_plane)@[u_off + c] == enc_cb_at(
                src@,
                src_off0 as int,
                src_off1 as int,
                cn,
                width as int,
                factor as int,
                c,
                *k,
            ),
        compute_uv ==> forall|c: int|
            0 <= c < p.ux ==> final(v_plane)@[v_off + c] == enc_cr_at(
                src@,
                src_off0 as int,
                src_off1 as int,
                cn,
                width as int,
                factor as int,
                c,
                *k,
            ),
        forall|i: int|
            0 <= i < old(u_plane)@.len() && !(compute_uv && u_off <= i < u_off + p.ux) ==> final(u_plane)@[i] == old(u_plane)@[i],
        forall|i: int|
            0 <= i < old(v_plane)@.len() && !(compute_uv && v_off <= i < v_off + p.ux) ==> final(v_plane)@[i] == old(v_plane)@[i],
{
    let chans = cn.get_channels_count();
    let ro = cn.get_r_channel_offset();
    let bo = cn.get_b_channel_offset();
    let ghost y0 = y_plane@;
    let ghost u0 = u_plane@;
    let ghost v0 = v_plane@;
    let _src_len = src.len();
    let mut cx: usize = 0;
    let mut ux: usize = 0;
    while cx < width
        invariant
            k.wf(),
            factor == 1 || factor == 2,
            chans == cn.spec_channels(),
            ro == cn.spec_r(),
            bo == cn.spec_b(),
            1 <= width <= 0xffff_ffff,
            cx == ux * factor,
            cx < width + factor,
            y_off + width <= y0.len(),
            compute_uv ==> u_off + (width + factor - 1) / (factor as int) <= u0.len(),
            compute_uv ==> v_off + (width + factor - 1) / (factor as int) <= v0.len(),
            src_off0 + width * chans <= src@.len(),
            src_off1 + width * chans <= src@.len(),
            y_plane@.len() == y0.len(),
            u_plane@.len() == u0.len(),
            v_plane@.len() == v0.len(),
            _src_len == src@.len(),
            forall|i: int|
                0 <= i < y0.len() ==> y_plane@[i] as int == if y_off <= i < y_off + cx && i
                    < y_off + width {
                    enc_luma_at(src@, src_off0 as int, cn, i - y_off, *k)
                } else {
                    y0[i] as int
                },
            compute_uv ==> forall|c: int|
                0 <= c < ux ==> u_plane@[u_off + c] == enc_cb_at(
                    src@,
                    src_off0 as int,
                    src_off1 as int,
                    cn,
                    width as int,
                    factor as int,
                    c,
                    *k,
                ),
            compute_uv ==> forall|c: int|
                0 <= c < ux ==> v_plane@[v_off + c] == enc_cr_at(
                    src@,
                    src_off0 as int,
                    src_off1 as int,
                    cn,
                    width as int,
                    factor as int,
                    c,
                    *k,
                ),
            forall|i: int|
                0 <= i < u0.len() && !(compute_uv && u_off <= i < u_off + ux) ==> u_plane@[i]
                    == u0[i],
            forall|i: int|
                0 <= i < v0.len() && !(compute_uv && v_off <= i < v_off + ux) ==> v_plane@[i]
                    == v0[i],
        decreases width + factor - cx,
    {
        proof {
            lemma_pixel_in_row(cx as int, width as int, chans as int, 0);
        }
        let end = if cx + factor < width {
            cx + factor
        } else {
            width
        };
        write_enc_luma(y_plane, src, y_off, src_off0, width, cn, cx, end, k);
        if compute_uv {
            proof {
                lemma_cursor_inside(cx as int, ux as int, width as int, factor as int);
            }
            let _u_len = u_plane.len();
            let _v_len = v_plane.len();
            let r = enc_chroma_channel(src, src_off0, src_off1, cn, width, factor, cx, ro);
            let g = enc_chroma_channel(src, src_off0, src_off1, cn, width, factor, cx, 1);
            let b = enc_chroma_channel(src, src_off0, src_off1, cn, width, factor, cx, bo);
            u_plane[u_off + ux] = enc_cb_exec(r, g, b, k);
            v_plane[v_off + ux] = enc_cr_exec(r, g, b, k);
        }
        cx = cx + factor;
        ux = ux + 1;
    }
    proof {
        lemma_cursor_end(cx as int, ux as int, width as int, factor as int);
    }
    ProcessedOffset { cx: width, ux }
}

/// Encodes interleaved RGB of `bit_depth`-bit samples in the layout `cn` to YCbCr planes
/// in the layout `sampling`. Validation happens before anything is written.
pub fn rgbx_to_yuv_p16(
    image: &mut YuvPlanarImageMut<u16>,
    rgba: &[u16],
    rgba_stride: u32,
    bit_depth: u32,
    range: YuvRange,
    matrix: YuvStandardMatrix,
    endianness: YuvEndianness,
    packing: YuvBytesPacking,
    cn: YuvSourceChannels,
    sampling: YuvChromaSubsampling,
) -> (r: Result<(), YuvError>)
    requires
        8 <= bit_depth <= 16,
    ensures
        encode_written_outcome(
            old(image),
            final(image),
            rgba@,
            rgba_stride as int,
            spec_encode_params(range, matrix, bit_depth as nat, endianness, packing),
            cn,
            sampling,
            r,
        ),
{
    image.check_constraints(sampling)?;
    let chans = cn.get_channels_count();
    check_plane(mul_wide(image.width, chans as u32), image.height, rgba_stride, rgba.len())?;
    let k = encode_params(range, matrix, bit_depth, endianness, packing);
    let width = image.width as usize;
    let height = image.height as usize;
    let ys = image.y_stride as usize;
    let us = image.u_stride as usize;
    let vs = image.v_stride as usize;
    let ss = rgba_stride as usize;
    let f: usize = match sampling {
        YuvChromaSubsampling::Yuv444 => 1,
        _ => 2,
    };
    let is420 = match sampling {
        YuvChromaSubsampling::Yuv420 => true,
        _ => false,
    };
    let ghost cw = chroma_width(width as int, sampling);
    let ghost ch = chroma_height(height as int, sampling);
    let ghost vf = row_factor(sampling);
    let ghost src = rgba@;
    let _src_len = rgba.len();
    let _y_len = image.y_plane.len();
    let _u_len = image.u_plane.len();
    let _v_len = image.v_plane.len();
    proof {
        if f == 1 {
            assert(cw == (width + f - 1) / (f as int));
        } else {
            assert(cw == (width + f - 1) / (f as int));
        }
    }
    let mut y: usize = 0;
    while y < height
        invariant
            _y_len == image.y_plane@.len(),
            _u_len == image.u_plane@.len(),
            _v_len == image.v_plane@.len(),
            cw == (width + f - 1) / (f as int),
            k == spec_encode_params(range, matrix, bit_depth as nat, endianness, packing),
            k.wf(),
            src == rgba@,
            _src_len == rgba@.len(),
            width == image.width,
            height == image.height,
            ys == image.y_stride,
            us == image.u_stride,
            vs == image.v_stride,
            ss == rgba_stride,
            chans == cn.spec_channels(),
            f == chroma_factor(sampling),
            vf == row_factor(sampling),
            is420 == (sampling == YuvChromaSubsampling::Yuv420),
            cw == chroma_width(width as int, sampling),
            ch == chroma_height(height as int, sampling),
            y <= height,
            image.spec_error(sampling) is None,
            plane_error(width * chans, height as int, ss as int, rgba@.len() as int) is None,
            image.y_plane@.len() == old(image).y_plane@.len(),
            image.u_plane@.len() == old(image).u_plane@.len(),
            image.v_plane@.len() == old(image).v_plane@.len(),
            forall|yy: int, x: int|
                0 <= yy < y && 0 <= x < width ==> #[trigger] plane_at(
                    image.y_plane@,
                    ys as int,
                    yy,
                    x,
                ) == enc_luma_at(src, yy * ss, cn, x, k),
            forall|cy: int, c: int|
                0 <= cy < (y + vf - 1) / vf && 0 <= c < cw ==> #[trigger] plane_at(
                    image.u_plane@,
                    us as int,
                    cy,
                    c,
                ) == enc_cb_at(
                    src,
                    cy * vf * ss,
                    pair_row(cy * vf, height as int, sampling) * ss,
                    cn,
                    width as int,
                    f as int,
                    c,
                    k,
                ),
            forall|cy: int, c: int|
                0 <= cy < (y + vf - 1) / vf && 0 <= c < cw ==> #[trigger] plane_at(
                    image.v_plane@,
                    vs as int,
                    cy,
                    c,
                ) == enc_cr_at(
                    src,
                    cy * vf * ss,
                    pair_row(cy * vf, height as int, sampling) * ss,
                    cn,
                    width as int,
                    f as int,
                    c,
                    k,
                ),
        decreases height - y,
    {
        let compute_uv = !is420 || y % 2 == 0;
        let cy = if is420 {
            y / 2
        } else {
            y
        };
        let y1 = if is420 && y + 1 < height {
            y + 1
        } else {
            y
        };
        proof {
            lemma_row_fits(y as int, height as int, ys as int, width as int);
            lemma_row_fits(y as int, height as int, ss as int, width * chans);
            lemma_row_fits(y1 as int, height as int, ss as int, width * chans);
            if compute_uv {
                lemma_row_fits(cy as int, ch, us as int, cw);
                lemma_row_fits(cy as int, ch, vs as int, cw);
            }
        }
        let y_off = y * ys;
        let src_off0 = y * ss;
        let src_off1 = y1 * ss;
        let u_off = if compute_uv {
            cy * us
        } else {
            0
        };
        let v_off = if compute_uv {
            cy * vs
        } else {
            0
        };
        let ghost yp = image.y_plane@;
        let ghost up = image.u_plane@;
        let ghost vp = image.v_plane@;
        let p = encode_row(
            &mut image.y_plane,
            &mut image.u_plane,
            &mut image.v_plane,
            rgba,
            y_off,
            u_off,
            v_off,
            src_off0,
            src_off1,
            width,
            cn,
            f,
            compute_uv,
            &k,
        );
        proof {
            assert forall|yy: int, x: int|
                0 <= yy < y + 1 && 0 <= x < width implies #[trigger] plane_at(
                image.y_plane@,
                ys as int,
                yy,
                x,
            ) == enc_luma_at(src, yy * ss, cn, x, k) by {
                if yy < y {
                    lemma_rows_disjoint(yy, y as int, ys as int, x, width as int);
                    assert(plane_at(yp, ys as int, yy, x) == enc_luma_at(src, yy * ss, cn, x, k));
                }
            }
            assert forall|cy2: int, c: int|
                #![trigger plane_at(image.u_plane@, us as int, cy2, c)]
                #![trigger plane_at(image.v_plane@, vs as int, cy2, c)]
                0 <= cy2 < (y + 1 + vf - 1) / vf && 0 <= c < cw implies plane_at(
                image.u_plane@,
                us as int,
                cy2,
                c,
            ) == enc_cb_at(
                src,
                cy2 * vf * ss,
                pair_row(cy2 * vf, height as int, sampling) * ss,
                cn,
                width as int,
                f as int,
                c,
                k,
            ) && plane_at(image.v_plane@, vs as int, cy2, c) == enc_cr_at(
                src,
                cy2 * vf * ss,
                pair_row(cy2 * vf, height as int, sampling) * ss,
                cn,
                width as int,
                f as int,
                c,
                k,
            ) by {
                lemma_row_fits(cy2, ch, us as int, cw);
                lemma_row_fits(cy2, ch, vs as int, cw);
                if vf == 2 {
                    if y % 2 == 0 {
                        assert((y + 1 + vf - 1) / vf == y / 2 + 1);
                        assert((y + vf - 1) / vf == y / 2);
                    } else {
                        assert((y + 1 + vf - 1) / vf == (y + vf - 1) / vf);
                    }
                }
                if cy2 < (y + vf - 1) / vf {
                    if compute_uv {
                        lemma_rows_disjoint(cy2, cy as int, us as int, c, cw);
                        lemma_rows_disjoint(cy2, cy as int, vs as int, c, cw);
                    }
                    assert(image.u_plane@[cy2 * us + c] == up[cy2 * us + c]);
                    assert(image.v_plane@[cy2 * vs + c] == vp[cy2 * vs + c]);
                    assert(plane_at(up, us as int, cy2, c) == enc_cb_at(
                        src,
                        cy2 * vf * ss,
                        pair_row(cy2 * vf, height as int, sampling) * ss,
                        cn,
                        width as int,
                        f as int,
                        c,
                        k,
                    ));
                    assert(plane_at(vp, vs as int, cy2, c) == enc_cr_at(
                        src,
                        cy2 * vf * ss,
                        pair_row(cy2 * vf, height as int, sampling) * ss,
                        cn,
                        width as int,
                        f as int,
                        c,
                        k,
                    ));
                } else {
                    assert(compute_uv && cy2 == cy);
                    assert(cy2 * vf == y);
                    assert(pair_row(cy2 * vf, height as int, sampling) == y1);
                    assert(image.u_plane@[u_off + c] == enc_cb_at(
                        src,
                        src_off0 as int,
                        src_off1 as int,
                        cn,
                        width as int,
                        f as int,
                        c,
                        k,
                    ));
                }
            }
        }
        y = y + 1;
    }
    Ok(())
}


/// What an encode call promises, the bit depth included: only 10 and 12 bits are encoded.
pub open spec fn encode_outcome(
    before: &YuvPlanarImageMut<u16>,
    after: &YuvPlanarImageMut<u16>,
    src: Seq<u16>,
    src_stride: int,
    bit_depth: int,
    range: YuvRange,
    matrix: YuvStandardMatrix,
    endianness: YuvEndianness,
    packing: YuvBytesPacking,
    cn: YuvSourceChannels,
    sampling: YuvChromaSubsampling,
    r: Result<(), YuvError>,
) -> bool {
    if bit_depth != 10 && bit_depth != 12 {
        &&& r == Err::<(), YuvError>(YuvError::UnsupportedBitDepth)
        &&& after.same_shape(before)
        &&& after.same_planes(before)
    } else {
        encode_written_outcome(
            before,
            after,
            src,
            src_stride,
            spec_encode_params(range, matrix, bit_depth as nat, endianness, packing),
            cn,
            sampling,
            r,
        )
    }
}

/// Encodes 10 or 12 bit RGB to YCbCr 444 planes of the same depth; other depths are
/// refused before anything is written.
pub fn rgb_to_yuv444_p16(
    image: &mut YuvPlanarImageMut<u16>,
    rgb: &[u16],
    rgb_stride: u32,
    bit_depth: u32,
    range: YuvRange,
    matrix: YuvStandardMatrix,
    endianness: YuvEndianness,
    bytes_packing: YuvBytesPacking,
) -> (r: Result<(), YuvError>)
    ensures
        encode_outcome(
            old(image),
            final(image),
            rgb@,
            rgb_stride as int,
            bit_depth as int,
            range,
            matrix,
            endianness,
            bytes_packing,
            YuvSourceChannels::Rgb,
            YuvChromaSubsampling::Yuv444,
            r,
        ),
{
    if bit_depth != 10 && bit_depth != 12 {
        return Err(YuvError::UnsupportedBitDepth);
    }
    rgbx_to_yuv_p16(
        image,
        rgb,
        rgb_stride,
        bit_depth,
        range,
        matrix,
        endianness,
        bytes_packing,
        YuvSourceChannels::Rgb,
        YuvChromaSubsampling::Yuv444,
    )
}

/// Encodes 10 or 12 bit RGB to YCbCr 422 planes of the same depth; other depths are
/// refused before anything is written.
pub fn rgb_to_yuv422_p16(
    image: &mut YuvPlanarImageMut<u16>,
    rgb: &[u16],
    rgb_stride: u32,
    bit_depth: u32,
    range: YuvRange,
    matrix: YuvStandardMatrix,
    endianness: YuvEndianness,
    bytes_packing: YuvBytesPacking,
) -> (r: Result<(), YuvError>)
    ensures
        encode_outcome(
            old(image),
            final(image),
            rgb@,
            rgb_stride as int,
            bit_depth as int,
            range,
            matrix,
            endianness,
            bytes_packing,
            YuvSourceChannels::Rgb,
            YuvChromaSubsampling::Yuv422,
            r,
        ),
{
    if bit_depth != 10 && bit_depth != 12 {
        return Err(YuvError::UnsupportedBitDepth);
    }
    rgbx_to_yuv_p16(
        image,
        rgb,
        rgb_stride,
        bit_depth,
        range,
        matrix,
        endianness,
        bytes_packing,
        YuvSourceChannels::Rgb,
        YuvChromaSubsampling::Yuv422,
    )
}

/// Encodes 10 or 12 bit RGB to YCbCr 420 planes of the same depth; other depths are
/// refused before anything is written.
pub fn rgb_to_yuv420_p16(
    image: &mut YuvPlanarImageMut<u16>,
    rgb: &[u16],
    rgb_stride: u32,
    bit_depth: u32,
    range: YuvRange,
    matrix: YuvStandardMatrix,
    endianness: YuvEndianness,
    bytes_packing: YuvBytesPacking,
) -> (r: Result<(), YuvError>)
    ensures
        encode_outcome(
            old(image),
            final(image),
            rgb@,
            rgb_stride as int,
            bit_depth as int,
            range,
            matrix,
            endianness,
            bytes_packing,
            YuvSourceChannels::Rgb,
            YuvChromaSubsampling::Yuv420,
            r,
        ),
{
    if bit_depth != 10 && bit_depth != 12 {
        return Err(YuvError::UnsupportedBitDepth);
    }
    rgbx_to_yuv_p16(
        image,
        rgb,
        rgb_stride,
        bit_depth,
        range,
        matrix,
        endianness,
        bytes_packing,
        YuvSourceChannels::Rgb,
        YuvChromaSubsampling::Yuv420,
    )
}

} // verus!
