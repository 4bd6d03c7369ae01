//! 8-bit RGB to planar YCbCr, on the constants and kernels of the 16-bit encoder.

use vstd::prelude::*;

use crate::encode::{enc_cb, enc_cb_exec, enc_cr, enc_cr_exec, enc_luma, enc_luma_exec, encode_params, spec_encode_params, EncodeParams};
use crate::layout::{chroma_factor, lemma_row_fits, lemma_rows_disjoint, pair_row, plane_at, row_factor};
use crate::support::{
    avg2, as_result, check_plane, chroma_height, chroma_width, mul_wide, plane_error, pow2,
    rgb_source_error, ProcessedOffset, YuvBytesPacking, YuvChromaSubsampling, YuvEndianness,
    YuvError, YuvPlanarImageMut, YuvRange, YuvSourceChannels, YuvStandardMatrix,
};
use crate::ycgco::{avg2_exec, lemma_cursor_end, lemma_cursor_inside, lemma_pixel_in_row};

verus! {

/// The encoder constants for 8-bit samples stored as they are.
pub open spec fn spec_params8(range: YuvRange, matrix: YuvStandardMatrix) -> EncodeParams {
    spec_encode_params(
        range,
        matrix,
        8,
        YuvEndianness::LittleEndian,
        YuvBytesPacking::LeastSignificantBytes,
    )
}

impl EncodeParams {
    /// Constants for 8-bit samples stored as they are.
    pub open spec fn wf8(self) -> bool {
        &&& self.wf()
        &&& self.depth == 8
        &&& self.max == 255
        &&& self.endianness == YuvEndianness::LittleEndian
        &&& self.packing == YuvBytesPacking::LeastSignificantBytes
    }
}

/// Channel `c` of pixel `x` of the row that starts at `off`.
pub open spec fn sample8_at(src: Seq<u8>, off: int, cn: YuvSourceChannels, x: int, c: int) -> int {
    src[off + x * cn.spec_channels() + c] as int
}

/// Channel `c` of the chroma input of the sample whose first pixel is `x0`, averaged as
/// for the 16-bit encoder.
pub open spec fn enc8_chroma_sample(
    src: Seq<u8>,
    off0: int,
    off1: int,
    cn: YuvSourceChannels,
    width: int,
    factor: int,
    x0: int,
    c: int,
) -> int {
    let x1 = if x0 + factor - 1 < width {
        x0 + factor - 1
    } else {
        width - 1
    };
    avg2(
        avg2(sample8_at(src, off0, cn, x0, c), sample8_at(src, off0, cn, x1, c)),
        avg2(sample8_at(src, off1, cn, x0, c), sample8_at(src, off1, cn, x1, c)),
    )
}

pub open spec fn enc8_luma_at(src: Seq<u8>, off: int, cn: YuvSourceChannels, x: int, k: EncodeParams) -> int {
    enc_luma(
        sample8_at(src, off, cn, x, cn.spec_r()),
        sample8_at(src, off, cn, x, 1),
        sample8_at(src, off, cn, x, cn.spec_b()),
        k,
    )
}

pub open spec fn enc8_cb_at(
    src: Seq<u8>,
    off0: int,
    off1: int,
    cn: YuvSourceChannels,
    width: int,
    factor: int,
    cx: int,
    k: EncodeParams,
) -> int {
    enc_cb(
        enc8_chroma_sample(src, off0, off1, cn, width, factor, cx * factor, cn.spec_r()),
        enc8_chroma_sample(src, off0, off1, cn, width, factor, cx * factor, 1),
        enc8_chroma_sample(src, off0, off1, cn, width, factor, cx * factor, cn.spec_b()),
        k,
    )
}

pub open spec fn enc8_cr_at(
    src: Seq<u8>,
    off0: int,
    off1: int,
    cn: YuvSourceChannels,
    width: int,
    factor: int,
    cx: int,
    k: EncodeParams,
) -> int {
    enc_cr(
        enc8_chroma_sample(src, off0, off1, cn, width, factor, cx * factor, cn.spec_r()),
        enc8_chroma_sample(src, off0, off1, cn, width, factor, cx * factor, 1),
        enc8_chroma_sample(src, off0, off1, cn, width, factor, cx * factor, cn.spec_b()),
        k,
    )
}

fn enc8_luma_exec(r: u8, g: u8, b: u8, k: &EncodeParams) -> (y: u8)
    requires
        k.wf8(),
    ensures
        y == enc_luma(r as int, g as int, b as int, *k),
{
    enc_luma_exec(r as u16, g as u16, b as u16, k) as u8
}

fn enc8_cb_exec(r: u8, g: u8, b: u8, k: &EncodeParams) -> (cb: u8)
    requires
        k.wf8(),
    ensures
        cb == enc_cb(r as int, g as int, b as int, *k),
{
    enc_cb_exec(r as u16, g as u16, b as u16, k) as u8
}

fn enc8_cr_exec(r: u8, g: u8, b: u8, k: &EncodeParams) -> (cr: u8)
    requires
        k.wf8(),
    ensures
        cr == enc_cr(r as int, g as int, b as int, *k),
{
    enc_cr_exec(r as u16, g as u16, b as u16, k) as u8
}

/// The planes of `image` hold the 8-bit YCbCr encoding of `src`.
pub open spec fn encoded8_written(
    image: &YuvPlanarImageMut<u8>,
    src: Seq<u8>,
    src_stride: int,
    cn: YuvSourceChannels,
    sampling: YuvChromaSubsampling,
    k: EncodeParams,
) -> bool {
    let w = image.width as int;
    let h = image.height as int;
    let f = chroma_factor(sampling);
    let vf = row_factor(sampling);
    &&& forall|y: int, x: int|
        0 <= y < h && 0 <= x < w ==> #[trigger] plane_at(image.y_plane@, image.y_stride as int, y, x)
            == enc8_luma_at(src, y * src_stride, cn, x, k)
    &&& forall|cy: int, c: int|
        0 <= cy < chroma_height(h, sampling) && 0 <= c < chroma_width(w, sampling)
            ==> #[trigger] plane_at(image.u_plane@, image.u_stride as int, cy, c) == enc8_cb_at(
            src,
            cy * vf * src_stride,
            pair_row(cy * vf, h, sampling) * src_stride,
            cn,
            w,
            f,
            c,
            k,
        )
    &&& forall|cy: int, c: int|
        0 <= cy < chroma_height(h, sampling) && 0 <= c < chroma_width(w, sampling)
            ==> #[trigger] plane_at(image.v_plane@, image.v_stride as int, cy, c) == enc8_cr_at(
            src,
            cy * vf * src_stride,
            pair_row(cy * vf, h, sampling) * src_stride,
            cn,
            w,
            f,
            c,
            k,
        )
}

/// What an 8-bit encode call with the constants `k` promises.
pub open spec fn encode8_outcome(
    before: &YuvPlanarImageMut<u8>,
    after: &YuvPlanarImageMut<u8>,
    src: Seq<u8>,
    src_stride: int,
    k: EncodeParams,
    cn: YuvSourceChannels,
    sampling: YuvChromaSubsampling,
    r: Result<(), YuvError>,
) -> bool {
    &&& r == as_result(rgb_source_error(before, src.len() as int, src_stride, cn, sampling))
    &&& after.same_shape(before)
    &&& r is Err ==> after.same_planes(before)
    &&& r is Ok ==> encoded8_written(after, src, src_stride, cn, sampling, k)
}

/// One channel of the chroma input of the sample whose first pixel is `x0`.
fn enc8_chroma_channel(
    src: &[u8],
    off0: usize,
    off1: usize,
    cn: YuvSourceChannels,
    width: usize,
    factor: usize,
    x0: usize,
    c: usize,
) -> (r: u8)
    requires
        factor == 1 || factor == 2,
        c < cn.spec_channels(),
        x0 < width,
        off0 + width * cn.spec_channels() <= src@.len(),
        off1 + width * cn.spec_channels() <= src@.len(),
    ensures
        r == enc8_chroma_sample(src@, off0 as int, off1 as int, cn, width as int, factor as int,
            x0 as int, c as int),
{
    let chans = cn.get_channels_count();
    let _src_len = src.len();
    let x1 = if factor == 2 && x0 + 1 < width {
        x0 + 1
    } else if factor == 2 {
        width - 1
    } else {
        x0
    };
    proof {
        lemma_pixel_in_row(x0 as int, width as int, chans as int, c as int);
        lemma_pixel_in_row(x1 as int, width as int, chans as int, c as int);
        assert(off0 + x0 * chans + c < src@.len());
        assert(off0 + x1 * chans + c < src@.len());
        assert(off1 + x0 * chans + c < src@.len());
        assert(off1 + x1 * chans + c < src@.len());
    }
    let a = avg2_exec(src[off0 + x0 * chans + c], src[off0 + x1 * chans + c]);
    let b = avg2_exec(src[off1 + x0 * chans + c], src[off1 + x1 * chans + c]);
    avg2_exec(a, b)
}

/// Writes the luma of pixels `from..to` of the row at `src_off` into the row at `y_off`.
fn write_enc8_luma(
    y_plane: &mut Vec<u8>,
    src: &[u8],
    y_off: usize,
    src_off: usize,
    width: usize,
    cn: YuvSourceChannels,
    from: usize,
    to: usize,
    k: &EncodeParams,
)
    requires
        k.wf8(),
        from <= to <= width,
        y_off + width <= old(y_plane)@.len(),
        src_off + width * cn.spec_channels() <= src@.len(),
    ensures
        final(y_plane)@.len() == old(y_plane)@.len(),
        forall|i: int|
            0 <= i < old(y_plane)@.len() ==> final(y_plane)@[i] as int == if y_off + from <= i
                < y_off + to {
                enc8_luma_at(src@, src_off as int, cn, i - y_off, *k)
            } else {
                old(y_plane)@[i] as int
            },
{
    let chans = cn.get_channels_count();
    let ro = cn.get_r_channel_offset();
    let bo = cn.get_b_channel_offset();
    let _src_len = src.len();
    let ghost y0 = y_plane@;
    let mut x = from;
    while x < to
        invariant
            k.wf8(),
            from <= x <= to <= width,
            chans == cn.spec_channels(),
            ro == cn.spec_r(),
            bo == cn.spec_b(),
            _src_len == src@.len(),
            y_off + width <= y0.len(),
            src_off + width * chans <= src@.len(),
            y_plane@.len() == y0.len(),
            forall|i: int|
                0 <= i < y0.len() ==> y_plane@[i] as int == if y_off + from <= i < y_off + x {
                    enc8_luma_at(src@, src_off as int, cn, i - y_off, *k)
                } else {
                    y0[i] as int
                },
        decreases to - x,
    {
        proof {
            lemma_pixel_in_row(x as int, width as int, chans as int, ro as int);
            lemma_pixel_in_row(x as int, width as int, chans as int, 1);
            lemma_pixel_in_row(x as int, width as int, chans as int, bo as int);
        }
        let base = src_off + x * chans;
        let luma = enc8_luma_exec(src[base + ro], src[base + 1], src[base + bo], k);
        let _y_len = y_plane.len();
        y_plane[y_off + x] = luma;
        x = x + 1;
    }
}

/// Converts one row: luma for every pixel, and, where `compute_uv` holds, one chroma
/// sample for every `factor` pixels, from the rows at `src_off0` and `src_off1`.
/// The luma cursor and the chroma cursor advance together, `factor` pixels and one
/// chroma sample per step.
#[verifier::rlimit(40)]
pub fn encode8_row(
    y_plane: &mut Vec<u8>,
    u_plane: &mut Vec<u8>,
    v_plane: &mut Vec<u8>,
    src: &[u8],
    y_off: usize,
    u_off: usize,
    v_off: usize,
    src_off0: usize,
    src_off1: usize,
    width: usize,
    cn: YuvSourceChannels,
    factor: usize,
    compute_uv: bool,
    k: &EncodeParams,
) -> (p: ProcessedOffset)
    requires
        k.wf8(),
        factor == 1 || factor == 2,
        1 <= width <= 0xffff_ffff,
        y_off + width <= old(y_plane)@.len(),
        compute_uv ==> u_off + (width + factor - 1) / (factor as int) <= old(u_plane)@.len(),
        compute_uv ==> v_off + (width + factor - 1) / (factor as int) <= old(v_plane)@.len(),
        src_off0 + width * cn.spec_channels() <= src@.len(),
        src_off1 + width * cn.spec_channels() <= src@.len(),
    ensures
        p.cx == width,
        p.ux == (width + factor - 1) / (factor as int),
        final(y_plane)@.len() == old(y_plane)@.len(),
        final(u_plane)@.len() == old(u_plane)@.len(),
        final(v_plane)@.len() == old(v_plane)@.len(),
        forall|x: int|
            0 <= x < width ==> final(y_plane)@[y_off + x] == enc8_luma_at(
                src@,
                src_off0 as int,
                cn,
                x,
                *k,
            ),
        forall|i: int|
            0 <= i < old(y_plane)@.len() && !(y_off <= i < y_off + width) ==> final(y_plane)@[i] == old(y_plane)@[i],
        compute_uv ==> forall|c: int|
            0 <= c < p.ux ==> final(u_plane)@[u_off + c] == enc8_cb_at(
                src@,
                src_off0 as int,
                src_off1 as int,
                cn,
                width as int,
                factor as int,
                c,
                *k,
            ),
        compute_uv ==> forall|c: int|
            0 <= c < p.ux ==> final(v_plane)@[v_off + c] == enc8_cr_at(
                src@,
                src_off0 as int,
                src_off1 as int,
                cn,
                width as int,
                factor as int,
                c,
                *k,
            ),
        forall|i: int|
            0 <= i < old(u_plane)@.len() && !(compute_uv && u_off <= i < u_off + p.ux) ==> final(u_plane)@[i] == old(u_plane)@[i],
        forall|i: int|
            0 <= i < old(v_plane)@.len() && !(compute_uv && v_off <= i < v_off + p.ux) ==> final(v_plane)@[i] == old(v_plane)@[i],
{
    let chans = cn.get_channels_count();
    let ro = cn.get_r_channel_offset();
    let bo = cn.get_b_channel_offset();
    let ghost y0 = y_plane@;
    let ghost u0 = u_plane@;
    let ghost v0 = v_plane@;
    let _src_len = src.len();
    let mut cx: usize = 0;
    let mut ux: usize = 0;
    while cx < width
        invariant
            k.wf8(),
            factor == 1 || factor == 2,
            chans == cn.spec_channels(),
            ro == cn.spec_r(),
            bo == cn.spec_b(),
            1 <= width <= 0xffff_ffff,
            cx == ux * factor,
            cx < width + factor,
            y_off + width <= y0.len(),
            compute_uv ==> u_off + (width + factor - 1) / (factor as int) <= u0.len(),
            compute_uv ==> v_off + (width + factor - 1) / (factor as int) <= v0.len(),
            src_off0 + width * chans <= src@.len(),
            src_off1 + width * chans <= src@.len(),
            y_plane@.len() == y0.len(),
            u_plane@.len() == u0.len(),
            v_plane@.len() == v0.len(),
            _src_len == src@.len(),
            forall|i: int|
                0 <= i < y0.len() ==> y_plane@[i] as int == if y_off <= i < y_off + cx && i
                    < y_off + width {
                    enc8_luma_at(src@, src_off0 as int, cn, i - y_off, *k)
                } else {
                    y0[i] as int
                },
            compute_uv ==> forall|c: int|
                0 <= c < ux ==> u_plane@[u_off + c] == enc8_cb_at(
                    src@,
                    src_off0 as int,
                    src_off1 as int,
                    cn,
                    width as int,
                    factor as int,
                    c,
                    *k,
                ),
            compute_uv ==> forall|c: int|
                0 <= c < ux ==> v_plane@[v_off + c] == enc8_cr_at(
                    src@,
                    src_off0 as int,
                    src_off1 as int,
                    cn,
                    width as int,
                    factor as int,
                    c,
                    *k,
                ),
            forall|i: int|
                0 <= i < u0.len() && !(compute_uv && u_off <= i < u_off + ux) ==> u_plane@[i]
                    == u0[i],
            forall|i: int|
                0 <= i < v0.len() && !(compute_uv && v_off <= i < v_off + ux) ==> v_plane@[i]
                    == v0[i],
        decreases width + factor - cx,
    {
        proof {
            lemma_pixel_in_row(cx as int, width as int, chans as int, 0);
        }
        let end = if cx + factor < width {
            cx + factor
        } else {
            width
        };
        write_enc8_luma(y_plane, src, y_off, src_off0, width, cn, cx, end, k);
        if compute_uv {
            proof {
                lemma_cursor_inside(cx as int, ux as int, width as int, factor as int);
            }
            let _u_len = u_plane.len();
            let _v_len = v_plane.len();
            let r = enc8_chroma_channel(src, src_off0, src_off1, cn, width, factor, cx, ro);
            let g = enc8_chroma_channel(src, src_off0, src_off1, cn, width, factor, cx, 1);
            let b = enc8_chroma_channel(src, src_off0, src_off1, cn, width, factor, cx, bo);
            u_plane[u_off + ux] = enc8_cb_exec(r, g, b, k);
            v_plane[v_off + ux] = enc8_cr_exec(r, g, b, k);
        }
        cx = cx + factor;
        ux = ux + 1;
    }
    proof {
        lemma_cursor_end(cx as int, ux as int, width as int, factor as int);
    }
    ProcessedOffset { cx: width, ux }
}

/// Encodes interleaved 8-bit RGB in the layout `cn` to YCbCr planes in the layout
/// `sampling`. Validation happens before anything is written.
pub fn rgbx_to_yuv8(
    image: &mut YuvPlanarImageMut<u8>,
    rgba: &[u8],
    rgba_stride: u32,
    range: YuvRange,
    matrix: YuvStandardMatrix,
    cn: YuvSourceChannels,
    sampling: YuvChromaSubsampling,
) -> (r: Result<(), YuvError>)
    ensures
        encode8_outcome(
            old(image),
            final(image),
            rgba@,
            rgba_stride as int,
            spec_params8(range, matrix),
            cn,
            sampling,
            r,
        ),
{
    image.check_constraints(sampling)?;
    let chans = cn.get_channels_count();
    check_plane(mul_wide(image.width, chans as u32), image.height, rgba_stride, rgba.len())?;
    let k = encode_params(range, matrix, 8, YuvEndianness::LittleEndian, YuvBytesPacking::LeastSignificantBytes);
    proof {
        reveal_with_fuel(pow2, 9);
    }
    let width = image.width as usize;
    let height = image.height as usize;
    let ys = image.y_stride as usize;
    let us = image.u_stride as usize;
    let vs = image.v_stride as usize;
    let ss = rgba_stride as usize;
    let f: usize = match sampling {
        YuvChromaSubsampling::Yuv444 => 1,
        _ => 2,
    };
    let is420 = match sampling {
        YuvChromaSubsampling::Yuv420 => true,
        _ => false,
    };
    let ghost cw = chroma_width(width as int, sampling);
    let ghost ch = chroma_height(height as int, sampling);
    let ghost vf = row_factor(sampling);
    let ghost src = rgba@;
    let _src_len = rgba.len();
    let _y_len = image.y_plane.len();
    let _u_len = image.u_plane.len();
    let _v_len = image.v_plane.len();
    proof {
        if f == 1 {
            assert(cw == (width + f - 1) / (f as int));
        } else {
            assert(cw == (width + f - 1) / (f as int));
        }
    }
    let mut y: usize = 0;
    while y < height
        invariant
            _y_len == image.y_plane@.len(),
            _u_len == image.u_plane@.len(),
            _v_len == image.v_plane@.len(),
            cw == (width + f - 1) / (f as int),
            k == spec_params8(range, matrix),
            k.wf8(),
            src == rgba@,
            _src_len == rgba@.len(),
            width == image.width,
            height == image.height,
            ys == image.y_stride,
            us == image.u_stride,
            vs == image.v_stride,
            ss == rgba_stride,
            chans == cn.spec_channels(),
            f == chroma_factor(sampling),
            vf == row_factor(sampling),
            is420 == (sampling == YuvChromaSubsampling::Yuv420),
            cw == chroma_width(width as int, sampling),
            ch == chroma_height(height as int, sampling),
            y <= height,
            image.spec_error(sampling) is None,
            plane_error(width * chans, height as int, ss as int, rgba@.len() as int) is None,
            image.y_plane@.len() == old(image).y_plane@.len(),
            image.u_plane@.len() == old(image).u_plane@.len(),
            image.v_plane@.len() == old(image).v_plane@.len(),
            forall|yy: int, x: int|
                0 <= yy < y && 0 <= x < width ==> #[trigger] plane_at(
                    image.y_plane@,
                    ys as int,
                    yy,
                    x,
                ) == enc8_luma_at(src, yy * ss, cn, x, k),
            forall|cy: int, c: int|
                0 <= cy < (y + vf - 1) / vf && 0 <= c < cw ==> #[trigger] plane_at(
                    image.u_plane@,
                    us as int,
                    cy,
                    c,
                ) == enc8_cb_at(
                    src,
                    cy * vf * ss,
                    pair_row(cy * vf, height as int, sampling) * ss,
                    cn,
                    width as int,
                    f as int,
                    c,
                    k,
                ),
            forall|cy: int, c: int|
                0 <= cy < (y + vf - 1) / vf && 0 <= c < cw ==> #[trigger] plane_at(
                    image.v_plane@,
                    vs as int,
                    cy,
                    c,
                ) == enc8_cr_at(
                    src,
                    cy * vf * ss,
                    pair_row(cy * vf, height as int, sampling) * ss,
                    cn,
                    width as int,
                    f as int,
                    c,
                    k,
                ),
        decreases height - y,
    {
        let compute_uv = !is420 || y % 2 == 0;
        let cy = if is420 {
            y / 2
        } else {
            y
        };
        let y1 = if is420 && y + 1 < height {
            y + 1
        } else {
            y
        };
        proof {
            lemma_row_fits(y as int, height as int, ys as int, width as int);
            lemma_row_fits(y as int, height as int, ss as int, width * chans);
            lemma_row_fits(y1 as int, height as int, ss as int, width * chans);
            if compute_uv {
                lemma_row_fits(cy as int, ch, us as int, cw);
                lemma_row_fits(cy as int, ch, vs as int, cw);
            }
        }
        let y_off = y * ys;
        let src_off0 = y * ss;
        let src_off1 = y1 * ss;
        let u_off = if compute_uv {
            cy * us
        } else {
            0
        };
        let v_off = if compute_uv {
            cy * vs
        } else {
            0
        };
        let ghost yp = image.y_plane@;
        let ghost up = image.u_plane@;
        let ghost vp = image.v_plane@;
        let p = encode8_row(
            &mut image.y_plane,
            &mut image.u_plane,
            &mut image.v_plane,
            rgba,
            y_off,
            u_off,
            v_off,
            src_off0,
            src_off1,
            width,
            cn,
            f,
            compute_uv,
            &k,
        );
        proof {
            assert forall|yy: int, x: int|
                0 <= yy < y + 1 && 0 <= x < width implies #[trigger] plane_at(
                image.y_plane@,
                ys as int,
                yy,
                x,
            ) == enc8_luma_at(src, yy * ss, cn, x, k) by {
                if yy < y {
                    lemma_rows_disjoint(yy, y as int, ys as int, x, width as int);
                    assert(plane_at(yp, ys as int, yy, x) == enc8_luma_at(src, yy * ss, cn, x, k));
                }
            }
            assert forall|cy2: int, c: int|
                #![trigger plane_at(image.u_plane@, us as int, cy2, c)]
                #![trigger plane_at(image.v_plane@, vs as int, cy2, c)]
                0 <= cy2 < (y + 1 + vf - 1) / vf && 0 <= c < cw implies plane_at(
                image.u_plane@,
                us as int,
                cy2,
                c,
            ) == enc8_cb_at(
                src,
                cy2 * vf * ss,
                pair_row(cy2 * vf, height as int, sampling) * ss,
                cn,
                width as int,
                f as int,
                c,
                k,
            ) && plane_at(image.v_plane@, vs as int, cy2, c) == enc8_cr_at(
                src,
                cy2 * vf * ss,
                pair_row(cy2 * vf, height as int, sampling) * ss,
                cn,
                width as int,
                f as int,
                c,
                k,
            ) by {
                lemma_row_fits(cy2, ch, us as int, cw);
                lemma_row_fits(cy2, ch, vs as int, cw);
                if vf == 2 {
                    if y % 2 == 0 {
                        assert((y + 1 + vf - 1) / vf == y / 2 + 1);
                        assert((y + vf - 1) / vf == y / 2);
                    } else {
                        assert((y + 1 + vf - 1) / vf == (y + vf - 1) / vf);
                    }
                }
                if cy2 < (y + vf - 1) / vf {
                    if compute_uv {
                        lemma_rows_disjoint(cy2, cy as int, us as int, c, cw);
                        lemma_rows_disjoint(cy2, cy as int, vs as int, c, cw);
                    }
                    assert(image.u_plane@[cy2 * us + c] == up[cy2 * us + c]);
                    assert(image.v_plane@[cy2 * vs + c] == vp[cy2 * vs + c]);
                    assert(plane_at(up, us as int, cy2, c) == enc8_cb_at(
                        src,
                        cy2 * vf * ss,
                        pair_row(cy2 * vf, height as int, sampling) * ss,
                        cn,
                        width as int,
                        f as int,
                        c,
                        k,
                    ));
                    assert(plane_at(vp, vs as int, cy2, c) == enc8_cr_at(
                        src,
                        cy2 * vf * ss,
                        pair_row(cy2 * vf, height as int, sampling) * ss,
                        cn,
                        width as int,
                        f as int,
                        c,
                        k,
                    ));
                } else {
                    assert(compute_uv && cy2 == cy);
                    assert(cy2 * vf == y);
                    assert(pair_row(cy2 * vf, height as int, sampling) == y1);
                    assert(image.u_plane@[u_off + c] == enc8_cb_at(
                        src,
                        src_off0 as int,
                        src_off1 as int,
                        cn,
                        width as int,
                        f as int,
                        c,
                        k,
                    ));
                }
            }
        }
        y = y + 1;
    }
    Ok(())
}


/// Encodes 8-bit RGB to YCbCr 444 planes.
pub fn rgb_to_yuv444(
    planar_image: &mut YuvPlanarImageMut<u8>,
    rgb: &[u8],
    rgb_stride: u32,
    range: YuvRange,
    matrix: YuvStandardMatrix,
) -> (r: Result<(), YuvError>)
    ensures
        encode8_outcome(
            old(planar_image),
            final(planar_image),
            rgb@,
            rgb_stride as int,
            spec_params8(range, matrix),
            YuvSourceChannels::Rgb,
            YuvChromaSubsampling::Yuv444,
            r,
        ),
{
    rgbx_to_yuv8(planar_image, rgb, rgb_stride, range, matrix, YuvSourceChannels::Rgb, YuvChromaSubsampling::Yuv444)
}

/// Encodes 8-bit RGB to YCbCr 422 planes.
pub fn rgb_to_yuv422(
    planar_image: &mut YuvPlanarImageMut<u8>,
    rgb: &[u8],
    rgb_stride: u32,
    range: YuvRange,
    matrix: YuvStandardMatrix,
) -> (r: Result<(), YuvError>)
    ensures
        encode8_outcome(
            old(planar_image),
            final(planar_image),
            rgb@,
            rgb_stride as int,
            spec_params8(range, matrix),
            YuvSourceChannels::Rgb,
            YuvChromaSubsampling::Yuv422,
            r,
        ),
{
    rgbx_to_yuv8(planar_image, rgb, rgb_stride, range, matrix, YuvSourceChannels::Rgb, YuvChromaSubsampling::Yuv422)
}

/// Encodes 8-bit RGB to YCbCr 420 planes.
pub fn rgb_to_yuv420(
    planar_image: &mut YuvPlanarImageMut<u8>,
    rgb: &[u8],
    rgb_stride: u32,
    range: YuvRange,
    matrix: YuvStandardMatrix,
) -> (r: Result<(), YuvError>)
    ensures
        encode8_outcome(
            old(planar_image),
            final(planar_image),
            rgb@,
            rgb_stride as int,
            spec_params8(range, matrix),
            YuvSourceChannels::Rgb,
            YuvChromaSubsampling::Yuv420,
            r,
        ),
{
    rgbx_to_yuv8(planar_image, rgb, rgb_stride, range, matrix, YuvSourceChannels::Rgb, YuvChromaSubsampling::Yuv420)
}

/// Encodes 8-bit RGBA to YCbCr 444 planes.
pub fn rgba_to_yuv444(
    planar_image: &mut YuvPlanarImageMut<u8>,
    rgba: &[u8],
    rgba_stride: u32,
    range: YuvRange,
    matrix: YuvStandardMatrix,
) -> (r: Result<(), YuvError>)
    ensures
        encode8_outcome(
            old(planar_image),
            final(planar_image),
            rgba@,
            rgba_stride as int,
            spec_params8(range, matrix),
            YuvSourceChannels::Rgba,
            YuvChromaSubsampling::Yuv444,
            r,
        ),
{
    rgbx_to_yuv8(planar_image, rgba, rgba_stride, range, matrix, YuvSourceChannels::Rgba, YuvChromaSubsampling::Yuv444)
}

/// Encodes 8-bit RGBA to YCbCr 422 planes.
pub fn rgba_to_yuv422(
    planar_image: &mut YuvPlanarImageMut<u8>,
    rgba: &[u8],
    rgba_stride: u32,
    range: YuvRange,
    matrix: YuvStandardMatrix,
) -> (r: Result<(), YuvError>)
    ensures
        encode8_outcome(
            old(planar_image),
            final(planar_image),
            rgba@,
            rgba_stride as int,
            spec_params8(range, matrix),
            YuvSourceChannels::Rgba,
            YuvChromaSubsampling::Yuv422,
            r,
        ),
{
    rgbx_to_yuv8(planar_image, rgba, rgba_stride, range, matrix, YuvSourceChannels::Rgba, YuvChromaSubsampling::Yuv422)
}

/// Encodes 8-bit RGBA to YCbCr 420 planes.
pub fn rgba_to_yuv420(
    planar_image: &mut YuvPlanarImageMut<u8>,
    rgba: &[u8],
    rgba_stride: u32,
    range: YuvRange,
    matrix: YuvStandardMatrix,
) -> (r: Result<(), YuvError>)
    ensures
        encode8_outcome(
            old(planar_image),
            final(planar_image),
            rgba@,
            rgba_stride as int,
            spec_params8(range, matrix),
            YuvSourceChannels::Rgba,
            YuvChromaSubsampling::Yuv420,
            r,
        ),
{
    rgbx_to_yuv8(planar_image, rgba, rgba_stride, range, matrix, YuvSourceChannels::Rgba, YuvChromaSubsampling::Yuv420)
}

} // verus!
