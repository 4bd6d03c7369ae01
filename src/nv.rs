//! 8-bit bi-planar (NV12, NV21, NV16, NV61, NV24, NV42) images to interleaved RGB.

use vstd::prelude::*;

use crate::layout::{
    lemma_channel_in_row, lemma_pixels_disjoint, lemma_row_fits, lemma_rows_disjoint, px_row,
    row_factor, chroma_factor, store_pixel,
};
use crate::support::{
    as_result, check_plane, chroma_height, chroma_height_exec, chroma_width, chroma_width_exec,
    first_error, get_yuv_range, mul_wide, plane_error, spec_yuv_range, CbCrInverseTransform,
    YuvChromaRange, YuvChromaSubsampling, YuvError, YuvNVOrder, YuvRange, YuvSourceChannels,
    YuvStandardMatrix,
};
use crate::transform::{inverse_pixel, inverse_rgb, inverse_transform, spec_inverse_transform};

verus! {

/// Fractional bits of the 8-bit bi-planar decoder.
pub const NV_PRECISION: u32 = 6;

/// Red, green and blue of pixel `x` of a bi-planar row: luma from `y_off + x`, the chroma
/// pair it shares from `uv_off + 2 * (x / factor)`, in the given order.
pub open spec fn nv_rgb(
    yp: Seq<u8>,
    y_off: int,
    uv: Seq<u8>,
    uv_off: int,
    x: int,
    factor: int,
    order: YuvNVOrder,
    t: CbCrInverseTransform,
    range: YuvChromaRange,
) -> (int, int, int) {
    let c = uv_off + 2 * (x / factor);
    let first = uv[c] as int;
    let second = uv[c + 1] as int;
    let (cb, cr) = match order {
        YuvNVOrder::UV => (first, second),
        YuvNVOrder::VU => (second, first),
    };
    inverse_rgb(yp[y_off + x] as int, cb, cr, t, range, 6, 32, 255)
}

/// Pixel `x` of the interleaved row at `d_off` holds the decoded colour of the bi-planar
/// pixel `x`, and opaque alpha.
pub open spec fn nv_px(
    dst: Seq<u8>,
    d_off: int,
    cn: YuvSourceChannels,
    x: int,
    yp: Seq<u8>,
    y_off: int,
    uv: Seq<u8>,
    uv_off: int,
    factor: int,
    order: YuvNVOrder,
    t: CbCrInverseTransform,
    range: YuvChromaRange,
) -> bool {
    let rgb = nv_rgb(yp, y_off, uv, uv_off, x, factor, order, t, range);
    &&& px_row(dst, d_off, cn.spec_channels(), x, cn.spec_r()) as int == rgb.0
    &&& px_row(dst, d_off, cn.spec_channels(), x, 1) as int == rgb.1
    &&& px_row(dst, d_off, cn.spec_channels(), x, cn.spec_b()) as int == rgb.2
    &&& cn.spec_has_alpha() ==> px_row(dst, d_off, cn.spec_channels(), x, 3) == 255
}

/// Pixel `(y, x)` of `dst` holds the decoded colour of bi-planar pixel `(y, x)`.
pub open spec fn nv_pixel(
    dst: Seq<u8>,
    dst_stride: int,
    cn: YuvSourceChannels,
    y: int,
    x: int,
    yp: Seq<u8>,
    y_stride: int,
    uv: Seq<u8>,
    uv_stride: int,
    sampling: YuvChromaSubsampling,
    order: YuvNVOrder,
    t: CbCrInverseTransform,
    range: YuvChromaRange,
) -> bool {
    nv_px(
        dst,
        y * dst_stride,
        cn,
        x,
        yp,
        y * y_stride,
        uv,
        (y / row_factor(sampling)) * uv_stride,
        chroma_factor(sampling),
        order,
        t,
        range,
    )
}

/// Decodes one bi-planar row into the interleaved row at `d_off`.
fn nv_row(
    dst: &mut [u8],
    d_off: usize,
    yp: &[u8],
    y_off: usize,
    uv: &[u8],
    uv_off: usize,
    width: usize,
    factor: usize,
    order: YuvNVOrder,
    cn: YuvSourceChannels,
    t: &CbCrInverseTransform,
    range: &YuvChromaRange,
)
    requires
        t.wf(),
        range.bias_y <= 255,
        range.bias_uv <= 255,
        factor == 1 || factor == 2,
        d_off + width * cn.spec_channels() <= old(dst)@.len(),
        y_off + width <= yp@.len(),
        uv_off + 2 * ((width + factor - 1) / (factor as int)) <= uv@.len(),
    ensures
        final(dst)@.len() == old(dst)@.len(),
        forall|x: int|
            0 <= x < width ==> #[trigger] nv_px(
                final(dst)@,
                d_off as int,
                cn,
                x,
                yp@,
                y_off as int,
                uv@,
                uv_off as int,
                factor as int,
                order,
                *t,
                *range,
            ),
        forall|i: int|
            0 <= i < old(dst)@.len() && !(d_off <= i < d_off + width * cn.spec_channels())
                ==> final(dst)@[i] == old(dst)@[i],
{
    let chans = cn.get_channels_count();
    let _d_len = dst.len();
    let _y_len = yp.len();
    let _uv_len = uv.len();
    let ghost d0 = dst@;
    let mut x: usize = 0;
    while x < width
        invariant
            t.wf(),
            range.bias_y <= 255,
            range.bias_uv <= 255,
            factor == 1 || factor == 2,
            x <= width,
            chans == cn.spec_channels(),
            _d_len == dst@.len() == d0.len(),
            _y_len == yp@.len(),
            _uv_len == uv@.len(),
            d_off + width * chans <= d0.len(),
            y_off + width <= yp@.len(),
            uv_off + 2 * ((width + factor - 1) / (factor as int)) <= uv@.len(),
            forall|x2: int|
                0 <= x2 < x ==> #[trigger] nv_px(
                    dst@,
                    d_off as int,
                    cn,
                    x2,
                    yp@,
                    y_off as int,
                    uv@,
                    uv_off as int,
                    factor as int,
                    order,
                    *t,
                    *range,
                ),
            forall|i: int|
                0 <= i < d0.len() && !(d_off <= i < d_off + x * chans) ==> dst@[i] == d0[i],
        decreases width - x,
    {
        proof {
            lemma_channel_in_row(x as int, width as int, chans as int, 0);
            if factor == 2 {
                assert(x / 2 < (width + 1) / 2);
            }
        }
        let c = uv_off + 2 * (x / factor);
        let first = uv[c] as i64;
        let second = uv[c + 1] as i64;
        let (cb, cr) = match order {
            YuvNVOrder::UV => (first, second),
            YuvNVOrder::VU => (second, first),
        };
        let rgb = inverse_pixel(yp[y_off + x] as i64, cb, cr, t, range, 6, 32, 255);
        let base = d_off + x * chans;
        let ghost before = dst@;
        store_pixel(dst, base, cn, rgb.0 as u8, rgb.1 as u8, rgb.2 as u8, 255u8);
        proof {
            assert forall|x2: int| 0 <= x2 < x + 1 implies #[trigger] nv_px(
                dst@,
                d_off as int,
                cn,
                x2,
                yp@,
                y_off as int,
                uv@,
                uv_off as int,
                factor as int,
                order,
                *t,
                *range,
            ) by {
                if x2 < x {
                    lemma_pixels_disjoint(x2, x as int, chans as int, cn.spec_r());
                    lemma_pixels_disjoint(x2, x as int, chans as int, 1);
                    lemma_pixels_disjoint(x2, x as int, chans as int, cn.spec_b());
                    if cn.spec_has_alpha() {
                        lemma_pixels_disjoint(x2, x as int, chans as int, 3);
                    }
                    lemma_channel_in_row(x2, width as int, chans as int, 0);
                    assert(nv_px(
                        before,
                        d_off as int,
                        cn,
                        x2,
                        yp@,
                        y_off as int,
                        uv@,
                        uv_off as int,
                        factor as int,
                        order,
                        *t,
                        *range,
                    ));
                }
            }
            assert(x * chans + chans == (x + 1) * chans) by (nonlinear_arith);
        }
        x = x + 1;
    }
}

/// The interleaved image `dst` holds the decoded colours of the bi-planar image.
pub open spec fn nv_written(
    dst: Seq<u8>,
    dst_stride: int,
    cn: YuvSourceChannels,
    yp: Seq<u8>,
    y_stride: int,
    uv: Seq<u8>,
    uv_stride: int,
    width: int,
    height: int,
    sampling: YuvChromaSubsampling,
    order: YuvNVOrder,
    range: YuvRange,
    matrix: YuvStandardMatrix,
) -> bool {
    forall|y: int, x: int|
        0 <= y < height && 0 <= x < width ==> #[trigger] nv_pixel(
            dst,
            dst_stride,
            cn,
            y,
            x,
            yp,
            y_stride,
            uv,
            uv_stride,
            sampling,
            order,
            spec_inverse_transform(6, 8, range, matrix),
            spec_yuv_range(8, range),
        )
}

/// What the validation of a bi-planar decode reports, if anything: the luma plane, the
/// chroma plane (two samples per chroma position), then the destination.
pub open spec fn nv_error(
    y_len: int,
    y_stride: int,
    uv_len: int,
    uv_stride: int,
    dst_len: int,
    dst_stride: int,
    width: int,
    height: int,
    sampling: YuvChromaSubsampling,
    cn: YuvSourceChannels,
) -> Option<YuvError> {
    first_error(
        plane_error(width, height, y_stride, y_len),
        first_error(
            plane_error(
                2 * chroma_width(width, sampling),
                chroma_height(height, sampling),
                uv_stride,
                uv_len,
            ),
            plane_error(width * cn.spec_channels(), height, dst_stride, dst_len),
        ),
    )
}

/// What a bi-planar decode call promises.
pub open spec fn nv_outcome(
    yp: Seq<u8>,
    y_stride: int,
    uv: Seq<u8>,
    uv_stride: int,
    before: Seq<u8>,
    after: Seq<u8>,
    dst_stride: int,
    width: int,
    height: int,
    range: YuvRange,
    matrix: YuvStandardMatrix,
    sampling: YuvChromaSubsampling,
    order: YuvNVOrder,
    cn: YuvSourceChannels,
    r: Result<(), YuvError>,
) -> bool {
    &&& r == as_result(
        nv_error(
            yp.len() as int,
            y_stride,
            uv.len() as int,
            uv_stride,
            before.len() as int,
            dst_stride,
            width,
            height,
            sampling,
            cn,
        ),
    )
    &&& after.len() == before.len()
    &&& r is Err ==> after == before
    &&& r is Ok ==> nv_written(
        after,
        dst_stride,
        cn,
        yp,
        y_stride,
        uv,
        uv_stride,
        width,
        height,
        sampling,
        order,
        range,
        matrix,
    )
}

/// Decodes an 8-bit bi-planar image (luma plane plus one interleaved chroma plane) to
/// interleaved RGB in the layout `cn`.
pub fn yuv_nv12_to_rgbx(
    y_plane: &[u8],
    y_stride: u32,
    uv_plane: &[u8],
    uv_stride: u32,
    bgra: &mut [u8],
    bgra_stride: u32,
    width: u32,
    height: u32,
    range: YuvRange,
    matrix: YuvStandardMatrix,
    order: YuvNVOrder,
    cn: YuvSourceChannels,
    sampling: YuvChromaSubsampling,
) -> (r: Result<(), YuvError>)
    ensures
        nv_outcome(
            y_plane@,
            y_stride as int,
            uv_plane@,
            uv_stride as int,
            old(bgra)@,
            final(bgra)@,
            bgra_stride as int,
            width as int,
            height as int,
            range,
            matrix,
            sampling,
            order,
            cn,
            r,
        ),
{
    let cw = chroma_width_exec(width, sampling);
    let ch = chroma_height_exec(height, sampling);
    let chans = cn.get_channels_count();
    check_plane(width as u64, height, y_stride, y_plane.len())?;
    check_plane(2 * cw as u64, ch, uv_stride, uv_plane.len())?;
    check_plane(mul_wide(width, chans as u32), height, bgra_stride, bgra.len())?;
    let cr = get_yuv_range(8, range);
    let t = inverse_transform(6, 8, range, matrix);
    proof {
        crate::support::reveal_pow2_7();
        crate::support::reveal_pow2_8();
        reveal_with_fuel(crate::support::pow2, 2);
    }
    let w = width as usize;
    let h = height as usize;
    let ys = y_stride as usize;
    let uvs = uv_stride as usize;
    let ds = bgra_stride as usize;
    let f: usize = match sampling {
        YuvChromaSubsampling::Yuv444 => 1,
        _ => 2,
    };
    let is420 = match sampling {
        YuvChromaSubsampling::Yuv420 => true,
        _ => false,
    };
    let _y_len = y_plane.len();
    let _uv_len = uv_plane.len();
    let _d_len = bgra.len();
    let ghost d_start = bgra@;
    proof {
        if f == 1 {
            assert(cw == (w + f - 1) / (f as int));
        } else {
            assert(cw == (w + f - 1) / (f as int));
        }
    }
    let mut y: usize = 0;
    while y < h
        invariant
            t == spec_inverse_transform(6, 8, range, matrix),
            cr == spec_yuv_range(8, range),
            t.wf(),
            cr.bias_y <= 255,
            cr.bias_uv <= 255,
            w == width,
            h == height,
            ys == y_stride,
            uvs == uv_stride,
            ds == bgra_stride,
            chans == cn.spec_channels(),
            f == chroma_factor(sampling),
            is420 == (sampling == YuvChromaSubsampling::Yuv420),
            cw == chroma_width(w as int, sampling),
            ch == chroma_height(h as int, sampling),
            cw == (w + f - 1) / (f as int),
            _y_len == y_plane@.len(),
            _uv_len == uv_plane@.len(),
            _d_len == bgra@.len() == d_start.len(),
            y <= h,
            plane_error(w as int, h as int, ys as int, _y_len as int) is None,
            plane_error(2 * cw, ch as int, uvs as int, _uv_len as int) is None,
            plane_error(w * chans, h as int, ds as int, _d_len as int) is None,
            forall|yy: int, x: int|
                0 <= yy < y && 0 <= x < w ==> #[trigger] nv_pixel(
                    bgra@,
                    ds as int,
                    cn,
                    yy,
                    x,
                    y_plane@,
                    ys as int,
                    uv_plane@,
                    uvs as int,
                    sampling,
                    order,
                    t,
                    cr,
                ),
        decreases h - y,
    {
        let cy = if is420 {
            y / 2
        } else {
            y
        };
        proof {
            lemma_row_fits(y as int, h as int, ys as int, w as int);
            lemma_row_fits(y as int, h as int, ds as int, w * chans);
            lemma_row_fits(cy as int, ch as int, uvs as int, 2 * cw);
            assert(cy == (y as int) / row_factor(sampling));
        }
        let ghost before = bgra@;
        nv_row(bgra, y * ds, y_plane, y * ys, uv_plane, cy * uvs, w, f, order, cn, &t, &cr);
        proof {
            assert forall|yy: int, x: int| 0 <= yy < y + 1 && 0 <= x < w implies #[trigger] nv_pixel(
                bgra@,
                ds as int,
                cn,
                yy,
                x,
                y_plane@,
                ys as int,
                uv_plane@,
                uvs as int,
                sampling,
                order,
                t,
                cr,
            ) by {
                lemma_row_fits(yy, h as int, ds as int, w * chans);
                if yy < y {
                    lemma_channel_in_row(x, w as int, chans as int, cn.spec_r());
                    lemma_rows_disjoint(yy, y as int, ds as int, x * chans + cn.spec_r(), w * chans);
                    lemma_channel_in_row(x, w as int, chans as int, 1);
                    lemma_rows_disjoint(yy, y as int, ds as int, x * chans + 1, w * chans);
                    lemma_channel_in_row(x, w as int, chans as int, cn.spec_b());
                    lemma_rows_disjoint(yy, y as int, ds as int, x * chans + cn.spec_b(), w * chans);
                    if cn.spec_has_alpha() {
                        lemma_channel_in_row(x, w as int, chans as int, 3);
                        lemma_rows_disjoint(yy, y as int, ds as int, x * chans + 3, w * chans);
                    }
                    assert(nv_pixel(
                        before,
                        ds as int,
                        cn,
                        yy,
                        x,
                        y_plane@,
                        ys as int,
                        uv_plane@,
                        uvs as int,
                        sampling,
                        order,
                        t,
                        cr,
                    ));
                }
            }
        }
        y = y + 1;
    }
    Ok(())
}

/// Decodes 8-bit NV12 (U then V in one chroma plane) to BGRA.
pub fn yuv_nv12_to_bgra(
    y_plane: &[u8],
    y_stride: u32,
    uv_plane: &[u8],
    uv_stride: u32,
    bgra: &mut [u8],
    bgra_stride: u32,
    width: u32,
    height: u32,
    range: YuvRange,
    matrix: YuvStandardMatrix,
) -> (r: Result<(), YuvError>)
    ensures
        nv_outcome(
            y_plane@,
            y_stride as int,
            uv_plane@,
            uv_stride as int,
            old(bgra)@,
            final(bgra)@,
            bgra_stride as int,
            width as int,
            height as int,
            range,
            matrix,
            YuvChromaSubsampling::Yuv420,
            YuvNVOrder::UV,
            YuvSourceChannels::Bgra,
            r,
        ),
{
    yuv_nv12_to_rgbx(
        y_plane,
        y_stride,
        uv_plane,
        uv_stride,
        bgra,
        bgra_stride,
        width,
        height,
        range,
        matrix,
        YuvNVOrder::UV,
        YuvSourceChannels::Bgra,
        YuvChromaSubsampling::Yuv420,
    )
}

/// Decodes 8-bit NV16 (U then V in one chroma plane) to BGRA.
pub fn yuv_nv16_to_bgra(
    y_plane: &[u8],
    y_stride: u32,
    uv_plane: &[u8],
    uv_stride: u32,
    bgra: &mut [u8],
    bgra_stride: u32,
    width: u32,
    height: u32,
    range: YuvRange,
    matrix: YuvStandardMatrix,
) -> (r: Result<(), YuvError>)
    ensures
        nv_outcome(
            y_plane@,
            y_stride as int,
            uv_plane@,
            uv_stride as int,
            old(bgra)@,
            final(bgra)@,
            bgra_stride as int,
            width as int,
            height as int,
            range,
            matrix,
            YuvChromaSubsampling::Yuv422,
            YuvNVOrder::UV,
            YuvSourceChannels::Bgra,
            r,
        ),
{
    yuv_nv12_to_rgbx(
        y_plane,
        y_stride,
        uv_plane,
        uv_stride,
        bgra,
        bgra_stride,
        width,
        height,
        range,
        matrix,
        YuvNVOrder::UV,
        YuvSourceChannels::Bgra,
        YuvChromaSubsampling::Yuv422,
    )
}

/// Decodes 8-bit NV61 (V then U in one chroma plane) to BGRA.
pub fn yuv_nv61_to_bgra(
    y_plane: &[u8],
    y_stride: u32,
    vu_plane: &[u8],
    vu_stride: u32,
    bgra: &mut [u8],
    bgra_stride: u32,
    width: u32,
    height: u32,
    range: YuvRange,
    matrix: YuvStandardMatrix,
) -> (r: Result<(), YuvError>)
    ensures
        nv_outcome(
            y_plane@,
            y_stride as int,
            vu_plane@,
            vu_stride as int,
            old(bgra)@,
            final(bgra)@,
            bgra_stride as int,
            width as int,
            height as int,
            range,
            matrix,
            YuvChromaSubsampling::Yuv422,
            YuvNVOrder::VU,
            YuvSourceChannels::Bgra,
            r,
        ),
{
    yuv_nv12_to_rgbx(
        y_plane,
        y_stride,
        vu_plane,
        vu_stride,
        bgra,
        bgra_stride,
        width,
        height,
        range,
        matrix,
        YuvNVOrder::VU,
        YuvSourceChannels::Bgra,
        YuvChromaSubsampling::Yuv422,
    )
}

/// Decodes 8-bit NV21 (V then U in one chroma plane) to BGRA.
pub fn yuv_nv21_to_bgra(
    y_plane: &[u8],
    y_stride: u32,
    vu_plane: &[u8],
    vu_stride: u32,
    bgra: &mut [u8],
    bgra_stride: u32,
    width: u32,
    height: u32,
    range: YuvRange,
    matrix: YuvStandardMatrix,
) -> (r: Result<(), YuvError>)
    ensures
        nv_outcome(
            y_plane@,
            y_stride as int,
            vu_plane@,
            vu_stride as int,
            old(bgra)@,
            final(bgra)@,
            bgra_stride as int,
            width as int,
            height as int,
            range,
            matrix,
            YuvChromaSubsampling::Yuv420,
            YuvNVOrder::VU,
            YuvSourceChannels::Bgra,
            r,
        ),
{
    yuv_nv12_to_rgbx(
        y_plane,
        y_stride,
        vu_plane,
        vu_stride,
        bgra,
        bgra_stride,
        width,
        height,
        range,
        matrix,
        YuvNVOrder::VU,
        YuvSourceChannels::Bgra,
        YuvChromaSubsampling::Yuv420,
    )
}

/// Decodes 8-bit NV16 (U then V in one chroma plane) to RGBA.
pub fn yuv_nv16_to_rgba(
    y_plane: &[u8],
    y_stride: u32,
    uv_plane: &[u8],
    uv_stride: u32,
    rgba: &mut [u8],
    rgba_stride: u32,
    width: u32,
    height: u32,
    range: YuvRange,
    matrix: YuvStandardMatrix,
) -> (r: Result<(), YuvError>)
    ensures
        nv_outcome(
            y_plane@,
            y_stride as int,
            uv_plane@,
            uv_stride as int,
            old(rgba)@,
            final(rgba)@,
            rgba_stride as int,
            width as int,
            height as int,
            range,
            matrix,
            YuvChromaSubsampling::Yuv422,
            YuvNVOrder::UV,
            YuvSourceChannels::Rgba,
            r,
        ),
{
    yuv_nv12_to_rgbx(
        y_plane,
        y_stride,
        uv_plane,
        uv_stride,
        rgba,
        rgba_stride,
        width,
        height,
        range,
        matrix,
        YuvNVOrder::UV,
        YuvSourceChannels::Rgba,
        YuvChromaSubsampling::Yuv422,
    )
}

/// Decodes 8-bit NV61 (V then U in one chroma plane) to RGBA.
pub fn yuv_nv61_to_rgba(
    y_plane: &[u8],
    y_stride: u32,
    vu_plane: &[u8],
    vu_stride: u32,
    rgba: &mut [u8],
    rgba_stride: u32,
    width: u32,
    height: u32,
    range: YuvRange,
    matrix: YuvStandardMatrix,
) -> (r: Result<(), YuvError>)
    ensures
        nv_outcome(
            y_plane@,
            y_stride as int,
            vu_plane@,
            vu_stride as int,
            old(rgba)@,
            final(rgba)@,
            rgba_stride as int,
            width as int,
            height as int,
            range,
            matrix,
            YuvChromaSubsampling::Yuv422,
            YuvNVOrder::VU,
            YuvSourceChannels::Rgba,
            r,
        ),
{
    yuv_nv12_to_rgbx(
        y_plane,
        y_stride,
        vu_plane,
        vu_stride,
        rgba,
        rgba_stride,
        width,
        height,
        range,
        matrix,
        YuvNVOrder::VU,
        YuvSourceChannels::Rgba,
        YuvChromaSubsampling::Yuv422,
    )
}

/// Decodes 8-bit NV12 (U then V in one chroma plane) to RGBA.
pub fn yuv_nv12_to_rgba(
    y_plane: &[u8],
    y_stride: u32,
    uv_plane: &[u8],
    uv_stride: u32,
    rgba: &mut [u8],
    rgba_stride: u32,
    width: u32,
    height: u32,
    range: YuvRange,
    matrix: YuvStandardMatrix,
) -> (r: Result<(), YuvError>)
    ensures
        nv_outcome(
            y_plane@,
            y_stride as int,
            uv_plane@,
            uv_stride as int,
            old(rgba)@,
            final(rgba)@,
            rgba_stride as int,
            width as int,
            height as int,
            range,
            matrix,
            YuvChromaSubsampling::Yuv420,
            YuvNVOrder::UV,
            YuvSourceChannels::Rgba,
            r,
        ),
{
    yuv_nv12_to_rgbx(
        y_plane,
        y_stride,
        uv_plane,
        uv_stride,
        rgba,
        rgba_stride,
        width,
        height,
        range,
        matrix,
        YuvNVOrder::UV,
        YuvSourceChannels::Rgba,
        YuvChromaSubsampling::Yuv420,
    )
}

/// Decodes 8-bit NV21 (V then U in one chroma plane) to RGBA.
pub fn yuv_nv21_to_rgba(
    y_plane: &[u8],
    y_stride: u32,
    vu_plane: &[u8],
    vu_stride: u32,
    rgba: &mut [u8],
    rgba_stride: u32,
    width: u32,
    height: u32,
    range: YuvRange,
    matrix: YuvStandardMatrix,
) -> (r: Result<(), YuvError>)
    ensures
        nv_outcome(
            y_plane@,
            y_stride as int,
            vu_plane@,
            vu_stride as int,
            old(rgba)@,
            final(rgba)@,
            rgba_stride as int,
            width as int,
            height as int,
            range,
            matrix,
            YuvChromaSubsampling::Yuv420,
            YuvNVOrder::VU,
            YuvSourceChannels::Rgba,
            r,
        ),
{
    yuv_nv12_to_rgbx(
        y_plane,
        y_stride,
        vu_plane,
        vu_stride,
        rgba,
        rgba_stride,
        width,
        height,
        range,
        matrix,
        YuvNVOrder::VU,
        YuvSourceChannels::Rgba,
        YuvChromaSubsampling::Yuv420,
    )
}

/// Decodes 8-bit NV12 (U then V in one chroma plane) to RGB.
pub fn yuv_nv12_to_rgb(
    y_plane: &[u8],
    y_stride: u32,
    uv_plane: &[u8],
    uv_stride: u32,
    rgb: &mut [u8],
    rgb_stride: u32,
    width: u32,
    height: u32,
    range: YuvRange,
    matrix: YuvStandardMatrix,
) -> (r: Result<(), YuvError>)
    ensures
        nv_outcome(
            y_plane@,
            y_stride as int,
            uv_plane@,
            uv_stride as int,
            old(rgb)@,
            final(rgb)@,
            rgb_stride as int,
            width as int,
            height as int,
            range,
            matrix,
            YuvChromaSubsampling::Yuv420,
            YuvNVOrder::UV,
            YuvSourceChannels::Rgb,
            r,
        ),
{
    yuv_nv12_to_rgbx(
        y_plane,
        y_stride,
        uv_plane,
        uv_stride,
        rgb,
        rgb_stride,
        width,
        height,
        range,
        matrix,
        YuvNVOrder::UV,
        YuvSourceChannels::Rgb,
        YuvChromaSubsampling::Yuv420,
    )
}

/// Decodes 8-bit NV16 (U then V in one chroma plane) to RGB.
pub fn yuv_nv16_to_rgb(
    y_plane: &[u8],
    y_stride: u32,
    uv_plane: &[u8],
    uv_stride: u32,
    rgb: &mut [u8],
    rgb_stride: u32,
    width: u32,
    height: u32,
    range: YuvRange,
    matrix: YuvStandardMatrix,
) -> (r: Result<(), YuvError>)
    ensures
        nv_outcome(
            y_plane@,
            y_stride as int,
            uv_plane@,
            uv_stride as int,
            old(rgb)@,
            final(rgb)@,
            rgb_stride as int,
            width as int,
            height as int,
            range,
            matrix,
            YuvChromaSubsampling::Yuv422,
            YuvNVOrder::UV,
            YuvSourceChannels::Rgb,
            r,
        ),
{
    yuv_nv12_to_rgbx(
        y_plane,
        y_stride,
        uv_plane,
        uv_stride,
        rgb,
        rgb_stride,
        width,
        height,
        range,
        matrix,
        YuvNVOrder::UV,
        YuvSourceChannels::Rgb,
        YuvChromaSubsampling::Yuv422,
    )
}

/// Decodes 8-bit NV61 (V then U in one chroma plane) to RGB.
pub fn yuv_nv61_to_rgb(
    y_plane: &[u8],
    y_stride: u32,
    vu_plane: &[u8],
    vu_stride: u32,
    rgb: &mut [u8],
    rgb_stride: u32,
    width: u32,
    height: u32,
    range: YuvRange,
    matrix: YuvStandardMatrix,
) -> (r: Result<(), YuvError>)
    ensures
        nv_outcome(
            y_plane@,
            y_stride as int,
            vu_plane@,
            vu_stride as int,
            old(rgb)@,
            final(rgb)@,
            rgb_stride as int,
            width as int,
            height as int,
            range,
            matrix,
            YuvChromaSubsampling::Yuv422,
            YuvNVOrder::VU,
            YuvSourceChannels::Rgb,
            r,
        ),
{
    yuv_nv12_to_rgbx(
        y_plane,
        y_stride,
        vu_plane,
        vu_stride,
        rgb,
        rgb_stride,
        width,
        height,
        range,
        matrix,
        YuvNVOrder::VU,
        YuvSourceChannels::Rgb,
        YuvChromaSubsampling::Yuv422,
    )
}

/// Decodes 8-bit NV21 (V then U in one chroma plane) to RGB.
pub fn yuv_nv21_to_rgb(
    y_plane: &[u8],
    y_stride: u32,
    vu_plane: &[u8],
    vu_stride: u32,
    rgb: &mut [u8],
    rgb_stride: u32,
    width: u32,
    height: u32,
    range: YuvRange,
    matrix: YuvStandardMatrix,
) -> (r: Result<(), YuvError>)
    ensures
        nv_outcome(
            y_plane@,
            y_stride as int,
            vu_plane@,
            vu_stride as int,
            old(rgb)@,
            final(rgb)@,
            rgb_stride as int,
            width as int,
            height as int,
            range,
            matrix,
            YuvChromaSubsampling::Yuv420,
            YuvNVOrder::VU,
            YuvSourceChannels::Rgb,
            r,
        ),
{
    yuv_nv12_to_rgbx(
        y_plane,
        y_stride,
        vu_plane,
        vu_stride,
        rgb,
        rgb_stride,
        width,
        height,
        range,
        matrix,
        YuvNVOrder::VU,
        YuvSourceChannels::Rgb,
        YuvChromaSubsampling::Yuv420,
    )
}

/// Decodes 8-bit NV42 (V then U in one chroma plane) to RGBA.
pub fn yuv_nv42_to_rgba(
    y_plane: &[u8],
    y_stride: u32,
    vu_plane: &[u8],
    vu_stride: u32,
    rgba: &mut [u8],
    rgba_stride: u32,
    width: u32,
    height: u32,
    range: YuvRange,
    matrix: YuvStandardMatrix,
) -> (r: Result<(), YuvError>)
    ensures
        nv_outcome(
            y_plane@,
            y_stride as int,
            vu_plane@,
            vu_stride as int,
            old(rgba)@,
            final(rgba)@,
            rgba_stride as int,
            width as int,
            height as int,
            range,
            matrix,
            YuvChromaSubsampling::Yuv444,
            YuvNVOrder::VU,
            YuvSourceChannels::Rgba,
            r,
        ),
{
    yuv_nv12_to_rgbx(
        y_plane,
        y_stride,
        vu_plane,
        vu_stride,
        rgba,
        rgba_stride,
        width,
        height,
        range,
        matrix,
        YuvNVOrder::VU,
        YuvSourceChannels::Rgba,
        YuvChromaSubsampling::Yuv444,
    )
}

/// Decodes 8-bit NV24 (U then V in one chroma plane) to RGB.
pub fn yuv_nv24_to_rgb(
    y_plane: &[u8],
    y_stride: u32,
    uv_plane: &[u8],
    uv_stride: u32,
    rgb: &mut [u8],
    rgb_stride: u32,
    width: u32,
    height: u32,
    range: YuvRange,
    matrix: YuvStandardMatrix,
) -> (r: Result<(), YuvError>)
    ensures
        nv_outcome(
            y_plane@,
            y_stride as int,
            uv_plane@,
            uv_stride as int,
            old(rgb)@,
            final(rgb)@,
            rgb_stride as int,
            width as int,
            height as int,
            range,
            matrix,
            YuvChromaSubsampling::Yuv444,
            YuvNVOrder::UV,
            YuvSourceChannels::Rgb,
            r,
        ),
{
    yuv_nv12_to_rgbx(
        y_plane,
        y_stride,
        uv_plane,
        uv_stride,
        rgb,
        rgb_stride,
        width,
        height,
        range,
        matrix,
        YuvNVOrder::UV,
        YuvSourceChannels::Rgb,
        YuvChromaSubsampling::Yuv444,
    )
}

/// Decodes 8-bit NV24 (U then V in one chroma plane) to RGBA.
pub fn yuv_nv24_to_rgba(
    y_plane: &[u8],
    y_stride: u32,
    uv_plane: &[u8],
    uv_stride: u32,
    rgba: &mut [u8],
    rgba_stride: u32,
    width: u32,
    height: u32,
    range: YuvRange,
    matrix: YuvStandardMatrix,
) -> (r: Result<(), YuvError>)
    ensures
        nv_outcome(
            y_plane@,
            y_stride as int,
            uv_plane@,
            uv_stride as int,
            old(rgba)@,
            final(rgba)@,
            rgba_stride as int,
            width as int,
            height as int,
            range,
            matrix,
            YuvChromaSubsampling::Yuv444,
            YuvNVOrder::UV,
            YuvSourceChannels::Rgba,
            r,
        ),
{
    yuv_nv12_to_rgbx(
        y_plane,
        y_stride,
        uv_plane,
        uv_stride,
        rgba,
        rgba_stride,
        width,
        height,
        range,
        matrix,
        YuvNVOrder::UV,
        YuvSourceChannels::Rgba,
        YuvChromaSubsampling::Yuv444,
    )
}

/// Decodes 8-bit NV24 (U then V in one chroma plane) to BGRA.
pub fn yuv_nv24_to_bgra(
    y_plane: &[u8],
    y_stride: u32,
    uv_plane: &[u8],
    uv_stride: u32,
    bgra: &mut [u8],
    bgra_stride: u32,
    width: u32,
    height: u32,
    range: YuvRange,
    matrix: YuvStandardMatrix,
) -> (r: Result<(), YuvError>)
    ensures
        nv_outcome(
            y_plane@,
            y_stride as int,
            uv_plane@,
            uv_stride as int,
            old(bgra)@,
            final(bgra)@,
            bgra_stride as int,
            width as int,
            height as int,
            range,
            matrix,
            YuvChromaSubsampling::Yuv444,
            YuvNVOrder::UV,
            YuvSourceChannels::Bgra,
            r,
        ),
{
    yuv_nv12_to_rgbx(
        y_plane,
        y_stride,
        uv_plane,
        uv_stride,
        bgra,
        bgra_stride,
        width,
        height,
        range,
        matrix,
        YuvNVOrder::UV,
        YuvSourceChannels::Bgra,
        YuvChromaSubsampling::Yuv444,
    )
}

/// Decodes 8-bit NV42 (V then U in one chroma plane) to RGB.
pub fn yuv_nv42_to_rgb(
    y_plane: &[u8],
    y_stride: u32,
    vu_plane: &[u8],
    vu_stride: u32,
    rgb: &mut [u8],
    rgb_stride: u32,
    width: u32,
    height: u32,
    range: YuvRange,
    matrix: YuvStandardMatrix,
) -> (r: Result<(), YuvError>)
    ensures
        nv_outcome(
            y_plane@,
            y_stride as int,
            vu_plane@,
            vu_stride as int,
            old(rgb)@,
            final(rgb)@,
            rgb_stride as int,
            width as int,
            height as int,
            range,
            matrix,
            YuvChromaSubsampling::Yuv444,
            YuvNVOrder::VU,
            YuvSourceChannels::Rgb,
            r,
        ),
{
    yuv_nv12_to_rgbx(
        y_plane,
        y_stride,
        vu_plane,
        vu_stride,
        rgb,
        rgb_stride,
        width,
        height,
        range,
        matrix,
        YuvNVOrder::VU,
        YuvSourceChannels::Rgb,
        YuvChromaSubsampling::Yuv444,
    )
}

/// Decodes 8-bit NV42 (V then U in one chroma plane) to BGRA.
pub fn yuv_nv42_to_bgra(
    y_plane: &[u8],
    y_stride: u32,
    vu_plane: &[u8],
    vu_stride: u32,
    bgra: &mut [u8],
    bgra_stride: u32,
    width: u32,
    height: u32,
    range: YuvRange,
    matrix: YuvStandardMatrix,
) -> (r: Result<(), YuvError>)
    ensures
        nv_outcome(
            y_plane@,
            y_stride as int,
            vu_plane@,
            vu_stride as int,
            old(bgra)@,
            final(bgra)@,
            bgra_stride as int,
            width as int,
            height as int,
            range,
            matrix,
            YuvChromaSubsampling::Yuv444,
            YuvNVOrder::VU,
            YuvSourceChannels::Bgra,
            r,
        ),
{
    yuv_nv12_to_rgbx(
        y_plane,
        y_stride,
        vu_plane,
        vu_stride,
        bgra,
        bgra_stride,
        width,
        height,
        range,
        matrix,
        YuvNVOrder::VU,
        YuvSourceChannels::Bgra,
        YuvChromaSubsampling::Yuv444,
    )
}

} // verus!
