//! 16-bit planar YCbCr images to interleaved RGB of the same depth.

use vstd::prelude::*;

use crate::layout::{
    chroma_factor, lemma_channel_in_row, lemma_pixels_disjoint, lemma_row_fits,
    lemma_rows_disjoint, px_row, row_factor, store_pixel,
};
use crate::support::{
    as_result, check_plane, chroma_height, chroma_width, first_error,
    get_yuv_range, max_value, mul_wide, plane_error, pow2_exec,
    spec_yuv_range, CbCrInverseTransform, YuvBytesPacking, YuvChromaRange, YuvChromaSubsampling,
    YuvEndianness, YuvError, YuvPlanarImage, YuvRange, YuvSourceChannels, YuvStandardMatrix,
};
use crate::transform::{
    inverse_pixel, inverse_rgb, inverse_transform, normalize_sample, spec_inverse_transform,
    to_ne,
};

verus! {

/// Constants of the 16-bit planar decoder, 13 fractional bits.
#[derive(Clone, Copy, Debug, PartialEq, Eq, Structural)]
pub struct P16Params {
    pub t: CbCrInverseTransform,
    pub range: YuvChromaRange,
    pub max: u32,
    pub endianness: YuvEndianness,
    pub packing: YuvBytesPacking,
    pub depth: u32,
}

impl P16Params {
    pub open spec fn wf(self) -> bool {
        &&& self.t.wf()
        &&& self.range.bias_y <= 65535
        &&& self.range.bias_uv <= 65535
        &&& self.max <= 65535
        &&& 8 <= self.depth <= 16
    }
}

pub open spec fn spec_p16_params(
    range: YuvRange,
    matrix: YuvStandardMatrix,
    depth: nat,
    endianness: YuvEndianness,
    packing: YuvBytesPacking,
) -> P16Params {
    P16Params {
        t: spec_inverse_transform(13, depth, range, matrix),
        range: spec_yuv_range(depth, range),
        max: max_value(depth) as u32,
        endianness,
        packing,
        depth: depth as u32,
    }
}

/// Red, green and blue of pixel `x` of a planar row: luma `y_off + x`, and the chroma
/// samples `x / factor` of the chroma rows at `u_off` and `v_off`.
pub open spec fn p16_rgb(
    yp: Seq<u16>,
    y_off: int,
    up: Seq<u16>,
    u_off: int,
    vp: Seq<u16>,
    v_off: int,
    x: int,
    factor: int,
    p: P16Params,
) -> (int, int, int) {
    let d = p.depth as nat;
    inverse_rgb(
        normalize_sample(yp[y_off + x] as int, p.endianness, p.packing, d),
        normalize_sample(up[u_off + x / factor] as int, p.endianness, p.packing, d),
        normalize_sample(vp[v_off + x / factor] as int, p.endianness, p.packing, d),
        p.t,
        p.range,
        13,
        4096,
        p.max as int,
    )
}

/// Pixel `x` of the interleaved row at `d_off` holds the decoded colour of planar pixel
/// `x`, and the largest sample value as alpha.
pub open spec fn p16_px(
    dst: Seq<u16>,
    d_off: int,
    cn: YuvSourceChannels,
    x: int,
    yp: Seq<u16>,
    y_off: int,
    up: Seq<u16>,
    u_off: int,
    vp: Seq<u16>,
    v_off: int,
    factor: int,
    p: P16Params,
) -> bool {
    let rgb = p16_rgb(yp, y_off, up, u_off, vp, v_off, x, factor, p);
    &&& px_row(dst, d_off, cn.spec_channels(), x, cn.spec_r()) as int == rgb.0
    &&& px_row(dst, d_off, cn.spec_channels(), x, 1) as int == rgb.1
    &&& px_row(dst, d_off, cn.spec_channels(), x, cn.spec_b()) as int == rgb.2
    &&& cn.spec_has_alpha() ==> px_row(dst, d_off, cn.spec_channels(), x, 3) as int == p.max
}

/// Pixel `(y, x)` of `dst` holds the decoded colour of planar pixel `(y, x)`.
pub open spec fn p16_pixel(
    dst: Seq<u16>,
    dst_stride: int,
    cn: YuvSourceChannels,
    y: int,
    x: int,
    image: &YuvPlanarImage<u16>,
    sampling: YuvChromaSubsampling,
    p: P16Params,
) -> bool {
    let cy = y / row_factor(sampling);
    p16_px(
        dst,
        y * dst_stride,
        cn,
        x,
        image.y_plane@,
        y * image.y_stride,
        image.u_plane@,
        cy * image.u_stride,
        image.v_plane@,
        cy * image.v_stride,
        chroma_factor(sampling),
        p,
    )
}

/// Decodes one planar row into the interleaved row at `d_off`.
fn p16_row(
    dst: &mut [u16],
    d_off: usize,
    yp: &[u16],
    y_off: usize,
    up: &[u16],
    u_off: usize,
    vp: &[u16],
    v_off: usize,
    width: usize,
    factor: usize,
    cn: YuvSourceChannels,
    p: &P16Params,
)
    requires
        p.wf(),
        factor == 1 || factor == 2,
        d_off + width * cn.spec_channels() <= old(dst)@.len(),
        y_off + width <= yp@.len(),
        u_off + (width + factor - 1) / (factor as int) <= up@.len(),
        v_off + (width + factor - 1) / (factor as int) <= vp@.len(),
    ensures
        final(dst)@.len() == old(dst)@.len(),
        forall|x: int|
            0 <= x < width ==> #[trigger] p16_px(
                final(dst)@,
                d_off as int,
                cn,
                x,
                yp@,
                y_off as int,
                up@,
                u_off as int,
                vp@,
                v_off as int,
                factor as int,
                *p,
            ),
        forall|i: int|
            0 <= i < old(dst)@.len() && !(d_off <= i < d_off + width * cn.spec_channels())
                ==> final(dst)@[i] == old(dst)@[i],
{
    let chans = cn.get_channels_count();
    let _d_len = dst.len();
    let _y_len = yp.len();
    let _u_len = up.len();
    let _v_len = vp.len();
    let ghost d0 = dst@;
    let mut x: usize = 0;
    while x < width
        invariant
            p.wf(),
            factor == 1 || factor == 2,
            x <= width,
            chans == cn.spec_channels(),
            _d_len == dst@.len() == d0.len(),
            _y_len == yp@.len(),
            _u_len == up@.len(),
            _v_len == vp@.len(),
            d_off + width * chans <= d0.len(),
            y_off + width <= yp@.len(),
            u_off + (width + factor - 1) / (factor as int) <= up@.len(),
            v_off + (width + factor - 1) / (factor as int) <= vp@.len(),
            forall|x2: int|
                0 <= x2 < x ==> #[trigger] p16_px(
                    dst@,
                    d_off as int,
                    cn,
                    x2,
                    yp@,
                    y_off as int,
                    up@,
                    u_off as int,
                    vp@,
                    v_off as int,
                    factor as int,
                    *p,
                ),
            forall|i: int|
                0 <= i < d0.len() && !(d_off <= i < d_off + x * chans) ==> dst@[i] == d0[i],
        decreases width - x,
    {
        proof {
            lemma_channel_in_row(x as int, width as int, chans as int, 0);
            if factor == 2 {
                assert(x / 2 < (width + 1) / 2);
            }
        }
        let c = x / factor;
        let yv = to_ne(yp[y_off + x], p.endianness, p.packing, p.depth);
        let cb = to_ne(up[u_off + c], p.endianness, p.packing, p.depth);
        let cr = to_ne(vp[v_off + c], p.endianness, p.packing, p.depth);
        let rgb = inverse_pixel(
            yv as i64,
            cb as i64,
            cr as i64,
            &p.t,
            &p.range,
            13,
            4096,
            p.max as i64,
        );
        let base = d_off + x * chans;
        let ghost before = dst@;
        store_pixel(dst, base, cn, rgb.0 as u16, rgb.1 as u16, rgb.2 as u16, p.max as u16);
        proof {
            assert forall|x2: int| 0 <= x2 < x + 1 implies #[trigger] p16_px(
                dst@,
                d_off as int,
                cn,
                x2,
                yp@,
                y_off as int,
                up@,
                u_off as int,
                vp@,
                v_off as int,
                factor as int,
                *p,
            ) by {
                if x2 < x {
                    lemma_pixels_disjoint(x2, x as int, chans as int, cn.spec_r());
                    lemma_pixels_disjoint(x2, x as int, chans as int, 1);
                    lemma_pixels_disjoint(x2, x as int, chans as int, cn.spec_b());
                    if cn.spec_has_alpha() {
                        lemma_pixels_disjoint(x2, x as int, chans as int, 3);
                    }
                    lemma_channel_in_row(x2, width as int, chans as int, 0);
                    assert(p16_px(
                        before,
                        d_off as int,
                        cn,
                        x2,
                        yp@,
                        y_off as int,
                        up@,
                        u_off as int,
                        vp@,
                        v_off as int,
                        factor as int,
                        *p,
                    ));
                }
            }
            assert(x * chans + chans == (x + 1) * chans) by (nonlinear_arith);
        }
        x = x + 1;
    }
}

/// The interleaved image `dst` holds the decoded colours of every pixel of `image`.
pub open spec fn p16_written(
    dst: Seq<u16>,
    dst_stride: int,
    cn: YuvSourceChannels,
    image: &YuvPlanarImage<u16>,
    sampling: YuvChromaSubsampling,
    p: P16Params,
) -> bool {
    forall|y: int, x: int|
        0 <= y < image.height && 0 <= x < image.width ==> #[trigger] p16_pixel(
            dst,
            dst_stride,
            cn,
            y,
            x,
            image,
            sampling,
            p,
        )
}

/// What the validation of a 16-bit planar decode reports, if anything: the planes, then
/// the destination.
pub open spec fn p16_planes_error(
    image: &YuvPlanarImage<u16>,
    dst_len: int,
    dst_stride: int,
    cn: YuvSourceChannels,
    sampling: YuvChromaSubsampling,
) -> Option<YuvError> {
    first_error(
        image.spec_error(sampling),
        plane_error(image.width * cn.spec_channels(), image.height as int, dst_stride, dst_len),
    )
}

/// Decodes a planar image of `bit_depth`-bit samples to interleaved RGB of the same depth.
pub fn yuv_p16_to_image_p16_ant(
    image: &YuvPlanarImage<u16>,
    rgba16: &mut [u16],
    rgba_stride: u32,
    range: YuvRange,
    matrix: YuvStandardMatrix,
    bit_depth: u32,
    cn: YuvSourceChannels,
    sampling: YuvChromaSubsampling,
    endianness: YuvEndianness,
    packing: YuvBytesPacking,
) -> (r: Result<(), YuvError>)
    requires
        8 <= bit_depth <= 16,
    ensures
        r == as_result(p16_planes_error(image, old(rgba16)@.len() as int, rgba_stride as int, cn, sampling)),
        final(rgba16)@.len() == old(rgba16)@.len(),
        r is Err ==> final(rgba16)@ == old(rgba16)@,
        r is Ok ==> p16_written(
            final(rgba16)@,
            rgba_stride as int,
            cn,
            image,
            sampling,
            spec_p16_params(range, matrix, bit_depth as nat, endianness, packing),
        ),
{
    image.check_constraints(sampling)?;
    let chans = cn.get_channels_count();
    check_plane(mul_wide(image.width, chans as u32), image.height, rgba_stride, rgba16.len())?;
    let cr = get_yuv_range(bit_depth, range);
    let t = inverse_transform(13, bit_depth, range, matrix);
    let full = pow2_exec(bit_depth);
    let p = P16Params { t, range: cr, max: full - 1, endianness, packing, depth: bit_depth };
    let w = image.width as usize;
    let h = image.height as usize;
    let ys = image.y_stride as usize;
    let us = image.u_stride as usize;
    let vs = image.v_stride as usize;
    let ds = rgba_stride as usize;
    let f: usize = match sampling {
        YuvChromaSubsampling::Yuv444 => 1,
        _ => 2,
    };
    let is420 = match sampling {
        YuvChromaSubsampling::Yuv420 => true,
        _ => false,
    };
    let ghost cw = chroma_width(w as int, sampling);
    let ghost ch = chroma_height(h as int, sampling);
    let _y_len = image.y_plane.len();
    let _u_len = image.u_plane.len();
    let _v_len = image.v_plane.len();
    let _d_len = rgba16.len();
    let ghost d_start = rgba16@;
    proof {
        if f == 1 {
            assert(cw == (w + f - 1) / (f as int));
        } else {
            assert(cw == (w + f - 1) / (f as int));
        }
    }
    let mut y: usize = 0;
    while y < h
        invariant
            p == spec_p16_params(range, matrix, bit_depth as nat, endianness, packing),
            p.wf(),
            w == image.width,
            h == image.height,
            ys == image.y_stride,
            us == image.u_stride,
            vs == image.v_stride,
            ds == rgba_stride,
            chans == cn.spec_channels(),
            f == chroma_factor(sampling),
            is420 == (sampling == YuvChromaSubsampling::Yuv420),
            cw == chroma_width(w as int, sampling),
            ch == chroma_height(h as int, sampling),
            cw == (w + f - 1) / (f as int),
            _y_len == image.y_plane@.len(),
            _u_len == image.u_plane@.len(),
            _v_len == image.v_plane@.len(),
            _d_len == rgba16@.len() == d_start.len(),
            y <= h,
            image.spec_error(sampling) is None,
            plane_error(w * chans, h as int, ds as int, _d_len as int) is None,
            forall|yy: int, x: int|
                0 <= yy < y && 0 <= x < w ==> #[trigger] p16_pixel(
                    rgba16@,
                    ds as int,
                    cn,
                    yy,
                    x,
                    image,
                    sampling,
                    p,
                ),
        decreases h - y,
    {
        let cy = if is420 {
            y / 2
        } else {
            y
        };
        proof {
            lemma_row_fits(y as int, h as int, ys as int, w as int);
            lemma_row_fits(y as int, h as int, ds as int, w * chans);
            lemma_row_fits(cy as int, ch as int, us as int, cw);
            lemma_row_fits(cy as int, ch as int, vs as int, cw);
            assert(cy == (y as int) / row_factor(sampling));
        }
        let ghost before = rgba16@;
        p16_row(
            rgba16,
            y * ds,
            image.y_plane,
            y * ys,
            image.u_plane,
            cy * us,
            image.v_plane,
            cy * vs,
            w,
            f,
            cn,
            &p,
        );
        proof {
            assert forall|yy: int, x: int| 0 <= yy < y + 1 && 0 <= x < w implies #[trigger] p16_pixel(
                rgba16@,
                ds as int,
                cn,
                yy,
                x,
                image,
                sampling,
                p,
            ) by {
                lemma_row_fits(yy, h as int, ds as int, w * chans);
                if yy < y {
                    lemma_channel_in_row(x, w as int, chans as int, cn.spec_r());
                    lemma_rows_disjoint(yy, y as int, ds as int, x * chans + cn.spec_r(), w * chans);
                    lemma_channel_in_row(x, w as int, chans as int, 1);
                    lemma_rows_disjoint(yy, y as int, ds as int, x * chans + 1, w * chans);
                    lemma_channel_in_row(x, w as int, chans as int, cn.spec_b());
                    lemma_rows_disjoint(yy, y as int, ds as int, x * chans + cn.spec_b(), w * chans);
                    if cn.spec_has_alpha() {
                        lemma_channel_in_row(x, w as int, chans as int, 3);
                        lemma_rows_disjoint(yy, y as int, ds as int, x * chans + 3, w * chans);
                    }
                    assert(p16_pixel(before, ds as int, cn, yy, x, image, sampling, p));
                }
            }
        }
        y = y + 1;
    }
    Ok(())
}

/// What a 16-bit planar decode call promises.
pub open spec fn p16_outcome(
    image: &YuvPlanarImage<u16>,
    before: Seq<u16>,
    after: Seq<u16>,
    dst_stride: int,
    range: YuvRange,
    matrix: YuvStandardMatrix,
    bit_depth: int,
    cn: YuvSourceChannels,
    sampling: YuvChromaSubsampling,
    endianness: YuvEndianness,
    packing: YuvBytesPacking,
    r: Result<(), YuvError>,
) -> bool {
    &&& r == as_result(
        if bit_depth != 10 && bit_depth != 12 {
            Some(YuvError::UnsupportedBitDepth)
        } else {
            p16_planes_error(image, before.len() as int, dst_stride, cn, sampling)
        },
    )
    &&& after.len() == before.len()
    &&& r is Err ==> after == before
    &&& r is Ok ==> p16_written(
        after,
        dst_stride,
        cn,
        image,
        sampling,
        spec_p16_params(range, matrix, bit_depth as nat, endianness, packing),
    )
}

/// Decodes a 10 or 12 bit planar image to interleaved RGB of the same depth; any other
/// depth is refused before anything is written.
pub fn yuv_p16_to_image_p16_impl(
    planar_image: &YuvPlanarImage<u16>,
    rgba16: &mut [u16],
    rgba_stride: u32,
    range: YuvRange,
    matrix: YuvStandardMatrix,
    bit_depth: usize,
    cn: YuvSourceChannels,
    sampling: YuvChromaSubsampling,
    endianness: YuvEndianness,
    packing: YuvBytesPacking,
) -> (r: Result<(), YuvError>)
    ensures
        p16_outcome(
            planar_image,
            old(rgba16)@,
            final(rgba16)@,
            rgba_stride as int,
            range,
            matrix,
            bit_depth as int,
            cn,
            sampling,
            endianness,
            packing,
            r,
        ),
{
    if bit_depth != 10 && bit_depth != 12 {
        return Err(YuvError::UnsupportedBitDepth);
    }
    yuv_p16_to_image_p16_ant(
        planar_image,
        rgba16,
        rgba_stride,
        range,
        matrix,
        bit_depth as u32,
        cn,
        sampling,
        endianness,
        packing,
    )
}

/// Decodes a 10 or 12 bit YCbCr 444 planar image to RGB of the same depth; other depths
/// are refused before anything is written.
pub fn yuv444_p16_to_rgb16(
    planar_image: &YuvPlanarImage<u16>,
    dst: &mut [u16],
    dst_stride: u32,
    bit_depth: usize,
    range: YuvRange,
    matrix: YuvStandardMatrix,
    endianness: YuvEndianness,
    bytes_packing: YuvBytesPacking,
) -> (r: Result<(), YuvError>)
    ensures
        p16_outcome(
            planar_image,
            old(dst)@,
            final(dst)@,
            dst_stride as int,
            range,
            matrix,
            bit_depth as int,
            YuvSourceChannels::Rgb,
            YuvChromaSubsampling::Yuv444,
            endianness,
            bytes_packing,
            r,
        ),
{
    yuv_p16_to_image_p16_impl(
        planar_image,
        dst,
        dst_stride,
        range,
        matrix,
        bit_depth,
        YuvSourceChannels::Rgb,
        YuvChromaSubsampling::Yuv444,
        endianness,
        bytes_packing,
    )
}

/// Decodes a 10 or 12 bit YCbCr 422 planar image to RGB of the same depth; other depths
/// are refused before anything is written.
pub fn yuv422_p16_to_rgb16(
    planar_image: &YuvPlanarImage<u16>,
    dst: &mut [u16],
    dst_stride: u32,
    bit_depth: usize,
    range: YuvRange,
    matrix: YuvStandardMatrix,
    endianness: YuvEndianness,
    bytes_packing: YuvBytesPacking,
) -> (r: Result<(), YuvError>)
    ensures
        p16_outcome(
            planar_image,
            old(dst)@,
            final(dst)@,
            dst_stride as int,
            range,
            matrix,
            bit_depth as int,
            YuvSourceChannels::Rgb,
            YuvChromaSubsampling::Yuv422,
            endianness,
            bytes_packing,
            r,
        ),
{
    yuv_p16_to_image_p16_impl(
        planar_image,
        dst,
        dst_stride,
        range,
        matrix,
        bit_depth,
        YuvSourceChannels::Rgb,
        YuvChromaSubsampling::Yuv422,
        endianness,
        bytes_packing,
    )
}

/// Decodes a 10 or 12 bit YCbCr 420 planar image to RGB of the same depth; other depths
/// are refused before anything is written.
pub fn yuv420_p16_to_rgb16(
    planar_image: &YuvPlanarImage<u16>,
    dst: &mut [u16],
    dst_stride: u32,
    bit_depth: usize,
    range: YuvRange,
    matrix: YuvStandardMatrix,
    endianness: YuvEndianness,
    bytes_packing: YuvBytesPacking,
) -> (r: Result<(), YuvError>)
    ensures
        p16_outcome(
            planar_image,
            old(dst)@,
            final(dst)@,
            dst_stride as int,
            range,
            matrix,
            bit_depth as int,
            YuvSourceChannels::Rgb,
            YuvChromaSubsampling::Yuv420,
            endianness,
            bytes_packing,
            r,
        ),
{
    yuv_p16_to_image_p16_impl(
        planar_image,
        dst,
        dst_stride,
        range,
        matrix,
        bit_depth,
        YuvSourceChannels::Rgb,
        YuvChromaSubsampling::Yuv420,
        endianness,
        bytes_packing,
    )
}

} // verus!
