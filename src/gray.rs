//! 16-bit gray (4:0:0) images to interleaved RGB.

use vstd::prelude::*;

use crate::layout::{
    lemma_channel_in_row, lemma_pixels_disjoint, lemma_row_fits, lemma_rows_disjoint, px_row, store_pixel,
};
use crate::support::{
    as_result, check_plane, first_error, max_value, mul_wide, plane_error,
    pow2_exec, get_yuv_range, spec_yuv_range, YuvBytesPacking, YuvEndianness, YuvError,
    YuvGrayImage, YuvRange, YuvSourceChannels, YuvStandardMatrix,
};
use crate::transform::{
    inverse_transform, normalize_sample, shift_clamp, shift_clamp_exec, spec_inverse_transform,
    to_ne,
};

verus! {

/// Constants of the gray (4:0:0) to RGB conversion, 13 fractional bits.
#[derive(Clone, Copy, Debug, PartialEq, Eq, Structural)]
pub struct GrayParams {
    pub limited: bool,
    pub bias_y: u32,
    pub y_coef: i64,
    pub max: u32,
    pub endianness: YuvEndianness,
    pub packing: YuvBytesPacking,
    pub depth: u32,
}

impl GrayParams {
    pub open spec fn wf(self) -> bool {
        &&& 8 <= self.depth <= 16
        &&& self.bias_y <= 65535
        &&& 0 <= self.y_coef <= 0x10_0000
        &&& self.max <= 65535
    }
}

pub open spec fn spec_gray_params(
    range: YuvRange,
    matrix: YuvStandardMatrix,
    depth: nat,
    endianness: YuvEndianness,
    packing: YuvBytesPacking,
) -> GrayParams {
    GrayParams {
        limited: range == YuvRange::Limited,
        bias_y: spec_yuv_range(depth, range).bias_y,
        y_coef: spec_inverse_transform(13, depth, range, matrix).y_coef,
        max: max_value(depth) as u32,
        endianness,
        packing,
        depth: depth as u32,
    }
}

/// The gray level of a stored luma sample: its native value in full range, rescaled
/// with rounding and saturated in limited range.
pub open spec fn gray_value(v: int, p: GrayParams) -> int {
    let n = normalize_sample(v, p.endianness, p.packing, p.depth as nat);
    if p.limited {
        shift_clamp((n - p.bias_y) * p.y_coef, 13, 4096, p.max as int)
    } else {
        n
    }
}

/// Pixel `x` of the interleaved row at `d_off` holds the gray level of luma sample
/// `y_off + x`, and the largest sample value as alpha.
pub open spec fn gray_px(
    dst: Seq<u16>,
    d_off: int,
    cn: YuvSourceChannels,
    x: int,
    src: Seq<u16>,
    y_off: int,
    p: GrayParams,
) -> bool {
    let v = gray_value(src[y_off + x] as int, p);
    &&& px_row(dst, d_off, cn.spec_channels(), x, cn.spec_r()) as int == v
    &&& px_row(dst, d_off, cn.spec_channels(), x, 1) as int == v
    &&& px_row(dst, d_off, cn.spec_channels(), x, cn.spec_b()) as int == v
    &&& cn.spec_has_alpha() ==> px_row(dst, d_off, cn.spec_channels(), x, 3) as int == p.max
}

/// Pixel `(y, x)` of `dst`, rows `dst_stride` apart, holds the gray level of luma sample
/// `(y, x)` of `src`, rows `src_stride` apart.
pub open spec fn gray_pixel(
    dst: Seq<u16>,
    dst_stride: int,
    cn: YuvSourceChannels,
    y: int,
    x: int,
    src: Seq<u16>,
    src_stride: int,
    p: GrayParams,
) -> bool {
    gray_px(dst, y * dst_stride, cn, x, src, y * src_stride, p)
}

fn gray_value_exec(v: u16, p: &GrayParams) -> (r: u16)
    requires
        p.wf(),
    ensures
        r as int == gray_value(v as int, *p),
{
    let n = to_ne(v, p.endianness, p.packing, p.depth);
    if !p.limited {
        return n;
    }
    let d = n as i64 - p.bias_y as i64;
    proof {
        assert(-65535 * 0x10_0000 <= d * p.y_coef <= 65535 * 0x10_0000) by (nonlinear_arith)
            requires
                -65535 <= d <= 65535,
                0 <= p.y_coef <= 0x10_0000,
        ;
    }
    shift_clamp_exec(d * p.y_coef, 13, 4096, p.max as i64) as u16
}

/// Writes one row of gray pixels from the luma row at `y_off` into the interleaved row
/// at `d_off`.
fn gray_row(
    dst: &mut [u16],
    d_off: usize,
    y_plane: &[u16],
    y_off: usize,
    width: usize,
    cn: YuvSourceChannels,
    p: &GrayParams,
)
    requires
        p.wf(),
        d_off + width * cn.spec_channels() <= old(dst)@.len(),
        y_off + width <= y_plane@.len(),
    ensures
        final(dst)@.len() == old(dst)@.len(),
        forall|x: int|
            0 <= x < width ==> #[trigger] gray_px(
                final(dst)@,
                d_off as int,
                cn,
                x,
                y_plane@,
                y_off as int,
                *p,
            ),
        forall|i: int|
            0 <= i < old(dst)@.len() && !(d_off <= i < d_off + width * cn.spec_channels())
                ==> final(dst)@[i] == old(dst)@[i],
{
    let chans = cn.get_channels_count();
    let _d_len = dst.len();
    let ghost d0 = dst@;
    let mut x: usize = 0;
    while x < width
        invariant
            p.wf(),
            x <= width,
            chans == cn.spec_channels(),
            _d_len == dst@.len() == d0.len(),
            d_off + width * chans <= d0.len(),
            y_off + width <= y_plane@.len(),
            forall|x2: int|
                0 <= x2 < x ==> #[trigger] gray_px(
                    dst@,
                    d_off as int,
                    cn,
                    x2,
                    y_plane@,
                    y_off as int,
                    *p,
                ),
            forall|i: int|
                0 <= i < d0.len() && !(d_off <= i < d_off + x * chans) ==> dst@[i] == d0[i],
        decreases width - x,
    {
        proof {
            lemma_channel_in_row(x as int, width as int, chans as int, 0);
        }
        let _yl = y_plane.len();
        let v = gray_value_exec(y_plane[y_off + x], p);
        let base = d_off + x * chans;
        let ghost before = dst@;
        store_pixel(dst, base, cn, v, v, v, p.max as u16);
        proof {
            assert forall|x2: int| 0 <= x2 < x + 1 implies #[trigger] gray_px(
                dst@,
                d_off as int,
                cn,
                x2,
                y_plane@,
                y_off as int,
                *p,
            ) by {
                if x2 < x {
                    lemma_pixels_disjoint(x2, x as int, chans as int, cn.spec_r());
                    lemma_pixels_disjoint(x2, x as int, chans as int, 1);
                    lemma_pixels_disjoint(x2, x as int, chans as int, cn.spec_b());
                    if cn.spec_has_alpha() {
                        lemma_pixels_disjoint(x2, x as int, chans as int, 3);
                    }
                    lemma_channel_in_row(x2, width as int, chans as int, 0);
                    assert(gray_px(before, d_off as int, cn, x2, y_plane@, y_off as int, *p));
                }
            }
            assert(x * chans + chans == (x + 1) * chans) by (nonlinear_arith);
        }
        x = x + 1;
    }
}

/// The interleaved image `dst` holds the gray pixels of `image`.
pub open spec fn gray_written(
    dst: Seq<u16>,
    dst_stride: int,
    image: &YuvGrayImage<u16>,
    cn: YuvSourceChannels,
    p: GrayParams,
) -> bool {
    forall|y: int, x: int|
        0 <= y < image.height && 0 <= x < image.width ==> #[trigger] gray_pixel(
            dst,
            dst_stride,
            cn,
            y,
            x,
            image.y_plane@,
            image.y_stride as int,
            p,
        )
}

/// What the validation of a gray conversion reports, if anything: the bit depth, the
/// luma plane, then the destination.
pub open spec fn gray_error(
    image: &YuvGrayImage<u16>,
    dst_len: int,
    dst_stride: int,
    cn: YuvSourceChannels,
    depth: int,
) -> Option<YuvError> {
    if depth != 10 && depth != 12 {
        Some(YuvError::UnsupportedBitDepth)
    } else {
        first_error(
            plane_error(
                image.width as int,
                image.height as int,
                image.y_stride as int,
                image.y_plane@.len() as int,
            ),
            plane_error(image.width * cn.spec_channels(), image.height as int, dst_stride, dst_len),
        )
    }
}

/// What a gray conversion call promises.
pub open spec fn gray_outcome(
    image: &YuvGrayImage<u16>,
    before: Seq<u16>,
    after: Seq<u16>,
    dst_stride: int,
    depth: int,
    range: YuvRange,
    matrix: YuvStandardMatrix,
    endianness: YuvEndianness,
    packing: YuvBytesPacking,
    cn: YuvSourceChannels,
    r: Result<(), YuvError>,
) -> bool {
    &&& r == as_result(gray_error(image, before.len() as int, dst_stride, cn, depth))
    &&& after.len() == before.len()
    &&& r is Err ==> after == before
    &&& r is Ok ==> gray_written(
        after,
        dst_stride,
        image,
        cn,
        spec_gray_params(range, matrix, depth as nat, endianness, packing),
    )
}

/// Converts a gray image of 8 to 16 bit samples to interleaved RGB of the same depth.
fn yuv400_p16_to_rgbx_impl(
    image: &YuvGrayImage<u16>,
    rgba16: &mut [u16],
    rgba_stride: u32,
    bit_depth: u32,
    range: YuvRange,
    matrix: YuvStandardMatrix,
    endianness: YuvEndianness,
    packing: YuvBytesPacking,
    cn: YuvSourceChannels,
) -> (r: Result<(), YuvError>)
    requires
        8 <= bit_depth <= 16,
    ensures
        r == as_result(
            first_error(
                plane_error(
                    image.width as int,
                    image.height as int,
                    image.y_stride as int,
                    image.y_plane@.len() as int,
                ),
                plane_error(
                    image.width * cn.spec_channels(),
                    image.height as int,
                    rgba_stride as int,
                    old(rgba16)@.len() as int,
                ),
            ),
        ),
        final(rgba16)@.len() == old(rgba16)@.len(),
        r is Err ==> final(rgba16)@ == old(rgba16)@,
        r is Ok ==> gray_written(
            final(rgba16)@,
            rgba_stride as int,
            image,
            cn,
            spec_gray_params(range, matrix, bit_depth as nat, endianness, packing),
        ),
{
    check_plane(image.width as u64, image.height, image.y_stride, image.y_plane.len())?;
    let chans = cn.get_channels_count();
    check_plane(mul_wide(image.width, chans as u32), image.height, rgba_stride, rgba16.len())?;
    let cr = get_yuv_range(bit_depth, range);
    let t = inverse_transform(13, bit_depth, range, matrix);
    let full = pow2_exec(bit_depth);
    let p = GrayParams {
        limited: match range {
            YuvRange::Limited => true,
            YuvRange::Full => false,
        },
        bias_y: cr.bias_y,
        y_coef: t.y_coef,
        max: full - 1,
        endianness,
        packing,
        depth: bit_depth,
    };
    let width = image.width as usize;
    let height = image.height as usize;
    let ys = image.y_stride as usize;
    let ds = rgba_stride as usize;
    let _y_len = image.y_plane.len();
    let _d_len = rgba16.len();
    let ghost d_start = rgba16@;
    let mut y: usize = 0;
    while y < height
        invariant
            p == spec_gray_params(range, matrix, bit_depth as nat, endianness, packing),
            p.wf(),
            width == image.width,
            height == image.height,
            ys == image.y_stride,
            ds == rgba_stride,
            chans == cn.spec_channels(),
            _y_len == image.y_plane@.len(),
            _d_len == rgba16@.len() == d_start.len(),
            y <= height,
            plane_error(width as int, height as int, ys as int, _y_len as int) is None,
            plane_error(width * chans, height as int, ds as int, _d_len as int) is None,
            forall|yy: int, x: int|
                0 <= yy < y && 0 <= x < width ==> #[trigger] gray_pixel(
                    rgba16@,
                    ds as int,
                    cn,
                    yy,
                    x,
                    image.y_plane@,
                    ys as int,
                    p,
                ),
        decreases height - y,
    {
        proof {
            lemma_row_fits(y as int, height as int, ys as int, width as int);
            lemma_row_fits(y as int, height as int, ds as int, width * chans);
        }
        let ghost before = rgba16@;
        gray_row(rgba16, y * ds, image.y_plane, y * ys, width, cn, &p);
        proof {
            assert forall|yy: int, x: int| 0 <= yy < y + 1 && 0 <= x < width implies #[trigger] gray_pixel(
                rgba16@,
                ds as int,
                cn,
                yy,
                x,
                image.y_plane@,
                ys as int,
                p,
            ) by {
                lemma_row_fits(yy, height as int, ds as int, width * chans);
                if yy < y {
                    lemma_channel_in_row(x, width as int, chans as int, cn.spec_r());
                    lemma_rows_disjoint(yy, y as int, ds as int, x * chans + cn.spec_r(), width * chans);
                    lemma_channel_in_row(x, width as int, chans as int, 1);
                    lemma_rows_disjoint(yy, y as int, ds as int, x * chans + 1, width * chans);
                    lemma_channel_in_row(x, width as int, chans as int, cn.spec_b());
                    lemma_rows_disjoint(yy, y as int, ds as int, x * chans + cn.spec_b(), width * chans);
                    if cn.spec_has_alpha() {
                        lemma_channel_in_row(x, width as int, chans as int, 3);
                        lemma_rows_disjoint(yy, y as int, ds as int, x * chans + 3, width * chans);
                    }
                    assert(gray_pixel(before, ds as int, cn, yy, x, image.y_plane@, ys as int, p));
                } else {
                    assert(gray_px(rgba16@, y * ds, cn, x, image.y_plane@, y * ys, p));
                }
            }
        }
        y = y + 1;
    }
    Ok(())
}

/// Converts a gray image to interleaved RGB after checking that the bit depth is 10 or 12.
fn yuv400_p16_to_rgbx(
    image: &YuvGrayImage<u16>,
    rgba16: &mut [u16],
    rgba_stride: u32,
    bit_depth: u32,
    range: YuvRange,
    matrix: YuvStandardMatrix,
    endianness: YuvEndianness,
    packing: YuvBytesPacking,
    cn: YuvSourceChannels,
) -> (r: Result<(), YuvError>)
    ensures
        gray_outcome(
            image,
            old(rgba16)@,
            final(rgba16)@,
            rgba_stride as int,
            bit_depth as int,
            range,
            matrix,
            endianness,
            packing,
            cn,
            r,
        ),
{
    if bit_depth != 10 && bit_depth != 12 {
        return Err(YuvError::UnsupportedBitDepth);
    }
    yuv400_p16_to_rgbx_impl(
        image,
        rgba16,
        rgba_stride,
        bit_depth,
        range,
        matrix,
        endianness,
        packing,
        cn,
    )
}

/// Converts a 10 or 12 bit gray image to RGB of the same depth; alpha, where present, is
/// the largest sample value.
pub fn yuv400_p16_to_rgb16(
    gray_image: &YuvGrayImage<u16>,
    rgb: &mut [u16],
    rgb_stride: u32,
    bit_depth: u32,
    range: YuvRange,
    matrix: YuvStandardMatrix,
    endianness: YuvEndianness,
    bytes_packing: YuvBytesPacking,
) -> (r: Result<(), YuvError>)
    ensures
        gray_outcome(
            gray_image,
            old(rgb)@,
            final(rgb)@,
            rgb_stride as int,
            bit_depth as int,
            range,
            matrix,
            endianness,
            bytes_packing,
            YuvSourceChannels::Rgb,
            r,
        ),
{
    yuv400_p16_to_rgbx(
        gray_image,
        rgb,
        rgb_stride,
        bit_depth,
        range,
        matrix,
        endianness,
        bytes_packing,
        YuvSourceChannels::Rgb,
    )
}

/// Converts a 10 or 12 bit gray image to BGR of the same depth; alpha, where present, is
/// the largest sample value.
pub fn yuv400_p16_to_bgr16(
    gray_image: &YuvGrayImage<u16>,
    bgr: &mut [u16],
    bgr_stride: u32,
    bit_depth: u32,
    range: YuvRange,
    matrix: YuvStandardMatrix,
    endianness: YuvEndianness,
    bytes_packing: YuvBytesPacking,
) -> (r: Result<(), YuvError>)
    ensures
        gray_outcome(
            gray_image,
            old(bgr)@,
            final(bgr)@,
            bgr_stride as int,
            bit_depth as int,
            range,
            matrix,
            endianness,
            bytes_packing,
            YuvSourceChannels::Bgr,
            r,
        ),
{
    yuv400_p16_to_rgbx(
        gray_image,
        bgr,
        bgr_stride,
        bit_depth,
        range,
        matrix,
        endianness,
        bytes_packing,
        YuvSourceChannels::Bgr,
    )
}

/// Converts a 10 or 12 bit gray image to RGBA of the same depth; alpha, where present, is
/// the largest sample value.
pub fn yuv400_p16_to_rgba16(
    gray_image: &YuvGrayImage<u16>,
    rgba: &mut [u16],
    rgba_stride: u32,
    bit_depth: u32,
    range: YuvRange,
    matrix: YuvStandardMatrix,
    endianness: YuvEndianness,
    bytes_packing: YuvBytesPacking,
) -> (r: Result<(), YuvError>)
    ensures
        gray_outcome(
            gray_image,
            old(rgba)@,
            final(rgba)@,
            rgba_stride as int,
            bit_depth as int,
            range,
            matrix,
            endianness,
            bytes_packing,
            YuvSourceChannels::Rgba,
            r,
        ),
{
    yuv400_p16_to_rgbx(
        gray_image,
        rgba,
        rgba_stride,
        bit_depth,
        range,
        matrix,
        endianness,
        bytes_packing,
        YuvSourceChannels::Rgba,
    )
}

/// Converts a 10 or 12 bit gray image to BGRA of the same depth; alpha, where present, is
/// the largest sample value.
pub fn yuv400_p16_to_bgra16(
    gray_image: &YuvGrayImage<u16>,
    bgra: &mut [u16],
    bgra_stride: u32,
    bit_depth: u32,
    range: YuvRange,
    matrix: YuvStandardMatrix,
    endianness: YuvEndianness,
    bytes_packing: YuvBytesPacking,
) -> (r: Result<(), YuvError>)
    ensures
        gray_outcome(
            gray_image,
            old(bgra)@,
            final(bgra)@,
            bgra_stride as int,
            bit_depth as int,
            range,
            matrix,
            endianness,
            bytes_packing,
            YuvSourceChannels::Bgra,
            r,
        ),
{
    yuv400_p16_to_rgbx(
        gray_image,
        bgra,
        bgra_stride,
        bit_depth,
        range,
        matrix,
        endianness,
        bytes_packing,
        YuvSourceChannels::Bgra,
    )
}

} // verus!
