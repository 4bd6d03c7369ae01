//! 10-bit bi-planar images to packed 2:10:10:10 pixels.

use vstd::prelude::*;

use crate::layout::{chroma_factor, lemma_row_fits, lemma_rows_disjoint, row_factor, store_word};
use crate::p16::P16Params;
use crate::support::{
    as_result, check_plane, chroma_height, chroma_width, first_error, get_yuv_range, mul_wide,
    plane_error, spec_yuv_range, YuvBiPlanarImage, YuvBytesPacking, YuvChromaSubsampling,
    YuvEndianness, YuvError, YuvNVOrder, YuvRange, YuvStandardMatrix,
};
use crate::transform::{
    inverse_pixel, inverse_rgb, inverse_transform, normalize_sample, spec_inverse_transform,
    to_ne,
};

verus! {

/// Bit layout of a packed 2:10:10:10 pixel, named from the most significant bits down.
#[derive(Clone, Copy, Debug, PartialEq, Eq, Structural)]
pub enum Rgb30 {
    /// Alpha in bits 30..32, then red, green, blue.
    Ar30,
    /// Alpha in bits 30..32, then blue, green, red.
    Ab30,
    /// Red in bits 22..32, then green, blue, and alpha in bits 0..2.
    Ra30,
    /// Blue in bits 22..32, then green, red, and alpha in bits 0..2.
    Ba30,
}

/// Byte order in which a packed pixel is stored.
#[derive(Clone, Copy, Debug, PartialEq, Eq, Structural)]
pub enum Rgb30ByteOrder {
    /// Least significant byte first.
    Host,
    /// Most significant byte first.
    Network,
}

/// Fractional bits of the 10-bit bi-planar decoder.
pub const AR30_PRECISION: u32 = 14;

/// The packed word of one opaque pixel with 10-bit channels.
#[verifier::opaque]
pub open spec fn pack30(layout: Rgb30, r: int, g: int, b: int) -> int {
    match layout {
        Rgb30::Ar30 => 3 * 0x4000_0000 + r * 0x10_0000 + g * 0x400 + b,
        Rgb30::Ab30 => 3 * 0x4000_0000 + b * 0x10_0000 + g * 0x400 + r,
        Rgb30::Ra30 => r * 0x40_0000 + g * 0x1000 + b * 4 + 3,
        Rgb30::Ba30 => b * 0x40_0000 + g * 0x1000 + r * 4 + 3,
    }
}

/// Byte `k` in memory of a packed word stored in `order`.
#[verifier::opaque]
pub open spec fn word_byte(v: int, k: int, order: Rgb30ByteOrder) -> int {
    let shift = match order {
        Rgb30ByteOrder::Host => k,
        Rgb30ByteOrder::Network => 3 - k,
    };
    let unit = if shift == 0 {
        1
    } else if shift == 1 {
        0x100
    } else if shift == 2 {
        0x1_0000
    } else {
        0x100_0000
    };
    (v / unit) % 256
}

fn pack30_exec(layout: Rgb30, r: u32, g: u32, b: u32) -> (v: u32)
    requires
        r <= 1023,
        g <= 1023,
        b <= 1023,
    ensures
        v == pack30(layout, r as int, g as int, b as int),
{
    proof {
        reveal(pack30);
    }
    match layout {
        Rgb30::Ar30 => 3 * 0x4000_0000 + r * 0x10_0000 + g * 0x400 + b,
        Rgb30::Ab30 => 3 * 0x4000_0000 + b * 0x10_0000 + g * 0x400 + r,
        Rgb30::Ra30 => r * 0x40_0000 + g * 0x1000 + b * 4 + 3,
        Rgb30::Ba30 => b * 0x40_0000 + g * 0x1000 + r * 4 + 3,
    }
}

fn word_bytes(v: u32, order: Rgb30ByteOrder) -> (bytes: (u8, u8, u8, u8))
    ensures
        bytes.0 == word_byte(v as int, 0, order),
        bytes.1 == word_byte(v as int, 1, order),
        bytes.2 == word_byte(v as int, 2, order),
        bytes.3 == word_byte(v as int, 3, order),
{
    proof {
        reveal(word_byte);
    }
    let b0 = (v % 256) as u8;
    let b1 = (v / 256 % 256) as u8;
    let b2 = (v / 65536 % 256) as u8;
    let b3 = (v / 16777216 % 256) as u8;
    match order {
        Rgb30ByteOrder::Host => (b0, b1, b2, b3),
        Rgb30ByteOrder::Network => (b3, b2, b1, b0),
    }
}

/// Red, green and blue of pixel `x` of a 10-bit bi-planar row.
#[verifier::opaque]
pub open spec fn p10_rgb(
    yp: Seq<u16>,
    y_off: int,
    uv: Seq<u16>,
    uv_off: int,
    x: int,
    factor: int,
    order: YuvNVOrder,
    p: P16Params,
) -> (int, int, int) {
    let c = uv_off + 2 * (x / factor);
    let d = p.depth as nat;
    let first = normalize_sample(uv[c] as int, p.endianness, p.packing, d);
    let second = normalize_sample(uv[c + 1] as int, p.endianness, p.packing, d);
    let (cb, cr) = match order {
        YuvNVOrder::UV => (first, second),
        YuvNVOrder::VU => (second, first),
    };
    inverse_rgb(
        normalize_sample(yp[y_off + x] as int, p.endianness, p.packing, d),
        cb,
        cr,
        p.t,
        p.range,
        14,
        8192,
        1023,
    )
}

/// The four bytes of pixel `x` of the row at `d_off` hold its packed colour.
pub open spec fn ar30_px(
    dst: Seq<u8>,
    d_off: int,
    x: int,
    yp: Seq<u16>,
    y_off: int,
    uv: Seq<u16>,
    uv_off: int,
    factor: int,
    order: YuvNVOrder,
    p: P16Params,
    layout: Rgb30,
    byte_order: Rgb30ByteOrder,
) -> bool {
    let rgb = p10_rgb(yp, y_off, uv, uv_off, x, factor, order, p);
    let v = pack30(layout, rgb.0, rgb.1, rgb.2);
    &&& dst[d_off + 4 * x] as int == word_byte(v, 0, byte_order)
    &&& dst[d_off + 4 * x + 1] as int == word_byte(v, 1, byte_order)
    &&& dst[d_off + 4 * x + 2] as int == word_byte(v, 2, byte_order)
    &&& dst[d_off + 4 * x + 3] as int == word_byte(v, 3, byte_order)
}

/// Pixel `(y, x)` of `dst` holds the packed colour of bi-planar pixel `(y, x)`.
pub open spec fn ar30_pixel(
    dst: Seq<u8>,
    dst_stride: int,
    y: int,
    x: int,
    image: &YuvBiPlanarImage<u16>,
    sampling: YuvChromaSubsampling,
    order: YuvNVOrder,
    p: P16Params,
    layout: Rgb30,
    byte_order: Rgb30ByteOrder,
) -> bool {
    ar30_px(
        dst,
        y * dst_stride,
        x,
        image.y_plane@,
        y * image.y_stride,
        image.uv_plane@,
        (y / row_factor(sampling)) * image.uv_stride,
        chroma_factor(sampling),
        order,
        p,
        layout,
        byte_order,
    )
}

/// The four bytes of pixel `x` of a 10-bit bi-planar row, packed and ordered.
fn ar30_pixel_bytes(
    yp: &[u16],
    y_off: usize,
    uv: &[u16],
    uv_off: usize,
    x: usize,
    factor: usize,
    order: YuvNVOrder,
    p: &P16Params,
    layout: Rgb30,
    byte_order: Rgb30ByteOrder,
) -> (bytes: (u8, u8, u8, u8))
    requires
        p.wf(),
        p.max == 1023,
        factor == 1 || factor == 2,
        y_off + x < yp@.len(),
        uv_off + 2 * ((x as int) / (factor as int)) + 1 < uv@.len(),
    ensures
        ({
            let rgb = p10_rgb(yp@, y_off as int, uv@, uv_off as int, x as int, factor as int, order, *p);
            let v = pack30(layout, rgb.0, rgb.1, rgb.2);
            &&& bytes.0 == word_byte(v, 0, byte_order)
            &&& bytes.1 == word_byte(v, 1, byte_order)
            &&& bytes.2 == word_byte(v, 2, byte_order)
            &&& bytes.3 == word_byte(v, 3, byte_order)
        }),
{
    proof {
        reveal(p10_rgb);
    }
    let _uv_len = uv.len();
    let _y_len = yp.len();
    let c = uv_off + 2 * (x / factor);
    let first = to_ne(uv[c], p.endianness, p.packing, p.depth);
    let second = to_ne(uv[c + 1], p.endianness, p.packing, p.depth);
    let (cb, cr) = match order {
        YuvNVOrder::UV => (first, second),
        YuvNVOrder::VU => (second, first),
    };
    let yv = to_ne(yp[y_off + x], p.endianness, p.packing, p.depth);
    let rgb = inverse_pixel(yv as i64, cb as i64, cr as i64, &p.t, &p.range, 14, 8192, 1023);
    let v = pack30_exec(layout, rgb.0 as u32, rgb.1 as u32, rgb.2 as u32);
    word_bytes(v, byte_order)
}

/// Decodes one 10-bit bi-planar row into packed pixels at `d_off`.
fn ar30_row(
    dst: &mut [u8],
    d_off: usize,
    yp: &[u16],
    y_off: usize,
    uv: &[u16],
    uv_off: usize,
    width: usize,
    factor: usize,
    order: YuvNVOrder,
    p: &P16Params,
    layout: Rgb30,
    byte_order: Rgb30ByteOrder,
)
    requires
        p.wf(),
        p.max == 1023,
        factor == 1 || factor == 2,
        d_off + 4 * width <= old(dst)@.len(),
        y_off + width <= yp@.len(),
        uv_off + 2 * ((width + factor - 1) / (factor as int)) <= uv@.len(),
    ensures
        final(dst)@.len() == old(dst)@.len(),
        forall|x: int|
            0 <= x < width ==> #[trigger] ar30_px(
                final(dst)@,
                d_off as int,
                x,
                yp@,
                y_off as int,
                uv@,
                uv_off as int,
                factor as int,
                order,
                *p,
                layout,
                byte_order,
            ),
        forall|i: int|
            0 <= i < old(dst)@.len() && !(d_off <= i < d_off + 4 * width) ==> final(dst)@[i]
                == old(dst)@[i],
{
    let _d_len = dst.len();
    let _y_len = yp.len();
    let _uv_len = uv.len();
    let ghost d0 = dst@;
    let mut x: usize = 0;
    while x < width
        invariant
            p.wf(),
            p.max == 1023,
            factor == 1 || factor == 2,
            x <= width,
            _d_len == dst@.len() == d0.len(),
            _y_len == yp@.len(),
            _uv_len == uv@.len(),
            d_off + 4 * width <= d0.len(),
            y_off + width <= yp@.len(),
            uv_off + 2 * ((width + factor - 1) / (factor as int)) <= uv@.len(),
            forall|x2: int|
                0 <= x2 < x ==> #[trigger] ar30_px(
                    dst@,
                    d_off as int,
                    x2,
                    yp@,
                    y_off as int,
                    uv@,
                    uv_off as int,
                    factor as int,
                    order,
                    *p,
                    layout,
                    byte_order,
                ),
            forall|i: int| 0 <= i < d0.len() && !(d_off <= i < d_off + 4 * x) ==> dst@[i] == d0[i],
        decreases width - x,
    {
        proof {
            if factor == 2 {
                assert(x / 2 < (width + 1) / 2);
            }
        }
        let bytes = ar30_pixel_bytes(yp, y_off, uv, uv_off, x, factor, order, p, layout, byte_order);
        let ghost before = dst@;
        store_word(dst, d_off + 4 * x, bytes.0, bytes.1, bytes.2, bytes.3);
        proof {
            assert forall|x2: int| 0 <= x2 < x + 1 implies #[trigger] ar30_px(
                dst@,
                d_off as int,
                x2,
                yp@,
                y_off as int,
                uv@,
                uv_off as int,
                factor as int,
                order,
                *p,
                layout,
                byte_order,
            ) by {
                if x2 < x {
                    assert(ar30_px(
                        before,
                        d_off as int,
                        x2,
                        yp@,
                        y_off as int,
                        uv@,
                        uv_off as int,
                        factor as int,
                        order,
                        *p,
                        layout,
                        byte_order,
                    ));
                }
            }
        }
        x = x + 1;
    }
}

/// The packed image `dst` holds the colours of every pixel of `image`.
pub open spec fn ar30_written(
    dst: Seq<u8>,
    dst_stride: int,
    image: &YuvBiPlanarImage<u16>,
    sampling: YuvChromaSubsampling,
    order: YuvNVOrder,
    p: P16Params,
    layout: Rgb30,
    byte_order: Rgb30ByteOrder,
) -> bool {
    forall|y: int, x: int|
        0 <= y < image.height && 0 <= x < image.width ==> #[trigger] ar30_pixel(
            dst,
            dst_stride,
            y,
            x,
            image,
            sampling,
            order,
            p,
            layout,
            byte_order,
        )
}

pub open spec fn spec_p10_params(
    range: YuvRange,
    matrix: YuvStandardMatrix,
    endianness: YuvEndianness,
    packing: YuvBytesPacking,
) -> P16Params {
    P16Params {
        t: spec_inverse_transform(14, 10, range, matrix),
        range: spec_yuv_range(10, range),
        max: 1023,
        endianness,
        packing,
        depth: 10,
    }
}

/// What a 10-bit bi-planar to packed decode call promises.
pub open spec fn ar30_outcome(
    image: &YuvBiPlanarImage<u16>,
    before: Seq<u8>,
    after: Seq<u8>,
    dst_stride: int,
    range: YuvRange,
    matrix: YuvStandardMatrix,
    layout: Rgb30,
    byte_order: Rgb30ByteOrder,
    order: YuvNVOrder,
    sampling: YuvChromaSubsampling,
    endianness: YuvEndianness,
    packing: YuvBytesPacking,
    r: Result<(), YuvError>,
) -> bool {
    &&& r == as_result(
        first_error(
            image.spec_error(sampling),
            plane_error(4 * image.width, image.height as int, dst_stride, before.len() as int),
        ),
    )
    &&& after.len() == before.len()
    &&& r is Err ==> after == before
    &&& r is Ok ==> ar30_written(
        after,
        dst_stride,
        image,
        sampling,
        order,
        spec_p10_params(range, matrix, endianness, packing),
        layout,
        byte_order,
    )
}

/// Decodes a 10-bit bi-planar image into packed 2:10:10:10 pixels.
pub fn yuv_nv_p10_to_image_impl_d(
    image: &YuvBiPlanarImage<u16>,
    ar30: &mut [u8],
    ar30_stride: u32,
    range: YuvRange,
    matrix: YuvStandardMatrix,
    layout: Rgb30,
    byte_order: Rgb30ByteOrder,
    order: YuvNVOrder,
    sampling: YuvChromaSubsampling,
    endianness: YuvEndianness,
    packing: YuvBytesPacking,
) -> (r: Result<(), YuvError>)
    ensures
        ar30_outcome(
            image,
            old(ar30)@,
            final(ar30)@,
            ar30_stride as int,
            range,
            matrix,
            layout,
            byte_order,
            order,
            sampling,
            endianness,
            packing,
            r,
        ),
{
    image.check_constraints(sampling)?;
    check_plane(mul_wide(image.width, 4), image.height, ar30_stride, ar30.len())?;
    let cr = get_yuv_range(10, range);
    let t = inverse_transform(AR30_PRECISION, 10, range, matrix);
    proof {
        reveal_with_fuel(crate::support::pow2, 11);
    }
    let p = P16Params { t, range: cr, max: 1023, endianness, packing, depth: 10 };
    let w = image.width as usize;
    let h = image.height as usize;
    let ys = image.y_stride as usize;
    let uvs = image.uv_stride as usize;
    let ds = ar30_stride as usize;
    let f: usize = match sampling {
        YuvChromaSubsampling::Yuv444 => 1,
        _ => 2,
    };
    let is420 = match sampling {
        YuvChromaSubsampling::Yuv420 => true,
        _ => false,
    };
    let ghost cw = chroma_width(w as int, sampling);
    let ghost ch = chroma_height(h as int, sampling);
    let _y_len = image.y_plane.len();
    let _uv_len = image.uv_plane.len();
    let _d_len = ar30.len();
    let ghost d_start = ar30@;
    proof {
        if f == 1 {
            assert(cw == (w + f - 1) / (f as int));
        } else {
            assert(cw == (w + f - 1) / (f as int));
        }
    }
    let mut y: usize = 0;
    while y < h
        invariant
            p == spec_p10_params(range, matrix, endianness, packing),
            p.wf(),
            p.max == 1023,
            w == image.width,
            h == image.height,
            ys == image.y_stride,
            uvs == image.uv_stride,
            ds == ar30_stride,
            f == chroma_factor(sampling),
            is420 == (sampling == YuvChromaSubsampling::Yuv420),
            cw == chroma_width(w as int, sampling),
            ch == chroma_height(h as int, sampling),
            cw == (w + f - 1) / (f as int),
            _y_len == image.y_plane@.len(),
            _uv_len == image.uv_plane@.len(),
            _d_len == ar30@.len() == d_start.len(),
            y <= h,
            image.spec_error(sampling) is None,
            plane_error(4 * w, h as int, ds as int, _d_len as int) is None,
            forall|yy: int, x: int|
                0 <= yy < y && 0 <= x < w ==> #[trigger] ar30_pixel(
                    ar30@,
                    ds as int,
                    yy,
                    x,
                    image,
                    sampling,
                    order,
                    p,
                    layout,
                    byte_order,
                ),
        decreases h - y,
    {
        let cy = if is420 {
            y / 2
        } else {
            y
        };
        proof {
            lemma_row_fits(y as int, h as int, ys as int, w as int);
            lemma_row_fits(y as int, h as int, ds as int, 4 * w);
            lemma_row_fits(cy as int, ch as int, uvs as int, 2 * cw);
            assert(cy == (y as int) / row_factor(sampling));
        }
        let ghost before = ar30@;
        ar30_row(
            ar30,
            y * ds,
            image.y_plane,
            y * ys,
            image.uv_plane,
            cy * uvs,
            w,
            f,
            order,
            &p,
            layout,
            byte_order,
        );
        proof {
            assert forall|yy: int, x: int| 0 <= yy < y + 1 && 0 <= x < w implies #[trigger] ar30_pixel(
                ar30@,
                ds as int,
                yy,
                x,
                image,
                sampling,
                order,
                p,
                layout,
                byte_order,
            ) by {
                lemma_row_fits(yy, h as int, ds as int, 4 * w);
                if yy < y {
                    lemma_rows_disjoint(yy, y as int, ds as int, 4 * x, 4 * w);
                    lemma_rows_disjoint(yy, y as int, ds as int, 4 * x + 1, 4 * w);
                    lemma_rows_disjoint(yy, y as int, ds as int, 4 * x + 2, 4 * w);
                    lemma_rows_disjoint(yy, y as int, ds as int, 4 * x + 3, 4 * w);
                    assert(ar30_pixel(
                        before,
                        ds as int,
                        yy,
                        x,
                        image,
                        sampling,
                        order,
                        p,
                        layout,
                        byte_order,
                    ));
                }
            }
        }
        y = y + 1;
    }
    Ok(())
}

/// Decodes a 10-bit bi-planar image into packed pixels in the requested byte order.
pub fn yuv_nv_p10_to_image_impl(
    image: &YuvBiPlanarImage<u16>,
    bgra: &mut [u8],
    bgra_stride: u32,
    byte_order: Rgb30ByteOrder,
    range: YuvRange,
    matrix: YuvStandardMatrix,
    layout: Rgb30,
    order: YuvNVOrder,
    sampling: YuvChromaSubsampling,
    endianness: YuvEndianness,
    packing: YuvBytesPacking,
) -> (r: Result<(), YuvError>)
    ensures
        ar30_outcome(
            image,
            old(bgra)@,
            final(bgra)@,
            bgra_stride as int,
            range,
            matrix,
            layout,
            byte_order,
            order,
            sampling,
            endianness,
            packing,
            r,
        ),
{
    yuv_nv_p10_to_image_impl_d(
        image,
        bgra,
        bgra_stride,
        range,
        matrix,
        layout,
        byte_order,
        order,
        sampling,
        endianness,
        packing,
    )
}

} // verus!
