use yuvutils::{
    inverse_transform, yuv400_p16_to_rgb16, yuv400_p16_to_rgba16, yuv_nv12_to_bgra,
    yuv_nv12_to_rgb, yuv_nv21_to_rgb, yuv_nv24_to_rgba, yuv_p16_to_image_p16_impl,
    YuvBytesPacking, YuvChromaSubsampling, YuvEndianness, YuvError, YuvGrayImage, YuvPlanarImage,
    YuvRange, YuvSourceChannels, YuvStandardMatrix,
};

#[test]
fn inverse_coefficients_exact() {
    let t = inverse_transform(6, 8, YuvRange::Full, YuvStandardMatrix::Bt601);
    assert_eq!((t.y_coef, t.cr_coef, t.cb_coef, t.g_coeff_1, t.g_coeff_2), (64, 90, 113, 46, 22));
    let t = inverse_transform(13, 10, YuvRange::Limited, YuvStandardMatrix::Bt709);
    assert_eq!(t.y_coef, 9567);
}

#[test]
fn gray_limited_10_bit() {
    let y = [64u16, 940, 502];
    let image = YuvGrayImage { y_plane: &y, y_stride: 3, width: 3, height: 1 };
    let mut rgb = [0u16; 9];
    let r = yuv400_p16_to_rgb16(
        &image,
        &mut rgb,
        9,
        10,
        YuvRange::Limited,
        YuvStandardMatrix::Bt709,
        YuvEndianness::LittleEndian,
        YuvBytesPacking::LeastSignificantBytes,
    );
    assert_eq!(r, Ok(()));
    // (502 - 64) * 9567 = 4190346; (4190346 + 4096) >> 13 = 512
    assert_eq!(rgb, [0, 0, 0, 1023, 1023, 1023, 512, 512, 512]);
}

#[test]
fn gray_most_significant_packing_and_alpha() {
    let y = [940u16 << 6];
    let image = YuvGrayImage { y_plane: &y, y_stride: 1, width: 1, height: 1 };
    let mut rgba = [0u16; 4];
    let r = yuv400_p16_to_rgba16(
        &image,
        &mut rgba,
        4,
        10,
        YuvRange::Limited,
        YuvStandardMatrix::Bt601,
        YuvEndianness::LittleEndian,
        YuvBytesPacking::MostSignificantBytes,
    );
    assert_eq!(r, Ok(()));
    assert_eq!(rgba, [1023, 1023, 1023, 1023]);
}

#[test]
fn gray_big_endian_full_range() {
    let y = [0x0302u16];
    let image = YuvGrayImage { y_plane: &y, y_stride: 1, width: 1, height: 1 };
    let mut rgb = [0u16; 3];
    let r = yuv400_p16_to_rgb16(
        &image,
        &mut rgb,
        3,
        12,
        YuvRange::Full,
        YuvStandardMatrix::Bt601,
        YuvEndianness::BigEndian,
        YuvBytesPacking::LeastSignificantBytes,
    );
    assert_eq!(r, Ok(()));
    assert_eq!(rgb, [0x0203, 0x0203, 0x0203]);
}

#[test]
fn gray_rejects_other_depths() {
    let y = [0u16];
    let image = YuvGrayImage { y_plane: &y, y_stride: 1, width: 1, height: 1 };
    let mut rgb = [9u16; 3];
    let r = yuv400_p16_to_rgb16(
        &image,
        &mut rgb,
        3,
        8,
        YuvRange::Full,
        YuvStandardMatrix::Bt601,
        YuvEndianness::LittleEndian,
        YuvBytesPacking::LeastSignificantBytes,
    );
    assert_eq!(r, Err(YuvError::UnsupportedBitDepth));
    assert_eq!(rgb, [9, 9, 9]);
}

#[test]
fn nv12_neutral_gray() {
    let y = [128u8; 4];
    let uv = [128u8, 128];
    let mut bgra = [0u8; 16];
    let r = yuv_nv12_to_bgra(&y, 2, &uv, 2, &mut bgra, 8, 2, 2, YuvRange::Full, YuvStandardMatrix::Bt601);
    assert_eq!(r, Ok(()));
    assert_eq!(bgra, [128, 128, 128, 255, 128, 128, 128, 255, 128, 128, 128, 255, 128, 128, 128, 255]);
}

#[test]
fn nv12_red_and_vu_order() {
    let y = [76u8];
    let uv = [85u8, 255];
    let vu = [255u8, 85];
    let mut a = [0u8; 3];
    let mut b = [0u8; 3];
    assert_eq!(yuv_nv12_to_rgb(&y, 1, &uv, 2, &mut a, 3, 1, 1, YuvRange::Full, YuvStandardMatrix::Bt601), Ok(()));
    assert_eq!(yuv_nv21_to_rgb(&y, 1, &vu, 2, &mut b, 3, 1, 1, YuvRange::Full, YuvStandardMatrix::Bt601), Ok(()));
    assert_eq!(a, [255, 0, 0]);
    assert_eq!(a, b);
}

#[test]
fn nv_limited_range_saturates() {
    let y = [16u8, 235];
    let uv = [128u8, 128, 128, 128];
    let mut rgba = [0u8; 8];
    let r = yuv_nv24_to_rgba(&y, 2, &uv, 4, &mut rgba, 8, 2, 1, YuvRange::Limited, YuvStandardMatrix::Bt709);
    assert_eq!(r, Ok(()));
    assert_eq!(rgba, [0, 0, 0, 255, 255, 255, 255, 255]);
}

#[test]
fn nv_errors() {
    let y = [0u8; 4];
    let uv = [0u8; 1];
    let mut rgb = [0u8; 12];
    let r = yuv_nv12_to_rgb(&y, 2, &uv, 2, &mut rgb, 6, 2, 2, YuvRange::Full, YuvStandardMatrix::Bt601);
    assert_eq!(r, Err(YuvError::BufferTooSmall));
    let r = yuv_nv12_to_rgb(&y, 2, &uv, 1, &mut rgb, 6, 2, 2, YuvRange::Full, YuvStandardMatrix::Bt601);
    assert_eq!(r, Err(YuvError::InvalidDimensions));
}

#[test]
fn p16_full_range_gray_444() {
    let y = [512u16, 0];
    let u = [512u16, 512];
    let v = [512u16, 512];
    let image = YuvPlanarImage {
        y_plane: &y,
        y_stride: 2,
        u_plane: &u,
        u_stride: 2,
        v_plane: &v,
        v_stride: 2,
        width: 2,
        height: 1,
    };
    let mut rgba = [0u16; 8];
    let r = yuv_p16_to_image_p16_impl(
        &image,
        &mut rgba,
        8,
        YuvRange::Full,
        YuvStandardMatrix::Bt709,
        10,
        YuvSourceChannels::Rgba,
        YuvChromaSubsampling::Yuv444,
        YuvEndianness::LittleEndian,
        YuvBytesPacking::LeastSignificantBytes,
    );
    assert_eq!(r, Ok(()));
    assert_eq!(rgba, [512, 512, 512, 1023, 0, 0, 0, 1023]);
}

#[test]
fn p16_rejects_other_depths() {
    let y = [0u16];
    let image = YuvPlanarImage {
        y_plane: &y,
        y_stride: 1,
        u_plane: &y,
        u_stride: 1,
        v_plane: &y,
        v_stride: 1,
        width: 1,
        height: 1,
    };
    let mut rgb = [0u16; 3];
    let r = yuv_p16_to_image_p16_impl(
        &image,
        &mut rgb,
        3,
        YuvRange::Full,
        YuvStandardMatrix::Bt709,
        16,
        YuvSourceChannels::Rgb,
        YuvChromaSubsampling::Yuv444,
        YuvEndianness::LittleEndian,
        YuvBytesPacking::LeastSignificantBytes,
    );
    assert_eq!(r, Err(YuvError::UnsupportedBitDepth));
}
