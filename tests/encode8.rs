use yuvutils::{
    rgb_to_yuv420, rgb_to_yuv444, rgba_to_yuv422, yuv_nv24_to_rgb, YuvError, YuvPlanarImageMut,
    YuvRange, YuvStandardMatrix,
};

fn image(width: u32, height: u32, cw: u32, ch: u32) -> YuvPlanarImageMut<u8> {
    YuvPlanarImageMut {
        y_plane: vec![0; (width * height) as usize],
        y_stride: width,
        u_plane: vec![0; (cw * ch) as usize],
        u_stride: cw,
        v_plane: vec![0; (cw * ch) as usize],
        v_stride: cw,
        width,
        height,
    }
}

#[test]
fn red_in_bt601_full_range() {
    let mut img = image(1, 1, 1, 1);
    assert_eq!(rgb_to_yuv444(&mut img, &[255, 0, 0], 3, YuvRange::Full, YuvStandardMatrix::Bt601), Ok(()));
    // Cr saturates at 255 instead of wrapping to 0.
    assert_eq!((img.y_plane[0], img.u_plane[0], img.v_plane[0]), (76, 85, 255));
}

#[test]
fn gray_in_limited_range() {
    let mut img = image(2, 1, 2, 1);
    let r = rgb_to_yuv444(&mut img, &[0, 0, 0, 255, 255, 255], 6, YuvRange::Limited, YuvStandardMatrix::Bt709);
    assert_eq!(r, Ok(()));
    assert_eq!(img.y_plane, vec![16, 235]);
    assert_eq!(img.u_plane, vec![128, 128]);
    assert_eq!(img.v_plane, vec![128, 128]);
}

#[test]
fn round_trip_through_the_bi_planar_decoder() {
    let width = 20u32;
    let mut rgb = Vec::new();
    for x in 0..width {
        rgb.extend_from_slice(&[(x * 13) as u8, (200 - x * 7) as u8, (x * 11 + 30) as u8]);
    }
    let mut img = image(width, 1, width, 1);
    assert_eq!(rgb_to_yuv444(&mut img, &rgb, width * 3, YuvRange::Full, YuvStandardMatrix::Bt709), Ok(()));
    let mut uv = Vec::new();
    for x in 0..width as usize {
        uv.push(img.u_plane[x]);
        uv.push(img.v_plane[x]);
    }
    let mut back = vec![0u8; rgb.len()];
    let r = yuv_nv24_to_rgb(&img.y_plane, width, &uv, width * 2, &mut back, width * 3, width, 1, YuvRange::Full, YuvStandardMatrix::Bt709);
    assert_eq!(r, Ok(()));
    for i in 0..rgb.len() {
        assert!((back[i] as i32 - rgb[i] as i32).abs() <= 3, "channel {}: {} vs {}", i, back[i], rgb[i]);
    }
}

#[test]
fn chroma_subsampled_layouts() {
    let mut img = image(3, 1, 2, 1);
    let rgba = [0u8, 0, 0, 9, 0, 0, 0, 9, 255, 255, 255, 9];
    assert_eq!(rgba_to_yuv422(&mut img, &rgba, 12, YuvRange::Full, YuvStandardMatrix::Bt601), Ok(()));
    assert_eq!(img.y_plane, vec![0, 0, 255]);
    assert_eq!((img.u_plane[1], img.v_plane[1]), (128, 128));

    let mut img = image(2, 2, 1, 1);
    assert_eq!(rgb_to_yuv420(&mut img, &[0; 11], 6, YuvRange::Full, YuvStandardMatrix::Bt601), Err(YuvError::BufferTooSmall));
}
