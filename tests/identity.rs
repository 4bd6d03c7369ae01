use yuvutils::{
    bgra_to_gbr, rgb10_to_gb10, rgb_to_gbr, rgba12_to_gb12, YuvError, YuvPlanarImageMut, YuvRange,
};

fn image<T: Copy>(width: u32, height: u32, fill: T) -> YuvPlanarImageMut<T> {
    let n = (width * height) as usize;
    YuvPlanarImageMut {
        y_plane: vec![fill; n],
        y_stride: width,
        u_plane: vec![fill; n],
        u_stride: width,
        v_plane: vec![fill; n],
        v_stride: width,
        width,
        height,
    }
}

#[test]
fn full_range_moves_green_blue_red() {
    let mut img = image(2, 1, 0u8);
    assert_eq!(rgb_to_gbr(&mut img, &[1, 2, 3, 4, 5, 6], 6, YuvRange::Full), Ok(()));
    assert_eq!(img.y_plane, vec![2, 5]);
    assert_eq!(img.u_plane, vec![3, 6]);
    assert_eq!(img.v_plane, vec![1, 4]);
}

#[test]
fn bgra_layout_reads_red_from_the_third_channel() {
    let mut img = image(1, 1, 0u8);
    assert_eq!(bgra_to_gbr(&mut img, &[10, 20, 30, 40], 4, YuvRange::Full), Ok(()));
    assert_eq!((img.y_plane[0], img.u_plane[0], img.v_plane[0]), (20, 10, 30));
}

#[test]
fn limited_range_8_bit_rescale() {
    let mut img = image(2, 1, 0u8);
    assert_eq!(rgb_to_gbr(&mut img, &[0, 0, 0, 255, 255, 255], 6, YuvRange::Limited), Ok(()));
    assert_eq!(img.y_plane, vec![16, 235]);
}

#[test]
fn limited_range_10_bit_rescale() {
    let mut img = image(2, 1, 0u16);
    assert_eq!(rgb10_to_gb10(&mut img, &[0, 0, 0, 1023, 1023, 1023], 6, YuvRange::Limited), Ok(()));
    assert_eq!(img.y_plane, vec![64, 940]);
    assert_eq!(img.v_plane, vec![64, 940]);
}

#[test]
fn limited_range_12_bit_rgba() {
    let mut img = image(1, 1, 0u16);
    assert_eq!(rgba12_to_gb12(&mut img, &[4095, 0, 4095, 1], 4, YuvRange::Limited), Ok(()));
    assert_eq!((img.y_plane[0], img.u_plane[0]), (256, 3760));
}

#[test]
fn identity_errors() {
    let mut img = image(2, 2, 0u8);
    assert_eq!(rgb_to_gbr(&mut img, &[0; 11], 6, YuvRange::Full), Err(YuvError::BufferTooSmall));
    img.v_stride = 1;
    assert_eq!(rgb_to_gbr(&mut img, &[0; 12], 6, YuvRange::Full), Err(YuvError::InvalidDimensions));
}
