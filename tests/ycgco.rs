use yuvutils::{
    bgr_to_ycgco444, rgb_to_ycgco420, rgb_to_ycgco422, rgb_to_ycgco444, rgba_to_ycgco444,
    ycgco_coefficients, YuvError, YuvPlanarImageMut, YuvRange,
};

fn image(width: u32, height: u32, chroma_width: u32, chroma_height: u32) -> YuvPlanarImageMut<u8> {
    YuvPlanarImageMut {
        y_plane: vec![7; (width * height) as usize],
        y_stride: width,
        u_plane: vec![7; (chroma_width * chroma_height) as usize],
        u_stride: chroma_width,
        v_plane: vec![7; (chroma_width * chroma_height) as usize],
        v_stride: chroma_width,
        width,
        height,
    }
}

#[test]
fn coefficients_full_and_limited() {
    let full = ycgco_coefficients(YuvRange::Full);
    assert_eq!((full.scale_y, full.bias_y, full.scale_uv, full.bias_uv), (256, 128, 256, 32896));
    let limited = ycgco_coefficients(YuvRange::Limited);
    assert_eq!(
        (limited.scale_y, limited.bias_y, limited.scale_uv, limited.bias_uv),
        (220, 4224, 225, 32896)
    );
}

#[test]
fn black_and_white_full_range() {
    let mut img = image(2, 1, 2, 1);
    let rgb = [0u8, 0, 0, 255, 255, 255];
    assert_eq!(rgb_to_ycgco444(&mut img, &rgb, 6, YuvRange::Full), Ok(()));
    assert_eq!(img.y_plane, vec![0, 255]);
    assert_eq!(img.u_plane, vec![128, 128]);
    assert_eq!(img.v_plane, vec![128, 128]);
}

#[test]
fn black_and_white_limited_range() {
    let mut img = image(2, 1, 2, 1);
    let rgb = [0u8, 0, 0, 255, 255, 255];
    assert_eq!(rgb_to_ycgco444(&mut img, &rgb, 6, YuvRange::Limited), Ok(()));
    assert_eq!(img.y_plane, vec![16, 235]);
}

#[test]
fn saturated_chroma_is_clamped_not_wrapped() {
    // Pure green gives a Cg of 256 and pure red a Co of 256 before saturation.
    let mut img = image(2, 1, 2, 1);
    let rgb = [0u8, 255, 0, 255, 0, 0];
    assert_eq!(rgb_to_ycgco444(&mut img, &rgb, 6, YuvRange::Full), Ok(()));
    assert_eq!(img.u_plane[0], 255);
    assert_eq!(img.v_plane[0], 128);
    assert_eq!(img.v_plane[1], 255);
}

#[test]
fn channel_order_bgr_and_rgba() {
    let mut a = image(1, 1, 1, 1);
    let mut b = image(1, 1, 1, 1);
    let mut c = image(1, 1, 1, 1);
    assert_eq!(rgb_to_ycgco444(&mut a, &[200, 10, 30], 3, YuvRange::Full), Ok(()));
    assert_eq!(bgr_to_ycgco444(&mut b, &[30, 10, 200], 3, YuvRange::Full), Ok(()));
    assert_eq!(rgba_to_ycgco444(&mut c, &[200, 10, 30, 9], 4, YuvRange::Full), Ok(()));
    assert_eq!(a.y_plane, b.y_plane);
    assert_eq!(a.u_plane, b.u_plane);
    assert_eq!(a.v_plane, b.v_plane);
    assert_eq!(a.v_plane, c.v_plane);
    // Co = ((200 - 30) * 256 / 2 + 32896) / 256
    assert_eq!(a.v_plane[0], 213);
}

#[test]
fn chroma_422_averages_rgb_before_the_transform() {
    let mut img = image(2, 1, 1, 1);
    let rgb = [0u8, 0, 0, 255, 255, 255];
    assert_eq!(rgb_to_ycgco422(&mut img, &rgb, 6, YuvRange::Full), Ok(()));
    assert_eq!(img.y_plane, vec![0, 255]);
    assert_eq!(img.u_plane, vec![128]);
    assert_eq!(img.v_plane, vec![128]);
}

#[test]
fn odd_width_replicates_the_last_pixel() {
    let mut img = image(3, 1, 2, 1);
    let rgb = [0u8, 0, 0, 0, 0, 0, 255, 0, 0];
    assert_eq!(rgb_to_ycgco422(&mut img, &rgb, 9, YuvRange::Full), Ok(()));
    assert_eq!(img.v_plane, vec![128, 255]);
    let mut single = image(1, 1, 1, 1);
    assert_eq!(rgb_to_ycgco444(&mut single, &[255, 0, 0], 3, YuvRange::Full), Ok(()));
    assert_eq!(img.u_plane[1], single.u_plane[0]);
    assert_eq!(img.v_plane[1], single.v_plane[0]);
}

#[test]
fn chroma_420_averages_two_rows() {
    let mut img = image(2, 2, 1, 1);
    let rgb = [255u8, 0, 0, 255, 0, 0, 0, 0, 0, 0, 0, 0];
    assert_eq!(rgb_to_ycgco420(&mut img, &rgb, 6, YuvRange::Full), Ok(()));
    // Red averages to 128: Co = (128 * 256 / 2 + 32896) / 256.
    assert_eq!(img.v_plane, vec![192]);
}

#[test]
fn chroma_420_odd_height_uses_last_row() {
    let mut img = image(1, 3, 1, 2);
    let rgb = [0u8, 0, 0, 0, 0, 0, 255, 0, 0];
    assert_eq!(rgb_to_ycgco420(&mut img, &rgb, 3, YuvRange::Full), Ok(()));
    assert_eq!(img.v_plane, vec![128, 255]);
}

#[test]
fn padding_in_strides_is_respected() {
    let mut img = YuvPlanarImageMut {
        y_plane: vec![7u8; 6],
        y_stride: 3,
        u_plane: vec![7u8; 6],
        u_stride: 3,
        v_plane: vec![7u8; 6],
        v_stride: 3,
        width: 2,
        height: 2,
    };
    let rgb = [255u8; 16];
    assert_eq!(rgb_to_ycgco444(&mut img, &rgb, 8, YuvRange::Full), Ok(()));
    assert_eq!(img.y_plane, vec![255, 255, 7, 255, 255, 7]);
}

#[test]
fn invalid_input_is_reported_before_writing() {
    let mut img = image(0, 1, 0, 1);
    assert_eq!(rgb_to_ycgco444(&mut img, &[], 0, YuvRange::Full), Err(YuvError::InvalidDimensions));

    let mut img = image(2, 2, 2, 2);
    img.y_plane.truncate(3);
    assert_eq!(
        rgb_to_ycgco444(&mut img, &[0u8; 12], 6, YuvRange::Full),
        Err(YuvError::BufferTooSmall)
    );

    let mut img = image(2, 2, 2, 2);
    assert_eq!(
        rgb_to_ycgco444(&mut img, &[0u8; 12], 5, YuvRange::Full),
        Err(YuvError::InvalidDimensions)
    );
    assert_eq!(
        rgb_to_ycgco444(&mut img, &[0u8; 11], 6, YuvRange::Full),
        Err(YuvError::BufferTooSmall)
    );
    assert_eq!(img.y_plane, vec![7; 4]);
    assert_eq!(img.u_plane, vec![7; 4]);
}

#[test]
fn lane_kernel_matches_per_pixel_conversion() {
    // Forty pixels: two lane steps of sixteen, then the scalar tail.
    let width = 40u32;
    let mut rgb = Vec::new();
    for x in 0..width {
        rgb.extend_from_slice(&[(x * 37 % 256) as u8, (x * 91 % 256) as u8, (255 - x * 5) as u8]);
    }
    for range in [YuvRange::Full, YuvRange::Limited] {
        let mut wide = image(width, 1, (width + 1) / 2, 1);
        assert_eq!(rgb_to_ycgco422(&mut wide, &rgb, width * 3, range), Ok(()));
        for x in 0..width as usize {
            let mut single = image(1, 1, 1, 1);
            assert_eq!(rgb_to_ycgco444(&mut single, &rgb[x * 3..x * 3 + 3], 3, range), Ok(()));
            assert_eq!(wide.y_plane[x], single.y_plane[0], "pixel {}", x);
        }
    }
}

#[test]
fn cursors_end_at_width_and_rounded_up_half() {
    let k = ycgco_coefficients(YuvRange::Full);
    for width in 1..50usize {
        for factor in [1usize, 2] {
            let mut y = vec![0u8; width];
            let mut u = vec![0u8; width];
            let mut v = vec![0u8; width];
            let src = vec![10u8; width * 3];
            let p = yuvutils::ycgco::ycgco_row(
                &mut y,
                &mut u,
                &mut v,
                &src,
                0,
                0,
                0,
                0,
                0,
                width,
                yuvutils::YuvSourceChannels::Rgb,
                factor,
                true,
                &k,
            );
            assert_eq!(p.cx, width);
            assert_eq!(p.ux, (width + factor - 1) / factor);
        }
    }
}
