use yuvutils::{
    rgb_to_yuv420_p16, rgb_to_yuv422_p16, rgb_to_yuv444_p16, yuv420_p16_to_rgb16,
    yuv422_p16_to_rgb16, yuv444_p16_to_rgb16, yuv_nv_p10_to_image_impl, Rgb30, Rgb30ByteOrder,
    YuvBiPlanarImage, YuvBytesPacking, YuvChromaSubsampling, YuvEndianness, YuvError, YuvNVOrder,
    YuvPlanarImageMut, YuvRange, YuvStandardMatrix,
};

const CHANNELS: usize = 3;
const WIDTH: usize = 256;
const HEIGHT: usize = 256;

struct Lcg(u64);

impl Lcg {
    fn below(&mut self, n: usize) -> usize {
        self.0 = self.0.wrapping_mul(6364136223846793005).wrapping_add(1442695040888963407);
        ((self.0 >> 33) as usize) % n
    }
}

fn points(rng: &mut Lcg) -> [[usize; 2]; 12] {
    let random_point_x = rng.below(WIDTH);
    let random_point_y = rng.below(HEIGHT);
    [
        [0, 0],
        [WIDTH - 1, HEIGHT - 1],
        [WIDTH - 1, 0],
        [0, HEIGHT - 1],
        [(WIDTH - 1) / 2, (HEIGHT - 1) / 2],
        [WIDTH / 5, HEIGHT / 5],
        [0, HEIGHT / 5],
        [WIDTH / 5, 0],
        [WIDTH / 5 * 3, HEIGHT / 5],
        [WIDTH / 5 * 3, HEIGHT / 5 * 3],
        [WIDTH / 5, HEIGHT / 5 * 3],
        [random_point_x, random_point_y],
    ]
}

fn put(rgb: &mut [u16], x: usize, y: usize, c: [u16; 3]) {
    let at = x * CHANNELS + y * WIDTH * CHANNELS;
    rgb[at] = c[0];
    rgb[at + 1] = c[1];
    rgb[at + 2] = c[2];
}

fn get(rgb: &[u16], x: usize, y: usize) -> [u16; 3] {
    let at = x * CHANNELS + y * WIDTH * CHANNELS;
    [rgb[at], rgb[at + 1], rgb[at + 2]]
}

/// Encodes and decodes back with the given layout; returns the decoded image.
fn round_trip(source: &[u16], sampling: YuvChromaSubsampling, range: YuvRange) -> Vec<u16> {
    let mut planar = YuvPlanarImageMut::<u16>::allocate(WIDTH as u32, HEIGHT as u32, sampling);
    let stride = WIDTH as u32 * CHANNELS as u32;
    let encode = match sampling {
        YuvChromaSubsampling::Yuv444 => rgb_to_yuv444_p16,
        YuvChromaSubsampling::Yuv422 => rgb_to_yuv422_p16,
        YuvChromaSubsampling::Yuv420 => rgb_to_yuv420_p16,
    };
    encode(
        &mut planar,
        source,
        stride,
        10,
        range,
        YuvStandardMatrix::Bt709,
        YuvEndianness::LittleEndian,
        YuvBytesPacking::LeastSignificantBytes,
    )
    .unwrap();
    let mut dest = vec![0u16; WIDTH * HEIGHT * CHANNELS];
    let fixed = planar.to_fixed();
    let decode = match sampling {
        YuvChromaSubsampling::Yuv444 => yuv444_p16_to_rgb16,
        YuvChromaSubsampling::Yuv422 => yuv422_p16_to_rgb16,
        YuvChromaSubsampling::Yuv420 => yuv420_p16_to_rgb16,
    };
    decode(
        &fixed,
        &mut dest,
        stride,
        10,
        range,
        YuvStandardMatrix::Bt709,
        YuvEndianness::LittleEndian,
        YuvBytesPacking::LeastSignificantBytes,
    )
    .unwrap();
    dest
}

fn colour(rng: &mut Lcg) -> [u16; 3] {
    [rng.below(1024) as u16, rng.below(1024) as u16, rng.below(1024) as u16]
}

#[test]
fn test_yuv444_p16_round_trip_full_range() {
    for seed in 1..6u64 {
        let mut rng = Lcg(seed);
        let pixel_points = points(&mut rng);
        let source_colour = colour(&mut rng);
        let mut image_rgb = vec![0u16; WIDTH * HEIGHT * CHANNELS];
        for point in &pixel_points {
            put(&mut image_rgb, point[0], point[1], source_colour);
        }
        let out = round_trip(&image_rgb, YuvChromaSubsampling::Yuv444, YuvRange::Full);
        for point in &pixel_points {
            let got = get(&out, point[0], point[1]);
            for c in 0..3 {
                let diff = (got[c] as i32 - source_colour[c] as i32).abs();
                assert!(diff <= 4, "Original RGB {:?}, Round-tripped RGB {:?}", source_colour, got);
            }
        }
    }
}

#[test]
fn test_yuv444_round_trip_limited_range() {
    for seed in 11..16u64 {
        let mut rng = Lcg(seed);
        let pixel_points = points(&mut rng);
        let source_colour = colour(&mut rng);
        let mut image_rgb = vec![0u16; WIDTH * HEIGHT * CHANNELS];
        for point in &pixel_points {
            put(&mut image_rgb, point[0], point[1], source_colour);
        }
        let out = round_trip(&image_rgb, YuvChromaSubsampling::Yuv444, YuvRange::Limited);
        for point in &pixel_points {
            let got = get(&out, point[0], point[1]);
            for c in 0..3 {
                let diff = (got[c] as i32 - source_colour[c] as i32).abs();
                assert!(diff <= 12, "Original RGB {:?}, Round-tripped RGB {:?}", source_colour, got);
            }
        }
    }
}

#[test]
fn test_yuv422_p16_round_trip_limited_range() {
    for seed in 21..26u64 {
        let mut rng = Lcg(seed);
        let pixel_points = points(&mut rng);
        let source_colour = colour(&mut rng);
        let mut source_rgb = vec![0u16; WIDTH * HEIGHT * CHANNELS];
        for point in &pixel_points {
            put(&mut source_rgb, point[0], point[1], source_colour);
            put(&mut source_rgb, (point[0] + 1).min(WIDTH - 1), point[1], source_colour);
            put(&mut source_rgb, point[0].saturating_sub(1), point[1], source_colour);
        }
        let out = round_trip(&source_rgb, YuvChromaSubsampling::Yuv422, YuvRange::Limited);
        for point in &pixel_points {
            let got = get(&out, point[0], point[1]);
            for c in 0..3 {
                let diff = got[c] as i32 - source_colour[c] as i32;
                assert!(
                    diff <= 12,
                    "Actual diff {}, Original RGB {:?}, Round-tripped RGB {:?}",
                    diff,
                    source_colour,
                    got
                );
            }
        }
    }
}

#[test]
fn test_yuv420_p16_round_trip_limited_range() {
    for seed in 31..36u64 {
        let mut rng = Lcg(seed);
        let pixel_points = points(&mut rng);
        let source_colour = colour(&mut rng);
        let mut source_rgb = vec![0u16; WIDTH * HEIGHT * CHANNELS];
        for point in &pixel_points {
            let (x, y) = (point[0], point[1]);
            let right = (x + 1).min(WIDTH - 1);
            let below = (y + 1).min(HEIGHT - 1);
            let left = x.saturating_sub(1);
            let above = y.saturating_sub(1);
            put(&mut source_rgb, x, y, source_colour);
            put(&mut source_rgb, right, y, source_colour);
            put(&mut source_rgb, right, below, source_colour);
            put(&mut source_rgb, x, below, source_colour);
            put(&mut source_rgb, left, above, source_colour);
            put(&mut source_rgb, x, above, source_colour);
            put(&mut source_rgb, left, y, source_colour);
        }
        let out = round_trip(&source_rgb, YuvChromaSubsampling::Yuv420, YuvRange::Limited);
        for point in &pixel_points {
            let got = get(&out, point[0], point[1]);
            for c in 0..3 {
                let diff = got[c] as i32 - source_colour[c] as i32;
                assert!(
                    diff <= 230,
                    "Actual diff {}, Original RGB {:?}, Round-tripped RGB {:?}",
                    diff,
                    source_colour,
                    got
                );
            }
        }
    }
}

#[test]
fn solid_block_round_trips_exactly_enough_in_every_layout() {
    // A 4x4 block of one colour, aligned to the chroma grid, in a 256x256 image.
    for (sampling, range, bound) in [
        (YuvChromaSubsampling::Yuv444, YuvRange::Full, 4),
        (YuvChromaSubsampling::Yuv422, YuvRange::Limited, 12),
        (YuvChromaSubsampling::Yuv420, YuvRange::Limited, 230),
    ] {
        let source_colour = [700u16, 100, 900];
        let mut rgb = vec![0u16; WIDTH * HEIGHT * CHANNELS];
        for y in 64..68 {
            for x in 64..68 {
                put(&mut rgb, x, y, source_colour);
            }
        }
        let out = round_trip(&rgb, sampling, range);
        for y in 64..68 {
            for x in 64..68 {
                let got = get(&out, x, y);
                for c in 0..3 {
                    assert!((got[c] as i32 - source_colour[c] as i32).abs() <= bound, "{:?}", got);
                }
            }
        }
    }
}

#[test]
fn encoder_exact_gray() {
    let mut planar = YuvPlanarImageMut::<u16>::allocate(1, 1, YuvChromaSubsampling::Yuv444);
    let r = rgb_to_yuv444_p16(
        &mut planar,
        &[512, 512, 512],
        3,
        10,
        YuvRange::Full,
        YuvStandardMatrix::Bt709,
        YuvEndianness::LittleEndian,
        YuvBytesPacking::LeastSignificantBytes,
    );
    assert_eq!(r, Ok(()));
    assert_eq!((planar.y_plane[0], planar.u_plane[0], planar.v_plane[0]), (512, 512, 512));
}

#[test]
fn encoder_stores_most_significant_big_endian() {
    let mut planar = YuvPlanarImageMut::<u16>::allocate(1, 1, YuvChromaSubsampling::Yuv444);
    let r = rgb_to_yuv444_p16(
        &mut planar,
        &[512, 512, 512],
        3,
        10,
        YuvRange::Full,
        YuvStandardMatrix::Bt709,
        YuvEndianness::BigEndian,
        YuvBytesPacking::MostSignificantBytes,
    );
    assert_eq!(r, Ok(()));
    // 512 << 6 is 0x8000, stored with its bytes swapped.
    assert_eq!(planar.y_plane[0], 0x0080);
}

#[test]
fn encoder_rejects_other_depths_and_short_buffers() {
    let mut planar = YuvPlanarImageMut::<u16>::allocate(2, 2, YuvChromaSubsampling::Yuv420);
    let args = (YuvRange::Full, YuvStandardMatrix::Bt709, YuvEndianness::LittleEndian);
    let r = rgb_to_yuv420_p16(&mut planar, &[0; 12], 6, 8, args.0, args.1, args.2, YuvBytesPacking::LeastSignificantBytes);
    assert_eq!(r, Err(YuvError::UnsupportedBitDepth));
    let r = rgb_to_yuv420_p16(&mut planar, &[0; 11], 6, 10, args.0, args.1, args.2, YuvBytesPacking::LeastSignificantBytes);
    assert_eq!(r, Err(YuvError::BufferTooSmall));
}

#[test]
fn ar30_packs_gray_in_both_byte_orders() {
    let y = [512u16];
    let uv = [512u16, 512];
    let image = YuvBiPlanarImage { y_plane: &y, y_stride: 1, uv_plane: &uv, uv_stride: 2, width: 1, height: 1 };
    let mut host = [0u8; 4];
    let mut network = [0u8; 4];
    for (dst, order) in [(&mut host, Rgb30ByteOrder::Host), (&mut network, Rgb30ByteOrder::Network)] {
        let r = yuv_nv_p10_to_image_impl(
            &image,
            dst,
            4,
            order,
            YuvRange::Full,
            YuvStandardMatrix::Bt709,
            Rgb30::Ar30,
            YuvNVOrder::UV,
            YuvChromaSubsampling::Yuv444,
            YuvEndianness::LittleEndian,
            YuvBytesPacking::LeastSignificantBytes,
        );
        assert_eq!(r, Ok(()));
    }
    // 3 << 30 | 512 << 20 | 512 << 10 | 512
    assert_eq!(u32::from_le_bytes(host), 0xE008_0200);
    assert_eq!(u32::from_be_bytes(network), 0xE008_0200);
}

#[test]
fn ar30_reports_a_short_destination() {
    let y = [0u16; 2];
    let uv = [0u16; 2];
    let image = YuvBiPlanarImage { y_plane: &y, y_stride: 2, uv_plane: &uv, uv_stride: 2, width: 2, height: 1 };
    let mut dst = [0u8; 7];
    let r = yuv_nv_p10_to_image_impl(
        &image,
        &mut dst,
        8,
        Rgb30ByteOrder::Host,
        YuvRange::Full,
        YuvStandardMatrix::Bt709,
        Rgb30::Ab30,
        YuvNVOrder::VU,
        YuvChromaSubsampling::Yuv422,
        YuvEndianness::LittleEndian,
        YuvBytesPacking::LeastSignificantBytes,
    );
    assert_eq!(r, Err(YuvError::BufferTooSmall));
}
