//! Conversions between interleaved RGB buffers and planar or bi-planar YUV images
//! (YCbCr, YCgCo and identity), with fixed-point transforms whose per-sample results,
//! rounding, saturation and chroma subsampling are stated in each function's contract.

pub mod ar30;
pub mod encode;
pub mod encode8;
pub mod gray;
pub mod identity;
pub mod laws;
pub mod layout;
pub mod nv;
pub mod p16;
pub mod support;
pub mod transform;
pub mod ycgco;

pub use gray::{yuv400_p16_to_bgr16, yuv400_p16_to_bgra16, yuv400_p16_to_rgb16, yuv400_p16_to_rgba16};
pub use identity::{
    bgr_to_gbr, bgra_to_gbr, rgb10_to_gb10, rgb12_to_gb12, rgb_to_gbr, rgba10_to_gb10,
    rgba12_to_gb12, rgba_to_gbr,
};
pub use nv::{
    yuv_nv12_to_bgra, yuv_nv12_to_rgb, yuv_nv12_to_rgba, yuv_nv12_to_rgbx, yuv_nv16_to_bgra,
    yuv_nv16_to_rgb, yuv_nv16_to_rgba, yuv_nv21_to_bgra, yuv_nv21_to_rgb, yuv_nv21_to_rgba,
    yuv_nv24_to_bgra, yuv_nv24_to_rgb, yuv_nv24_to_rgba, yuv_nv42_to_bgra, yuv_nv42_to_rgb,
    yuv_nv42_to_rgba, yuv_nv61_to_bgra, yuv_nv61_to_rgb, yuv_nv61_to_rgba,
};
pub use ar30::{yuv_nv_p10_to_image_impl, yuv_nv_p10_to_image_impl_d, Rgb30, Rgb30ByteOrder};
pub use encode8::{
    rgb_to_yuv420, rgb_to_yuv422, rgb_to_yuv444, rgba_to_yuv420, rgba_to_yuv422, rgba_to_yuv444,
    rgbx_to_yuv8,
};
pub use encode::{rgb_to_yuv420_p16, rgb_to_yuv422_p16, rgb_to_yuv444_p16, rgbx_to_yuv_p16};
pub use p16::{
    yuv420_p16_to_rgb16, yuv422_p16_to_rgb16, yuv444_p16_to_rgb16, yuv_p16_to_image_p16_ant,
    yuv_p16_to_image_p16_impl,
};
pub use support::{
    get_yuv_range, CbCrInverseTransform, ProcessedOffset, YuvBytesPacking, YuvChromaRange,
    YuvBiPlanarImage, YuvChromaSubsampling, YuvEndianness, YuvError, YuvGrayImage, YuvNVOrder, YuvPlanarImage,
    YuvPlanarImageMut, YuvRange, YuvSourceChannels, YuvStandardMatrix,
};
pub use transform::inverse_transform;
pub use ycgco::{
    bgr_to_ycgco420, bgr_to_ycgco422, bgr_to_ycgco444, bgra_to_ycgco420, bgra_to_ycgco422,
    bgra_to_ycgco444, rgb_to_ycgco420, rgb_to_ycgco422, rgb_to_ycgco444, rgba_to_ycgco420,
    rgba_to_ycgco422, rgba_to_ycgco444, rgbx_to_ycgco, ycgco_coefficients,
};
