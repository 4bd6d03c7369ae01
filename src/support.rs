//! Shared vocabulary: sample ranges, channel layouts, image containers, validation.

use vstd::prelude::*;

verus! {

/// Numeric range of the stored YUV samples.
#[derive(Clone, Copy, Debug, PartialEq, Eq, Structural)]
pub enum YuvRange {
    /// TV range: luma and chroma keep a head- and footroom.
    Limited,
    /// PC range: every code value is used.
    Full,
}

/// Chroma subsampling layout of a planar or bi-planar image.
#[derive(Clone, Copy, Debug, PartialEq, Eq, Structural)]
pub enum YuvChromaSubsampling {
    Yuv420,
    Yuv422,
    Yuv444,
}

/// Channel layout of an interleaved RGB buffer.
#[derive(Clone, Copy, Debug, PartialEq, Eq, Structural)]
pub enum YuvSourceChannels {
    Rgb,
    Rgba,
    Bgra,
    Bgr,
}

/// Order of the two chroma samples in a bi-planar chroma plane.
#[derive(Clone, Copy, Debug, PartialEq, Eq, Structural)]
pub enum YuvNVOrder {
    UV,
    VU,
}

/// Byte order of stored 16-bit samples, relative to a little-endian host word.
#[derive(Clone, Copy, Debug, PartialEq, Eq, Structural)]
pub enum YuvEndianness {
    BigEndian,
    LittleEndian,
}

/// Where the significant bits of a 10 or 12 bit sample sit in its 16-bit word.
#[derive(Clone, Copy, Debug, PartialEq, Eq, Structural)]
pub enum YuvBytesPacking {
    MostSignificantBytes,
    LeastSignificantBytes,
}

/// Standard colour matrices, given by their luma weights Kr and Kb.
#[derive(Clone, Copy, Debug, PartialEq, Eq, Structural)]
pub enum YuvStandardMatrix {
    Bt601,
    Bt709,
    Bt2020,
    Smpte240,
}

/// Failures found by the upfront validation of a conversion call.
#[derive(Clone, Copy, Debug, PartialEq, Eq, Structural)]
pub enum YuvError {
    /// Width or height is zero, or a stride is shorter than a row.
    InvalidDimensions,
    /// A buffer holds fewer elements than its stride times its row count.
    BufferTooSmall,
    /// The requested bit depth is not supported by this path.
    UnsupportedBitDepth,
}

/// Offsets and scales of a sample range at a given bit depth.
#[derive(Clone, Copy, Debug, PartialEq, Eq, Structural)]
pub struct YuvChromaRange {
    pub bias_y: u32,
    pub bias_uv: u32,
    pub range_y: u32,
    pub range_uv: u32,
    pub range: YuvRange,
}

/// Position reached by the luma cursor (`cx`) and the chroma cursor (`ux`) in a row.
#[derive(Clone, Copy, Debug, PartialEq, Eq, Structural)]
pub struct ProcessedOffset {
    pub cx: usize,
    pub ux: usize,
}

/// Integer coefficients of the YCbCr to RGB transform, scaled by `2^precision`.
#[derive(Clone, Copy, Debug, PartialEq, Eq, Structural)]
pub struct CbCrInverseTransform {
    pub y_coef: i64,
    pub cr_coef: i64,
    pub cb_coef: i64,
    pub g_coeff_1: i64,
    pub g_coeff_2: i64,
}

/// A planar image that a conversion writes into.
pub struct YuvPlanarImageMut<T> {
    pub y_plane: Vec<T>,
    pub y_stride: u32,
    pub u_plane: Vec<T>,
    pub u_stride: u32,
    pub v_plane: Vec<T>,
    pub v_stride: u32,
    pub width: u32,
    pub height: u32,
}

/// A planar image that a conversion reads from.
pub struct YuvPlanarImage<'a, T> {
    pub y_plane: &'a [T],
    pub y_stride: u32,
    pub u_plane: &'a [T],
    pub u_stride: u32,
    pub v_plane: &'a [T],
    pub v_stride: u32,
    pub width: u32,
    pub height: u32,
}

/// A bi-planar image (luma plus one interleaved chroma plane) that a conversion reads from.
pub struct YuvBiPlanarImage<'a, T> {
    pub y_plane: &'a [T],
    pub y_stride: u32,
    pub uv_plane: &'a [T],
    pub uv_stride: u32,
    pub width: u32,
    pub height: u32,
}

/// A luma-only image that a conversion reads from.
pub struct YuvGrayImage<'a, T> {
    pub y_plane: &'a [T],
    pub y_stride: u32,
    pub width: u32,
    pub height: u32,
}

impl YuvSourceChannels {
    pub open spec fn spec_channels(self) -> int {
        match self {
            YuvSourceChannels::Rgb | YuvSourceChannels::Bgr => 3,
            _ => 4,
        }
    }

    pub open spec fn spec_r(self) -> int {
        match self {
            YuvSourceChannels::Rgb | YuvSourceChannels::Rgba => 0,
            _ => 2,
        }
    }

    pub open spec fn spec_b(self) -> int {
        match self {
            YuvSourceChannels::Rgb | YuvSourceChannels::Rgba => 2,
            _ => 0,
        }
    }

    pub open spec fn spec_has_alpha(self) -> bool {
        self.spec_channels() == 4
    }

    pub fn get_channels_count(self) -> (r: usize)
        ensures
            r == self.spec_channels(),
    {
        match self {
            YuvSourceChannels::Rgb | YuvSourceChannels::Bgr => 3,
            _ => 4,
        }
    }

    pub fn get_r_channel_offset(self) -> (r: usize)
        ensures
            r == self.spec_r(),
    {
        match self {
            YuvSourceChannels::Rgb | YuvSourceChannels::Rgba => 0,
            _ => 2,
        }
    }

    pub fn get_g_channel_offset(self) -> (r: usize)
        ensures
            r == 1,
    {
        1
    }

    pub fn get_b_channel_offset(self) -> (r: usize)
        ensures
            r == self.spec_b(),
    {
        match self {
            YuvSourceChannels::Rgb | YuvSourceChannels::Rgba => 2,
            _ => 0,
        }
    }

    pub fn get_a_channel_offset(self) -> (r: usize)
        ensures
            r == 3,
    {
        3
    }

    pub fn has_alpha(self) -> (r: bool)
        ensures
            r == self.spec_has_alpha(),
    {
        match self {
            YuvSourceChannels::Rgb | YuvSourceChannels::Bgr => false,
            _ => true,
        }
    }
}

impl YuvStandardMatrix {
    /// Kr in units of 1/10000.
    pub open spec fn spec_kr(self) -> int {
        match self {
            YuvStandardMatrix::Bt601 => 2990,
            YuvStandardMatrix::Bt709 => 2126,
            YuvStandardMatrix::Bt2020 => 2627,
            YuvStandardMatrix::Smpte240 => 2120,
        }
    }

    /// Kb in units of 1/10000.
    pub open spec fn spec_kb(self) -> int {
        match self {
            YuvStandardMatrix::Bt601 => 1140,
            YuvStandardMatrix::Bt709 => 722,
            YuvStandardMatrix::Bt2020 => 593,
            YuvStandardMatrix::Smpte240 => 870,
        }
    }

    pub fn get_kr_kb(self) -> (r: (u64, u64))
        ensures
            r.0 == self.spec_kr(),
            r.1 == self.spec_kb(),
    {
        match self {
            YuvStandardMatrix::Bt601 => (2990, 1140),
            YuvStandardMatrix::Bt709 => (2126, 722),
            YuvStandardMatrix::Bt2020 => (2627, 593),
            YuvStandardMatrix::Smpte240 => (2120, 870),
        }
    }
}

pub open spec fn pow2(n: nat) -> int
    decreases n,
{
    if n == 0 {
        1
    } else {
        2 * pow2((n - 1) as nat)
    }
}

/// The largest value of a sample with `depth` bits.
pub open spec fn max_value(depth: nat) -> int {
    pow2(depth) - 1
}

pub open spec fn clamp(v: int, hi: int) -> int {
    if v < 0 {
        0
    } else if v > hi {
        hi
    } else {
        v
    }
}

/// `n / d` rounded to the nearest integer, halves away from zero (for `n, d > 0`).
pub open spec fn round_div(n: int, d: int) -> int {
    (2 * n + d) / (2 * d)
}

/// Rounding average of two samples.
pub open spec fn avg2(a: int, b: int) -> int {
    (a + b + 1) / 2
}

pub open spec fn spec_yuv_range(depth: nat, range: YuvRange) -> YuvChromaRange {
    match range {
        YuvRange::Limited => YuvChromaRange {
            bias_y: (16 * pow2((depth - 8) as nat)) as u32,
            bias_uv: pow2((depth - 1) as nat) as u32,
            range_y: (219 * pow2((depth - 8) as nat)) as u32,
            range_uv: (224 * pow2((depth - 8) as nat)) as u32,
            range,
        },
        YuvRange::Full => YuvChromaRange {
            bias_y: 0,
            bias_uv: pow2((depth - 1) as nat) as u32,
            range_y: max_value(depth) as u32,
            range_uv: max_value(depth) as u32,
            range,
        },
    }
}

pub proof fn lemma_pow2_bounds(n: nat)
    requires
        n <= 16,
    ensures
        1 <= pow2(n) <= 65536,
        n >= 1 ==> pow2(n) == 2 * pow2((n - 1) as nat),
{
    lemma_pow2_pos(n);
    lemma_pow2_monotone(n, 16);
    reveal_with_fuel(pow2, 17);
}

/// `2^n` for `n <= 16`.
pub fn pow2_exec(n: u32) -> (r: u32)
    requires
        n <= 16,
    ensures
        r == pow2(n as nat),
        1 <= r <= 65536,
{
    let mut r: u32 = 1;
    let mut i: u32 = 0;
    while i < n
        invariant
            i <= n <= 16,
            r == pow2(i as nat),
        decreases n - i,
    {
        proof {
            lemma_pow2_bounds((i + 1) as nat);
        }
        r = r * 2;
        i = i + 1;
    }
    proof {
        lemma_pow2_bounds(n as nat);
    }
    r
}

/// Biases and ranges of the samples at bit depth `depth`.
pub fn get_yuv_range(depth: u32, range: YuvRange) -> (r: YuvChromaRange)
    requires
        8 <= depth <= 16,
    ensures
        r == spec_yuv_range(depth as nat, range),
        r.bias_uv >= 128,
        r.range_y >= 219,
        r.range_uv >= 224,
        r.bias_y <= 4096,
        r.bias_uv <= 32768,
        r.range_y <= 65535,
        r.range_uv <= 65535,
{
    let up = pow2_exec(depth - 8);
    let half = pow2_exec(depth - 1);
    let full = pow2_exec(depth);
    proof {
        lemma_pow2_bounds(depth as nat);
        lemma_pow2_bounds((depth - 1) as nat);
        lemma_pow2_bounds((depth - 8) as nat);
        assert(pow2(depth as nat) == 2 * pow2((depth - 1) as nat));
        assert(pow2((depth - 1) as nat) >= 128) by {
            lemma_pow2_monotone(7, (depth - 1) as nat);
            reveal_pow2_7();
        }
        assert(up <= 256) by {
            lemma_pow2_monotone((depth - 8) as nat, 8);
            reveal_pow2_8();
        }
    }
    match range {
        YuvRange::Limited => YuvChromaRange {
            bias_y: 16 * up,
            bias_uv: half,
            range_y: 219 * up,
            range_uv: 224 * up,
            range,
        },
        YuvRange::Full => YuvChromaRange {
            bias_y: 0,
            bias_uv: half,
            range_y: full - 1,
            range_uv: full - 1,
            range,
        },
    }
}

pub proof fn lemma_pow2_monotone(a: nat, b: nat)
    requires
        a <= b,
    ensures
        pow2(a) <= pow2(b),
    decreases b,
{
    if b > a {
        lemma_pow2_monotone(a, (b - 1) as nat);
        assert(pow2(b) == 2 * pow2((b - 1) as nat));
        lemma_pow2_pos((b - 1) as nat);
    }
}

pub proof fn lemma_pow2_pos(n: nat)
    ensures
        pow2(n) >= 1,
    decreases n,
{
    if n > 0 {
        lemma_pow2_pos((n - 1) as nat);
    }
}

pub proof fn reveal_pow2_7()
    ensures
        pow2(7) == 128,
{
    reveal_with_fuel(pow2, 8);
}

pub proof fn reveal_pow2_8()
    ensures
        pow2(8) == 256,
{
    reveal_with_fuel(pow2, 9);
}

pub open spec fn chroma_width(width: int, sampling: YuvChromaSubsampling) -> int {
    match sampling {
        YuvChromaSubsampling::Yuv444 => width,
        _ => (width + 1) / 2,
    }
}

pub open spec fn chroma_height(height: int, sampling: YuvChromaSubsampling) -> int {
    match sampling {
        YuvChromaSubsampling::Yuv420 => (height + 1) / 2,
        _ => height,
    }
}

/// Number of luma pixels that share one chroma sample horizontally.
pub open spec fn sampling_factor(sampling: YuvChromaSubsampling) -> int {
    match sampling {
        YuvChromaSubsampling::Yuv444 => 1,
        _ => 2,
    }
}

/// What the validation of a three-plane image reports, if anything.
pub open spec fn planes_error(
    width: int,
    height: int,
    y_stride: int,
    u_stride: int,
    v_stride: int,
    y_len: int,
    u_len: int,
    v_len: int,
    sampling: YuvChromaSubsampling,
) -> Option<YuvError> {
    let cw = chroma_width(width, sampling);
    let ch = chroma_height(height, sampling);
    if width == 0 || height == 0 || y_stride < width || u_stride < cw || v_stride < cw {
        Some(YuvError::InvalidDimensions)
    } else if y_len < y_stride * height || u_len < u_stride * ch || v_len < v_stride * ch {
        Some(YuvError::BufferTooSmall)
    } else {
        None
    }
}

/// What the validation of one plane of `height` rows of `row` elements reports, if anything.
pub open spec fn plane_error(row: int, height: int, stride: int, len: int) -> Option<YuvError> {
    if row == 0 || height == 0 || stride < row {
        Some(YuvError::InvalidDimensions)
    } else if len < stride * height {
        Some(YuvError::BufferTooSmall)
    } else {
        None
    }
}

/// The first of two validation outcomes that reports a failure.
pub open spec fn first_error(a: Option<YuvError>, b: Option<YuvError>) -> Option<YuvError> {
    if a is Some {
        a
    } else {
        b
    }
}

pub open spec fn as_result(e: Option<YuvError>) -> Result<(), YuvError> {
    match e {
        Some(err) => Err(err),
        None => Ok(()),
    }
}

/// Product of two 32-bit values, which always fits 64 bits.
pub fn mul_wide(a: u32, b: u32) -> (r: u64)
    ensures
        r == a as int * b as int,
{
    proof {
        assert(a as int * b as int <= 0xffff_ffff * 0xffff_ffff) by (nonlinear_arith)
            requires
                a <= 0xffff_ffff,
                b <= 0xffff_ffff,
                a >= 0,
                b >= 0,
        ;
    }
    a as u64 * b as u64
}

/// Validates one plane: `height` rows of `row` elements each, `stride` apart.
pub fn check_plane(row: u64, height: u32, stride: u32, len: usize) -> (r: Result<(), YuvError>)
    ensures
        r == as_result(plane_error(row as int, height as int, stride as int, len as int)),
{
    if row == 0 || height == 0 || (stride as u64) < row {
        return Err(YuvError::InvalidDimensions);
    }
    let need: u64 = mul_wide(stride, height);
    if (len as u64) < need {
        return Err(YuvError::BufferTooSmall);
    }
    Ok(())
}

pub fn chroma_width_exec(width: u32, sampling: YuvChromaSubsampling) -> (r: u32)
    ensures
        r == chroma_width(width as int, sampling),
{
    match sampling {
        YuvChromaSubsampling::Yuv444 => width,
        _ => ((width as u64 + 1) / 2) as u32,
    }
}

pub fn chroma_height_exec(height: u32, sampling: YuvChromaSubsampling) -> (r: u32)
    ensures
        r == chroma_height(height as int, sampling),
{
    match sampling {
        YuvChromaSubsampling::Yuv420 => ((height as u64 + 1) / 2) as u32,
        _ => height,
    }
}

impl<T> YuvPlanarImageMut<T> {
    pub open spec fn spec_error(&self, sampling: YuvChromaSubsampling) -> Option<YuvError> {
        planes_error(
            self.width as int,
            self.height as int,
            self.y_stride as int,
            self.u_stride as int,
            self.v_stride as int,
            self.y_plane@.len() as int,
            self.u_plane@.len() as int,
            self.v_plane@.len() as int,
            sampling,
        )
    }

    /// Checks that the planes can hold an image of this size in the given layout.
    pub fn check_constraints(&self, sampling: YuvChromaSubsampling) -> (r: Result<(), YuvError>)
        ensures
            r == as_result(self.spec_error(sampling)),
    {
        check_planes(
            self.width,
            self.height,
            self.y_stride,
            self.u_stride,
            self.v_stride,
            self.y_plane.len(),
            self.u_plane.len(),
            self.v_plane.len(),
            sampling,
        )
    }
}

impl<'a, T> YuvPlanarImage<'a, T> {
    pub open spec fn spec_error(&self, sampling: YuvChromaSubsampling) -> Option<YuvError> {
        planes_error(
            self.width as int,
            self.height as int,
            self.y_stride as int,
            self.u_stride as int,
            self.v_stride as int,
            self.y_plane@.len() as int,
            self.u_plane@.len() as int,
            self.v_plane@.len() as int,
            sampling,
        )
    }

    /// Checks that the planes can hold an image of this size in the given layout.
    pub fn check_constraints(&self, sampling: YuvChromaSubsampling) -> (r: Result<(), YuvError>)
        ensures
            r == as_result(self.spec_error(sampling)),
    {
        check_planes(
            self.width,
            self.height,
            self.y_stride,
            self.u_stride,
            self.v_stride,
            self.y_plane.len(),
            self.u_plane.len(),
            self.v_plane.len(),
            sampling,
        )
    }
}

fn check_planes(
    width: u32,
    height: u32,
    y_stride: u32,
    u_stride: u32,
    v_stride: u32,
    y_len: usize,
    u_len: usize,
    v_len: usize,
    sampling: YuvChromaSubsampling,
) -> (r: Result<(), YuvError>)
    ensures
        r == as_result(
            planes_error(
                width as int,
                height as int,
                y_stride as int,
                u_stride as int,
                v_stride as int,
                y_len as int,
                u_len as int,
                v_len as int,
                sampling,
            ),
        ),
{
    let cw = chroma_width_exec(width, sampling);
    let ch = chroma_height_exec(height, sampling);
    if width == 0 || height == 0 || y_stride < width || u_stride < cw || v_stride < cw {
        return Err(YuvError::InvalidDimensions);
    }
    if (y_len as u64) < mul_wide(y_stride, height) || (u_len as u64) < mul_wide(u_stride, ch)
        || (v_len as u64) < mul_wide(v_stride, ch) {
        return Err(YuvError::BufferTooSmall);
    }
    Ok(())
}

impl<T> YuvPlanarImageMut<T> {
    /// Same dimensions, strides and plane lengths.
    pub open spec fn same_shape(&self, other: &YuvPlanarImageMut<T>) -> bool {
        &&& self.width == other.width
        &&& self.height == other.height
        &&& self.y_stride == other.y_stride
        &&& self.u_stride == other.u_stride
        &&& self.v_stride == other.v_stride
        &&& self.y_plane@.len() == other.y_plane@.len()
        &&& self.u_plane@.len() == other.u_plane@.len()
        &&& self.v_plane@.len() == other.v_plane@.len()
    }

    /// Same planes, element for element.
    pub open spec fn same_planes(&self, other: &YuvPlanarImageMut<T>) -> bool {
        &&& self.y_plane@ == other.y_plane@
        &&& self.u_plane@ == other.u_plane@
        &&& self.v_plane@ == other.v_plane@
    }
}

/// What the validation of a conversion from an interleaved buffer of `cn` pixels into
/// `image` reports, if anything: the planes first, then the source buffer.
pub open spec fn rgb_source_error<T>(
    image: &YuvPlanarImageMut<T>,
    src_len: int,
    src_stride: int,
    cn: YuvSourceChannels,
    sampling: YuvChromaSubsampling,
) -> Option<YuvError> {
    first_error(
        image.spec_error(sampling),
        plane_error(image.width * cn.spec_channels(), image.height as int, src_stride, src_len),
    )
}

/// The samples of a plane as integers.
pub open spec fn ints8(s: Seq<u8>) -> Seq<int> {
    Seq::new(s.len(), |i: int| s[i] as int)
}

/// The samples of a plane as integers.
pub open spec fn ints16(s: Seq<u16>) -> Seq<int> {
    Seq::new(s.len(), |i: int| s[i] as int)
}

/// Channel `c` of pixel `x` of the interleaved row that starts at `off`.
pub open spec fn pixel_at(src: Seq<int>, off: int, cn: YuvSourceChannels, x: int, c: int) -> int {
    src[off + x * cn.spec_channels() + c]
}

/// `2^n == 256 * 2^(n - 8)`.
pub proof fn lemma_pow2_shift8(n: nat)
    requires
        n >= 8,
    ensures
        pow2(n) == 256 * pow2((n - 8) as nat),
    decreases n,
{
    if n == 8 {
        reveal_pow2_8();
        reveal_with_fuel(pow2, 1);
    } else {
        lemma_pow2_shift8((n - 1) as nat);
        assert(pow2(n) == 2 * pow2((n - 1) as nat));
        assert(pow2((n - 8) as nat) == 2 * pow2((n - 9) as nat));
    }
}

impl<'a, T> YuvBiPlanarImage<'a, T> {
    /// What the validation of the planes reports, if anything: the luma plane, then the
    /// chroma plane with two samples per chroma position.
    pub open spec fn spec_error(&self, sampling: YuvChromaSubsampling) -> Option<YuvError> {
        first_error(
            plane_error(
                self.width as int,
                self.height as int,
                self.y_stride as int,
                self.y_plane@.len() as int,
            ),
            plane_error(
                2 * chroma_width(self.width as int, sampling),
                chroma_height(self.height as int, sampling),
                self.uv_stride as int,
                self.uv_plane@.len() as int,
            ),
        )
    }

    /// Checks that the planes can hold an image of this size in the given layout.
    pub fn check_constraints(&self, sampling: YuvChromaSubsampling) -> (r: Result<(), YuvError>)
        ensures
            r == as_result(self.spec_error(sampling)),
    {
        check_plane(self.width as u64, self.height, self.y_stride, self.y_plane.len())?;
        let cw = chroma_width_exec(self.width, sampling);
        let ch = chroma_height_exec(self.height, sampling);
        check_plane(2 * cw as u64, ch, self.uv_stride, self.uv_plane.len())
    }
}

impl YuvPlanarImageMut<u16> {
    /// A zeroed image of `width` by `height` pixels with tightly packed planes for the
    /// layout `sampling`.
    pub fn allocate(width: u32, height: u32, sampling: YuvChromaSubsampling) -> (r: YuvPlanarImageMut<u16>)
        requires
            width as int * height as int <= usize::MAX,
            chroma_width(width as int, sampling) * chroma_height(height as int, sampling)
                <= usize::MAX,
        ensures
            r.width == width,
            r.height == height,
            r.y_stride == width,
            r.u_stride == chroma_width(width as int, sampling),
            r.v_stride == chroma_width(width as int, sampling),
            r.y_plane@.len() == width as int * height as int,
            r.u_plane@.len() == chroma_width(width as int, sampling) * chroma_height(height as int, sampling),
            r.v_plane@.len() == chroma_width(width as int, sampling) * chroma_height(height as int, sampling),
            r.spec_error(sampling) == planes_error(
                width as int,
                height as int,
                width as int,
                chroma_width(width as int, sampling),
                chroma_width(width as int, sampling),
                width as int * height as int,
                chroma_width(width as int, sampling) * chroma_height(height as int, sampling),
                chroma_width(width as int, sampling) * chroma_height(height as int, sampling),
                sampling,
            ),
    {
        let cw = chroma_width_exec(width, sampling);
        let ch = chroma_height_exec(height, sampling);
        let luma = mul_wide(width, height) as usize;
        let chroma = mul_wide(cw, ch) as usize;
        YuvPlanarImageMut {
            y_plane: vec![0u16; luma],
            y_stride: width,
            u_plane: vec![0u16; chroma],
            u_stride: cw,
            v_plane: vec![0u16; chroma],
            v_stride: cw,
            width,
            height,
        }
    }
}

impl<T> YuvPlanarImageMut<T> {
    /// A read-only view of the same planes.
    pub fn to_fixed(&self) -> (r: YuvPlanarImage<'_, T>)
        ensures
            r.y_plane@ == self.y_plane@,
            r.u_plane@ == self.u_plane@,
            r.v_plane@ == self.v_plane@,
            r.y_stride == self.y_stride,
            r.u_stride == self.u_stride,
            r.v_stride == self.v_stride,
            r.width == self.width,
            r.height == self.height,
    {
        YuvPlanarImage {
            y_plane: self.y_plane.as_slice(),
            y_stride: self.y_stride,
            u_plane: self.u_plane.as_slice(),
            u_stride: self.u_stride,
            v_plane: self.v_plane.as_slice(),
            v_stride: self.v_stride,
            width: self.width,
            height: self.height,
        }
    }
}

} // verus!
