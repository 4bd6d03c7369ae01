//! RGB to identity (GBR) planes, with the limited-range rescale.

use vstd::prelude::*;

use crate::layout::{lemma_row_fits, lemma_rows_disjoint, plane_at};
use crate::support::{
    as_result, check_plane, clamp, get_yuv_range, ints16, ints8, lemma_pow2_bounds, lemma_pow2_shift8, max_value,
    mul_wide, pixel_at, plane_error, pow2, pow2_exec, rgb_source_error, spec_yuv_range,
    YuvChromaSubsampling, YuvError, YuvPlanarImageMut, YuvRange, YuvSourceChannels,
};

verus! {

/// Constants of the identity (GBR) transform with 13 fractional bits.
#[derive(Clone, Copy, Debug, PartialEq, Eq, Structural)]
pub struct IdentityParams {
    /// Whether samples are rescaled into the limited range.
    pub limited: bool,
    /// `range_y / max * 2^13`, truncated.
    pub coef: u32,
    /// `bias_y * 2^13`.
    pub bias: u32,
    /// The largest sample value.
    pub max: u32,
}

impl IdentityParams {
    pub open spec fn wf(self) -> bool {
        self.coef <= 8192 && self.bias <= 0x200_0000 && self.max <= 65535
    }
}

pub open spec fn spec_identity_params(range: YuvRange, depth: nat) -> IdentityParams {
    let r = spec_yuv_range(depth, YuvRange::Limited);
    IdentityParams {
        limited: range == YuvRange::Limited,
        coef: (r.range_y * 8192 / max_value(depth)) as u32,
        bias: (r.bias_y * 8192) as u32,
        max: max_value(depth) as u32,
    }
}

/// One identity sample: a copy in full range, a rounded rescale into `[0, max]` in
/// limited range.
pub open spec fn identity_value(v: int, p: IdentityParams) -> int {
    if p.limited {
        clamp((v * p.coef + p.bias + 4096) / 8192, p.max as int)
    } else {
        v
    }
}

/// Derives the identity constants for samples of `depth` bits.
pub fn identity_params(range: YuvRange, depth: u32) -> (p: IdentityParams)
    requires
        8 <= depth <= 16,
    ensures
        p == spec_identity_params(range, depth as nat),
        p.wf(),
{
    let r = get_yuv_range(depth, YuvRange::Limited);
    let full = pow2_exec(depth);
    proof {
        lemma_pow2_bounds(depth as nat);
        lemma_pow2_bounds((depth - 8) as nat);
        lemma_pow2_shift8(depth as nat);
        assert(r.range_y <= full - 1);
    }
    let max = full - 1;
    let coef = (r.range_y as u64 * 8192 / max as u64) as u32;
    proof {
        assert(r.range_y as int * 8192 / max as int <= 8192) by (nonlinear_arith)
            requires
                r.range_y <= max,
                max >= 1,
        ;
    }
    IdentityParams {
        limited: match range {
            YuvRange::Limited => true,
            YuvRange::Full => false,
        },
        coef,
        bias: r.bias_y * 8192,
        max,
    }
}

/// One identity sample of 8-bit samples.
pub fn identity_value_u8(v: u8, p: &IdentityParams) -> (r: u8)
    requires
        p.wf(),
        p.limited ==> p.max <= 255,
    ensures
        r as int == identity_value(v as int, *p),
{
    if !p.limited {
        return v;
    }
    proof {
        assert(v as int * p.coef as int <= 65535 * 8192) by (nonlinear_arith)
            requires
                v <= 65535,
                p.coef <= 8192,
        ;
    }
    let t: u64 = (v as u64 * p.coef as u64 + p.bias as u64 + 4096) / 8192;
    if t > p.max as u64 {
        p.max as u8
    } else {
        t as u8
    }
}

/// Writes the identity form of one row: green to the luma plane, blue to the first
/// chroma plane, red to the second.
fn gbr_row_u8(
    y_plane: &mut Vec<u8>,
    u_plane: &mut Vec<u8>,
    v_plane: &mut Vec<u8>,
    src: &[u8],
    y_off: usize,
    u_off: usize,
    v_off: usize,
    src_off: usize,
    width: usize,
    cn: YuvSourceChannels,
    p: &IdentityParams,
)
    requires
        p.wf(),
        p.limited ==> p.max <= 255,
        y_off + width <= old(y_plane)@.len(),
        u_off + width <= old(u_plane)@.len(),
        v_off + width <= old(v_plane)@.len(),
        src_off + width * cn.spec_channels() <= src@.len(),
    ensures
        final(y_plane)@.len() == old(y_plane)@.len(),
        final(u_plane)@.len() == old(u_plane)@.len(),
        final(v_plane)@.len() == old(v_plane)@.len(),
        forall|i: int|
            0 <= i < old(y_plane)@.len() ==> final(y_plane)@[i] as int == if y_off <= i < y_off
                + width {
                identity_value(pixel_at(ints8(src@), src_off as int, cn, i - y_off, 1), *p)
            } else {
                old(y_plane)@[i] as int
            },
        forall|i: int|
            0 <= i < old(u_plane)@.len() ==> final(u_plane)@[i] as int == if u_off <= i < u_off
                + width {
                identity_value(
                    pixel_at(ints8(src@), src_off as int, cn, i - u_off, cn.spec_b()),
                    *p,
                )
            } else {
                old(u_plane)@[i] as int
            },
        forall|i: int|
            0 <= i < old(v_plane)@.len() ==> final(v_plane)@[i] as int == if v_off <= i < v_off
                + width {
                identity_value(
                    pixel_at(ints8(src@), src_off as int, cn, i - v_off, cn.spec_r()),
                    *p,
                )
            } else {
                old(v_plane)@[i] as int
            },
{
    let chans = cn.get_channels_count();
    let ro = cn.get_r_channel_offset();
    let bo = cn.get_b_channel_offset();
    let _src_len = src.len();
    let _y_len = y_plane.len();
    let _u_len = u_plane.len();
    let _v_len = v_plane.len();
    let ghost y0 = y_plane@;
    let ghost u0 = u_plane@;
    let ghost v0 = v_plane@;
    let mut x: usize = 0;
    while x < width
        invariant
            p.wf(),
            p.limited ==> p.max <= 255,
            x <= width,
            chans == cn.spec_channels(),
            ro == cn.spec_r(),
            bo == cn.spec_b(),
            _src_len == src@.len(),
            _y_len == y_plane@.len() == y0.len(),
            _u_len == u_plane@.len() == u0.len(),
            _v_len == v_plane@.len() == v0.len(),
            y_off + width <= y0.len(),
            u_off + width <= u0.len(),
            v_off + width <= v0.len(),
            src_off + width * chans <= src@.len(),
            forall|i: int|
                0 <= i < y0.len() ==> y_plane@[i] as int == if y_off <= i < y_off + x {
                    identity_value(pixel_at(ints8(src@), src_off as int, cn, i - y_off, 1), *p)
                } else {
                    y0[i] as int
                },
            forall|i: int|
                0 <= i < u0.len() ==> u_plane@[i] as int == if u_off <= i < u_off + x {
                    identity_value(
                        pixel_at(ints8(src@), src_off as int, cn, i - u_off, cn.spec_b()),
                        *p,
                    )
                } else {
                    u0[i] as int
                },
            forall|i: int|
                0 <= i < v0.len() ==> v_plane@[i] as int == if v_off <= i < v_off + x {
                    identity_value(
                        pixel_at(ints8(src@), src_off as int, cn, i - v_off, cn.spec_r()),
                        *p,
                    )
                } else {
                    v0[i] as int
                },
        decreases width - x,
    {
        proof {
            assert(x * chans + chans <= width * chans) by (nonlinear_arith)
                requires
                    x < width,
            ;
            assert(x * chans >= 0) by (nonlinear_arith)
                requires
                    x >= 0,
                    chans >= 0,
            ;
        }
        let base = src_off + x * chans;
        let g = identity_value_u8(src[base + 1], p);
        let b = identity_value_u8(src[base + bo], p);
        let r = identity_value_u8(src[base + ro], p);
        y_plane[y_off + x] = g;
        u_plane[u_off + x] = b;
        v_plane[v_off + x] = r;
        x = x + 1;
    }
}

/// The planes of `image` hold the identity form of `src`: green, blue and red of every
/// pixel, each rescaled in limited range.
pub open spec fn gbr_written_u8(
    image: &YuvPlanarImageMut<u8>,
    src: Seq<u8>,
    src_stride: int,
    cn: YuvSourceChannels,
    p: IdentityParams,
) -> bool {
    &&& forall|y: int, x: int|
        0 <= y < image.height && 0 <= x < image.width ==> #[trigger] plane_at(
            image.y_plane@,
            image.y_stride as int,
            y,
            x,
        ) as int == identity_value(pixel_at(ints8(src), y * src_stride, cn, x, 1), p)
    &&& forall|y: int, x: int|
        0 <= y < image.height && 0 <= x < image.width ==> #[trigger] plane_at(
            image.u_plane@,
            image.u_stride as int,
            y,
            x,
        ) as int == identity_value(pixel_at(ints8(src), y * src_stride, cn, x, cn.spec_b()), p)
    &&& forall|y: int, x: int|
        0 <= y < image.height && 0 <= x < image.width ==> #[trigger] plane_at(
            image.v_plane@,
            image.v_stride as int,
            y,
            x,
        ) as int == identity_value(pixel_at(ints8(src), y * src_stride, cn, x, cn.spec_r()), p)
}

/// What an identity conversion call of 8-bit samples promises.
pub open spec fn gbr_outcome_u8(
    before: &YuvPlanarImageMut<u8>,
    after: &YuvPlanarImageMut<u8>,
    src: Seq<u8>,
    src_stride: int,
    range: YuvRange,
    cn: YuvSourceChannels,
    depth: nat,
    r: Result<(), YuvError>,
) -> bool {
    &&& r == as_result(
        rgb_source_error(before, src.len() as int, src_stride, cn, YuvChromaSubsampling::Yuv444),
    )
    &&& after.same_shape(before)
    &&& r is Err ==> after.same_planes(before)
    &&& r is Ok ==> gbr_written_u8(after, src, src_stride, cn, spec_identity_params(range, depth))
}

/// Converts interleaved RGB of 8-bit samples to identity (GBR) planes.
pub fn rgbx_to_gbr_u8(
    image: &mut YuvPlanarImageMut<u8>,
    rgba: &[u8],
    rgba_stride: u32,
    range: YuvRange,
    cn: YuvSourceChannels,
    depth: u32,
) -> (r: Result<(), YuvError>)
    requires
        depth == 8,
    ensures
        gbr_outcome_u8(old(image), final(image), rgba@, rgba_stride as int, range, cn, depth as nat, r),
{
    image.check_constraints(YuvChromaSubsampling::Yuv444)?;
    let chans = cn.get_channels_count();
    check_plane(mul_wide(image.width, chans as u32), image.height, rgba_stride, rgba.len())?;
    let p = identity_params(range, depth);
    proof {
        lemma_pow2_bounds(depth as nat);
        reveal_with_fuel(pow2, 13);
    }
    let width = image.width as usize;
    let height = image.height as usize;
    let ys = image.y_stride as usize;
    let us = image.u_stride as usize;
    let vs = image.v_stride as usize;
    let ss = rgba_stride as usize;
    let ghost src = rgba@;
    let _src_len = rgba.len();
    let _y_len = image.y_plane.len();
    let _u_len = image.u_plane.len();
    let _v_len = image.v_plane.len();
    let mut y: usize = 0;
    while y < height
        invariant
            p == spec_identity_params(range, depth as nat),
            p.wf(),
            p.limited ==> p.max <= 255,
            src == rgba@,
            _src_len == rgba@.len(),
            _y_len == image.y_plane@.len(),
            _u_len == image.u_plane@.len(),
            _v_len == image.v_plane@.len(),
            width == image.width,
            height == image.height,
            ys == image.y_stride,
            us == image.u_stride,
            vs == image.v_stride,
            ss == rgba_stride,
            chans == cn.spec_channels(),
            y <= height,
            image.spec_error(YuvChromaSubsampling::Yuv444) is None,
            plane_error(width * chans, height as int, ss as int, rgba@.len() as int) is None,
            image.y_plane@.len() == old(image).y_plane@.len(),
            image.u_plane@.len() == old(image).u_plane@.len(),
            image.v_plane@.len() == old(image).v_plane@.len(),
            forall|yy: int, x: int|
                0 <= yy < y && 0 <= x < width ==> #[trigger] plane_at(
                    image.y_plane@,
                    ys as int,
                    yy,
                    x,
                ) as int == identity_value(pixel_at(ints8(src), yy * ss, cn, x, 1), p),
            forall|yy: int, x: int|
                0 <= yy < y && 0 <= x < width ==> #[trigger] plane_at(
                    image.u_plane@,
                    us as int,
                    yy,
                    x,
                ) as int == identity_value(pixel_at(ints8(src), yy * ss, cn, x, cn.spec_b()), p),
            forall|yy: int, x: int|
                0 <= yy < y && 0 <= x < width ==> #[trigger] plane_at(
                    image.v_plane@,
                    vs as int,
                    yy,
                    x,
                ) as int == identity_value(pixel_at(ints8(src), yy * ss, cn, x, cn.spec_r()), p),
        decreases height - y,
    {
        proof {
            lemma_row_fits(y as int, height as int, ys as int, width as int);
            lemma_row_fits(y as int, height as int, us as int, width as int);
            lemma_row_fits(y as int, height as int, vs as int, width as int);
            lemma_row_fits(y as int, height as int, ss as int, width * chans);
        }
        let ghost yp = image.y_plane@;
        let ghost up = image.u_plane@;
        let ghost vp = image.v_plane@;
        gbr_row_u8(
            &mut image.y_plane,
            &mut image.u_plane,
            &mut image.v_plane,
            rgba,
            y * ys,
            y * us,
            y * vs,
            y * ss,
            width,
            cn,
            &p,
        );
        proof {
            assert forall|yy: int, x: int|
                #![trigger plane_at(image.y_plane@, ys as int, yy, x)]
                #![trigger plane_at(image.u_plane@, us as int, yy, x)]
                #![trigger plane_at(image.v_plane@, vs as int, yy, x)]
                0 <= yy < y + 1 && 0 <= x < width implies plane_at(
                image.y_plane@,
                ys as int,
                yy,
                x,
            ) as int == identity_value(pixel_at(ints8(src), yy * ss, cn, x, 1), p) && plane_at(
                image.u_plane@,
                us as int,
                yy,
                x,
            ) as int == identity_value(pixel_at(ints8(src), yy * ss, cn, x, cn.spec_b()), p)
                && plane_at(image.v_plane@, vs as int, yy, x) as int == identity_value(
                pixel_at(ints8(src), yy * ss, cn, x, cn.spec_r()),
                p,
            ) by {
                lemma_row_fits(yy, height as int, ys as int, width as int);
                lemma_row_fits(yy, height as int, us as int, width as int);
                lemma_row_fits(yy, height as int, vs as int, width as int);
                if yy < y {
                    lemma_rows_disjoint(yy, y as int, ys as int, x, width as int);
                    lemma_rows_disjoint(yy, y as int, us as int, x, width as int);
                    lemma_rows_disjoint(yy, y as int, vs as int, x, width as int);
                    assert(plane_at(yp, ys as int, yy, x) as int == identity_value(
                        pixel_at(ints8(src), yy * ss, cn, x, 1),
                        p,
                    ));
                    assert(plane_at(up, us as int, yy, x) as int == identity_value(
                        pixel_at(ints8(src), yy * ss, cn, x, cn.spec_b()),
                        p,
                    ));
                    assert(plane_at(vp, vs as int, yy, x) as int == identity_value(
                        pixel_at(ints8(src), yy * ss, cn, x, cn.spec_r()),
                        p,
                    ));
                }
            }
        }
        y = y + 1;
    }
    Ok(())
}

/// One identity sample of 10 to 16 bit samples.
pub fn identity_value_u16(v: u16, p: &IdentityParams) -> (r: u16)
    requires
        p.wf(),
        p.limited ==> p.max <= 65535,
    ensures
        r as int == identity_value(v as int, *p),
{
    if !p.limited {
        return v;
    }
    proof {
        assert(v as int * p.coef as int <= 65535 * 8192) by (nonlinear_arith)
            requires
                v <= 65535,
                p.coef <= 8192,
        ;
    }
    let t: u64 = (v as u64 * p.coef as u64 + p.bias as u64 + 4096) / 8192;
    if t > p.max as u64 {
        p.max as u16
    } else {
        t as u16
    }
}

/// Writes the identity form of one row: green to the luma plane, blue to the first
/// chroma plane, red to the second.
fn gbr_row_u16(
    y_plane: &mut Vec<u16>,
    u_plane: &mut Vec<u16>,
    v_plane: &mut Vec<u16>,
    src: &[u16],
    y_off: usize,
    u_off: usize,
    v_off: usize,
    src_off: usize,
    width: usize,
    cn: YuvSourceChannels,
    p: &IdentityParams,
)
    requires
        p.wf(),
        p.limited ==> p.max <= 65535,
        y_off + width <= old(y_plane)@.len(),
        u_off + width <= old(u_plane)@.len(),
        v_off + width <= old(v_plane)@.len(),
        src_off + width * cn.spec_channels() <= src@.len(),
    ensures
        final(y_plane)@.len() == old(y_plane)@.len(),
        final(u_plane)@.len() == old(u_plane)@.len(),
        final(v_plane)@.len() == old(v_plane)@.len(),
        forall|i: int|
            0 <= i < old(y_plane)@.len() ==> final(y_plane)@[i] as int == if y_off <= i < y_off
                + width {
                identity_value(pixel_at(ints16(src@), src_off as int, cn, i - y_off, 1), *p)
            } else {
                old(y_plane)@[i] as int
            },
        forall|i: int|
            0 <= i < old(u_plane)@.len() ==> final(u_plane)@[i] as int == if u_off <= i < u_off
                + width {
                identity_value(
                    pixel_at(ints16(src@), src_off as int, cn, i - u_off, cn.spec_b()),
                    *p,
                )
            } else {
                old(u_plane)@[i] as int
            },
        forall|i: int|
            0 <= i < old(v_plane)@.len() ==> final(v_plane)@[i] as int == if v_off <= i < v_off
                + width {
                identity_value(
                    pixel_at(ints16(src@), src_off as int, cn, i - v_off, cn.spec_r()),
                    *p,
                )
            } else {
                old(v_plane)@[i] as int
            },
{
    let chans = cn.get_channels_count();
    let ro = cn.get_r_channel_offset();
    let bo = cn.get_b_channel_offset();
    let _src_len = src.len();
    let _y_len = y_plane.len();
    let _u_len = u_plane.len();
    let _v_len = v_plane.len();
    let ghost y0 = y_plane@;
    let ghost u0 = u_plane@;
    let ghost v0 = v_plane@;
    let mut x: usize = 0;
    while x < width
        invariant
            p.wf(),
            p.limited ==> p.max <= 65535,
            x <= width,
            chans == cn.spec_channels(),
            ro == cn.spec_r(),
            bo == cn.spec_b(),
            _src_len == src@.len(),
            _y_len == y_plane@.len() == y0.len(),
            _u_len == u_plane@.len() == u0.len(),
            _v_len == v_plane@.len() == v0.len(),
            y_off + width <= y0.len(),
            u_off + width <= u0.len(),
            v_off + width <= v0.len(),
            src_off + width * chans <= src@.len(),
            forall|i: int|
                0 <= i < y0.len() ==> y_plane@[i] as int == if y_off <= i < y_off + x {
                    identity_value(pixel_at(ints16(src@), src_off as int, cn, i - y_off, 1), *p)
                } else {
                    y0[i] as int
                },
            forall|i: int|
                0 <= i < u0.len() ==> u_plane@[i] as int == if u_off <= i < u_off + x {
                    identity_value(
                        pixel_at(ints16(src@), src_off as int, cn, i - u_off, cn.spec_b()),
                        *p,
                    )
                } else {
                    u0[i] as int
                },
            forall|i: int|
                0 <= i < v0.len() ==> v_plane@[i] as int == if v_off <= i < v_off + x {
                    identity_value(
                        pixel_at(ints16(src@), src_off as int, cn, i - v_off, cn.spec_r()),
                        *p,
                    )
                } else {
                    v0[i] as int
                },
        decreases width - x,
    {
        proof {
            assert(x * chans + chans <= width * chans) by (nonlinear_arith)
                requires
                    x < width,
            ;
            assert(x * chans >= 0) by (nonlinear_arith)
                requires
                    x >= 0,
                    chans >= 0,
            ;
        }
        let base = src_off + x * chans;
        let g = identity_value_u16(src[base + 1], p);
        let b = identity_value_u16(src[base + bo], p);
        let r = identity_value_u16(src[base + ro], p);
        y_plane[y_off + x] = g;
        u_plane[u_off + x] = b;
        v_plane[v_off + x] = r;
        x = x + 1;
    }
}

/// The planes of `image` hold the identity form of `src`: green, blue and red of every
/// pixel, each rescaled in limited range.
pub open spec fn gbr_written_u16(
    image: &YuvPlanarImageMut<u16>,
    src: Seq<u16>,
    src_stride: int,
    cn: YuvSourceChannels,
    p: IdentityParams,
) -> bool {
    &&& forall|y: int, x: int|
        0 <= y < image.height && 0 <= x < image.width ==> #[trigger] plane_at(
            image.y_plane@,
            image.y_stride as int,
            y,
            x,
        ) as int == identity_value(pixel_at(ints16(src), y * src_stride, cn, x, 1), p)
    &&& forall|y: int, x: int|
        0 <= y < image.height && 0 <= x < image.width ==> #[trigger] plane_at(
            image.u_plane@,
            image.u_stride as int,
            y,
            x,
        ) as int == identity_value(pixel_at(ints16(src), y * src_stride, cn, x, cn.spec_b()), p)
    &&& forall|y: int, x: int|
        0 <= y < image.height && 0 <= x < image.width ==> #[trigger] plane_at(
            image.v_plane@,
            image.v_stride as int,
            y,
            x,
        ) as int == identity_value(pixel_at(ints16(src), y * src_stride, cn, x, cn.spec_r()), p)
}

/// What an identity conversion call of 10 to 16 bit samples promises.
pub open spec fn gbr_outcome_u16(
    before: &YuvPlanarImageMut<u16>,
    after: &YuvPlanarImageMut<u16>,
    src: Seq<u16>,
    src_stride: int,
    range: YuvRange,
    cn: YuvSourceChannels,
    depth: nat,
    r: Result<(), YuvError>,
) -> bool {
    &&& r == as_result(
        rgb_source_error(before, src.len() as int, src_stride, cn, YuvChromaSubsampling::Yuv444),
    )
    &&& after.same_shape(before)
    &&& r is Err ==> after.same_planes(before)
    &&& r is Ok ==> gbr_written_u16(after, src, src_stride, cn, spec_identity_params(range, depth))
}

/// Converts interleaved RGB of 10 to 16 bit samples to identity (GBR) planes.
pub fn rgbx_to_gbr_u16(
    image: &mut YuvPlanarImageMut<u16>,
    rgba: &[u16],
    rgba_stride: u32,
    range: YuvRange,
    cn: YuvSourceChannels,
    depth: u32,
) -> (r: Result<(), YuvError>)
    requires
        10 <= depth <= 16,
    ensures
        gbr_outcome_u16(old(image), final(image), rgba@, rgba_stride as int, range, cn, depth as nat, r),
{
    image.check_constraints(YuvChromaSubsampling::Yuv444)?;
    let chans = cn.get_channels_count();
    check_plane(mul_wide(image.width, chans as u32), image.height, rgba_stride, rgba.len())?;
    let p = identity_params(range, depth);
    proof {
        lemma_pow2_bounds(depth as nat);
        reveal_with_fuel(pow2, 13);
    }
    let width = image.width as usize;
    let height = image.height as usize;
    let ys = image.y_stride as usize;
    let us = image.u_stride as usize;
    let vs = image.v_stride as usize;
    let ss = rgba_stride as usize;
    let ghost src = rgba@;
    let _src_len = rgba.len();
    let _y_len = image.y_plane.len();
    let _u_len = image.u_plane.len();
    let _v_len = image.v_plane.len();
    let mut y: usize = 0;
    while y < height
        invariant
            p == spec_identity_params(range, depth as nat),
            p.wf(),
            p.limited ==> p.max <= 65535,
            src == rgba@,
            _src_len == rgba@.len(),
            _y_len == image.y_plane@.len(),
            _u_len == image.u_plane@.len(),
            _v_len == image.v_plane@.len(),
            width == image.width,
            height == image.height,
            ys == image.y_stride,
            us == image.u_stride,
            vs == image.v_stride,
            ss == rgba_stride,
            chans == cn.spec_channels(),
            y <= height,
            image.spec_error(YuvChromaSubsampling::Yuv444) is None,
            plane_error(width * chans, height as int, ss as int, rgba@.len() as int) is None,
            image.y_plane@.len() == old(image).y_plane@.len(),
            image.u_plane@.len() == old(image).u_plane@.len(),
            image.v_plane@.len() == old(image).v_plane@.len(),
            forall|yy: int, x: int|
                0 <= yy < y && 0 <= x < width ==> #[trigger] plane_at(
                    image.y_plane@,
                    ys as int,
                    yy,
                    x,
                ) as int == identity_value(pixel_at(ints16(src), yy * ss, cn, x, 1), p),
            forall|yy: int, x: int|
                0 <= yy < y && 0 <= x < width ==> #[trigger] plane_at(
                    image.u_plane@,
                    us as int,
                    yy,
                    x,
                ) as int == identity_value(pixel_at(ints16(src), yy * ss, cn, x, cn.spec_b()), p),
            forall|yy: int, x: int|
                0 <= yy < y && 0 <= x < width ==> #[trigger] plane_at(
                    image.v_plane@,
                    vs as int,
                    yy,
                    x,
                ) as int == identity_value(pixel_at(ints16(src), yy * ss, cn, x, cn.spec_r()), p),
        decreases height - y,
    {
        proof {
            lemma_row_fits(y as int, height as int, ys as int, width as int);
            lemma_row_fits(y as int, height as int, us as int, width as int);
            lemma_row_fits(y as int, height as int, vs as int, width as int);
            lemma_row_fits(y as int, height as int, ss as int, width * chans);
        }
        let ghost yp = image.y_plane@;
        let ghost up = image.u_plane@;
        let ghost vp = image.v_plane@;
        gbr_row_u16(
            &mut image.y_plane,
            &mut image.u_plane,
            &mut image.v_plane,
            rgba,
            y * ys,
            y * us,
            y * vs,
            y * ss,
            width,
            cn,
            &p,
        );
        proof {
            assert forall|yy: int, x: int|
                #![trigger plane_at(image.y_plane@, ys as int, yy, x)]
                #![trigger plane_at(image.u_plane@, us as int, yy, x)]
                #![trigger plane_at(image.v_plane@, vs as int, yy, x)]
                0 <= yy < y + 1 && 0 <= x < width implies plane_at(
                image.y_plane@,
                ys as int,
                yy,
                x,
            ) as int == identity_value(pixel_at(ints16(src), yy * ss, cn, x, 1), p) && plane_at(
                image.u_plane@,
                us as int,
                yy,
                x,
            ) as int == identity_value(pixel_at(ints16(src), yy * ss, cn, x, cn.spec_b()), p)
                && plane_at(image.v_plane@, vs as int, yy, x) as int == identity_value(
                pixel_at(ints16(src), yy * ss, cn, x, cn.spec_r()),
                p,
            ) by {
                lemma_row_fits(yy, height as int, ys as int, width as int);
                lemma_row_fits(yy, height as int, us as int, width as int);
                lemma_row_fits(yy, height as int, vs as int, width as int);
                if yy < y {
                    lemma_rows_disjoint(yy, y as int, ys as int, x, width as int);
                    lemma_rows_disjoint(yy, y as int, us as int, x, width as int);
                    lemma_rows_disjoint(yy, y as int, vs as int, x, width as int);
                    assert(plane_at(yp, ys as int, yy, x) as int == identity_value(
                        pixel_at(ints16(src), yy * ss, cn, x, 1),
                        p,
                    ));
                    assert(plane_at(up, us as int, yy, x) as int == identity_value(
                        pixel_at(ints16(src), yy * ss, cn, x, cn.spec_b()),
                        p,
                    ));
                    assert(plane_at(vp, vs as int, yy, x) as int == identity_value(
                        pixel_at(ints16(src), yy * ss, cn, x, cn.spec_r()),
                        p,
                    ));
                }
            }
        }
        y = y + 1;
    }
    Ok(())
}

/// Converts RGB to identity (GBR) planes: green to luma, blue and red to the chroma planes.
pub fn rgb_to_gbr(
    image: &mut YuvPlanarImageMut<u8>,
    rgb: &[u8],
    rgb_stride: u32,
    range: YuvRange,
) -> (r: Result<(), YuvError>)
    ensures
        gbr_outcome_u8(
            old(image),
            final(image),
            rgb@,
            rgb_stride as int,
            range,
            YuvSourceChannels::Rgb,
            8,
            r,
        ),
{
    rgbx_to_gbr_u8(image, rgb, rgb_stride, range, YuvSourceChannels::Rgb, 8)
}

/// Converts BGR to identity (GBR) planes: green to luma, blue and red to the chroma planes.
pub fn bgr_to_gbr(
    image: &mut YuvPlanarImageMut<u8>,
    bgr: &[u8],
    bgr_stride: u32,
    range: YuvRange,
) -> (r: Result<(), YuvError>)
    ensures
        gbr_outcome_u8(
            old(image),
            final(image),
            bgr@,
            bgr_stride as int,
            range,
            YuvSourceChannels::Bgr,
            8,
            r,
        ),
{
    rgbx_to_gbr_u8(image, bgr, bgr_stride, range, YuvSourceChannels::Bgr, 8)
}

/// Converts BGRA to identity (GBR) planes: green to luma, blue and red to the chroma planes.
pub fn bgra_to_gbr(
    image: &mut YuvPlanarImageMut<u8>,
    bgra: &[u8],
    bgra_stride: u32,
    range: YuvRange,
) -> (r: Result<(), YuvError>)
    ensures
        gbr_outcome_u8(
            old(image),
            final(image),
            bgra@,
            bgra_stride as int,
            range,
            YuvSourceChannels::Bgra,
            8,
            r,
        ),
{
    rgbx_to_gbr_u8(image, bgra, bgra_stride, range, YuvSourceChannels::Bgra, 8)
}

/// Converts RGBA to identity (GBR) planes: green to luma, blue and red to the chroma planes.
pub fn rgba_to_gbr(
    image: &mut YuvPlanarImageMut<u8>,
    rgba: &[u8],
    rgba_stride: u32,
    range: YuvRange,
) -> (r: Result<(), YuvError>)
    ensures
        gbr_outcome_u8(
            old(image),
            final(image),
            rgba@,
            rgba_stride as int,
            range,
            YuvSourceChannels::Rgba,
            8,
            r,
        ),
{
    rgbx_to_gbr_u8(image, rgba, rgba_stride, range, YuvSourceChannels::Rgba, 8)
}

/// Converts 12-bit RGB to identity (GBR) planes: green to luma, blue and red to the chroma planes.
pub fn rgb12_to_gb12(
    image: &mut YuvPlanarImageMut<u16>,
    rgb12: &[u16],
    rgb12_stride: u32,
    range: YuvRange,
) -> (r: Result<(), YuvError>)
    ensures
        gbr_outcome_u16(
            old(image),
            final(image),
            rgb12@,
            rgb12_stride as int,
            range,
            YuvSourceChannels::Rgb,
            12,
            r,
        ),
{
    rgbx_to_gbr_u16(image, rgb12, rgb12_stride, range, YuvSourceChannels::Rgb, 12)
}

/// Converts 10-bit RGB to identity (GBR) planes: green to luma, blue and red to the chroma planes.
pub fn rgb10_to_gb10(
    image: &mut YuvPlanarImageMut<u16>,
    rgb10: &[u16],
    rgb10_stride: u32,
    range: YuvRange,
) -> (r: Result<(), YuvError>)
    ensures
        gbr_outcome_u16(
            old(image),
            final(image),
            rgb10@,
            rgb10_stride as int,
            range,
            YuvSourceChannels::Rgb,
            10,
            r,
        ),
{
    rgbx_to_gbr_u16(image, rgb10, rgb10_stride, range, YuvSourceChannels::Rgb, 10)
}

/// Converts 10-bit RGBA to identity (GBR) planes: green to luma, blue and red to the chroma planes.
pub fn rgba10_to_gb10(
    image: &mut YuvPlanarImageMut<u16>,
    rgba10: &[u16],
    rgba10_stride: u32,
    range: YuvRange,
) -> (r: Result<(), YuvError>)
    ensures
        gbr_outcome_u16(
            old(image),
            final(image),
            rgba10@,
            rgba10_stride as int,
            range,
            YuvSourceChannels::Rgba,
            10,
            r,
        ),
{
    rgbx_to_gbr_u16(image, rgba10, rgba10_stride, range, YuvSourceChannels::Rgba, 10)
}

/// Converts 12-bit RGBA to identity (GBR) planes: green to luma, blue and red to the chroma planes.
pub fn rgba12_to_gb12(
    image: &mut YuvPlanarImageMut<u16>,
    rgba12: &[u16],
    rgba12_stride: u32,
    range: YuvRange,
) -> (r: Result<(), YuvError>)
    ensures
        gbr_outcome_u16(
            old(image),
            final(image),
            rgba12@,
            rgba12_stride as int,
            range,
            YuvSourceChannels::Rgba,
            12,
            r,
        ),
{
    rgbx_to_gbr_u16(image, rgba12, rgba12_stride, range, YuvSourceChannels::Rgba, 12)
}

} // verus!
