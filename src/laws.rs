//! Laws that relate the encoders to the decoders.

use vstd::prelude::*;

use crate::encode::{
    enc_cb, enc_chroma_sample, enc_cr, enc_luma, sample16_at, spec_encode_params, spec_forward_transform,
    ForwardTransform,
};
use crate::p16::spec_p16_params;
use crate::support::{clamp, pow2, round_div, spec_yuv_range, CbCrInverseTransform, YuvBytesPacking, YuvEndianness, YuvRange, YuvSourceChannels, YuvStandardMatrix};
use crate::transform::{inverse_rgb, normalize_sample, spec_inverse_transform};

verus! {

/// The decoded colour of the samples that the 16-bit encoder stores for one pixel, with
/// 4:4:4 chroma and samples stored as they are.
pub open spec fn round_trip_444(
    r: int,
    g: int,
    b: int,
    range: YuvRange,
    matrix: YuvStandardMatrix,
    depth: nat,
) -> (int, int, int) {
    let e = YuvEndianness::LittleEndian;
    let pk = YuvBytesPacking::LeastSignificantBytes;
    let k = spec_encode_params(range, matrix, depth, e, pk);
    let p = spec_p16_params(range, matrix, depth, e, pk);
    inverse_rgb(
        normalize_sample(enc_luma(r, g, b, k), e, pk, depth),
        normalize_sample(enc_cb(r, g, b, k), e, pk, depth),
        normalize_sample(enc_cr(r, g, b, k), e, pk, depth),
        p.t,
        p.range,
        13,
        4096,
        p.max as int,
    )
}

/// `a` lies within `bound` units of `b`.
pub open spec fn within(a: int, b: int, bound: int) -> bool {
    -bound <= a - b <= bound
}

/// `q` is the quotient `t / 8192` saturated to `[0, 1023]`.
pub open spec fn saturated_quotient(q: int, t: int) -> bool {
    ||| (8192 * q <= t < 8192 * q + 8192 && 0 <= q <= 1023)
    ||| (q == 1023 && t >= 1024 * 8192)
    ||| (q == 0 && t < 0)
}

/// `x / 8192` is the floor of the quotient.
proof fn floor_bounds(x: int)
    ensures
        8192 * (x / 8192) <= x < 8192 * (x / 8192) + 8192,
{
    vstd::arithmetic::div_mod::lemma_fundamental_div_mod(x, 8192);
    vstd::arithmetic::div_mod::lemma_mod_bound(x, 8192);
}

/// A saturated quotient satisfies `saturated_quotient`.
proof fn saturated(t: int)
    ensures
        saturated_quotient(clamp(t / 8192, 1023), t),
{
    floor_bounds(t);
}

proof fn arith_bt601_full(r: int, g: int, b: int, y: int, cb: int, cr: int, qr: int, qg: int, qb: int)
    requires
        0 <= r <= 1023,
        0 <= g <= 1023,
        0 <= b <= 1023,
        saturated_quotient(y, r * 2449 + g * 4809 + b * 934 + 0 * 8192 + 4096),
        saturated_quotient(cb, b * 4096 - r * 1382 - g * 2714 + 512 * 8192 + 4096),
        saturated_quotient(cr, r * 4096 - g * 3430 - b * 666 + 512 * 8192 + 4096),
        qr == clamp(((y - 0) * 8192 + 11485 * (cr - 512) + 4096) / 8192, 1023),
        qg == clamp(((y - 0) * 8192 - 5850 * (cr - 512) - 2819 * (cb - 512) + 4096) / 8192, 1023),
        qb == clamp(((y - 0) * 8192 + 14516 * (cb - 512) + 4096) / 8192, 1023),
    ensures
        within(qr, r, 4),
        within(qg, g, 4),
        within(qb, b, 4),
{
    floor_bounds((y - 0) * 8192 + 11485 * (cr - 512) + 4096);
    floor_bounds((y - 0) * 8192 - 5850 * (cr - 512) - 2819 * (cb - 512) + 4096);
    floor_bounds((y - 0) * 8192 + 14516 * (cb - 512) + 4096);
}

proof fn round_trip_bt601_full(r: int, g: int, b: int)
    requires
        0 <= r <= 1023,
        0 <= g <= 1023,
        0 <= b <= 1023,
    ensures
        within(round_trip_444(r, g, b, YuvRange::Full, YuvStandardMatrix::Bt601, 10).0, r, 4),
        within(round_trip_444(r, g, b, YuvRange::Full, YuvStandardMatrix::Bt601, 10).1, g, 4),
        within(round_trip_444(r, g, b, YuvRange::Full, YuvStandardMatrix::Bt601, 10).2, b, 4),
{
    reveal_with_fuel(pow2, 14);
    let m = YuvStandardMatrix::Bt601;
    let range = YuvRange::Full;
    assert(spec_yuv_range(10, range).range_y == 1023);
    assert(spec_yuv_range(10, range).range_uv == 1023);
    assert(spec_yuv_range(10, range).bias_y == 0);
    assert(spec_yuv_range(10, range).bias_uv == 512);
    assert(round_div(8192 * 2990 * 1023int, 10000 * 1023int) == 2449) by (nonlinear_arith);
    assert(round_div(8192 * 5870 * 1023int, 10000 * 1023int) == 4809) by (nonlinear_arith);
    assert(round_div(8192 * 1140 * 1023int, 10000 * 1023int) == 934) by (nonlinear_arith);
    assert(round_div(8192 * 2990 * 1023int, 2 * (10000 - 1140) * 1023int) == 1382) by (nonlinear_arith);
    assert(round_div(8192 * 5870 * 1023int, 2 * (10000 - 1140) * 1023int) == 2714) by (nonlinear_arith);
    assert(round_div(8192 * 1023int, 2 * 1023int) == 4096) by (nonlinear_arith);
    assert(round_div(8192 * 5870 * 1023int, 2 * (10000 - 2990) * 1023int) == 3430) by (nonlinear_arith);
    assert(round_div(8192 * 1140 * 1023int, 2 * (10000 - 2990) * 1023int) == 666) by (nonlinear_arith);
    assert(round_div(8192 * 1023int, 1023int) == 8192) by (nonlinear_arith);
    assert(round_div(8192 * 2 * (10000 - 2990) * 1023int, 10000 * 1023int) == 11485) by (nonlinear_arith);
    assert(round_div(8192 * 2 * (10000 - 1140) * 1023int, 10000 * 1023int) == 14516) by (nonlinear_arith);
    assert(round_div(8192 * 2 * (10000 - 2990) * 2990 * 1023int, 10000 * 5870 * 1023int) == 5850) by (nonlinear_arith);
    assert(round_div(8192 * 2 * (10000 - 1140) * 1140 * 1023int, 10000 * 5870 * 1023int) == 2819) by (nonlinear_arith);
    assert(spec_forward_transform(13, 10, range, m) == ForwardTransform {
        yr: 2449,
        yg: 4809,
        yb: 934,
        cb_r: 1382,
        cb_g: 2714,
        cb_b: 4096,
        cr_r: 4096,
        cr_g: 3430,
        cr_b: 666,
    });
    assert(spec_inverse_transform(13, 10, range, m) == CbCrInverseTransform {
        y_coef: 8192,
        cr_coef: 11485,
        cb_coef: 14516,
        g_coeff_1: 5850,
        g_coeff_2: 2819,
    });
    let ty = r * 2449 + g * 4809 + b * 934 + 0 * 8192 + 4096;
    let tcb = b * 4096 - r * 1382 - g * 2714 + 512 * 8192 + 4096;
    let tcr = r * 4096 - g * 3430 - b * 666 + 512 * 8192 + 4096;
    saturated(ty);
    saturated(tcb);
    saturated(tcr);
    let y = clamp(ty / 8192, 1023);
    let cb = clamp(tcb / 8192, 1023);
    let cr = clamp(tcr / 8192, 1023);
    arith_bt601_full(
        r,
        g,
        b,
        y,
        cb,
        cr,
        clamp(((y - 0) * 8192 + 11485 * (cr - 512) + 4096) / 8192, 1023),
        clamp(((y - 0) * 8192 - 5850 * (cr - 512) - 2819 * (cb - 512) + 4096) / 8192, 1023),
        clamp(((y - 0) * 8192 + 14516 * (cb - 512) + 4096) / 8192, 1023),
    );
}

proof fn arith_bt601_limited(r: int, g: int, b: int, y: int, cb: int, cr: int, qr: int, qg: int, qb: int)
    requires
        0 <= r <= 1023,
        0 <= g <= 1023,
        0 <= b <= 1023,
        saturated_quotient(y, r * 2097 + g * 4118 + b * 800 + 64 * 8192 + 4096),
        saturated_quotient(cb, b * 3588 - r * 1211 - g * 2377 + 512 * 8192 + 4096),
        saturated_quotient(cr, r * 3588 - g * 3004 - b * 583 + 512 * 8192 + 4096),
        qr == clamp(((y - 64) * 9567 + 13113 * (cr - 512) + 4096) / 8192, 1023),
        qg == clamp(((y - 64) * 9567 - 6679 * (cr - 512) - 3219 * (cb - 512) + 4096) / 8192, 1023),
        qb == clamp(((y - 64) * 9567 + 16574 * (cb - 512) + 4096) / 8192, 1023),
    ensures
        within(qr, r, 12),
        within(qg, g, 12),
        within(qb, b, 12),
{
    floor_bounds((y - 64) * 9567 + 13113 * (cr - 512) + 4096);
    floor_bounds((y - 64) * 9567 - 6679 * (cr - 512) - 3219 * (cb - 512) + 4096);
    floor_bounds((y - 64) * 9567 + 16574 * (cb - 512) + 4096);
}

proof fn round_trip_bt601_limited(r: int, g: int, b: int)
    requires
        0 <= r <= 1023,
        0 <= g <= 1023,
        0 <= b <= 1023,
    ensures
        within(round_trip_444(r, g, b, YuvRange::Limited, YuvStandardMatrix::Bt601, 10).0, r, 12),
        within(round_trip_444(r, g, b, YuvRange::Limited, YuvStandardMatrix::Bt601, 10).1, g, 12),
        within(round_trip_444(r, g, b, YuvRange::Limited, YuvStandardMatrix::Bt601, 10).2, b, 12),
{
    reveal_with_fuel(pow2, 14);
    let m = YuvStandardMatrix::Bt601;
    let range = YuvRange::Limited;
    assert(spec_yuv_range(10, range).range_y == 876);
    assert(spec_yuv_range(10, range).range_uv == 896);
    assert(spec_yuv_range(10, range).bias_y == 64);
    assert(spec_yuv_range(10, range).bias_uv == 512);
    assert(round_div(8192 * 2990 * 876int, 10000 * 1023int) == 2097) by (nonlinear_arith);
    assert(round_div(8192 * 5870 * 876int, 10000 * 1023int) == 4118) by (nonlinear_arith);
    assert(round_div(8192 * 1140 * 876int, 10000 * 1023int) == 800) by (nonlinear_arith);
    assert(round_div(8192 * 2990 * 896int, 2 * (10000 - 1140) * 1023int) == 1211) by (nonlinear_arith);
    assert(round_div(8192 * 5870 * 896int, 2 * (10000 - 1140) * 1023int) == 2377) by (nonlinear_arith);
    assert(round_div(8192 * 896int, 2 * 1023int) == 3588) by (nonlinear_arith);
    assert(round_div(8192 * 5870 * 896int, 2 * (10000 - 2990) * 1023int) == 3004) by (nonlinear_arith);
    assert(round_div(8192 * 1140 * 896int, 2 * (10000 - 2990) * 1023int) == 583) by (nonlinear_arith);
    assert(round_div(8192 * 1023int, 876int) == 9567) by (nonlinear_arith);
    assert(round_div(8192 * 2 * (10000 - 2990) * 1023int, 10000 * 896int) == 13113) by (nonlinear_arith);
    assert(round_div(8192 * 2 * (10000 - 1140) * 1023int, 10000 * 896int) == 16574) by (nonlinear_arith);
    assert(round_div(8192 * 2 * (10000 - 2990) * 2990 * 1023int, 10000 * 5870 * 896int) == 6679) by (nonlinear_arith);
    assert(round_div(8192 * 2 * (10000 - 1140) * 1140 * 1023int, 10000 * 5870 * 896int) == 3219) by (nonlinear_arith);
    assert(spec_forward_transform(13, 10, range, m) == ForwardTransform {
        yr: 2097,
        yg: 4118,
        yb: 800,
        cb_r: 1211,
        cb_g: 2377,
        cb_b: 3588,
        cr_r: 3588,
        cr_g: 3004,
        cr_b: 583,
    });
    assert(spec_inverse_transform(13, 10, range, m) == CbCrInverseTransform {
        y_coef: 9567,
        cr_coef: 13113,
        cb_coef: 16574,
        g_coeff_1: 6679,
        g_coeff_2: 3219,
    });
    let ty = r * 2097 + g * 4118 + b * 800 + 64 * 8192 + 4096;
    let tcb = b * 3588 - r * 1211 - g * 2377 + 512 * 8192 + 4096;
    let tcr = r * 3588 - g * 3004 - b * 583 + 512 * 8192 + 4096;
    saturated(ty);
    saturated(tcb);
    saturated(tcr);
    let y = clamp(ty / 8192, 1023);
    let cb = clamp(tcb / 8192, 1023);
    let cr = clamp(tcr / 8192, 1023);
    arith_bt601_limited(
        r,
        g,
        b,
        y,
        cb,
        cr,
        clamp(((y - 64) * 9567 + 13113 * (cr - 512) + 4096) / 8192, 1023),
        clamp(((y - 64) * 9567 - 6679 * (cr - 512) - 3219 * (cb - 512) + 4096) / 8192, 1023),
        clamp(((y - 64) * 9567 + 16574 * (cb - 512) + 4096) / 8192, 1023),
    );
}

proof fn arith_bt709_full(r: int, g: int, b: int, y: int, cb: int, cr: int, qr: int, qg: int, qb: int)
    requires
        0 <= r <= 1023,
        0 <= g <= 1023,
        0 <= b <= 1023,
        saturated_quotient(y, r * 1742 + g * 5859 + b * 591 + 0 * 8192 + 4096),
        saturated_quotient(cb, b * 4096 - r * 939 - g * 3157 + 512 * 8192 + 4096),
        saturated_quotient(cr, r * 4096 - g * 3720 - b * 376 + 512 * 8192 + 4096),
        qr == clamp(((y - 0) * 8192 + 12901 * (cr - 512) + 4096) / 8192, 1023),
        qg == clamp(((y - 0) * 8192 - 3835 * (cr - 512) - 1535 * (cb - 512) + 4096) / 8192, 1023),
        qb == clamp(((y - 0) * 8192 + 15201 * (cb - 512) + 4096) / 8192, 1023),
    ensures
        within(qr, r, 4),
        within(qg, g, 4),
        within(qb, b, 4),
{
    floor_bounds((y - 0) * 8192 + 12901 * (cr - 512) + 4096);
    floor_bounds((y - 0) * 8192 - 3835 * (cr - 512) - 1535 * (cb - 512) + 4096);
    floor_bounds((y - 0) * 8192 + 15201 * (cb - 512) + 4096);
}

proof fn round_trip_bt709_full(r: int, g: int, b: int)
    requires
        0 <= r <= 1023,
        0 <= g <= 1023,
        0 <= b <= 1023,
    ensures
        within(round_trip_444(r, g, b, YuvRange::Full, YuvStandardMatrix::Bt709, 10).0, r, 4),
        within(round_trip_444(r, g, b, YuvRange::Full, YuvStandardMatrix::Bt709, 10).1, g, 4),
        within(round_trip_444(r, g, b, YuvRange::Full, YuvStandardMatrix::Bt709, 10).2, b, 4),
{
    reveal_with_fuel(pow2, 14);
    let m = YuvStandardMatrix::Bt709;
    let range = YuvRange::Full;
    assert(spec_yuv_range(10, range).range_y == 1023);
    assert(spec_yuv_range(10, range).range_uv == 1023);
    assert(spec_yuv_range(10, range).bias_y == 0);
    assert(spec_yuv_range(10, range).bias_uv == 512);
    assert(round_div(8192 * 2126 * 1023int, 10000 * 1023int) == 1742) by (nonlinear_arith);
    assert(round_div(8192 * 7152 * 1023int, 10000 * 1023int) == 5859) by (nonlinear_arith);
    assert(round_div(8192 * 722 * 1023int, 10000 * 1023int) == 591) by (nonlinear_arith);
    assert(round_div(8192 * 2126 * 1023int, 2 * (10000 - 722) * 1023int) == 939) by (nonlinear_arith);
    assert(round_div(8192 * 7152 * 1023int, 2 * (10000 - 722) * 1023int) == 3157) by (nonlinear_arith);
    assert(round_div(8192 * 1023int, 2 * 1023int) == 4096) by (nonlinear_arith);
    assert(round_div(8192 * 7152 * 1023int, 2 * (10000 - 2126) * 1023int) == 3720) by (nonlinear_arith);
    assert(round_div(8192 * 722 * 1023int, 2 * (10000 - 2126) * 1023int) == 376) by (nonlinear_arith);
    assert(round_div(8192 * 1023int, 1023int) == 8192) by (nonlinear_arith);
    assert(round_div(8192 * 2 * (10000 - 2126) * 1023int, 10000 * 1023int) == 12901) by (nonlinear_arith);
    assert(round_div(8192 * 2 * (10000 - 722) * 1023int, 10000 * 1023int) == 15201) by (nonlinear_arith);
    assert(round_div(8192 * 2 * (10000 - 2126) * 2126 * 1023int, 10000 * 7152 * 1023int) == 3835) by (nonlinear_arith);
    assert(round_div(8192 * 2 * (10000 - 722) * 722 * 1023int, 10000 * 7152 * 1023int) == 1535) by (nonlinear_arith);
    assert(spec_forward_transform(13, 10, range, m) == ForwardTransform {
        yr: 1742,
        yg: 5859,
        yb: 591,
        cb_r: 939,
        cb_g: 3157,
        cb_b: 4096,
        cr_r: 4096,
        cr_g: 3720,
        cr_b: 376,
    });
    assert(spec_inverse_transform(13, 10, range, m) == CbCrInverseTransform {
        y_coef: 8192,
        cr_coef: 12901,
        cb_coef: 15201,
        g_coeff_1: 3835,
        g_coeff_2: 1535,
    });
    let ty = r * 1742 + g * 5859 + b * 591 + 0 * 8192 + 4096;
    let tcb = b * 4096 - r * 939 - g * 3157 + 512 * 8192 + 4096;
    let tcr = r * 4096 - g * 3720 - b * 376 + 512 * 8192 + 4096;
    saturated(ty);
    saturated(tcb);
    saturated(tcr);
    let y = clamp(ty / 8192, 1023);
    let cb = clamp(tcb / 8192, 1023);
    let cr = clamp(tcr / 8192, 1023);
    arith_bt709_full(
        r,
        g,
        b,
        y,
        cb,
        cr,
        clamp(((y - 0) * 8192 + 12901 * (cr - 512) + 4096) / 8192, 1023),
        clamp(((y - 0) * 8192 - 3835 * (cr - 512) - 1535 * (cb - 512) + 4096) / 8192, 1023),
        clamp(((y - 0) * 8192 + 15201 * (cb - 512) + 4096) / 8192, 1023),
    );
}

proof fn arith_bt709_limited(r: int, g: int, b: int, y: int, cb: int, cr: int, qr: int, qg: int, qb: int)
    requires
        0 <= r <= 1023,
        0 <= g <= 1023,
        0 <= b <= 1023,
        saturated_quotient(y, r * 1491 + g * 5017 + b * 506 + 64 * 8192 + 4096),
        saturated_quotient(cb, b * 3588 - r * 822 - g * 2765 + 512 * 8192 + 4096),
        saturated_quotient(cr, r * 3588 - g * 3259 - b * 329 + 512 * 8192 + 4096),
        qr == clamp(((y - 64) * 9567 + 14729 * (cr - 512) + 4096) / 8192, 1023),
        qg == clamp(((y - 64) * 9567 - 4378 * (cr - 512) - 1752 * (cb - 512) + 4096) / 8192, 1023),
        qb == clamp(((y - 64) * 9567 + 17356 * (cb - 512) + 4096) / 8192, 1023),
    ensures
        within(qr, r, 12),
        within(qg, g, 12),
        within(qb, b, 12),
{
    floor_bounds((y - 64) * 9567 + 14729 * (cr - 512) + 4096);
    floor_bounds((y - 64) * 9567 - 4378 * (cr - 512) - 1752 * (cb - 512) + 4096);
    floor_bounds((y - 64) * 9567 + 17356 * (cb - 512) + 4096);
}

proof fn round_trip_bt709_limited(r: int, g: int, b: int)
    requires
        0 <= r <= 1023,
        0 <= g <= 1023,
        0 <= b <= 1023,
    ensures
        within(round_trip_444(r, g, b, YuvRange::Limited, YuvStandardMatrix::Bt709, 10).0, r, 12),
        within(round_trip_444(r, g, b, YuvRange::Limited, YuvStandardMatrix::Bt709, 10).1, g, 12),
        within(round_trip_444(r, g, b, YuvRange::Limited, YuvStandardMatrix::Bt709, 10).2, b, 12),
{
    reveal_with_fuel(pow2, 14);
    let m = YuvStandardMatrix::Bt709;
    let range = YuvRange::Limited;
    assert(spec_yuv_range(10, range).range_y == 876);
    assert(spec_yuv_range(10, range).range_uv == 896);
    assert(spec_yuv_range(10, range).bias_y == 64);
    assert(spec_yuv_range(10, range).bias_uv == 512);
    assert(round_div(8192 * 2126 * 876int, 10000 * 1023int) == 1491) by (nonlinear_arith);
    assert(round_div(8192 * 7152 * 876int, 10000 * 1023int) == 5017) by (nonlinear_arith);
    assert(round_div(8192 * 722 * 876int, 10000 * 1023int) == 506) by (nonlinear_arith);
    assert(round_div(8192 * 2126 * 896int, 2 * (10000 - 722) * 1023int) == 822) by (nonlinear_arith);
    assert(round_div(8192 * 7152 * 896int, 2 * (10000 - 722) * 1023int) == 2765) by (nonlinear_arith);
    assert(round_div(8192 * 896int, 2 * 1023int) == 3588) by (nonlinear_arith);
    assert(round_div(8192 * 7152 * 896int, 2 * (10000 - 2126) * 1023int) == 3259) by (nonlinear_arith);
    assert(round_div(8192 * 722 * 896int, 2 * (10000 - 2126) * 1023int) == 329) by (nonlinear_arith);
    assert(round_div(8192 * 1023int, 876int) == 9567) by (nonlinear_arith);
    assert(round_div(8192 * 2 * (10000 - 2126) * 1023int, 10000 * 896int) == 14729) by (nonlinear_arith);
    assert(round_div(8192 * 2 * (10000 - 722) * 1023int, 10000 * 896int) == 17356) by (nonlinear_arith);
    assert(round_div(8192 * 2 * (10000 - 2126) * 2126 * 1023int, 10000 * 7152 * 896int) == 4378) by (nonlinear_arith);
    assert(round_div(8192 * 2 * (10000 - 722) * 722 * 1023int, 10000 * 7152 * 896int) == 1752) by (nonlinear_arith);
    assert(spec_forward_transform(13, 10, range, m) == ForwardTransform {
        yr: 1491,
        yg: 5017,
        yb: 506,
        cb_r: 822,
        cb_g: 2765,
        cb_b: 3588,
        cr_r: 3588,
        cr_g: 3259,
        cr_b: 329,
    });
    assert(spec_inverse_transform(13, 10, range, m) == CbCrInverseTransform {
        y_coef: 9567,
        cr_coef: 14729,
        cb_coef: 17356,
        g_coeff_1: 4378,
        g_coeff_2: 1752,
    });
    let ty = r * 1491 + g * 5017 + b * 506 + 64 * 8192 + 4096;
    let tcb = b * 3588 - r * 822 - g * 2765 + 512 * 8192 + 4096;
    let tcr = r * 3588 - g * 3259 - b * 329 + 512 * 8192 + 4096;
    saturated(ty);
    saturated(tcb);
    saturated(tcr);
    let y = clamp(ty / 8192, 1023);
    let cb = clamp(tcb / 8192, 1023);
    let cr = clamp(tcr / 8192, 1023);
    arith_bt709_limited(
        r,
        g,
        b,
        y,
        cb,
        cr,
        clamp(((y - 64) * 9567 + 14729 * (cr - 512) + 4096) / 8192, 1023),
        clamp(((y - 64) * 9567 - 4378 * (cr - 512) - 1752 * (cb - 512) + 4096) / 8192, 1023),
        clamp(((y - 64) * 9567 + 17356 * (cb - 512) + 4096) / 8192, 1023),
    );
}

proof fn arith_bt2020_full(r: int, g: int, b: int, y: int, cb: int, cr: int, qr: int, qg: int, qb: int)
    requires
        0 <= r <= 1023,
        0 <= g <= 1023,
        0 <= b <= 1023,
        saturated_quotient(y, r * 2152 + g * 5554 + b * 486 + 0 * 8192 + 4096),
        saturated_quotient(cb, b * 4096 - r * 1144 - g * 2952 + 512 * 8192 + 4096),
        saturated_quotient(cr, r * 4096 - g * 3767 - b * 329 + 512 * 8192 + 4096),
        qr == clamp(((y - 0) * 8192 + 12080 * (cr - 512) + 4096) / 8192, 1023),
        qg == clamp(((y - 0) * 8192 - 4681 * (cr - 512) - 1348 * (cb - 512) + 4096) / 8192, 1023),
        qb == clamp(((y - 0) * 8192 + 15412 * (cb - 512) + 4096) / 8192, 1023),
    ensures
        within(qr, r, 4),
        within(qg, g, 4),
        within(qb, b, 4),
{
    floor_bounds((y - 0) * 8192 + 12080 * (cr - 512) + 4096);
    floor_bounds((y - 0) * 8192 - 4681 * (cr - 512) - 1348 * (cb - 512) + 4096);
    floor_bounds((y - 0) * 8192 + 15412 * (cb - 512) + 4096);
}

proof fn round_trip_bt2020_full(r: int, g: int, b: int)
    requires
        0 <= r <= 1023,
        0 <= g <= 1023,
        0 <= b <= 1023,
    ensures
        within(round_trip_444(r, g, b, YuvRange::Full, YuvStandardMatrix::Bt2020, 10).0, r, 4),
        within(round_trip_444(r, g, b, YuvRange::Full, YuvStandardMatrix::Bt2020, 10).1, g, 4),
        within(round_trip_444(r, g, b, YuvRange::Full, YuvStandardMatrix::Bt2020, 10).2, b, 4),
{
    reveal_with_fuel(pow2, 14);
    let m = YuvStandardMatrix::Bt2020;
    let range = YuvRange::Full;
    assert(spec_yuv_range(10, range).range_y == 1023);
    assert(spec_yuv_range(10, range).range_uv == 1023);
    assert(spec_yuv_range(10, range).bias_y == 0);
    assert(spec_yuv_range(10, range).bias_uv == 512);
    assert(round_div(8192 * 2627 * 1023int, 10000 * 1023int) == 2152) by (nonlinear_arith);
    assert(round_div(8192 * 6780 * 1023int, 10000 * 1023int) == 5554) by (nonlinear_arith);
    assert(round_div(8192 * 593 * 1023int, 10000 * 1023int) == 486) by (nonlinear_arith);
    assert(round_div(8192 * 2627 * 1023int, 2 * (10000 - 593) * 1023int) == 1144) by (nonlinear_arith);
    assert(round_div(8192 * 6780 * 1023int, 2 * (10000 - 593) * 1023int) == 2952) by (nonlinear_arith);
    assert(round_div(8192 * 1023int, 2 * 1023int) == 4096) by (nonlinear_arith);
    assert(round_div(8192 * 6780 * 1023int, 2 * (10000 - 2627) * 1023int) == 3767) by (nonlinear_arith);
    assert(round_div(8192 * 593 * 1023int, 2 * (10000 - 2627) * 1023int) == 329) by (nonlinear_arith);
    assert(round_div(8192 * 1023int, 1023int) == 8192) by (nonlinear_arith);
    assert(round_div(8192 * 2 * (10000 - 2627) * 1023int, 10000 * 1023int) == 12080) by (nonlinear_arith);
    assert(round_div(8192 * 2 * (10000 - 593) * 1023int, 10000 * 1023int) == 15412) by (nonlinear_arith);
    assert(round_div(8192 * 2 * (10000 - 2627) * 2627 * 1023int, 10000 * 6780 * 1023int) == 4681) by (nonlinear_arith);
    assert(round_div(8192 * 2 * (10000 - 593) * 593 * 1023int, 10000 * 6780 * 1023int) == 1348) by (nonlinear_arith);
    assert(spec_forward_transform(13, 10, range, m) == ForwardTransform {
        yr: 2152,
        yg: 5554,
        yb: 486,
        cb_r: 1144,
        cb_g: 2952,
        cb_b: 4096,
        cr_r: 4096,
        cr_g: 3767,
        cr_b: 329,
    });
    assert(spec_inverse_transform(13, 10, range, m) == CbCrInverseTransform {
        y_coef: 8192,
        cr_coef: 12080,
        cb_coef: 15412,
        g_coeff_1: 4681,
        g_coeff_2: 1348,
    });
    let ty = r * 2152 + g * 5554 + b * 486 + 0 * 8192 + 4096;
    let tcb = b * 4096 - r * 1144 - g * 2952 + 512 * 8192 + 4096;
    let tcr = r * 4096 - g * 3767 - b * 329 + 512 * 8192 + 4096;
    saturated(ty);
    saturated(tcb);
    saturated(tcr);
    let y = clamp(ty / 8192, 1023);
    let cb = clamp(tcb / 8192, 1023);
    let cr = clamp(tcr / 8192, 1023);
    arith_bt2020_full(
        r,
        g,
        b,
        y,
        cb,
        cr,
        clamp(((y - 0) * 8192 + 12080 * (cr - 512) + 4096) / 8192, 1023),
        clamp(((y - 0) * 8192 - 4681 * (cr - 512) - 1348 * (cb - 512) + 4096) / 8192, 1023),
        clamp(((y - 0) * 8192 + 15412 * (cb - 512) + 4096) / 8192, 1023),
    );
}

proof fn arith_bt2020_limited(r: int, g: int, b: int, y: int, cb: int, cr: int, qr: int, qg: int, qb: int)
    requires
        0 <= r <= 1023,
        0 <= g <= 1023,
        0 <= b <= 1023,
        saturated_quotient(y, r * 1843 + g * 4756 + b * 416 + 64 * 8192 + 4096),
        saturated_quotient(cb, b * 3588 - r * 1002 - g * 2586 + 512 * 8192 + 4096),
        saturated_quotient(cr, r * 3588 - g * 3299 - b * 289 + 512 * 8192 + 4096),
        qr == clamp(((y - 64) * 9567 + 13792 * (cr - 512) + 4096) / 8192, 1023),
        qg == clamp(((y - 64) * 9567 - 5344 * (cr - 512) - 1539 * (cb - 512) + 4096) / 8192, 1023),
        qb == clamp(((y - 64) * 9567 + 17597 * (cb - 512) + 4096) / 8192, 1023),
    ensures
        within(qr, r, 12),
        within(qg, g, 12),
        within(qb, b, 12),
{
    floor_bounds((y - 64) * 9567 + 13792 * (cr - 512) + 4096);
    floor_bounds((y - 64) * 9567 - 5344 * (cr - 512) - 1539 * (cb - 512) + 4096);
    floor_bounds((y - 64) * 9567 + 17597 * (cb - 512) + 4096);
}

proof fn round_trip_bt2020_limited(r: int, g: int, b: int)
    requires
        0 <= r <= 1023,
        0 <= g <= 1023,
        0 <= b <= 1023,
    ensures
        within(round_trip_444(r, g, b, YuvRange::Limited, YuvStandardMatrix::Bt2020, 10).0, r, 12),
        within(round_trip_444(r, g, b, YuvRange::Limited, YuvStandardMatrix::Bt2020, 10).1, g, 12),
        within(round_trip_444(r, g, b, YuvRange::Limited, YuvStandardMatrix::Bt2020, 10).2, b, 12),
{
    reveal_with_fuel(pow2, 14);
    let m = YuvStandardMatrix::Bt2020;
    let range = YuvRange::Limited;
    assert(spec_yuv_range(10, range).range_y == 876);
    assert(spec_yuv_range(10, range).range_uv == 896);
    assert(spec_yuv_range(10, range).bias_y == 64);
    assert(spec_yuv_range(10, range).bias_uv == 512);
    assert(round_div(8192 * 2627 * 876int, 10000 * 1023int) == 1843) by (nonlinear_arith);
    assert(round_div(8192 * 6780 * 876int, 10000 * 1023int) == 4756) by (nonlinear_arith);
    assert(round_div(8192 * 593 * 876int, 10000 * 1023int) == 416) by (nonlinear_arith);
    assert(round_div(8192 * 2627 * 896int, 2 * (10000 - 593) * 1023int) == 1002) by (nonlinear_arith);
    assert(round_div(8192 * 6780 * 896int, 2 * (10000 - 593) * 1023int) == 2586) by (nonlinear_arith);
    assert(round_div(8192 * 896int, 2 * 1023int) == 3588) by (nonlinear_arith);
    assert(round_div(8192 * 6780 * 896int, 2 * (10000 - 2627) * 1023int) == 3299) by (nonlinear_arith);
    assert(round_div(8192 * 593 * 896int, 2 * (10000 - 2627) * 1023int) == 289) by (nonlinear_arith);
    assert(round_div(8192 * 1023int, 876int) == 9567) by (nonlinear_arith);
    assert(round_div(8192 * 2 * (10000 - 2627) * 1023int, 10000 * 896int) == 13792) by (nonlinear_arith);
    assert(round_div(8192 * 2 * (10000 - 593) * 1023int, 10000 * 896int) == 17597) by (nonlinear_arith);
    assert(round_div(8192 * 2 * (10000 - 2627) * 2627 * 1023int, 10000 * 6780 * 896int) == 5344) by (nonlinear_arith);
    assert(round_div(8192 * 2 * (10000 - 593) * 593 * 1023int, 10000 * 6780 * 896int) == 1539) by (nonlinear_arith);
    assert(spec_forward_transform(13, 10, range, m) == ForwardTransform {
        yr: 1843,
        yg: 4756,
        yb: 416,
        cb_r: 1002,
        cb_g: 2586,
        cb_b: 3588,
        cr_r: 3588,
        cr_g: 3299,
        cr_b: 289,
    });
    assert(spec_inverse_transform(13, 10, range, m) == CbCrInverseTransform {
        y_coef: 9567,
        cr_coef: 13792,
        cb_coef: 17597,
        g_coeff_1: 5344,
        g_coeff_2: 1539,
    });
    let ty = r * 1843 + g * 4756 + b * 416 + 64 * 8192 + 4096;
    let tcb = b * 3588 - r * 1002 - g * 2586 + 512 * 8192 + 4096;
    let tcr = r * 3588 - g * 3299 - b * 289 + 512 * 8192 + 4096;
    saturated(ty);
    saturated(tcb);
    saturated(tcr);
    let y = clamp(ty / 8192, 1023);
    let cb = clamp(tcb / 8192, 1023);
    let cr = clamp(tcr / 8192, 1023);
    arith_bt2020_limited(
        r,
        g,
        b,
        y,
        cb,
        cr,
        clamp(((y - 64) * 9567 + 13792 * (cr - 512) + 4096) / 8192, 1023),
        clamp(((y - 64) * 9567 - 5344 * (cr - 512) - 1539 * (cb - 512) + 4096) / 8192, 1023),
        clamp(((y - 64) * 9567 + 17597 * (cb - 512) + 4096) / 8192, 1023),
    );
}

proof fn arith_smpte240_full(r: int, g: int, b: int, y: int, cb: int, cr: int, qr: int, qg: int, qb: int)
    requires
        0 <= r <= 1023,
        0 <= g <= 1023,
        0 <= b <= 1023,
        saturated_quotient(y, r * 1737 + g * 5743 + b * 713 + 0 * 8192 + 4096),
        saturated_quotient(cb, b * 4096 - r * 951 - g * 3145 + 512 * 8192 + 4096),
        saturated_quotient(cr, r * 4096 - g * 3644 - b * 452 + 512 * 8192 + 4096),
        qr == clamp(((y - 0) * 8192 + 12911 * (cr - 512) + 4096) / 8192, 1023),
        qg == clamp(((y - 0) * 8192 - 3904 * (cr - 512) - 1856 * (cb - 512) + 4096) / 8192, 1023),
        qb == clamp(((y - 0) * 8192 + 14959 * (cb - 512) + 4096) / 8192, 1023),
    ensures
        within(qr, r, 4),
        within(qg, g, 4),
        within(qb, b, 4),
{
    floor_bounds((y - 0) * 8192 + 12911 * (cr - 512) + 4096);
    floor_bounds((y - 0) * 8192 - 3904 * (cr - 512) - 1856 * (cb - 512) + 4096);
    floor_bounds((y - 0) * 8192 + 14959 * (cb - 512) + 4096);
}

proof fn round_trip_smpte240_full(r: int, g: int, b: int)
    requires
        0 <= r <= 1023,
        0 <= g <= 1023,
        0 <= b <= 1023,
    ensures
        within(round_trip_444(r, g, b, YuvRange::Full, YuvStandardMatrix::Smpte240, 10).0, r, 4),
        within(round_trip_444(r, g, b, YuvRange::Full, YuvStandardMatrix::Smpte240, 10).1, g, 4),
        within(round_trip_444(r, g, b, YuvRange::Full, YuvStandardMatrix::Smpte240, 10).2, b, 4),
{
    reveal_with_fuel(pow2, 14);
    let m = YuvStandardMatrix::Smpte240;
    let range = YuvRange::Full;
    assert(spec_yuv_range(10, range).range_y == 1023);
    assert(spec_yuv_range(10, range).range_uv == 1023);
    assert(spec_yuv_range(10, range).bias_y == 0);
    assert(spec_yuv_range(10, range).bias_uv == 512);
    assert(round_div(8192 * 2120 * 1023int, 10000 * 1023int) == 1737) by (nonlinear_arith);
    assert(round_div(8192 * 7010 * 1023int, 10000 * 1023int) == 5743) by (nonlinear_arith);
    assert(round_div(8192 * 870 * 1023int, 10000 * 1023int) == 713) by (nonlinear_arith);
    assert(round_div(8192 * 2120 * 1023int, 2 * (10000 - 870) * 1023int) == 951) by (nonlinear_arith);
    assert(round_div(8192 * 7010 * 1023int, 2 * (10000 - 870) * 1023int) == 3145) by (nonlinear_arith);
    assert(round_div(8192 * 1023int, 2 * 1023int) == 4096) by (nonlinear_arith);
    assert(round_div(8192 * 7010 * 1023int, 2 * (10000 - 2120) * 1023int) == 3644) by (nonlinear_arith);
    assert(round_div(8192 * 870 * 1023int, 2 * (10000 - 2120) * 1023int) == 452) by (nonlinear_arith);
    assert(round_div(8192 * 1023int, 1023int) == 8192) by (nonlinear_arith);
    assert(round_div(8192 * 2 * (10000 - 2120) * 1023int, 10000 * 1023int) == 12911) by (nonlinear_arith);
    assert(round_div(8192 * 2 * (10000 - 870) * 1023int, 10000 * 1023int) == 14959) by (nonlinear_arith);
    assert(round_div(8192 * 2 * (10000 - 2120) * 2120 * 1023int, 10000 * 7010 * 1023int) == 3904) by (nonlinear_arith);
    assert(round_div(8192 * 2 * (10000 - 870) * 870 * 1023int, 10000 * 7010 * 1023int) == 1856) by (nonlinear_arith);
    assert(spec_forward_transform(13, 10, range, m) == ForwardTransform {
        yr: 1737,
        yg: 5743,
        yb: 713,
        cb_r: 951,
        cb_g: 3145,
        cb_b: 4096,
        cr_r: 4096,
        cr_g: 3644,
        cr_b: 452,
    });
    assert(spec_inverse_transform(13, 10, range, m) == CbCrInverseTransform {
        y_coef: 8192,
        cr_coef: 12911,
        cb_coef: 14959,
        g_coeff_1: 3904,
        g_coeff_2: 1856,
    });
    let ty = r * 1737 + g * 5743 + b * 713 + 0 * 8192 + 4096;
    let tcb = b * 4096 - r * 951 - g * 3145 + 512 * 8192 + 4096;
    let tcr = r * 4096 - g * 3644 - b * 452 + 512 * 8192 + 4096;
    saturated(ty);
    saturated(tcb);
    saturated(tcr);
    let y = clamp(ty / 8192, 1023);
    let cb = clamp(tcb / 8192, 1023);
    let cr = clamp(tcr / 8192, 1023);
    arith_smpte240_full(
        r,
        g,
        b,
        y,
        cb,
        cr,
        clamp(((y - 0) * 8192 + 12911 * (cr - 512) + 4096) / 8192, 1023),
        clamp(((y - 0) * 8192 - 3904 * (cr - 512) - 1856 * (cb - 512) + 4096) / 8192, 1023),
        clamp(((y - 0) * 8192 + 14959 * (cb - 512) + 4096) / 8192, 1023),
    );
}

proof fn arith_smpte240_limited(r: int, g: int, b: int, y: int, cb: int, cr: int, qr: int, qg: int, qb: int)
    requires
        0 <= r <= 1023,
        0 <= g <= 1023,
        0 <= b <= 1023,
        saturated_quotient(y, r * 1487 + g * 4917 + b * 610 + 64 * 8192 + 4096),
        saturated_quotient(cb, b * 3588 - r * 833 - g * 2754 + 512 * 8192 + 4096),
        saturated_quotient(cr, r * 3588 - g * 3191 - b * 396 + 512 * 8192 + 4096),
        qr == clamp(((y - 64) * 9567 + 14741 * (cr - 512) + 4096) / 8192, 1023),
        qg == clamp(((y - 64) * 9567 - 4458 * (cr - 512) - 2120 * (cb - 512) + 4096) / 8192, 1023),
        qb == clamp(((y - 64) * 9567 + 17079 * (cb - 512) + 4096) / 8192, 1023),
    ensures
        within(qr, r, 12),
        within(qg, g, 12),
        within(qb, b, 12),
{
    floor_bounds((y - 64) * 9567 + 14741 * (cr - 512) + 4096);
    floor_bounds((y - 64) * 9567 - 4458 * (cr - 512) - 2120 * (cb - 512) + 4096);
    floor_bounds((y - 64) * 9567 + 17079 * (cb - 512) + 4096);
}

proof fn round_trip_smpte240_limited(r: int, g: int, b: int)
    requires
        0 <= r <= 1023,
        0 <= g <= 1023,
        0 <= b <= 1023,
    ensures
        within(round_trip_444(r, g, b, YuvRange::Limited, YuvStandardMatrix::Smpte240, 10).0, r, 12),
        within(round_trip_444(r, g, b, YuvRange::Limited, YuvStandardMatrix::Smpte240, 10).1, g, 12),
        within(round_trip_444(r, g, b, YuvRange::Limited, YuvStandardMatrix::Smpte240, 10).2, b, 12),
{
    reveal_with_fuel(pow2, 14);
    let m = YuvStandardMatrix::Smpte240;
    let range = YuvRange::Limited;
    assert(spec_yuv_range(10, range).range_y == 876);
    assert(spec_yuv_range(10, range).range_uv == 896);
    assert(spec_yuv_range(10, range).bias_y == 64);
    assert(spec_yuv_range(10, range).bias_uv == 512);
    assert(round_div(8192 * 2120 * 876int, 10000 * 1023int) == 1487) by (nonlinear_arith);
    assert(round_div(8192 * 7010 * 876int, 10000 * 1023int) == 4917) by (nonlinear_arith);
    assert(round_div(8192 * 870 * 876int, 10000 * 1023int) == 610) by (nonlinear_arith);
    assert(round_div(8192 * 2120 * 896int, 2 * (10000 - 870) * 1023int) == 833) by (nonlinear_arith);
    assert(round_div(8192 * 7010 * 896int, 2 * (10000 - 870) * 1023int) == 2754) by (nonlinear_arith);
    assert(round_div(8192 * 896int, 2 * 1023int) == 3588) by (nonlinear_arith);
    assert(round_div(8192 * 7010 * 896int, 2 * (10000 - 2120) * 1023int) == 3191) by (nonlinear_arith);
    assert(round_div(8192 * 870 * 896int, 2 * (10000 - 2120) * 1023int) == 396) by (nonlinear_arith);
    assert(round_div(8192 * 1023int, 876int) == 9567) by (nonlinear_arith);
    assert(round_div(8192 * 2 * (10000 - 2120) * 1023int, 10000 * 896int) == 14741) by (nonlinear_arith);
    assert(round_div(8192 * 2 * (10000 - 870) * 1023int, 10000 * 896int) == 17079) by (nonlinear_arith);
    assert(round_div(8192 * 2 * (10000 - 2120) * 2120 * 1023int, 10000 * 7010 * 896int) == 4458) by (nonlinear_arith);
    assert(round_div(8192 * 2 * (10000 - 870) * 870 * 1023int, 10000 * 7010 * 896int) == 2120) by (nonlinear_arith);
    assert(spec_forward_transform(13, 10, range, m) == ForwardTransform {
        yr: 1487,
        yg: 4917,
        yb: 610,
        cb_r: 833,
        cb_g: 2754,
        cb_b: 3588,
        cr_r: 3588,
        cr_g: 3191,
        cr_b: 396,
    });
    assert(spec_inverse_transform(13, 10, range, m) == CbCrInverseTransform {
        y_coef: 9567,
        cr_coef: 14741,
        cb_coef: 17079,
        g_coeff_1: 4458,
        g_coeff_2: 2120,
    });
    let ty = r * 1487 + g * 4917 + b * 610 + 64 * 8192 + 4096;
    let tcb = b * 3588 - r * 833 - g * 2754 + 512 * 8192 + 4096;
    let tcr = r * 3588 - g * 3191 - b * 396 + 512 * 8192 + 4096;
    saturated(ty);
    saturated(tcb);
    saturated(tcr);
    let y = clamp(ty / 8192, 1023);
    let cb = clamp(tcb / 8192, 1023);
    let cr = clamp(tcr / 8192, 1023);
    arith_smpte240_limited(
        r,
        g,
        b,
        y,
        cb,
        cr,
        clamp(((y - 64) * 9567 + 14741 * (cr - 512) + 4096) / 8192, 1023),
        clamp(((y - 64) * 9567 - 4458 * (cr - 512) - 2120 * (cb - 512) + 4096) / 8192, 1023),
        clamp(((y - 64) * 9567 + 17079 * (cb - 512) + 4096) / 8192, 1023),
    );
}

/// Encoding a 10-bit full range pixel at 4:4:4 with any supported matrix and decoding it
/// back moves no channel by more than 4 units.
pub proof fn lemma_round_trip_444_full(r: int, g: int, b: int, matrix: YuvStandardMatrix)
    requires
        0 <= r <= 1023,
        0 <= g <= 1023,
        0 <= b <= 1023,
    ensures
        within(round_trip_444(r, g, b, YuvRange::Full, matrix, 10).0, r, 4),
        within(round_trip_444(r, g, b, YuvRange::Full, matrix, 10).1, g, 4),
        within(round_trip_444(r, g, b, YuvRange::Full, matrix, 10).2, b, 4),
{
    match matrix {
        YuvStandardMatrix::Bt601 => round_trip_bt601_full(r, g, b),
        YuvStandardMatrix::Bt709 => round_trip_bt709_full(r, g, b),
        YuvStandardMatrix::Bt2020 => round_trip_bt2020_full(r, g, b),
        YuvStandardMatrix::Smpte240 => round_trip_smpte240_full(r, g, b),
    }
}

/// Encoding a 10-bit limited range pixel at 4:4:4 with any supported matrix and decoding it
/// back moves no channel by more than 12 units.
pub proof fn lemma_round_trip_444_limited(r: int, g: int, b: int, matrix: YuvStandardMatrix)
    requires
        0 <= r <= 1023,
        0 <= g <= 1023,
        0 <= b <= 1023,
    ensures
        within(round_trip_444(r, g, b, YuvRange::Limited, matrix, 10).0, r, 12),
        within(round_trip_444(r, g, b, YuvRange::Limited, matrix, 10).1, g, 12),
        within(round_trip_444(r, g, b, YuvRange::Limited, matrix, 10).2, b, 12),
{
    match matrix {
        YuvStandardMatrix::Bt601 => round_trip_bt601_limited(r, g, b),
        YuvStandardMatrix::Bt709 => round_trip_bt709_limited(r, g, b),
        YuvStandardMatrix::Bt2020 => round_trip_bt2020_limited(r, g, b),
        YuvStandardMatrix::Smpte240 => round_trip_smpte240_limited(r, g, b),
    }
}

/// Every pixel that the chroma sample starting at pixel `x0` covers, in the rows at `off0`
/// and `off1`, has the colour `(r, g, b)`.
pub open spec fn uniform_block(
    src: Seq<u16>,
    off0: int,
    off1: int,
    cn: YuvSourceChannels,
    width: int,
    factor: int,
    x0: int,
    r: int,
    g: int,
    b: int,
) -> bool {
    let x1 = if x0 + factor - 1 < width {
        x0 + factor - 1
    } else {
        width - 1
    };
    forall|off: int, x: int|
        (off == off0 || off == off1) && (x == x0 || x == x1) ==> {
            &&& #[trigger] sample16_at(src, off, cn, x, cn.spec_r()) == r
            &&& sample16_at(src, off, cn, x, 1) == g
            &&& sample16_at(src, off, cn, x, cn.spec_b()) == b
        }
}

/// With 4:2:2 or 4:2:0 chroma, a pixel whose chroma block holds one colour gets the chroma
/// of that colour, as at 4:4:4; in limited range at 10 bits its round trip then moves no
/// channel by more than 12 units, inside the 230 tolerated for subsampled layouts.
pub proof fn lemma_uniform_block_round_trip(
    src: Seq<u16>,
    off0: int,
    off1: int,
    cn: YuvSourceChannels,
    width: int,
    factor: int,
    x0: int,
    r: int,
    g: int,
    b: int,
    matrix: YuvStandardMatrix,
)
    requires
        factor == 1 || factor == 2,
        0 <= x0 < width,
        0 <= r <= 1023,
        0 <= g <= 1023,
        0 <= b <= 1023,
        uniform_block(src, off0, off1, cn, width, factor, x0, r, g, b),
    ensures
        enc_chroma_sample(src, off0, off1, cn, width, factor, x0, cn.spec_r()) == r,
        enc_chroma_sample(src, off0, off1, cn, width, factor, x0, 1) == g,
        enc_chroma_sample(src, off0, off1, cn, width, factor, x0, cn.spec_b()) == b,
        within(round_trip_444(r, g, b, YuvRange::Limited, matrix, 10).0, r, 12),
        within(round_trip_444(r, g, b, YuvRange::Limited, matrix, 10).1, g, 12),
        within(round_trip_444(r, g, b, YuvRange::Limited, matrix, 10).2, b, 12),
{
    let x1 = if x0 + factor - 1 < width {
        x0 + factor - 1
    } else {
        width - 1
    };
    assert(sample16_at(src, off0, cn, x0, cn.spec_r()) == r);
    assert(sample16_at(src, off0, cn, x1, cn.spec_r()) == r);
    assert(sample16_at(src, off1, cn, x0, cn.spec_r()) == r);
    assert(sample16_at(src, off1, cn, x1, cn.spec_r()) == r);
    lemma_round_trip_444_limited(r, g, b, matrix);
}

/// At an odd width, the last chroma sample of a 4:2:2 row of the YCbCr encoder is computed
/// from the last pixel's own colour: the column past the edge repeats it.
pub proof fn lemma_encoder_edge_replication(
    src: Seq<u16>,
    off: int,
    cn: YuvSourceChannels,
    width: int,
    c: int,
)
    requires
        width >= 1,
        width % 2 == 1,
    ensures
        enc_chroma_sample(src, off, off, cn, width, 2, width - 1, c) == sample16_at(
            src,
            off,
            cn,
            width - 1,
            c,
        ),
{
}

} // verus!
