//! YCbCr to RGB fixed-point coefficients, the saturating inverse kernel, and the
//! normalization of stored 16-bit samples.

use vstd::prelude::*;

use crate::support::{
    YuvBytesPacking, YuvEndianness, clamp, get_yuv_range, lemma_pow2_bounds, lemma_pow2_shift8, max_value, pow2, pow2_exec,
    round_div, spec_yuv_range, CbCrInverseTransform, YuvChromaRange, YuvRange, YuvStandardMatrix,
};

verus! {

/// The YCbCr to RGB coefficients of `matrix` for samples of `depth` bits in `range`,
/// scaled by `2^precision` and rounded:
/// `y = max / range_y`, `cr = 2 (1 - Kr) max / range_uv`, `cb = 2 (1 - Kb) max / range_uv`,
/// `g1 = 2 (1 - Kr) Kr / Kg * max / range_uv`, `g2 = 2 (1 - Kb) Kb / Kg * max / range_uv`,
/// with `Kg = 1 - Kr - Kb`.
pub open spec fn spec_inverse_transform(
    precision: nat,
    depth: nat,
    range: YuvRange,
    matrix: YuvStandardMatrix,
) -> CbCrInverseTransform {
    let r = spec_yuv_range(depth, range);
    let m = max_value(depth);
    let s = pow2(precision);
    let kr = matrix.spec_kr();
    let kb = matrix.spec_kb();
    let kg = 10000 - kr - kb;
    CbCrInverseTransform {
        y_coef: round_div(s * m, r.range_y as int) as i64,
        cr_coef: round_div(s * 2 * (10000 - kr) * m, 10000 * r.range_uv) as i64,
        cb_coef: round_div(s * 2 * (10000 - kb) * m, 10000 * r.range_uv) as i64,
        g_coeff_1: round_div(s * 2 * (10000 - kr) * kr * m, 10000 * kg * r.range_uv) as i64,
        g_coeff_2: round_div(s * 2 * (10000 - kb) * kb * m, 10000 * kg * r.range_uv) as i64,
    }
}

impl CbCrInverseTransform {
    /// Coefficient bounds under which the inverse kernel cannot overflow.
    pub open spec fn wf(self) -> bool {
        &&& 0 <= self.y_coef <= 0x10_0000
        &&& 0 <= self.cr_coef <= 0x10_0000
        &&& 0 <= self.cb_coef <= 0x10_0000
        &&& 0 <= self.g_coeff_1 <= 0x10_0000
        &&& 0 <= self.g_coeff_2 <= 0x10_0000
    }
}

/// `v + rounding` shifted right by `precision` bits (a floor division) and saturated
/// to `[0, max]`.
pub open spec fn shift_clamp(v: int, precision: nat, rounding: int, max: int) -> int {
    clamp((v + rounding) / pow2(precision), max)
}

/// Red, green and blue of one pixel from its luma and chroma samples.
pub open spec fn inverse_rgb(
    y: int,
    cb: int,
    cr: int,
    t: CbCrInverseTransform,
    range: YuvChromaRange,
    precision: nat,
    rounding: int,
    max: int,
) -> (int, int, int) {
    let yv = (y - range.bias_y) * t.y_coef;
    let cbv = cb - range.bias_uv;
    let crv = cr - range.bias_uv;
    (
        shift_clamp(yv + t.cr_coef * crv, precision, rounding, max),
        shift_clamp(yv - t.g_coeff_1 * crv - t.g_coeff_2 * cbv, precision, rounding, max),
        shift_clamp(yv + t.cb_coef * cbv, precision, rounding, max),
    )
}

/// `n / d` rounded to the nearest integer.
fn round_div_exec(n: u64, d: u64) -> (r: u64)
    requires
        d > 0,
        n <= 0x1000_0000_0000_0000,
        d <= 0x1000_0000_0000_0000,
    ensures
        r == round_div(n as int, d as int),
{
    (2 * n + d) / (2 * d)
}

/// Derives the inverse coefficients of `matrix` with `precision` fractional bits.
pub fn inverse_transform(
    precision: u32,
    depth: u32,
    range: YuvRange,
    matrix: YuvStandardMatrix,
) -> (t: CbCrInverseTransform)
    requires
        precision <= 14,
        8 <= depth <= 16,
    ensures
        t == spec_inverse_transform(precision as nat, depth as nat, range, matrix),
        t.wf(),
{
    let r = get_yuv_range(depth, range);
    let s = pow2_exec(precision) as u64;
    let full = pow2_exec(depth);
    proof {
        lemma_pow2_bounds(depth as nat);
        lemma_pow2_bounds(precision as nat);
        lemma_pow2_shift8(depth as nat);
        crate::support::lemma_pow2_monotone(precision as nat, 14);
        reveal_with_fuel(pow2, 15);
    }
    let m = (full - 1) as u64;
    let (kr, kb) = matrix.get_kr_kb();
    let kg = 10000 - kr - kb;
    let ry = r.range_y as u64;
    let ruv = r.range_uv as u64;
    proof {
        assert(s <= 16384);
        assert(m <= 65535);
        assert(m <= 2 * ry && m <= 2 * ruv);
        assert(kg >= 5000);
    }
    proof {
        assert(s * m <= 16384 * 65535) by (nonlinear_arith)
            requires
                s <= 16384,
                m <= 65535,
        ;
        assert(s * m <= (2 * s) * ry) by (nonlinear_arith)
            requires
                m <= 2 * ry,
                s >= 0,
        ;
        lemma_round_div_le(s * m, ry as int, 2 * s);
    }
    let y_coef = round_div_exec(s * m, ry);
    let cr_coef = scaled_quotient(s, 10000 - kr, 1, m, ruv, 10000, 4);
    let cb_coef = scaled_quotient(s, 10000 - kb, 1, m, ruv, 10000, 4);
    proof {
        assert((10000 - kr) * kr <= 25000000 && (10000 - kb) * kb <= 25000000) by (nonlinear_arith)
            requires
                0 <= kr <= 10000,
                0 <= kb <= 10000,
        ;
    }
    proof {
        assert(2 * (10000 - kr) * kr * 2 <= 4 * (10000 * kg)) by (nonlinear_arith)
            requires
                (10000 - kr) * kr <= 25000000,
                kg >= 5000,
        ;
        assert(2 * (10000 - kb) * kb * 2 <= 4 * (10000 * kg)) by (nonlinear_arith)
            requires
                (10000 - kb) * kb <= 25000000,
                kg >= 5000,
        ;
    }
    let g1 = scaled_quotient(s, 10000 - kr, kr, m, ruv, 10000 * kg, 4);
    let g2 = scaled_quotient(s, 10000 - kb, kb, m, ruv, 10000 * kg, 4);
    proof {
        assert(s * 2 * (10000 - kr) * m == s * (2 * (10000 - kr) * 1) * m) by (nonlinear_arith);
        assert(s * 2 * (10000 - kb) * m == s * (2 * (10000 - kb) * 1) * m) by (nonlinear_arith);
        assert(s * 2 * (10000 - kr) * kr * m == s * (2 * (10000 - kr) * kr) * m)
            by (nonlinear_arith);
        assert(s * 2 * (10000 - kb) * kb * m == s * (2 * (10000 - kb) * kb) * m)
            by (nonlinear_arith);
        assert(10000 * r.range_uv == 10000 * ruv);
        assert(10000 * kg * r.range_uv == 10000 * kg * ruv);
    }
    CbCrInverseTransform {
        y_coef: y_coef as i64,
        cr_coef: cr_coef as i64,
        cb_coef: cb_coef as i64,
        g_coeff_1: g1 as i64,
        g_coeff_2: g2 as i64,
    }
}

/// `round(s * (2 * a * b) * m / (c * d))`, with a proof that it stays at most `k * s`
/// where `m <= 2 d`, `2 a b <= k c / 2`.
fn scaled_quotient(s: u64, a: u64, b: u64, m: u64, d: u64, c: u64, k: u64) -> (r: u64)
    requires
        1 <= s <= 16384,
        m <= 65535,
        1 <= d <= 65535,
        m <= 2 * d,
        1 <= c <= 100_000_000,
        1 <= k <= 4,
        a * b <= 25_000_000,
        a <= 10000,
        b <= 10000,
        2 * a * b * 2 <= k * c,
    ensures
        r == round_div(s * (2 * a * b) * m, c * d),
        r <= 4 * 16384,
{
    proof {
        assert(2 * a * b <= 50_000_000) by (nonlinear_arith)
            requires
                a * b <= 25_000_000,
        ;
        assert(s * (2 * a * b) <= 16384 * 50_000_000) by (nonlinear_arith)
            requires
                s <= 16384,
                2 * a * b <= 50_000_000,
        ;
        assert(s * (2 * a * b) * m <= 16384 * 50_000_000 * 65535) by (nonlinear_arith)
            requires
                s * (2 * a * b) <= 16384 * 50_000_000,
                m <= 65535,
        ;
        assert(1 <= c * d <= 100_000_000 * 65535) by (nonlinear_arith)
            requires
                1 <= c <= 100_000_000,
                1 <= d <= 65535,
        ;
        assert(s * (2 * a * b) * m <= (k * s) * (c * d)) by (nonlinear_arith)
            requires
                2 * a * b * 2 <= k * c,
                m <= 2 * d,
                s >= 0,
                m >= 0,
                d >= 0,
        ;
        lemma_round_div_le(s * (2 * a * b) * m, c * d, k * s);
        assert(k * s <= 4 * 16384) by (nonlinear_arith)
            requires
                k <= 4,
                s <= 16384,
        ;
    }
    let ab = 2 * a * b;
    let n = s * ab * m;
    round_div_exec(n, c * d)
}

/// A rounded quotient stays at most `k` when the numerator is at most `k` times the divisor.
pub(crate) proof fn lemma_round_div_le(n: int, d: int, k: int)
    requires
        d > 0,
        0 <= n <= k * d,
    ensures
        0 <= round_div(n, d) <= k,
{
    assert(2 * n + d < (k + 1) * (2 * d)) by (nonlinear_arith)
        requires
            d > 0,
            n <= k * d,
            n >= 0,
    ;
    let q = (2 * n + d) / (2 * d);
    vstd::arithmetic::div_mod::lemma_fundamental_div_mod(2 * n + d, 2 * d);
    vstd::arithmetic::div_mod::lemma_mod_bound(2 * n + d, 2 * d);
    assert(q <= k) by (nonlinear_arith)
        requires
            d > 0,
            2 * n + d < (k + 1) * (2 * d),
            2 * n + d == (2 * d) * q + (2 * n + d) % (2 * d),
            (2 * n + d) % (2 * d) >= 0,
    ;
    assert(q >= 0) by (nonlinear_arith)
        requires
            d > 0,
            2 * n + d >= 0,
            2 * n + d == (2 * d) * q + (2 * n + d) % (2 * d),
            (2 * n + d) % (2 * d) < 2 * d,
    ;
}

/// `v + rounding` shifted right by `precision` bits and saturated to `[0, max]`.
pub fn shift_clamp_exec(v: i64, precision: u32, rounding: i64, max: i64) -> (r: i64)
    requires
        precision <= 16,
        -0x1000_0000_0000 <= v <= 0x1000_0000_0000,
        0 <= rounding <= 65536,
        0 <= max <= 65535,
    ensures
        r == shift_clamp(v as int, precision as nat, rounding as int, max as int),
        0 <= r <= max,
{
    let d = pow2_exec(precision) as i64;
    let t = v + rounding;
    if t < 0 {
        proof {
            let ti = t as int;
            let di = d as int;
            vstd::arithmetic::div_mod::lemma_fundamental_div_mod(ti, di);
            vstd::arithmetic::div_mod::lemma_mod_bound(ti, di);
            assert(ti / di < 0) by (nonlinear_arith)
                requires
                    di >= 1,
                    ti < 0,
                    ti == di * (ti / di) + ti % di,
                    ti % di < di,
            ;
        }
        return 0;
    }
    let q = ((t as u64) / (d as u64)) as i64;
    if q > max {
        max
    } else {
        q
    }
}

/// Red, green and blue of one pixel: `inverse_rgb` evaluated on machine integers.
pub fn inverse_pixel(
    y: i64,
    cb: i64,
    cr: i64,
    t: &CbCrInverseTransform,
    range: &YuvChromaRange,
    precision: u32,
    rounding: i64,
    max: i64,
) -> (rgb: (i64, i64, i64))
    requires
        t.wf(),
        0 <= y <= 65535,
        0 <= cb <= 65535,
        0 <= cr <= 65535,
        range.bias_y <= 65535,
        range.bias_uv <= 65535,
        precision <= 16,
        0 <= rounding <= 65536,
        0 <= max <= 65535,
    ensures
        (rgb.0 as int, rgb.1 as int, rgb.2 as int) == inverse_rgb(
            y as int,
            cb as int,
            cr as int,
            *t,
            *range,
            precision as nat,
            rounding as int,
            max as int,
        ),
        0 <= rgb.0 <= max,
        0 <= rgb.1 <= max,
        0 <= rgb.2 <= max,
{
    let dy = y - range.bias_y as i64;
    let cbv = cb - range.bias_uv as i64;
    let crv = cr - range.bias_uv as i64;
    proof {
        lemma_product_bound(dy as int, t.y_coef as int);
        lemma_product_bound(cbv as int, t.cb_coef as int);
        lemma_product_bound(crv as int, t.cr_coef as int);
        lemma_product_bound(cbv as int, t.g_coeff_2 as int);
        lemma_product_bound(crv as int, t.g_coeff_1 as int);
    }
    let yv = dy * t.y_coef;
    let r = shift_clamp_exec(yv + t.cr_coef * crv, precision, rounding, max);
    let g = shift_clamp_exec(yv - t.g_coeff_1 * crv - t.g_coeff_2 * cbv, precision, rounding, max);
    let b = shift_clamp_exec(yv + t.cb_coef * cbv, precision, rounding, max);
    (r, g, b)
}

proof fn lemma_product_bound(a: int, c: int)
    requires
        -65535 <= a <= 65535,
        0 <= c <= 0x10_0000,
    ensures
        -0x1_0000_0000_0 <= a * c <= 0x1_0000_0000_0,
        -0x1_0000_0000_0 <= c * a <= 0x1_0000_0000_0,
{
    assert(-65535 * 0x10_0000 <= a * c <= 65535 * 0x10_0000 && a * c == c * a)
        by (nonlinear_arith)
        requires
            -65535 <= a <= 65535,
            0 <= c <= 0x10_0000,
    ;
}

/// A stored 16-bit word with its bytes swapped.
pub open spec fn swap_bytes(v: int) -> int {
    (v % 256) * 256 + v / 256
}

/// The `depth`-bit value held by a stored 16-bit word: byte-swapped when stored big
/// endian, and shifted down when its bits sit at the top of the word.
pub open spec fn normalize_sample(
    v: int,
    endianness: YuvEndianness,
    packing: YuvBytesPacking,
    depth: nat,
) -> int {
    let n = match endianness {
        YuvEndianness::BigEndian => swap_bytes(v),
        YuvEndianness::LittleEndian => v,
    };
    match packing {
        YuvBytesPacking::MostSignificantBytes => n / pow2((16 - depth) as nat),
        YuvBytesPacking::LeastSignificantBytes => n,
    }
}

/// Reads a stored 16-bit sample as its native value.
pub fn to_ne(v: u16, endianness: YuvEndianness, packing: YuvBytesPacking, depth: u32) -> (r: u16)
    requires
        8 <= depth <= 16,
    ensures
        r == normalize_sample(v as int, endianness, packing, depth as nat),
{
    let n: u16 = match endianness {
        YuvEndianness::BigEndian => (v % 256) * 256 + v / 256,
        YuvEndianness::LittleEndian => v,
    };
    match packing {
        YuvBytesPacking::MostSignificantBytes => {
            let d = pow2_exec(16 - depth);
            ((n as u32) / d) as u16
        },
        YuvBytesPacking::LeastSignificantBytes => n,
    }
}

/// The inverse kernel saturates and never wraps: for every accumulator value the output
/// lies in `[0, max]`; it is `max` once the rounded quotient reaches `max`, and `0` for a
/// negative accumulator.
pub proof fn lemma_inverse_saturates(v: int, precision: nat, rounding: int, max: int)
    requires
        0 <= max,
        0 <= rounding,
    ensures
        0 <= shift_clamp(v, precision, rounding, max) <= max,
        v + rounding >= max * pow2(precision) ==> shift_clamp(v, precision, rounding, max) == max,
        v + rounding < 0 ==> shift_clamp(v, precision, rounding, max) == 0,
{
    let d = pow2(precision);
    crate::support::lemma_pow2_pos(precision);
    let t = v + rounding;
    vstd::arithmetic::div_mod::lemma_fundamental_div_mod(t, d);
    vstd::arithmetic::div_mod::lemma_mod_bound(t, d);
    if t >= max * d {
        assert(t / d >= max) by (nonlinear_arith)
            requires
                d >= 1,
                t >= max * d,
                t == d * (t / d) + t % d,
                t % d < d,
        ;
    }
    if t < 0 {
        assert(t / d < 0) by (nonlinear_arith)
            requires
                d >= 1,
                t < 0,
                t == d * (t / d) + t % d,
                t % d >= 0,
        ;
    }
}

/// Each colour channel of a decoded pixel lies in `[0, max]`, whatever its samples and
/// coefficients.
pub proof fn lemma_inverse_rgb_in_range(
    y: int,
    cb: int,
    cr: int,
    t: CbCrInverseTransform,
    range: YuvChromaRange,
    precision: nat,
    rounding: int,
    max: int,
)
    requires
        0 <= max,
        0 <= rounding,
    ensures
        0 <= inverse_rgb(y, cb, cr, t, range, precision, rounding, max).0 <= max,
        0 <= inverse_rgb(y, cb, cr, t, range, precision, rounding, max).1 <= max,
        0 <= inverse_rgb(y, cb, cr, t, range, precision, rounding, max).2 <= max,
{
}

} // verus!
