//! The atmosphere model: pressure, temperature and density as functions of
//! geopotential altitude.
//!
//! `compute` walks the layer table from the ground up. Over each layer it
//! multiplies the pressure by a barometric factor `exp(-y/SCALE)` where `y`
//! is the layer's series argument:
//!
//! - isothermal layer: `y = g*h/(R*T)`;
//! - gradient layer: `y = |g/(lapse*R)| * ln(T_top/T_bot)`, with the
//!   logarithm taken as `2*atanh((T_top-T_bot)/(T_top+T_bot))`.
//!
//! Each layer's output temperature and pressure feed the next layer, and
//! the walk stops inside the layer that contains the target altitude. The
//! spec functions below mirror that computation exactly, rounding included.

use vstd::prelude::*;
use vstd::arithmetic::div_mod::lemma_div_is_ordered;
use vstd::arithmetic::div_mod::lemma_div_is_ordered_by_denominator;
use vstd::arithmetic::div_mod::lemma_div_pos_is_pos;
use vstd::arithmetic::div_mod::lemma_div_multiples_vanish;
use vstd::arithmetic::mul::lemma_mul_inequality;
use vstd::arithmetic::mul::lemma_mul_nonnegative;
use crate::layers::LAYER_COUNT;
use crate::layers::MAX_ALTITUDE_M;
use crate::layers::SEA_LEVEL_TEMP;
use crate::layers::SEA_LEVEL_PRESSURE;
use crate::layers::GRAVITY_E5;
use crate::layers::GAS_CONSTANT_E1;
use crate::layers::GAS_CONSTANT_E2;
use crate::layers::layer_bottom;
use crate::layers::layer_lapse;
use crate::layers::layer_height;
use crate::layers::layer_index;
use crate::layers::temp_base;
use crate::layers::temp_at;
use crate::layers::lemma_temp_base_values;
use crate::layers::lemma_temp_range;
use crate::layers::layer_data;
use crate::layers::layer_index_of;
use crate::series::SCALE;
use crate::series::EXP_ARG_MAX;
use crate::series::EXP_CAP;
use crate::series::EXP_TERMS;
use crate::series::ATANH_TERMS;
use crate::series::exp_series;
use crate::series::atanh_series;
use crate::series::exp_scaled;
use crate::series::atanh_scaled;
use crate::series::lemma_exp_partial_bounds;
use crate::series::lemma_exp_term_nonneg;
use crate::series::lemma_atanh_partial_bounds;

verus! {

/// Atmospheric parameters at one altitude: temperature in 1/10_000 K,
/// pressure in micropascals, density in 1/1_000_000_000 kg/m^3.
#[derive(Clone, Copy, Debug, PartialEq, Eq, Structural)]
pub struct Parameters {
    pub temperature: u64,
    pub pressure: u64,
    pub density: u64,
}

/// If `a <= b * d` then `a / d <= b` (floor division, positive divisor).
pub proof fn lemma_div_le(a: int, b: int, d: int)
    requires
        0 < d,
        a <= b * d,
    ensures
        a / d <= b,
{
    lemma_div_is_ordered(a, b * d, d);
    lemma_div_multiples_vanish(b, d);
    assert(b * d == d * b) by (nonlinear_arith);
}

/// If `x * d <= a` then `x <= a / d` (floor division, positive divisor).
pub proof fn lemma_le_div(x: int, a: int, d: int)
    requires
        0 < d,
        x * d <= a,
    ensures
        x <= a / d,
{
    lemma_div_is_ordered(x * d, a, d);
    lemma_div_multiples_vanish(x, d);
    assert(x * d == d * x) by (nonlinear_arith);
}

/// Barometric factor for series argument `y`: exp(-y/SCALE) at scale
/// SCALE, computed as SCALE^2 over the exponential series.
pub open spec fn press_factor(y: int) -> int {
    (SCALE as int) * (SCALE as int) / exp_series(y)
}

/// One chaining step of the barometric walk: the pressure entering a
/// layer times the layer's factor.
pub open spec fn press_step(p: int, y: int) -> int {
    p * press_factor(y) / (SCALE as int)
}

/// Series argument of an isothermal layer at temperature `t` (1/10_000 K)
/// over a climb of `h` meters: g*h/(R*T) at scale SCALE.
pub open spec fn iso_arg(t: int, h: int) -> int {
    (GRAVITY_E5 as int) * h * (SCALE as int) / ((GAS_CONSTANT_E1 as int) * t)
}

/// Magnitude of the lapse rate of layer `i`.
pub open spec fn lapse_abs(i: int) -> int {
    if layer_lapse(i) < 0 {
        -layer_lapse(i)
    } else {
        layer_lapse(i)
    }
}

/// Magnitude of the temperature change over `h` meters of layer `i`,
/// in 1/10_000 K.
pub open spec fn grad_dt_abs(i: int, h: int) -> int {
    lapse_abs(i) * h
}

/// Sum of the temperatures at the bottom and the top of the traversed
/// part of layer `i`, in 1/10_000 K.
pub open spec fn grad_tsum(i: int, h: int) -> int {
    2 * temp_base(i) + layer_lapse(i) * h
}

/// |T_top - T_bot| / (T_top + T_bot) at scale SCALE: the atanh argument
/// whose doubling gives |ln(T_top/T_bot)|.
pub open spec fn grad_z(i: int, h: int) -> int {
    grad_dt_abs(i, h) * (SCALE as int) / grad_tsum(i, h)
}

/// Series argument of a gradient layer: |g/(lapse*R)| * |ln(T_top/T_bot)|
/// at scale SCALE.
pub open spec fn grad_arg(i: int, h: int) -> int {
    2 * (GRAVITY_E5 as int) * atanh_series(grad_z(i, h)) / ((GAS_CONSTANT_E1 as int) * lapse_abs(
        i,
    ))
}

/// Series argument of layer `i` over a climb of `h` meters.
pub open spec fn layer_arg(i: int, h: int) -> int {
    if layer_lapse(i) == 0 {
        iso_arg(temp_base(i), h)
    } else {
        grad_arg(i, h)
    }
}

/// Pressure at the bottom of layer `i`, in micropascals: the sea-level
/// pressure stepped over every full layer below.
pub open spec fn press_base(i: int) -> int
    decreases i,
{
    if i <= 0 {
        SEA_LEVEL_PRESSURE as int
    } else {
        press_step(press_base(i - 1), layer_arg(i - 1, layer_height(i - 1)))
    }
}

/// Pressure at altitude `alt`, in micropascals: the base pressure of the
/// containing layer stepped over the portion of the layer below `alt`.
pub open spec fn press_at(alt: int) -> int {
    press_step(
        press_base(layer_index(alt)),
        layer_arg(layer_index(alt), alt - layer_bottom(layer_index(alt))),
    )
}

/// Density at altitude `alt`, in 1/1_000_000_000 kg/m^3: pressure over
/// R times temperature.
pub open spec fn density_at(alt: int) -> int {
    press_at(alt) * 1_000_000_000 / ((GAS_CONSTANT_E2 as int) * temp_at(alt))
}

/// The exponential series of an in-range argument lies between 1 + y and
/// 15, at scale SCALE.
pub proof fn lemma_exp_series_range(y: int)
    requires
        0 <= y <= EXP_ARG_MAX,
    ensures
        (SCALE as int) + y <= exp_series(y) <= EXP_CAP,
{
    lemma_exp_partial_bounds(y, EXP_TERMS as nat);
    lemma_exp_term_nonneg(y, EXP_TERMS as nat);
}

/// The barometric factor of an in-range argument lies between SCALE/15
/// and SCALE.
pub proof fn lemma_press_factor_range(y: int)
    requires
        0 <= y <= EXP_ARG_MAX,
    ensures
        66_666_666_666 <= press_factor(y) <= SCALE,
{
    lemma_exp_series_range(y);
    let e = exp_series(y);
    lemma_div_is_ordered_by_denominator((SCALE as int) * (SCALE as int), e, EXP_CAP as int);
    assert((SCALE as int) * (SCALE as int) / (EXP_CAP as int) == 66_666_666_666);
    assert((SCALE as int) * (SCALE as int) <= (SCALE as int) * e) by (nonlinear_arith)
        requires
            1_000_000_000_000 <= e,
    ;
    lemma_div_le((SCALE as int) * (SCALE as int), SCALE as int, e);
}

/// A barometric step never increases the pressure and shrinks it by a
/// factor of at most 15 (plus the rounding).
pub proof fn lemma_press_step_range(p: int, y: int)
    requires
        0 <= p,
        0 <= y <= EXP_ARG_MAX,
    ensures
        0 <= press_step(p, y) <= p,
        press_step(p, y) >= p * 66_666_666_666 / (SCALE as int),
{
    lemma_press_factor_range(y);
    let f = press_factor(y);
    lemma_mul_nonnegative(p, f);
    lemma_div_pos_is_pos(p * f, SCALE as int);
    assert(p * f <= p * (SCALE as int)) by (nonlinear_arith)
        requires
            0 <= p,
            f <= 1_000_000_000_000,
    ;
    lemma_div_le(p * f, p, SCALE as int);
    assert(p * 66_666_666_666 <= p * f) by (nonlinear_arith)
        requires
            0 <= p,
            66_666_666_666 <= f,
    ;
    lemma_div_is_ordered(p * 66_666_666_666, p * f, SCALE as int);
}

/// The atanh argument of a gradient layer stays below 0.142 at scale
/// SCALE, well within the series' domain.
pub proof fn lemma_grad_z_bounds(i: int, h: int)
    requires
        0 <= i < LAYER_COUNT,
        layer_lapse(i) != 0,
        0 <= h <= layer_height(i),
    ensures
        0 <= grad_z(i, h) <= 142_000_000_000,
        0 < grad_tsum(i, h),
        i == 2 ==> grad_z(i, h) <= 28_000_000_000,
        i == 3 ==> grad_z(i, h) <= 93_000_000_000,
    decreases i,
{
    lemma_temp_base_values();
    let dt = grad_dt_abs(i, h);
    let ts = grad_tsum(i, h);
    lemma_mul_nonnegative(dt, SCALE as int);
    if i == 0 {
        assert(dt == 65 * h);
        assert(ts == 5_763_000 - 65 * h);
        lemma_div_pos_is_pos(dt * (SCALE as int), ts);
        assert(65 * h * 1_000_000_000_000 <= 142_000_000_000 * (5_763_000 - 65 * h))
            by (nonlinear_arith)
            requires
                0 <= h <= 11_000,
        ;
        lemma_div_le(dt * (SCALE as int), 142_000_000_000, ts);
    } else if i == 2 {
        assert(dt == 10 * h);
        assert(ts == 4_333_000 + 10 * h);
        lemma_div_pos_is_pos(dt * (SCALE as int), ts);
        assert(10 * h * 1_000_000_000_000 <= 28_000_000_000 * (4_333_000 + 10 * h))
            by (nonlinear_arith)
            requires
                0 <= h <= 12_000,
        ;
        lemma_div_le(dt * (SCALE as int), 28_000_000_000, ts);
    } else {
        assert(i == 3);
        assert(dt == 28 * h);
        assert(ts == 4_573_000 + 28 * h);
        lemma_div_pos_is_pos(dt * (SCALE as int), ts);
        assert(28 * h * 1_000_000_000_000 <= 93_000_000_000 * (4_573_000 + 28 * h))
            by (nonlinear_arith)
            requires
                0 <= h <= 15_000,
        ;
        lemma_div_le(dt * (SCALE as int), 93_000_000_000, ts);
    }
}

/// The series argument of every layer, over any portion of the layer,
/// stays within the exponential's domain.
pub proof fn lemma_layer_arg_bounds(i: int, h: int)
    requires
        0 <= i < LAYER_COUNT,
        0 <= h <= layer_height(i),
    ensures
        0 <= layer_arg(i, h) <= EXP_ARG_MAX,
{
    lemma_temp_base_values();
    if layer_lapse(i) == 0 {
        let t = temp_base(i);
        assert(i == 1 || i == 4);
        let num = (GRAVITY_E5 as int) * h * (SCALE as int);
        let den = (GAS_CONSTANT_E1 as int) * t;
        lemma_mul_nonnegative((GRAVITY_E5 as int) * h, SCALE as int);
        lemma_div_pos_is_pos(num, den);
        assert(980_665 * h * 1_000_000_000_000 <= 2_500_000_000_000 * (2_870 * t))
            by (nonlinear_arith)
            requires
                0 <= h <= 9_000,
                2_166_500 <= t,
        ;
        lemma_div_le(num, EXP_ARG_MAX as int, den);
    } else {
        lemma_grad_z_bounds(i, h);
        let z = grad_z(i, h);
        lemma_atanh_partial_bounds(z, ATANH_TERMS as nat);
        let a = atanh_series(z);
        let la = lapse_abs(i);
        assert(la == 65 || la == 10 || la == 28);
        let num = 2 * (GRAVITY_E5 as int) * a;
        let den = (GAS_CONSTANT_E1 as int) * la;
        lemma_mul_nonnegative(2 * (GRAVITY_E5 as int), a);
        lemma_div_pos_is_pos(num, den);
        assert(i == 0 || i == 2 || i == 3);
        assert(2 * 980_665 * a <= 2_500_000_000_000 * (2_870 * la)) by (nonlinear_arith)
            requires
                0 <= a,
                (la == 65 && 48 * a <= 49 * 142_000_000_000) || (la == 10 && 48 * a <= 49
                    * 28_000_000_000) || (la == 28 && 48 * a <= 49 * 93_000_000_000),
        ;
        lemma_div_le(num, EXP_ARG_MAX as int, den);
    }
}

/// The base pressure of every layer lies between about 2 Pa and the
/// sea-level pressure. The lower bound is crude but positive; it chains
/// the worst-case shrink factor of 15 through the four full steps.
pub proof fn lemma_press_base_bounds(i: int)
    requires
        0 <= i < LAYER_COUNT,
    ensures
        1_999_999 <= press_base(i) <= SEA_LEVEL_PRESSURE,
        i == 0 ==> press_base(i) == SEA_LEVEL_PRESSURE,
        i == 1 ==> press_base(i) >= 6_754_999_000,
        i == 2 ==> press_base(i) >= 450_333_000,
        i == 3 ==> press_base(i) >= 30_022_000,
        i == 4 ==> press_base(i) >= 2_001_000,
    decreases i,
{
    if i == 0 {
    } else {
        lemma_press_base_bounds(i - 1);
        let p = press_base(i - 1);
        lemma_layer_arg_bounds(i - 1, layer_height(i - 1));
        lemma_press_step_range(p, layer_arg(i - 1, layer_height(i - 1)));
        // press_base(i) >= p * 66_666_666_666 / SCALE, and the floor of
        // that chain from the sea level stays above 1_999_999.
        if i == 1 {
            lemma_press_base_step_low(p, layer_arg(0, layer_height(0)), 101_325_000_000);
            assert(press_base(1) >= 6_754_999_000);
        } else if i == 2 {
            lemma_press_base_step_low(p, layer_arg(1, layer_height(1)), 6_754_999_000);
            assert(press_base(2) >= 450_333_000);
        } else if i == 3 {
            lemma_press_base_step_low(p, layer_arg(2, layer_height(2)), 450_333_000);
            assert(press_base(3) >= 30_022_000);
        } else {
            lemma_press_base_step_low(p, layer_arg(3, layer_height(3)), 30_022_000);
            assert(press_base(4) >= 2_001_000);
        }
    }
}

/// Helper for the chain above: a lower bound on the pressure entering a
/// step gives a lower bound on the pressure leaving it.
proof fn lemma_press_base_step_low(p: int, y: int, low: int)
    requires
        0 <= low <= p,
        0 <= y <= EXP_ARG_MAX,
    ensures
        press_step(p, y) >= low * 66_666_666_666 / (SCALE as int),
{
    lemma_press_step_range(p, y);
    lemma_mul_inequality(low, p, 66_666_666_666);
    lemma_div_is_ordered(low * 66_666_666_666, p * 66_666_666_666, SCALE as int);
}

/// Pressure at any in-range altitude lies between 0.13 Pa and the
/// sea-level pressure; in particular it is positive.
pub proof fn lemma_press_at_bounds(alt: int)
    requires
        0 <= alt <= MAX_ALTITUDE_M,
    ensures
        133_333 <= press_at(alt) <= SEA_LEVEL_PRESSURE,
{
    let i = layer_index(alt);
    let h = alt - layer_bottom(i);
    lemma_press_base_bounds(i);
    lemma_layer_arg_bounds(i, h);
    lemma_press_step_range(press_base(i), layer_arg(i, h));
    lemma_press_base_step_low(press_base(i), layer_arg(i, h), 1_999_999);
    assert(1_999_999 * 66_666_666_666 / 1_000_000_000_000 == 133_333);
}

/// Density at any in-range altitude is positive and fits comfortably in
/// its scaled representation.
pub proof fn lemma_density_bounds(alt: int)
    requires
        0 <= alt <= MAX_ALTITUDE_M,
    ensures
        1 <= density_at(alt) <= 1_700_000_000,
{
    lemma_press_at_bounds(alt);
    lemma_temp_range(alt);
    let num = press_at(alt) * 1_000_000_000;
    let den = (GAS_CONSTANT_E2 as int) * temp_at(alt);
    assert(num >= 133_333 * 1_000_000_000) by (nonlinear_arith)
        requires
            press_at(alt) >= 133_333,
            num == press_at(alt) * 1_000_000_000,
    ;
    assert(62_178_550_000 <= den <= 82_699_050_000) by (nonlinear_arith)
        requires
            2_166_500 <= temp_at(alt) <= 2_881_500,
            den == 28_700 * temp_at(alt),
    ;
    lemma_le_div(1, num, den);
    assert(num <= 1_700_000_000 * den) by (nonlinear_arith)
        requires
            num <= 101_325_000_000 * 1_000_000_000,
            den >= 62_178_550_000,
    ;
    lemma_div_le(num, 1_700_000_000, den);
}

/// Exec copy of the base temperature of layer `i`.
pub fn layer_base_temp(i: usize) -> (t: u64)
    requires
        i < LAYER_COUNT,
    ensures
        t as int == temp_base(i as int),
{
    proof {
        lemma_temp_base_values();
    }
    if i == 0 {
        2_881_500
    } else if i == 1 {
        2_166_500
    } else if i == 2 {
        2_166_500
    } else if i == 3 {
        2_286_500
    } else {
        2_706_500
    }
}

/// The barometric factor, executed: SCALE^2 over the exponential series.
fn baro_factor(y: u64) -> (f: u64)
    requires
        y <= EXP_ARG_MAX,
    ensures
        f as int == press_factor(y as int),
        66_666_666_666 <= f <= SCALE,
{
    let e = exp_scaled(y);
    proof {
        lemma_press_factor_range(y as int);
    }
    ((SCALE as u128) * (SCALE as u128) / (e as u128)) as u64
}

/// The series argument of layer `i` over a climb of `h` meters, executed.
fn layer_arg_of(i: usize, h: u32) -> (y: u64)
    requires
        i < LAYER_COUNT,
        h as int <= layer_height(i as int),
    ensures
        y as int == layer_arg(i as int, h as int),
        y <= EXP_ARG_MAX,
{
    proof {
        lemma_temp_base_values();
        lemma_layer_arg_bounds(i as int, h as int);
    }
    let (_, _, lapse) = layer_data(i);
    let t = layer_base_temp(i);
    if lapse == 0 {
        let num: u128 = (GRAVITY_E5 as u128) * (h as u128) * (SCALE as u128);
        let den: u128 = (GAS_CONSTANT_E1 as u128) * (t as u128);
        let q: u128 = num / den;
        proof {
            assert(num as int == (GRAVITY_E5 as int) * (h as int) * (SCALE as int));
            assert(q as int == iso_arg(temp_base(i as int), h as int));
            assert(q as int == layer_arg(i as int, h as int));
        }
        q as u64
    } else {
        proof {
            lemma_grad_z_bounds(i as int, h as int);
        }
        let la: u64 = if lapse < 0 {
            (-lapse) as u64
        } else {
            lapse as u64
        };
        proof {
            assert(la as int == lapse_abs(i as int));
            assert(la == 65 || la == 10 || la == 28);
            assert(h <= 15_000);
            assert(lapse < 0 ==> i == 0 && t == 2_881_500 && h <= 11_000);
            assert((la as int) * (h as int) <= 975_000) by (nonlinear_arith)
                requires
                    0 <= la as int <= 65,
                    0 <= h as int <= 15_000,
            ;
        }
        let dt_abs: u64 = la * (h as u64);
        let tsum: u64 = if lapse < 0 {
            2 * t - dt_abs
        } else {
            2 * t + dt_abs
        };
        let zw: u128 = (dt_abs as u128) * (SCALE as u128) / (tsum as u128);
        proof {
            assert(dt_abs as int == grad_dt_abs(i as int, h as int));
            if lapse < 0 {
                assert((la as int) * (h as int) == -((lapse as int) * (h as int)))
                    by (nonlinear_arith)
                    requires
                        la as int == -(lapse as int),
                ;
            }
            assert(tsum as int == grad_tsum(i as int, h as int));
            assert(zw as int == grad_z(i as int, h as int));
        }
        let z: u64 = zw as u64;
        let a = atanh_scaled(z);
        let num: u128 = 2 * (GRAVITY_E5 as u128) * (a as u128);
        let den: u128 = (GAS_CONSTANT_E1 as u128) * (la as u128);
        let q: u128 = num / den;
        proof {
            assert(num as int == 2 * (GRAVITY_E5 as int) * atanh_series(grad_z(i as int, h as int)));
            assert(q as int == grad_arg(i as int, h as int));
            assert(q as int == layer_arg(i as int, h as int));
        }
        q as u64
    }
}

/// One layer of the walk: the temperature after `h` meters of the layer's
/// lapse, and the pressure after the layer's barometric factor.
fn apply_layer(i: usize, t: u64, p: u64, h: u32) -> (r: (u64, u64))
    requires
        i < LAYER_COUNT,
        t as int == temp_base(i as int),
        p <= SEA_LEVEL_PRESSURE,
        h as int <= layer_height(i as int),
    ensures
        r.0 as int == temp_base(i as int) + layer_lapse(i as int) * (h as int),
        r.1 as int == press_step(p as int, layer_arg(i as int, h as int)),
        r.1 <= p,
        2_166_500 <= r.0 <= 2_881_500,
{
    proof {
        lemma_temp_base_values();
    }
    let (_, _, lapse) = layer_data(i);
    let t2: i64 = (t as i64) + lapse * (h as i64);
    let y = layer_arg_of(i, h);
    let f = baro_factor(y);
    proof {
        lemma_press_step_range(p as int, y as int);
        assert((p as int) * (f as int) <= 102_000_000_000_000_000_000_000_000)
            by (nonlinear_arith)
            requires
                0 <= p as int <= 101_325_000_000,
                0 <= f as int <= 1_000_000_000_000,
        ;
    }
    let p2: u64 = ((p as u128) * (f as u128) / (SCALE as u128)) as u64;
    (t2 as u64, p2)
}

/// Does the model cover this altitude? The table reaches 50 km; callers
/// must reject anything above before asking for parameters.
pub fn in_model_range(altitude: u32) -> (ok: bool)
    ensures
        ok == (altitude <= MAX_ALTITUDE_M),
{
    altitude <= MAX_ALTITUDE_M
}

/// Atmospheric parameters at the given geopotential altitude, by the
/// layer walk: temperature and pressure are chained from the sea-level
/// reference values through every full layer below the altitude and the
/// traversed part of its own layer; the density is pressure over R times
/// temperature. All three results are positive.
pub fn compute(altitude: u32) -> (r: Parameters)
    requires
        altitude <= MAX_ALTITUDE_M,
    ensures
        r.temperature as int == temp_at(altitude as int),
        r.pressure as int == press_at(altitude as int),
        r.density as int == density_at(altitude as int),
        2_166_500 <= r.temperature <= 2_881_500,
        133_333 <= r.pressure <= SEA_LEVEL_PRESSURE,
        1 <= r.density,
{
    let idx = layer_index_of(altitude);
    let mut i: usize = 0;
    let mut t: u64 = SEA_LEVEL_TEMP;
    let mut p: u64 = SEA_LEVEL_PRESSURE;
    while i < idx
        invariant
            i <= idx,
            idx as int == layer_index(altitude as int),
            idx < LAYER_COUNT,
            altitude <= MAX_ALTITUDE_M,
            t as int == temp_base(i as int),
            p as int == press_base(i as int),
            p <= SEA_LEVEL_PRESSURE,
        decreases idx - i,
    {
        let (bot, top, _) = layer_data(i);
        let (t2, p2) = apply_layer(i, t, p, top - bot);
        proof {
            assert(temp_base(i as int + 1) == temp_base(i as int) + layer_lapse(i as int)
                * layer_height(i as int));
            assert(press_base(i as int + 1) == press_step(
                press_base(i as int),
                layer_arg(i as int, layer_height(i as int)),
            ));
        }
        t = t2;
        p = p2;
        i = i + 1;
    }
    let (bot, _, _) = layer_data(idx);
    let h: u32 = altitude - bot;
    let (t2, p2) = apply_layer(idx, t, p, h);
    proof {
        assert(t2 as int == temp_at(altitude as int));
        assert(p2 as int == press_at(altitude as int));
        lemma_press_at_bounds(altitude as int);
        lemma_density_bounds(altitude as int);
        assert((p2 as int) * 1_000_000_000 <= 102_000_000_000_000_000_000)
            by (nonlinear_arith)
            requires
                0 <= p2 as int <= 101_325_000_000,
        ;
    }
    let den: u128 = (GAS_CONSTANT_E2 as u128) * (t2 as u128);
    let d: u64 = ((p2 as u128) * 1_000_000_000u128 / den) as u64;
    Parameters { temperature: t2, pressure: p2, density: d }
}

} // verus!
