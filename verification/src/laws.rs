//! The model's global guarantees, proved over the spec functions that the
//! contracts of `compute` speak of: the sea-level reference values, the
//! strict temperature fall through the troposphere, the constancy of the
//! isothermal layers, the exact chaining of pressure at every layer
//! boundary, and the monotone fall of pressure over the whole range.

use vstd::prelude::*;
use vstd::arithmetic::div_mod::lemma_div_is_ordered;
use vstd::arithmetic::div_mod::lemma_div_is_ordered_by_denominator;
use vstd::arithmetic::div_mod::lemma_div_multiples_vanish;
use vstd::arithmetic::div_mod::lemma_fundamental_div_mod;
use vstd::arithmetic::div_mod::lemma_mod_division_less_than_divisor;
use vstd::arithmetic::mul::lemma_mul_inequality;
use crate::layers::LAYER_COUNT;
use crate::layers::MAX_ALTITUDE_M;
use crate::layers::SEA_LEVEL_TEMP;
use crate::layers::SEA_LEVEL_PRESSURE;
use crate::layers::GAS_CONSTANT_E2;
use crate::layers::layer_bottom;
use crate::layers::layer_top;
use crate::layers::layer_lapse;
use crate::layers::layer_height;
use crate::layers::layer_index;
use crate::layers::temp_base;
use crate::layers::temp_at;
use crate::layers::lemma_temp_base_values;
use crate::series::SCALE;
use crate::series::EXP_ARG_MAX;
use crate::series::EXP_TERMS;
use crate::series::ATANH_TERMS;
use crate::series::exp_series;
use crate::series::atanh_series;
use crate::series::lemma_exp_partial_mono;
use crate::series::lemma_exp_zero;
use crate::series::lemma_atanh_partial_mono;
use crate::series::lemma_atanh_partial_gap;
use crate::series::lemma_atanh_partial_bounds;
use crate::series::lemma_exp_partial_gap;
use crate::series::lemma_atanh_zero;
use crate::model::press_factor;
use crate::model::press_step;
use crate::model::iso_arg;
use crate::model::lapse_abs;
use crate::model::grad_dt_abs;
use crate::model::grad_tsum;
use crate::model::grad_z;
use crate::model::grad_arg;
use crate::model::layer_arg;
use crate::model::press_base;
use crate::model::press_at;
use crate::model::density_at;
use crate::model::lemma_le_div;
use crate::model::lemma_exp_series_range;
use crate::model::lemma_press_factor_range;
use crate::model::lemma_press_step_range;
use crate::model::lemma_grad_z_bounds;
use crate::model::lemma_layer_arg_bounds;
use crate::model::lemma_press_base_bounds;

verus! {

/// At sea level the model returns the reference values exactly: the
/// traversed portion of the first layer is empty, so its barometric
/// factor is one and no rounding occurs.
pub proof fn law_sea_level_reference()
    ensures
        temp_at(0) == SEA_LEVEL_TEMP,
        press_at(0) == SEA_LEVEL_PRESSURE,
        density_at(0) == (SEA_LEVEL_PRESSURE as int) * 1_000_000_000 / ((GAS_CONSTANT_E2 as int)
            * (SEA_LEVEL_TEMP as int)),
{
    lemma_temp_base_values();
    lemma_atanh_zero(ATANH_TERMS as nat);
    lemma_exp_zero(EXP_TERMS as nat);
    assert(grad_z(0, 0) == 0);
    assert(layer_arg(0, 0) == 0);
    assert(press_factor(0) == (SCALE as int) * (SCALE as int) / (SCALE as int));
    assert(press_at(0) == press_step(SEA_LEVEL_PRESSURE as int, 0));
}

/// Through the troposphere the temperature falls strictly with altitude,
/// by 65/10_000 K per meter.
pub proof fn law_troposphere_temp_decreases(a1: int, a2: int)
    requires
        0 <= a1 < a2 <= 11_000,
    ensures
        temp_at(a2) < temp_at(a1),
        temp_at(a1) - temp_at(a2) == 65 * (a2 - a1),
{
    lemma_temp_base_values();
    assert(layer_index(a1) == 0);
    assert(layer_index(a2) == 0);
    assert(temp_at(a1) == 2_881_500 + (-65) * a1);
    assert(temp_at(a2) == 2_881_500 + (-65) * a2);
}

/// Across each isothermal layer, boundaries included, the temperature
/// does not change.
pub proof fn law_isothermal_temp(a1: int, a2: int)
    requires
        (11_000 <= a1 <= 20_000 && 11_000 <= a2 <= 20_000) || (47_000 <= a1 <= 50_000 && 47_000
            <= a2 <= 50_000),
    ensures
        temp_at(a1) == temp_at(a2),
{
    if 11_000 <= a1 <= 20_000 {
        lemma_tropopause_temp(a1);
        lemma_tropopause_temp(a2);
    } else {
        lemma_stratopause_temp(a1);
        lemma_stratopause_temp(a2);
    }
}

/// Across the tropopause layer the temperature is 216.65 K.
proof fn lemma_tropopause_temp(a: int)
    requires
        11_000 <= a <= 20_000,
    ensures
        temp_at(a) == 2_166_500,
{
    lemma_temp_base_values();
    if a <= 11_000 {
        assert(temp_at(a) == 2_881_500 + (-65) * 11_000);
    } else {
        assert(temp_at(a) == 2_166_500 + 0 * (a - 11_000));
        assert(0 * (a - 11_000) == 0) by (nonlinear_arith);
    }
}

/// Across the topmost layer the temperature is 270.65 K.
proof fn lemma_stratopause_temp(a: int)
    requires
        47_000 <= a <= 50_000,
    ensures
        temp_at(a) == 2_706_500,
{
    lemma_temp_base_values();
    if a <= 47_000 {
        assert(temp_at(a) == 2_286_500 + 28 * (a - 32_000));
    } else {
        assert(temp_at(a) == 2_706_500 + 0 * (a - 47_000));
        assert(0 * (a - 47_000) == 0) by (nonlinear_arith);
    }
}

/// The pressure walk is continuous at every layer boundary: the pressure
/// computed inside layer `i` at its top equals, exactly, the base
/// pressure from which layer `i + 1` starts.
pub proof fn law_pressure_layer_chaining(i: int)
    requires
        0 <= i < 4,
    ensures
        press_at(layer_top(i)) == press_base(i + 1),
        temp_at(layer_top(i)) == temp_base(i + 1),
{
    lemma_temp_base_values();
    assert(layer_index(layer_top(i)) == i);
    assert(press_base(i + 1) == press_step(press_base(i), layer_arg(i, layer_height(i))));
}

/// A floor quotient multiplied back never exceeds the dividend.
proof fn lemma_div_mul_le(a: int, d: int)
    requires
        0 <= a,
        0 < d,
    ensures
        (a / d) * d <= a,
{
    lemma_fundamental_div_mod(a, d);
    lemma_mod_division_less_than_divisor(a, d);
    assert((a / d) * d == d * (a / d)) by (nonlinear_arith);
}

/// Floor division distributes superadditively over sums.
proof fn lemma_div_superadd(a: int, b: int, d: int)
    requires
        0 <= a,
        0 <= b,
        0 < d,
    ensures
        a / d + b / d <= (a + b) / d,
{
    lemma_div_mul_le(a, d);
    lemma_div_mul_le(b, d);
    assert((a / d + b / d) * d == (a / d) * d + (b / d) * d) by (nonlinear_arith);
    lemma_le_div(a / d + b / d, a + b, d);
}

/// Cross-multiplied ordering of floor quotients: if a1/b1 <= a2/b2 holds
/// of the exact fractions, it holds of the floors.
proof fn lemma_div_cross(a1: int, b1: int, a2: int, b2: int)
    requires
        0 <= a1,
        0 < b1,
        0 < b2,
        a1 * b2 <= a2 * b1,
    ensures
        a1 / b1 <= a2 / b2,
{
    let q = a1 / b1;
    lemma_fundamental_div_mod(a1, b1);
    lemma_mod_division_less_than_divisor(a1, b1);
    assert(q * b2 <= a2) by (nonlinear_arith)
        requires
            a1 == b1 * q + (a1 % b1),
            0 <= a1 % b1,
            0 < b1,
            0 < b2,
            a1 * b2 <= a2 * b1,
    ;
    lemma_le_div(q, a2, b2);
}

/// The series argument of a layer grows with the climb through it.
proof fn lemma_layer_arg_mono(i: int, h1: int, h2: int)
    requires
        0 <= i < LAYER_COUNT,
        0 <= h1 <= h2 <= layer_height(i),
    ensures
        layer_arg(i, h1) <= layer_arg(i, h2),
{
    lemma_temp_base_values();
    if layer_lapse(i) == 0 {
        let t = temp_base(i);
        lemma_mul_inequality(h1, h2, SCALE as int);
        lemma_mul_inequality(980_665 * h1, 980_665 * h2, SCALE as int);
        lemma_div_is_ordered(
            980_665 * h1 * (SCALE as int),
            980_665 * h2 * (SCALE as int),
            2_870 * t,
        );
    } else {
        lemma_grad_z_bounds(i, h1);
        lemma_grad_z_bounds(i, h2);
        let l = layer_lapse(i);
        let la = lapse_abs(i);
        let t = temp_base(i);
        let dt1 = grad_dt_abs(i, h1);
        let dt2 = grad_dt_abs(i, h2);
        let ts1 = grad_tsum(i, h1);
        let ts2 = grad_tsum(i, h2);
        assert((dt1 * (SCALE as int)) * ts2 <= (dt2 * (SCALE as int)) * ts1) by (nonlinear_arith)
            requires
                dt1 == la * h1,
                dt2 == la * h2,
                ts1 == 2 * t + l * h1,
                ts2 == 2 * t + l * h2,
                la == if l < 0 { -l } else { l },
                l != 0,
                0 <= h1 <= h2,
                0 < t,
                0 < ts1,
                0 < ts2,
        ;
        vstd::arithmetic::mul::lemma_mul_nonnegative(dt1, SCALE as int);
        lemma_div_cross(dt1 * (SCALE as int), ts1, dt2 * (SCALE as int), ts2);
        let z1 = grad_z(i, h1);
        let z2 = grad_z(i, h2);
        lemma_atanh_partial_mono(z1, z2, ATANH_TERMS as nat);
        assert(2 * 980_665 * atanh_series(z1) <= 2 * 980_665 * atanh_series(z2))
            by (nonlinear_arith)
            requires
                atanh_series(z1) <= atanh_series(z2),
        ;
        lemma_div_is_ordered(
            2 * 980_665 * atanh_series(z1),
            2 * 980_665 * atanh_series(z2),
            2_870 * la,
        );
    }
}

/// A larger series argument gives a smaller stepped pressure.
proof fn lemma_press_step_mono_arg(p: int, y1: int, y2: int)
    requires
        0 <= p,
        0 <= y1 <= y2 <= EXP_ARG_MAX,
    ensures
        press_step(p, y2) <= press_step(p, y1),
{
    lemma_exp_partial_mono(y1, y2, EXP_TERMS as nat);
    lemma_exp_series_range(y1);
    lemma_exp_series_range(y2);
    lemma_div_is_ordered_by_denominator(
        (SCALE as int) * (SCALE as int),
        exp_series(y1),
        exp_series(y2),
    );
    let f1 = press_factor(y1);
    let f2 = press_factor(y2);
    assert(p * f2 <= p * f1) by (nonlinear_arith)
        requires
            0 <= p,
            f2 <= f1,
    ;
    lemma_div_is_ordered(p * f2, p * f1, SCALE as int);
}

/// A smaller pressure entering a step leaves a smaller pressure.
proof fn lemma_press_step_mono_p(p1: int, p2: int, y: int)
    requires
        0 <= p1 <= p2,
        0 <= y <= EXP_ARG_MAX,
    ensures
        press_step(p1, y) <= press_step(p2, y),
{
    lemma_press_factor_range(y);
    lemma_mul_inequality(p1, p2, press_factor(y));
    lemma_div_is_ordered(p1 * press_factor(y), p2 * press_factor(y), SCALE as int);
}

/// The base pressures fall as the layer index climbs.
proof fn lemma_press_base_antitone(i: int, j: int)
    requires
        0 <= i <= j < LAYER_COUNT,
    ensures
        press_base(j) <= press_base(i),
    decreases j - i,
{
    if i < j {
        lemma_press_base_antitone(i, j - 1);
        lemma_press_base_bounds(j - 1);
        lemma_layer_arg_bounds(j - 1, layer_height(j - 1));
        lemma_press_step_range(press_base(j - 1), layer_arg(j - 1, layer_height(j - 1)));
    }
}

/// Pressure never increases with altitude, anywhere in the model range:
/// climbing within a layer only raises the layer's series argument, and
/// crossing a boundary chains exactly into the next base pressure.
pub proof fn law_pressure_nonincreasing(a1: int, a2: int)
    requires
        0 <= a1 <= a2 <= MAX_ALTITUDE_M,
    ensures
        press_at(a2) <= press_at(a1),
{
    let i = layer_index(a1);
    let j = layer_index(a2);
    lemma_press_base_bounds(i);
    lemma_press_base_bounds(j);
    if i == j {
        lemma_layer_arg_bounds(i, a1 - layer_bottom(i));
        lemma_layer_arg_bounds(i, a2 - layer_bottom(i));
        lemma_layer_arg_mono(i, a1 - layer_bottom(i), a2 - layer_bottom(i));
        lemma_press_step_mono_arg(
            press_base(i),
            layer_arg(i, a1 - layer_bottom(i)),
            layer_arg(i, a2 - layer_bottom(i)),
        );
    } else {
        lemma_layer_arg_bounds(i, a1 - layer_bottom(i));
        lemma_layer_arg_bounds(i, layer_height(i));
        lemma_layer_arg_mono(i, a1 - layer_bottom(i), layer_height(i));
        lemma_press_step_mono_arg(
            press_base(i),
            layer_arg(i, a1 - layer_bottom(i)),
            layer_arg(i, layer_height(i)),
        );
        assert(press_base(i + 1) == press_step(press_base(i), layer_arg(i, layer_height(i))));
        lemma_press_base_antitone(i + 1, j);
        lemma_layer_arg_bounds(j, a2 - layer_bottom(j));
        lemma_press_step_range(press_base(j), layer_arg(j, a2 - layer_bottom(j)));
    }
}

/// One more meter of climb widens the atanh argument of a gradient layer
/// by a layer-specific minimum.
#[verifier::rlimit(60)]
proof fn lemma_grad_z_gap(i: int, h1: int, h2: int)
    requires
        0 <= i < LAYER_COUNT,
        layer_lapse(i) != 0,
        0 <= h1 < h2 <= layer_height(i),
    ensures
        grad_z(i, h2) >= grad_z(i, h1) + grad_z_gap(i),
{
    lemma_temp_base_values();
    lemma_grad_z_bounds(i, h1);
    lemma_grad_z_bounds(i, h2);
    let la = lapse_abs(i);
    let l = layer_lapse(i);
    let t = temp_base(i);
    let g = grad_z_gap(i);
    let n1 = grad_dt_abs(i, h1) * (SCALE as int);
    let n2 = grad_dt_abs(i, h2) * (SCALE as int);
    let d1 = grad_tsum(i, h1);
    let d2 = grad_tsum(i, h2);
    let z1 = grad_z(i, h1);
    vstd::arithmetic::mul::lemma_mul_nonnegative(grad_dt_abs(i, h1), SCALE as int);
    lemma_div_mul_le(n1, d1);
    assert(n2 * d1 - n1 * d2 == 1_000_000_000_000 * la * 2 * t * (h2 - h1)) by (nonlinear_arith)
        requires
            n1 == la * h1 * 1_000_000_000_000,
            n2 == la * h2 * 1_000_000_000_000,
            d1 == 2 * t + l * h1,
            d2 == 2 * t + l * h2,
            la == if l < 0 { -l } else { l },
    ;
    assert(g * d1 * d2 + n1 * d2 <= n2 * d1) by (nonlinear_arith)
        requires
            n2 * d1 - n1 * d2 == 1_000_000_000_000 * la * 2 * t * (h2 - h1),
            h2 - h1 >= 1,
            (g == 11_000_000 && la == 65 && t == 2_881_500 && 0 < d1 <= 5_763_000 && 0 < d2
                <= 5_763_000) || (g == 2_000_000 && la == 10 && t == 2_166_500 && 0 < d1
                <= 4_453_000 && 0 < d2 <= 4_453_000) || (g == 5_000_000 && la == 28 && t
                == 2_286_500 && 0 < d1 <= 4_993_000 && 0 < d2 <= 4_993_000),
    ;
    assert((z1 + g) * d2 * d1 <= n2 * d1) by (nonlinear_arith)
        requires
            z1 * d1 <= n1,
            g * d1 * d2 + n1 * d2 <= n2 * d1,
            0 < d1,
            0 < d2,
            0 <= g,
    ;
    assert((z1 + g) * d2 <= n2) by (nonlinear_arith)
        requires
            (z1 + g) * d2 * d1 <= n2 * d1,
            0 < d1,
    ;
    lemma_le_div(z1 + g, n2, d2);
}

/// The layer-specific minimum widening of the atanh argument per meter.
pub open spec fn grad_z_gap(i: int) -> int {
    if i == 0 {
        11_000_000
    } else if i == 2 {
        2_000_000
    } else {
        5_000_000
    }
}

/// Any climb within a layer widens the layer's series argument by at
/// least 0.000115 at scale SCALE.
proof fn lemma_layer_arg_gap(i: int, h1: int, h2: int)
    requires
        0 <= i < LAYER_COUNT,
        0 <= h1 < h2 <= layer_height(i),
    ensures
        layer_arg(i, h2) >= layer_arg(i, h1) + 115_000_000,
{
    lemma_temp_base_values();
    if layer_lapse(i) == 0 {
        let t = temp_base(i);
        let num1 = 980_665 * h1 * (SCALE as int);
        let num2 = 980_665 * h2 * (SCALE as int);
        let den = 2_870 * t;
        let y1 = iso_arg(t, h1);
        vstd::arithmetic::mul::lemma_mul_nonnegative(980_665 * h1, SCALE as int);
        lemma_div_mul_le(num1, den);
        assert((y1 + 115_000_000) * den <= num2) by (nonlinear_arith)
            requires
                y1 * den <= num1,
                num1 == 980_665 * h1 * 1_000_000_000_000,
                num2 == 980_665 * h2 * 1_000_000_000_000,
                h2 - h1 >= 1,
                den == 2_870 * t,
                t == 2_166_500 || t == 2_706_500,
        ;
        lemma_le_div(y1 + 115_000_000, num2, den);
    } else {
        lemma_grad_z_gap(i, h1, h2);
        lemma_grad_z_bounds(i, h1);
        lemma_grad_z_bounds(i, h2);
        let z1 = grad_z(i, h1);
        let z2 = grad_z(i, h2);
        lemma_atanh_partial_gap(z1, z2, ATANH_TERMS as nat);
        let a1 = atanh_series(z1);
        let a2 = atanh_series(z2);
        let la = lapse_abs(i);
        let den = 2_870 * la;
        let y1 = grad_arg(i, h1);
        lemma_atanh_partial_bounds(z1, ATANH_TERMS as nat);
        vstd::arithmetic::mul::lemma_mul_nonnegative((2 * 980_665) as int, a1);
        lemma_div_mul_le(2 * 980_665 * a1, den);
        assert((y1 + 115_000_000) * den <= 2 * 980_665 * a2) by (nonlinear_arith)
            requires
                y1 * den <= 2 * 980_665 * a1,
                a2 - a1 >= grad_z_gap(i),
                (la == 65 && grad_z_gap(i) == 11_000_000) || (la == 10 && grad_z_gap(i)
                    == 2_000_000) || (la == 28 && grad_z_gap(i) == 5_000_000),
                den == 2_870 * la,
        ;
        lemma_le_div(y1 + 115_000_000, 2 * 980_665 * a2, den);
    }
}

/// A series argument wider by 0.000115 shrinks the barometric factor by
/// at least 0.0000005, at scale SCALE.
proof fn lemma_factor_gap(y1: int, y2: int)
    requires
        0 <= y1 <= y2 <= EXP_ARG_MAX,
        y2 - y1 >= 115_000_000,
    ensures
        press_factor(y1) >= press_factor(y2) + 500_000,
{
    lemma_exp_partial_gap(y1, y2, EXP_TERMS as nat);
    lemma_exp_series_range(y1);
    lemma_exp_series_range(y2);
    lemma_press_factor_range(y2);
    let e1 = exp_series(y1);
    let e2 = exp_series(y2);
    let f2 = press_factor(y2);
    lemma_div_mul_le((SCALE as int) * (SCALE as int), e2);
    assert((f2 + 500_000) * e1 <= 1_000_000_000_000_000_000_000_000) by (nonlinear_arith)
        requires
            f2 * e2 <= 1_000_000_000_000_000_000_000_000,
            e1 <= e2 - 115_000_000,
            66_666_666_666 <= f2,
            1_000_000_000_000 <= e1 <= 15_000_000_000_000,
    ;
    lemma_le_div(f2 + 500_000, (SCALE as int) * (SCALE as int), e1);
}

/// With at least 0.002 Pa entering a layer, a wider series argument
/// strictly lowers the stepped pressure.
proof fn lemma_press_step_gap(p: int, y1: int, y2: int)
    requires
        2_001_000 <= p,
        0 <= y1 <= y2 <= EXP_ARG_MAX,
        y2 - y1 >= 115_000_000,
    ensures
        press_step(p, y2) < press_step(p, y1),
{
    lemma_factor_gap(y1, y2);
    lemma_press_factor_range(y1);
    lemma_press_factor_range(y2);
    let f1 = press_factor(y1);
    let f2 = press_factor(y2);
    assert(p * f1 >= p * f2 + p * 500_000) by (nonlinear_arith)
        requires
            f1 >= f2 + 500_000,
            0 <= p,
    ;
    vstd::arithmetic::mul::lemma_mul_nonnegative(p, f2);
    vstd::arithmetic::mul::lemma_mul_nonnegative(p, (500_000) as int);
    lemma_div_superadd(p * f2, p * 500_000, SCALE as int);
    lemma_div_is_ordered(p * f2 + p * 500_000, p * f1, SCALE as int);
    assert(p * 500_000 >= 1_000_500_000_000) by (nonlinear_arith)
        requires
            p >= 2_001_000,
    ;
    lemma_le_div(1, p * 500_000, SCALE as int);
}

/// The series argument of an empty climb vanishes, so an empty step
/// returns the pressure unchanged.
proof fn lemma_press_step_empty(i: int, p: int)
    requires
        0 <= i < LAYER_COUNT,
        0 <= p,
    ensures
        layer_arg(i, 0) == 0,
        press_step(p, 0) == p,
{
    lemma_temp_base_values();
    lemma_atanh_zero(ATANH_TERMS as nat);
    lemma_exp_zero(EXP_TERMS as nat);
    if layer_lapse(i) == 0 {
        assert(iso_arg(temp_base(i), 0) == 0);
    } else {
        let la = lapse_abs(i);
        assert(la * 0 == 0) by (nonlinear_arith);
        assert(grad_dt_abs(i, 0) == 0);
        assert(grad_z(i, 0) == 0);
        assert(grad_arg(i, 0) == 0);
    }
    assert(press_factor(0) == (SCALE as int) * (SCALE as int) / (SCALE as int));
    lemma_div_multiples_vanish(SCALE as int, SCALE as int);
    assert(press_factor(0) == SCALE as int);
    assert(p * (SCALE as int) == (SCALE as int) * p) by (nonlinear_arith);
    lemma_div_multiples_vanish(p, SCALE as int);
}

/// Pressure falls strictly with altitude over the whole model range:
/// within a layer the series argument strictly grows, and every layer
/// boundary chains exactly and then strictly falls again.
pub proof fn law_pressure_strictly_decreasing(a1: int, a2: int)
    requires
        0 <= a1 < a2 <= MAX_ALTITUDE_M,
    ensures
        press_at(a2) < press_at(a1),
{
    let i = layer_index(a1);
    let j = layer_index(a2);
    lemma_press_base_bounds(i);
    lemma_press_base_bounds(j);
    lemma_layer_arg_bounds(i, a1 - layer_bottom(i));
    lemma_layer_arg_bounds(j, a2 - layer_bottom(j));
    if i == j {
        lemma_layer_arg_gap(i, a1 - layer_bottom(i), a2 - layer_bottom(i));
        lemma_press_step_gap(
            press_base(i),
            layer_arg(i, a1 - layer_bottom(i)),
            layer_arg(i, a2 - layer_bottom(i)),
        );
    } else {
        // down to the top of layer i, weakly
        lemma_layer_arg_bounds(i, layer_height(i));
        lemma_layer_arg_mono(i, a1 - layer_bottom(i), layer_height(i));
        lemma_press_step_mono_arg(
            press_base(i),
            layer_arg(i, a1 - layer_bottom(i)),
            layer_arg(i, layer_height(i)),
        );
        assert(press_base(i + 1) == press_step(press_base(i), layer_arg(i, layer_height(i))));
        lemma_press_base_antitone(i + 1, j);
        // and strictly down from the base of layer j
        lemma_press_step_empty(j, press_base(j));
        lemma_layer_arg_gap(j, 0, a2 - layer_bottom(j));
        lemma_press_step_gap(press_base(j), layer_arg(j, 0), layer_arg(j, a2 - layer_bottom(j)));
    }
}

} // verus!
