//! The fixed layer table of the International Standard Atmosphere and the
//! exact, piecewise-linear temperature profile it induces.
//!
//! The five layers partition [0, 50_000] meters. Each layer has a lower
//! bound, an upper bound and a temperature lapse rate; the lapse rates are
//! exact multiples of 1/10_000 K per meter, so temperatures are computed
//! exactly in units of 1/10_000 K.

use vstd::prelude::*;

verus! {

/// Number of atmospheric layers in the model.
pub const LAYER_COUNT: usize = 5;

/// Highest geopotential altitude, in meters, that the model covers.
pub const MAX_ALTITUDE_M: u32 = 50_000;

/// Sea-level standard temperature, in units of 1/10_000 K (288.15 K).
pub const SEA_LEVEL_TEMP: u64 = 2_881_500;

/// Sea-level standard pressure, in micropascals (101_325 Pa).
pub const SEA_LEVEL_PRESSURE: u64 = 101_325_000_000;

/// Standard gravity scaled by 10^5 (9.80665 m/s^2).
pub const GRAVITY_E5: u64 = 980_665;

/// Specific gas constant of dry air scaled by 10 (287.00 J/(kg*K)).
pub const GAS_CONSTANT_E1: u64 = 2_870;

/// Specific gas constant of dry air scaled by 100 (287.00 J/(kg*K)).
pub const GAS_CONSTANT_E2: u64 = 28_700;

/// Lower bound, in meters, of layer `i`.
pub open spec fn layer_bottom(i: int) -> int {
    if i <= 0 {
        0
    } else if i == 1 {
        11_000
    } else if i == 2 {
        20_000
    } else if i == 3 {
        32_000
    } else {
        47_000
    }
}

/// Upper bound, in meters, of layer `i`.
pub open spec fn layer_top(i: int) -> int {
    if i <= 0 {
        11_000
    } else if i == 1 {
        20_000
    } else if i == 2 {
        32_000
    } else if i == 3 {
        47_000
    } else {
        50_000
    }
}

/// Temperature lapse rate of layer `i`, in units of 1/10_000 K per meter.
pub open spec fn layer_lapse(i: int) -> int {
    if i <= 0 {
        -65
    } else if i == 1 {
        0
    } else if i == 2 {
        10
    } else if i == 3 {
        28
    } else {
        0
    }
}

/// Thickness of layer `i`, in meters.
pub open spec fn layer_height(i: int) -> int {
    layer_top(i) - layer_bottom(i)
}

/// Index of the layer that contains `alt`: the smallest `i` with
/// `alt <= layer_top(i)`. A layer boundary thus belongs to the layer
/// below it, matching the early exit of the layer walk.
pub open spec fn layer_index(alt: int) -> int {
    if alt <= 11_000 {
        0
    } else if alt <= 20_000 {
        1
    } else if alt <= 32_000 {
        2
    } else if alt <= 47_000 {
        3
    } else {
        4
    }
}

/// Temperature at the bottom of layer `i`, in units of 1/10_000 K:
/// the sea-level temperature plus the full lapse of every layer below.
pub open spec fn temp_base(i: int) -> int
    decreases i,
{
    if i <= 0 {
        SEA_LEVEL_TEMP as int
    } else {
        temp_base(i - 1) + layer_lapse(i - 1) * layer_height(i - 1)
    }
}

/// Temperature at altitude `alt`, in units of 1/10_000 K: the base
/// temperature of the containing layer plus that layer's lapse over the
/// portion of the layer below `alt`.
pub open spec fn temp_at(alt: int) -> int {
    temp_base(layer_index(alt)) + layer_lapse(layer_index(alt)) * (alt - layer_bottom(
        layer_index(alt),
    ))
}

/// The base temperature of each layer, written out.
pub proof fn lemma_temp_base_values()
    ensures
        temp_base(0) == 2_881_500,
        temp_base(1) == 2_166_500,
        temp_base(2) == 2_166_500,
        temp_base(3) == 2_286_500,
        temp_base(4) == 2_706_500,
{
    assert(temp_base(0) == 2_881_500);
    assert(temp_base(1) == 2_166_500);
    assert(temp_base(2) == 2_166_500);
    assert(temp_base(3) == 2_286_500);
    assert(temp_base(4) == 2_706_500);
}

/// Over the whole model range the temperature stays between 216.65 K and
/// 288.15 K; in particular it is positive everywhere.
pub proof fn lemma_temp_range(alt: int)
    requires
        0 <= alt <= MAX_ALTITUDE_M,
    ensures
        2_166_500 <= temp_at(alt) <= 2_881_500,
{
    lemma_temp_base_values();
}

/// The temperature profile is continuous: at the top of each layer the
/// in-layer formula meets the next layer's base temperature exactly.
pub proof fn lemma_temp_chain(i: int)
    requires
        0 <= i < 4,
    ensures
        temp_base(i) + layer_lapse(i) * layer_height(i) == temp_base(i + 1),
        temp_at(layer_top(i)) == temp_base(i + 1),
{
    lemma_temp_base_values();
}

/// Exec copy of the layer table: bottom, top and lapse rate of layer `i`.
pub fn layer_data(i: usize) -> (r: (u32, u32, i64))
    requires
        i < LAYER_COUNT,
    ensures
        r.0 as int == layer_bottom(i as int),
        r.1 as int == layer_top(i as int),
        r.2 as int == layer_lapse(i as int),
{
    if i == 0 {
        (0, 11_000, -65)
    } else if i == 1 {
        (11_000, 20_000, 0)
    } else if i == 2 {
        (20_000, 32_000, 10)
    } else if i == 3 {
        (32_000, 47_000, 28)
    } else {
        (47_000, 50_000, 0)
    }
}

/// Index of the layer that contains `alt`.
pub fn layer_index_of(alt: u32) -> (i: usize)
    requires
        alt <= MAX_ALTITUDE_M,
    ensures
        i as int == layer_index(alt as int),
        i < LAYER_COUNT,
{
    if alt <= 11_000 {
        0
    } else if alt <= 20_000 {
        1
    } else if alt <= 32_000 {
        2
    } else if alt <= 47_000 {
        3
    } else {
        4
    }
}

} // verus!
