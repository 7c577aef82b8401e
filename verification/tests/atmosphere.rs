//! Runtime checks of the atmosphere model: the reference points of the
//! standard atmosphere, the shape of the temperature profile, and the
//! monotone, continuous fall of pressure.
//!
//! Units: temperature in 1/10_000 K, pressure in micropascals, density in
//! 1/1_000_000_000 kg/m^3.

use isa_atmosphere::model::compute;
use isa_atmosphere::model::in_model_range;

#[test]
fn sea_level_reference() {
    let r = compute(0);
    assert_eq!(r.temperature, 2_881_500); // 288.15 K
    assert_eq!(r.pressure, 101_325_000_000); // 101_325 Pa
    let expected_density: u64 =
        (101_325_000_000u128 * 1_000_000_000u128 / (28_700u128 * 2_881_500u128)) as u64;
    assert_eq!(r.density, expected_density);
    let d = r.density as f64 / 1e9;
    assert!((d - 1.2252).abs() < 0.001); // 101325.0 / (287.00 * 288.15)
}

#[test]
fn tropopause_reference() {
    let r = compute(11_000);
    assert_eq!(r.temperature, 2_166_500); // 216.65 K exactly
    let p = r.pressure as f64 / 1e6;
    assert!((p - 22_632.0).abs() < 226.0); // within 1% of the standard value
}

#[test]
fn boundary_rejection() {
    assert!(in_model_range(50_000));
    assert!(!in_model_range(50_001));
    assert!(in_model_range(0));
    let r = compute(50_000);
    assert!(r.temperature > 0 && r.pressure > 0 && r.density > 0);
}

#[test]
fn troposphere_temperature_strictly_decreases() {
    let mut prev: u64 = compute(0).temperature;
    let mut alt: u32 = 250;
    while alt <= 11_000 {
        let t = compute(alt).temperature;
        assert!(t < prev);
        assert_eq!(t as u64, 2_881_500 - 65 * alt as u64);
        prev = t;
        alt += 250;
    }
}

#[test]
fn pressure_strictly_decreases_everywhere() {
    let mut prev: u64 = compute(0).pressure;
    let mut alt: u32 = 125;
    while alt <= 50_000 {
        let p = compute(alt).pressure;
        assert!(p < prev);
        prev = p;
        alt += 125;
    }
}

#[test]
fn boundary_continuity() {
    let below = compute(10_999);
    let at = compute(11_000);
    let above = compute(11_001);
    // temperature meets the tropopause value exactly
    assert_eq!(below.temperature, 2_166_565);
    assert_eq!(at.temperature, 2_166_500);
    assert_eq!(above.temperature, 2_166_500);
    // pressure falls smoothly through the boundary: both one-meter drops
    // are about 3.6 Pa and agree closely
    let d1 = (below.pressure - at.pressure) as f64 / 1e6;
    let d2 = (at.pressure - above.pressure) as f64 / 1e6;
    assert!(3.0 < d1 && d1 < 4.5);
    assert!(3.0 < d2 && d2 < 4.5);
    assert!((d1 - d2).abs() < 0.05);
}

#[test]
fn isothermal_layers() {
    // tropopause band: constant temperature, falling pressure
    let samples = [11_000u32, 13_000, 15_500, 18_000, 20_000];
    let mut prev_p = u64::MAX;
    for &alt in samples.iter() {
        let r = compute(alt);
        assert_eq!(r.temperature, 2_166_500);
        assert!(r.pressure < prev_p);
        prev_p = r.pressure;
    }
    // topmost band
    let samples_hi = [47_000u32, 48_000, 49_000, 50_000];
    let mut prev_hi = u64::MAX;
    for &alt in samples_hi.iter() {
        let r = compute(alt);
        assert_eq!(r.temperature, 2_706_500);
        assert!(r.pressure < prev_hi);
        prev_hi = r.pressure;
    }
    // exponential decay: equal climbs shrink the pressure by equal ratios
    let r1 = compute(11_000).pressure as f64;
    let r2 = compute(13_000).pressure as f64;
    let r3 = compute(15_000).pressure as f64;
    let q12 = r2 / r1;
    let q23 = r3 / r2;
    assert!((q12 - q23).abs() < 1e-3 * q12);
}

#[test]
fn upper_layer_reference_points() {
    assert_eq!(compute(20_000).temperature, 2_166_500); // 216.65 K
    assert_eq!(compute(32_000).temperature, 2_286_500); // 228.65 K
    assert_eq!(compute(47_000).temperature, 2_706_500); // 270.65 K
    let p20 = compute(20_000).pressure as f64 / 1e6;
    let p32 = compute(32_000).pressure as f64 / 1e6;
    let p47 = compute(47_000).pressure as f64 / 1e6;
    let p50 = compute(50_000).pressure as f64 / 1e6;
    assert!((p20 - 5_474.9).abs() < 0.015 * 5_474.9);
    assert!((p32 - 868.0).abs() < 0.015 * 868.0);
    assert!((p47 - 110.9).abs() < 0.015 * 110.9);
    assert!((p50 - 75.94).abs() < 0.015 * 75.94);
}

#[test]
fn all_parameters_positive_in_range() {
    let mut alt: u32 = 0;
    while alt <= 50_000 {
        let r = compute(alt);
        assert!(r.temperature >= 2_166_500 && r.temperature <= 2_881_500);
        assert!(r.pressure >= 1 && r.pressure <= 101_325_000_000);
        assert!(r.density >= 1);
        alt += 1_000;
    }
}

#[test]
fn density_follows_state_equation() {
    let samples = [0u32, 5_000, 11_000, 20_000, 32_000, 47_000, 50_000];
    for &alt in samples.iter() {
        let r = compute(alt);
        let expected: u64 =
            (r.pressure as u128 * 1_000_000_000u128 / (28_700u128 * r.temperature as u128)) as u64;
        assert_eq!(r.density, expected);
    }
}
