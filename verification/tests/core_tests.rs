//! Exercises the fixed-point arithmetic, the logarithm and the samplers
//! on concrete values.

use fractal::fixed::{Fx, FX_HALF, FX_ONE};
use fractal::rendering::log2_fx;
use fractal::sampling::simple::SimpleSampler;
use fractal::sampling::stratified::StratifiedSampler;
use fractal::sampling::Sampler;

fn fx(v: f64) -> Fx {
    Fx::from_bits((v * 4294967296.0_f64).round() as i64)
}

fn to_f64(v: Fx) -> f64 {
    v.bits as f64 / 4294967296.0_f64
}

#[test]
fn fixed_point_exact_products() {
    assert_eq!(Fx::from_int(3).mul(Fx::from_int(5)).bits, 15 * FX_ONE);
    assert_eq!(Fx::half().mul(Fx::half()).bits, FX_ONE / 4);
    assert_eq!(Fx::from_int(-7).div(Fx::from_int(2)).bits, -7 * FX_ONE / 2);
}

#[test]
fn fixed_point_truncates_toward_zero() {
    // -3 * 2^-32 * 1/2 is -1.5 ulp; truncation keeps -1 ulp.
    assert_eq!(Fx::from_bits(-3).mul(Fx::half()).bits, -1);
    assert_eq!(Fx::from_bits(3).mul(Fx::half()).bits, 1);
}

#[test]
fn fixed_point_division_saturates() {
    let huge = Fx::from_bits(i64::MAX);
    let tiny = Fx::from_bits(1);
    assert_eq!(huge.div_sat(tiny).bits, i64::MAX);
    assert_eq!(huge.neg().div_sat(tiny).bits, i64::MIN);
}

#[test]
fn log2_on_powers_of_two() {
    assert_eq!(log2_fx(FX_ONE).bits, 0);
    assert_eq!(log2_fx(2 * FX_ONE).bits, FX_ONE);
    assert_eq!(log2_fx(8 * FX_ONE).bits, 3 * FX_ONE);
    assert_eq!(log2_fx(FX_HALF).bits, -FX_ONE);
}

#[test]
fn log2_of_three_halves() {
    let r = to_f64(log2_fx(FX_ONE + FX_HALF));
    assert!((r - 1.5_f64.log2()).abs() < 1e-9);
}

#[test]
fn simple_sampler_yields_one_centre_sample() {
    let mut s = SimpleSampler::new(7, 9);
    assert_eq!(s.remaining(), 1);
    let sample = s.next().unwrap();
    assert_eq!(sample.pixel_x, 7);
    assert_eq!(sample.pixel_y, 9);
    assert_eq!(sample.offset_x.bits, FX_HALF);
    assert_eq!(sample.offset_y.bits, FX_HALF);
    assert_eq!(s.remaining(), 0);
    assert!(s.next().is_none());
    assert!(s.next().is_none());
}

#[test]
fn stratified_four_samples_without_jitter() {
    let mut s = StratifiedSampler::new(0, 0, 4, false);
    assert_eq!(s.remaining(), 4);
    let mut got: Vec<(i64, i64)> = Vec::new();
    while let Some(sample) = s.next() {
        got.push((sample.offset_x.bits, sample.offset_y.bits));
    }
    let q = FX_ONE / 4;
    let expected = vec![(q, q), (3 * q, q), (q, 3 * q), (3 * q, 3 * q)];
    assert_eq!(got.len(), 4);
    for e in &expected {
        assert!(got.contains(e));
    }
    assert_eq!(s.remaining(), 0);
    assert!(s.next().is_none());
}

#[test]
fn stratified_grid_may_undershoot_request() {
    // Five samples per pixel round down to a 2 x 2 grid: the documented
    // integer-division quirk.
    let mut s = StratifiedSampler::new(3, 4, 5, false);
    assert_eq!(s.remaining(), 4);
    let mut count: u32 = 0;
    while let Some(sample) = s.next() {
        assert_eq!(sample.pixel_x, 3);
        assert_eq!(sample.pixel_y, 4);
        assert!(0 <= sample.offset_x.bits && sample.offset_x.bits < FX_ONE);
        assert!(0 <= sample.offset_y.bits && sample.offset_y.bits < FX_ONE);
        count += 1;
    }
    assert_eq!(count, 4);
}

#[test]
fn stratified_jitter_stays_in_cells() {
    let mut s = StratifiedSampler::new(0, 0, 9, true);
    assert_eq!(s.remaining(), 9);
    let mut remaining: usize = 9;
    while let Some(sample) = s.next() {
        remaining -= 1;
        assert_eq!(s.remaining(), remaining);
        assert!(0 <= sample.offset_x.bits && sample.offset_x.bits < FX_ONE);
        assert!(0 <= sample.offset_y.bits && sample.offset_y.bits < FX_ONE);
    }
    assert_eq!(remaining, 0);
}

#[test]
fn sample_location_adds_pixel_and_offset() {
    let mut s = SimpleSampler::new(2, 3);
    let sample = s.next().unwrap();
    let (x, y) = sample.location();
    assert_eq!(x.bits, 2 * FX_ONE + FX_HALF);
    assert_eq!(y.bits, 3 * FX_ONE + FX_HALF);
}

#[test]
fn fixed_point_helpers_round_trip() {
    assert_eq!(fx(0.25).bits, FX_ONE / 4);
    assert_eq!(to_f64(Fx::one()), 1.0);
}
