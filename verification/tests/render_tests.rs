//! Exercises the filters, the reconstructor, the escape-time renderers
//! and the pixel driver on concrete values.

use fractal::driver::{
    render_image, render_pixel, SimpleSamplerFactory, StratifiedSamplerFactory,
};
use fractal::fixed::{Fx, FX_HALF, FX_ONE};
use fractal::julia::JuliaRenderFunction;
use fractal::reconstruction::filter::{BoxFilter, Filter, MitchellFilter};
use fractal::reconstruction::Reconstructor;
use fractal::rendering::mandelbrot::MandelbrotRenderer;
use fractal::rendering::Renderer;
use fractal::sampling::simple::SimpleSampler;
use fractal::sampling::stratified::StratifiedSampler;
use fractal::sampling::Sample;

fn fx(v: f64) -> Fx {
    Fx::from_bits((v * 4294967296.0_f64).round() as i64)
}

fn to_f64(v: Fx) -> f64 {
    v.bits as f64 / 4294967296.0_f64
}

#[test]
fn box_filter_weights() {
    let f = BoxFilter::with_defaults();
    assert_eq!(f.evaluate(Fx::zero(), Fx::zero()).bits, FX_ONE);
    assert_eq!(f.evaluate(fx(0.6), Fx::zero()).bits, 0);
    assert_eq!(f.evaluate(Fx::zero(), fx(0.6)).bits, 0);
    assert_eq!(f.evaluate(fx(-0.5), fx(0.5)).bits, FX_ONE);
    let (rx, ry) = f.radius();
    assert_eq!(rx.bits, FX_HALF);
    assert_eq!(ry.bits, FX_HALF);
}

#[test]
fn mitchell_filter_centre_value() {
    let f = MitchellFilter::with_defaults();
    let centre = to_f64(f.evaluate(Fx::zero(), Fx::zero()));
    // (1 - b/3)^2 with b = 1/3: (8/9)^2.
    assert!((centre - (8.0_f64 / 9.0) * (8.0 / 9.0)).abs() < 1e-4);
}

#[test]
fn mitchell_filter_centre_is_maximal_on_grid() {
    let f = MitchellFilter::with_defaults();
    let centre = f.evaluate(Fx::zero(), Fx::zero()).bits;
    let mut i: i32 = -40;
    while i <= 40 {
        let mut j: i32 = -40;
        while j <= 40 {
            let w = f.evaluate(fx(i as f64 * 0.1), fx(j as f64 * 0.1)).bits;
            assert!(w <= centre);
            j += 1;
        }
        i += 1;
    }
}

#[test]
fn mitchell_filter_even_symmetry() {
    let f = MitchellFilter::with_defaults();
    let cases = vec![(0.3, 0.2), (1.7, 0.9), (0.05, 1.99)];
    for (dx, dy) in cases {
        let base = f.evaluate(fx(dx), fx(dy)).bits;
        assert_eq!(f.evaluate(fx(-dx), fx(dy)).bits, base);
        assert_eq!(f.evaluate(fx(dx), fx(-dy)).bits, base);
        assert_eq!(f.evaluate(fx(-dx), fx(-dy)).bits, base);
    }
}

#[test]
fn mitchell_filter_zero_outside_support() {
    let f = MitchellFilter::with_defaults();
    assert_eq!(f.evaluate(fx(4.0), Fx::zero()).bits, 0);
    assert_eq!(f.evaluate(Fx::zero(), fx(4.0)).bits, 0);
    assert_eq!(f.evaluate(fx(-4.5), fx(1.0)).bits, 0);
    assert_eq!(f.evaluate(fx(60.0), fx(60.0)).bits, 0);
}

#[test]
fn reconstructor_zero_weight_yields_default() {
    // A box kernel one ulp wide: every sample's offset falls outside its
    // support, so all weights are zero and the value defaults to zero.
    let narrow = BoxFilter::new(Fx::from_bits(1), Fx::from_bits(1));
    let mut rec: Reconstructor<Fx, BoxFilter> = Reconstructor::new(&narrow);
    let sample = Sample::new(0, 0, fx(0.9), fx(0.9));
    rec.accumulate(&sample, Fx::one());
    let sample2 = Sample::new(0, 0, fx(0.1), fx(0.25));
    rec.accumulate(&sample2, Fx::one());
    assert_eq!(rec.value().bits, 0);
}

#[test]
fn reconstructor_single_unit_weight_returns_result() {
    let f = BoxFilter::with_defaults();
    let mut rec: Reconstructor<Fx, BoxFilter> = Reconstructor::new(&f);
    let sample = Sample::new(0, 0, Fx::half(), Fx::half());
    rec.accumulate(&sample, fx(0.5));
    assert_eq!(rec.value().bits, FX_HALF);
}

#[test]
fn reconstructor_averages_two_results() {
    let f = BoxFilter::with_defaults();
    let mut rec: Reconstructor<Fx, BoxFilter> = Reconstructor::new(&f);
    rec.accumulate(&Sample::new(0, 0, fx(0.25), fx(0.25)), fx(0.25));
    rec.accumulate(&Sample::new(0, 0, fx(0.75), fx(0.75)), fx(0.75));
    assert_eq!(rec.value().bits, FX_HALF);
}

#[test]
fn mandelbrot_origin_never_escapes() {
    // A one-pixel viewport centred on the origin maps the pixel centre
    // exactly to 0 + 0i, which stays at zero forever.
    let r = MandelbrotRenderer::new(Fx::zero(), Fx::zero(), Fx::one(), 50, 1, 1);
    let sample = Sample::new(0, 0, Fx::half(), Fx::half());
    assert_eq!(r.render(&sample).bits, -FX_ONE);
}

#[test]
fn mandelbrot_two_plus_two_i_escapes_first_iteration() {
    // A one-pixel viewport centred on 2 + 2i: |c|^2 = 8 > 4, so the
    // point escapes on iteration one with |z| = sqrt(8).
    let max_iterations: u64 = 5;
    let r = MandelbrotRenderer::new(
        Fx::from_int(2),
        Fx::from_int(2),
        Fx::one(),
        max_iterations,
        1,
        1,
    );
    let sample = Sample::new(0, 0, Fx::half(), Fx::half());
    let v = to_f64(r.render(&sample));
    let expected = (1.0 - 8.0_f64.sqrt().log2().log2()) / max_iterations as f64;
    assert!((v - expected).abs() < 1e-6);
    assert!(0.0 < v && v < 1.0);
}

#[test]
fn julia_matches_mandelbrot_shape_at_origin() {
    // With c = 0 the Julia iteration from the origin never escapes.
    let r = JuliaRenderFunction::new(
        Fx::zero(),
        Fx::zero(),
        Fx::zero(),
        Fx::zero(),
        Fx::one(),
        25,
        1,
        1,
    );
    let sample = Sample::new(0, 0, Fx::half(), Fx::half());
    assert_eq!(r.render(&sample).bits, -FX_ONE);
}

#[test]
fn julia_escapes_far_starting_point() {
    // A viewport centred on 2 + 2i starts the iteration outside the
    // escape circle: it escapes at iteration zero.
    let r = JuliaRenderFunction::new(
        Fx::zero(),
        Fx::zero(),
        Fx::from_int(2),
        Fx::from_int(2),
        Fx::one(),
        25,
        1,
        1,
    );
    let sample = Sample::new(0, 0, Fx::half(), Fx::half());
    let v = to_f64(r.render(&sample));
    let expected = (0.0 - 8.0_f64.sqrt().log2().log2()) / 25.0;
    assert!((v - expected).abs() < 1e-6);
}

#[test]
fn render_pixel_deterministic_without_jitter() {
    let renderer = MandelbrotRenderer::new(fx(-0.75), Fx::zero(), fx(2.5), 64, 8, 8);
    let filter = MitchellFilter::with_defaults();
    let s1 = StratifiedSampler::new(3, 4, 4, false);
    let s2 = StratifiedSampler::new(3, 4, 4, false);
    let v1 = render_pixel(s1, &renderer, &filter);
    let v2 = render_pixel(s2, &renderer, &filter);
    assert_eq!(v1.bits, v2.bits);
}

#[test]
fn render_pixel_jitter_stays_in_value_range() {
    let renderer = MandelbrotRenderer::new(fx(-0.75), Fx::zero(), fx(2.5), 64, 8, 8);
    let filter = BoxFilter::with_defaults();
    let mut y: u32 = 0;
    while y < 8 {
        let mut x: u32 = 0;
        while x < 8 {
            let s = StratifiedSampler::new(x, y, 4, true);
            let v = render_pixel(s, &renderer, &filter);
            assert!(-FX_ONE - 4 <= v.bits && v.bits <= FX_ONE + 4);
            x += 1;
        }
        y += 1;
    }
}

#[test]
fn render_image_fills_every_pixel() {
    let renderer = MandelbrotRenderer::new(fx(-0.75), Fx::zero(), fx(2.5), 32, 4, 4);
    let filter = BoxFilter::with_defaults();
    let factory = SimpleSamplerFactory {};
    let out = render_image(&factory, &renderer, &filter, 4, 4);
    assert_eq!(out.len(), 16);
    // With the centre sampler and a box kernel each pixel is exactly the
    // render value of its centre sample.
    let mut y: u32 = 0;
    while y < 4 {
        let mut x: u32 = 0;
        while x < 4 {
            let expected = renderer.render(&Sample::new(x, y, Fx::half(), Fx::half()));
            assert_eq!(out[(y * 4 + x) as usize].bits, expected.bits);
            x += 1;
        }
        y += 1;
    }
}

#[test]
fn render_image_stratified_matches_repeat_run() {
    let renderer = MandelbrotRenderer::new(fx(-0.75), Fx::zero(), fx(2.5), 32, 4, 4);
    let filter = MitchellFilter::with_defaults();
    let factory = StratifiedSamplerFactory { samples_per_pixel: 4, jitter: false };
    let a = render_image(&factory, &renderer, &filter, 4, 4);
    let b = render_image(&factory, &renderer, &filter, 4, 4);
    assert_eq!(a.len(), 16);
    let mut i: usize = 0;
    while i < 16 {
        assert_eq!(a[i].bits, b[i].bits);
        i += 1;
    }
}
