//! The pixel driver: for every pixel it wires a fresh sampler, the shared
//! render function and a reconstructor together, and writes one value per
//! pixel. Pixels are independent; the order they are filled in is the
//! raster's row-major order.

use vstd::prelude::*;

use crate::fixed::{fx_div, fx_mul, fx_sat, iabs, Fx, FX_HALF};
use crate::reconstruction::filter::{Filter, FX_WEIGHT_MAX};
use crate::reconstruction::{Reconstructor, FX_ACC_STEP};
use crate::rendering::Renderer;
use crate::sampling::simple::{simple_sample_ok, SimpleSampler};
use crate::sampling::stratified::{is_round_sqrt, stratified_sample_ok, StratifiedSampler};
use crate::sampling::{sample_offsets_in_unit, Sample, Sampler};

verus! {

/// The filter weight a sample receives: the filter evaluated at the
/// sample's offset from the pixel centre.
pub open spec fn sample_weight_bits<F: Filter>(filter: F, s: Sample) -> int {
    filter.eval_spec(s.offset_x.bits - FX_HALF, s.offset_y.bits - FX_HALF)
}

/// The weighted sum and the total weight over the first `n` samples of a
/// trace: each sample's render value is scaled by its filter weight.
pub open spec fn trace_sums<R: Renderer, F: Filter>(
    renderer: R,
    filter: F,
    trace: Seq<Sample>,
    n: nat,
) -> (int, int)
    decreases n,
{
    if n == 0 {
        (0, 0)
    } else {
        let p = trace_sums(renderer, filter, trace, (n - 1) as nat);
        let s = trace[n - 1];
        let w = sample_weight_bits(filter, s);
        (p.0 + fx_mul(renderer.render_spec(s), w), p.1 + w)
    }
}

/// The reconstructed value of a whole trace: the weighted sum normalised
/// by the total weight, or zero when no weight was gathered.
pub open spec fn pixel_value_bits<R: Renderer, F: Filter>(
    renderer: R,
    filter: F,
    trace: Seq<Sample>,
) -> int {
    let sums = trace_sums(renderer, filter, trace, trace.len());
    if sums.1 != 0 {
        fx_sat(fx_div(sums.0, sums.1))
    } else {
        0
    }
}

/// A full, admissible sample sequence of the given sampler: one sample
/// per slot, each admitted by the sampler for its position.
pub open spec fn trace_ok<S: Sampler>(sampler: S, trace: Seq<Sample>) -> bool {
    &&& trace.len() == sampler.total()
    &&& forall|k: nat|
        k < trace.len() ==> sampler.sample_ok(#[trigger] trace[k as int], k)
            && sample_offsets_in_unit(trace[k as int])
}

/// The value is the reconstruction of some full, admissible trace of the
/// sampler: the only latitude is the sampler's own jitter.
pub open spec fn pixel_admissible<S: Sampler, R: Renderer, F: Filter>(
    sampler: S,
    renderer: R,
    filter: F,
    bits: int,
) -> bool {
    exists|trace: Seq<Sample>| #![trigger trace_ok(sampler, trace)]
        trace_ok(sampler, trace) && bits == pixel_value_bits(renderer, filter, trace)
}

/// A prefix of a trace is untouched by pushing one more sample.
proof fn lemma_trace_sums_push<R: Renderer, F: Filter>(
    renderer: R,
    filter: F,
    trace: Seq<Sample>,
    s: Sample,
    n: nat,
)
    requires
        n <= trace.len(),
    ensures
        trace_sums(renderer, filter, trace.push(s), n) == trace_sums(renderer, filter, trace, n),
    decreases n,
{
    if n > 0 {
        lemma_trace_sums_push(renderer, filter, trace, s, (n - 1) as nat);
        assert(trace.push(s)[n - 1] == trace[n - 1]);
    }
}

/// Drain one pixel's sampler, render every sample, and reconstruct the
/// pixel's value: exactly the weighted-average formula over some full,
/// admissible trace of the sampler (the trace is only as ambiguous as
/// the sampler's jitter).
pub fn render_pixel<S: Sampler, R: Renderer, F: Filter>(
    sampler: S,
    renderer: &R,
    filter: &F,
) -> (v: Fx)
    requires
        sampler.wf(),
        sampler.produced() == 0,
        sampler.total() <= 1024,
        renderer.wf(),
        filter.wf(),
        forall|s: Sample, k: nat| #![trigger sampler.sample_ok(s, k)]
            sampler.sample_ok(s, k) && sample_offsets_in_unit(s) ==> renderer.in_domain(s),
    ensures
        pixel_admissible(sampler, *renderer, *filter, v.bits as int),
{
    let ghost sampler0: S = sampler;
    let mut active = sampler;
    let mut reconstructor: Reconstructor<Fx, F> = Reconstructor::new(filter);
    let ghost mut trace: Seq<Sample> = Seq::empty();
    let mut n: usize = active.remaining();
    while n > 0
        invariant
            active.wf(),
            renderer.wf(),
            filter.wf(),
            active.total() == sampler0.total(),
            sampler0.total() <= 1024,
            forall|s2: Sample, k2: nat| #![trigger active.sample_ok(s2, k2)]
                active.sample_ok(s2, k2) == sampler0.sample_ok(s2, k2),
            forall|s: Sample, k: nat| #![trigger sampler0.sample_ok(s, k)]
                sampler0.sample_ok(s, k) && sample_offsets_in_unit(s) ==> renderer.in_domain(s),
            n == active.total() - active.produced(),
            active.produced() <= active.total(),
            trace.len() == active.produced(),
            forall|k: nat|
                k < trace.len() ==> sampler0.sample_ok(#[trigger] trace[k as int], k)
                    && sample_offsets_in_unit(trace[k as int]),
            reconstructor.filter == filter,
            (reconstructor.accumulator.bits as int, reconstructor.total_weight.bits as int)
                == trace_sums(*renderer, *filter, trace, trace.len()),
            iabs(reconstructor.accumulator.bits as int) <= trace.len() * FX_ACC_STEP,
            iabs(reconstructor.total_weight.bits as int) <= trace.len() * FX_WEIGHT_MAX,
        decreases n,
    {
        let next = active.next();
        match next {
            Some(sample) => {
                let result = renderer.render(&sample);
                proof {
                    lemma_trace_sums_push(*renderer, *filter, trace, sample, trace.len());
                }
                let ghost pre_acc: int = reconstructor.accumulator.bits as int;
                reconstructor.accumulate(&sample, result);
                proof {
                    let w = sample_weight_bits(*filter, sample);
                    crate::fixed::lemma_fx_mul_mag(
                        result.bits as int,
                        w,
                        17179869184,
                        FX_WEIGHT_MAX as int,
                        FX_ACC_STEP as int,
                    );
                    trace = trace.push(sample);
                    assert(trace_sums(*renderer, *filter, trace, trace.len()) == {
                        let p = trace_sums(*renderer, *filter, trace, (trace.len() - 1) as nat);
                        let s2 = trace[trace.len() - 1];
                        let w2 = sample_weight_bits(*filter, s2);
                        (p.0 + fx_mul((*renderer).render_spec(s2), w2), p.1 + w2)
                    });
                    assert(trace[trace.len() - 1] == sample);
                    assert(reconstructor.accumulator.bits as int == pre_acc + fx_mul(
                        result.bits as int,
                        w,
                    ));
                }
            },
            None => {
                proof {
                    assert(false);
                }
            },
        }
        n = active.remaining();
    }
    let v = reconstructor.value();
    proof {
        assert(trace_ok(sampler0, trace));
        assert(v.bits == pixel_value_bits(*renderer, *filter, trace));
    }
    v
}


/// Builds one fresh sampler per pixel: samplers are finite and
/// non-restartable, so the driver asks the factory for a new one each
/// time it starts a pixel.
pub trait SamplerFactory: Sized {
    /// The sampler type produced.
    type Produced: Sampler;

    /// Configuration consistency.
    spec fn wf(&self) -> bool;

    /// How many samples each pixel receives.
    spec fn per_pixel(&self) -> nat;

    /// What the `k`-th sample of pixel `(x, y)` may be.
    spec fn pixel_sample_ok(&self, x: u32, y: u32, s: Sample, k: nat) -> bool;

    /// A fresh sampler for pixel `(x, y)`.
    fn make(&self, x: u32, y: u32) -> (s: Self::Produced)
        requires
            self.wf(),
        ensures
            s.wf(),
            s.produced() == 0,
            s.total() == self.per_pixel(),
            forall|s2: Sample, k2: nat| #![trigger s.sample_ok(s2, k2)]
                s.sample_ok(s2, k2) ==> self.pixel_sample_ok(x, y, s2, k2),
    ;
}

/// Builds the one-sample-per-pixel centre sampler.
pub struct SimpleSamplerFactory {
}

impl SamplerFactory for SimpleSamplerFactory {
    type Produced = SimpleSampler;

    open spec fn wf(&self) -> bool {
        true
    }

    open spec fn per_pixel(&self) -> nat {
        1
    }

    open spec fn pixel_sample_ok(&self, x: u32, y: u32, s: Sample, k: nat) -> bool {
        simple_sample_ok(x, y, s, k)
    }

    fn make(&self, x: u32, y: u32) -> (s: SimpleSampler)
    {
        SimpleSampler::new(x, y)
    }
}

/// The grid width `round(sqrt(n))` that a stratified sampler derives
/// from its requested sample count.
pub open spec fn grid_x_of(n: int) -> int {
    choose|r: int| is_round_sqrt(n, r)
}

/// The rounded square root is unique.
pub proof fn lemma_round_sqrt_unique(n: int, r1: int, r2: int)
    requires
        is_round_sqrt(n, r1),
        is_round_sqrt(n, r2),
    ensures
        r1 == r2,
{
    assert(r1 == r2) by (nonlinear_arith)
        requires
            r1 >= 0,
            n <= r1 * r1 + r1,
            r1 == 0 || r1 * r1 - r1 + 1 <= n,
            r2 >= 0,
            n <= r2 * r2 + r2,
            r2 == 0 || r2 * r2 - r2 + 1 <= n,
    ;
}

/// Builds stratified samplers with a fixed requested sample count and
/// jitter flag.
pub struct StratifiedSamplerFactory {
    pub samples_per_pixel: u32,
    pub jitter: bool,
}

impl SamplerFactory for StratifiedSamplerFactory {
    type Produced = StratifiedSampler;

    open spec fn wf(&self) -> bool {
        self.samples_per_pixel >= 1
    }

    open spec fn per_pixel(&self) -> nat {
        let gx = grid_x_of(self.samples_per_pixel as int);
        (gx * (self.samples_per_pixel as int / gx)) as nat
    }

    open spec fn pixel_sample_ok(&self, x: u32, y: u32, s: Sample, k: nat) -> bool {
        let gx = grid_x_of(self.samples_per_pixel as int);
        stratified_sample_ok(
            x,
            y,
            gx as u32,
            (self.samples_per_pixel as int / gx) as u32,
            self.jitter,
            s,
            k,
        )
    }

    fn make(&self, x: u32, y: u32) -> (s: StratifiedSampler)
    {
        let s = StratifiedSampler::new(x, y, self.samples_per_pixel, self.jitter);
        proof {
            let n = self.samples_per_pixel as int;
            assert(is_round_sqrt(n, s.samples_per_pixel_x as int));
            lemma_round_sqrt_unique(n, grid_x_of(n), s.samples_per_pixel_x as int);
        }
        s
    }
}

/// A full, admissible trace for pixel `(x, y)` under the factory's
/// configuration.
pub open spec fn factory_trace_ok<SF: SamplerFactory>(
    factory: SF,
    x: u32,
    y: u32,
    trace: Seq<Sample>,
) -> bool {
    &&& trace.len() == factory.per_pixel()
    &&& forall|k: nat|
        k < trace.len() ==> factory.pixel_sample_ok(x, y, #[trigger] trace[k as int], k)
            && sample_offsets_in_unit(trace[k as int])
}

/// The pixel's written value is the reconstruction of some full,
/// admissible trace of its sampler.
pub open spec fn pixel_ok<SF: SamplerFactory, R: Renderer, F: Filter>(
    factory: SF,
    renderer: R,
    filter: F,
    x: u32,
    y: u32,
    bits: int,
) -> bool {
    exists|trace: Seq<Sample>| #![trigger factory_trace_ok(factory, x, y, trace)]
        factory_trace_ok(factory, x, y, trace) && bits == pixel_value_bits(
            renderer,
            filter,
            trace,
        )
}

/// Render the whole raster: for every pixel, independently, drain a
/// fresh sampler through the render function into a reconstructor, and
/// write the pixel's value at its row-major slot.
pub fn render_image<SF: SamplerFactory, R: Renderer, F: Filter>(
    factory: &SF,
    renderer: &R,
    filter: &F,
    width: u32,
    height: u32,
) -> (out: Vec<Fx>)
    requires
        factory.wf(),
        renderer.wf(),
        filter.wf(),
        factory.per_pixel() <= 1024,
        width <= 65536,
        height <= 65536,
        width * height <= 16777216,
        forall|x: u32, y: u32, s: Sample, k: nat|
            #![trigger factory.pixel_sample_ok(x, y, s, k)]
            x < width && y < height && factory.pixel_sample_ok(x, y, s, k)
                && sample_offsets_in_unit(s) ==> renderer.in_domain(s),
    ensures
        out.len() == width * height,
        forall|x: u32, y: u32|
            x < width && y < height ==> pixel_ok(
                *factory,
                *renderer,
                *filter,
                x,
                y,
                #[trigger] out@[y * width + x].bits as int,
            ),
{
    let mut out: Vec<Fx> = Vec::new();
    let mut y: u32 = 0;
    while y < height
        invariant
            factory.wf(),
            renderer.wf(),
            filter.wf(),
            factory.per_pixel() <= 1024,
            width <= 65536,
            height <= 65536,
            width * height <= 16777216,
            forall|x2: u32, y2: u32, s: Sample, k: nat|
                #![trigger factory.pixel_sample_ok(x2, y2, s, k)]
                x2 < width && y2 < height && factory.pixel_sample_ok(x2, y2, s, k)
                    && sample_offsets_in_unit(s) ==> renderer.in_domain(s),
            y <= height,
            out.len() == y * width,
            forall|x2: u32, y2: u32|
                x2 < width && y2 < y ==> pixel_ok(
                    *factory,
                    *renderer,
                    *filter,
                    x2,
                    y2,
                    #[trigger] out@[y2 * width + x2].bits as int,
                ),
        decreases height - y,
    {
        let mut x: u32 = 0;
        proof {
            assert(y * width + width <= 16777216 && (y + 1) * width == y * width + width)
                by (nonlinear_arith)
                requires
                    y < height,
                    width * height <= 16777216,
                    width <= 65536,
                    height <= 65536,
            ;
        }
        while x < width
            invariant
                factory.wf(),
                renderer.wf(),
                filter.wf(),
                factory.per_pixel() <= 1024,
                width <= 65536,
                height <= 65536,
                width * height <= 16777216,
                forall|x2: u32, y2: u32, s: Sample, k: nat|
                    #![trigger factory.pixel_sample_ok(x2, y2, s, k)]
                    x2 < width && y2 < height && factory.pixel_sample_ok(x2, y2, s, k)
                        && sample_offsets_in_unit(s) ==> renderer.in_domain(s),
                y < height,
                x <= width,
                y * width + width <= 16777216,
                out.len() == y * width + x,
                forall|x2: u32, y2: u32|
                    x2 < width && y2 < y ==> pixel_ok(
                        *factory,
                        *renderer,
                        *filter,
                        x2,
                        y2,
                        #[trigger] out@[y2 * width + x2].bits as int,
                    ),
                forall|x2: u32|
                    x2 < x ==> pixel_ok(
                        *factory,
                        *renderer,
                        *filter,
                        x2,
                        y,
                        #[trigger] out@[y * width + x2].bits as int,
                    ),
            decreases width - x,
        {
            let sampler = factory.make(x, y);
            proof {
                assert forall|s: Sample, k: nat| #![trigger sampler.sample_ok(s, k)]
                    sampler.sample_ok(s, k) && sample_offsets_in_unit(s)
                        implies renderer.in_domain(s) by {
                    assert(factory.pixel_sample_ok(x, y, s, k));
                }
            }
            let v = render_pixel(sampler, renderer, filter);
            proof {
                let trace = choose|trace: Seq<Sample>|
                    #![trigger trace_ok(sampler, trace)]
                    trace_ok(sampler, trace) && v.bits == pixel_value_bits(
                        *renderer,
                        *filter,
                        trace,
                    );
                assert(factory_trace_ok(*factory, x, y, trace));
                assert(pixel_ok(*factory, *renderer, *filter, x, y, v.bits as int));
            }
            out.push(v);
            x = x + 1;
            proof {
                assert forall|x2: u32, y2: u32|
                    x2 < width && y2 < y implies pixel_ok(
                        *factory,
                        *renderer,
                        *filter,
                        x2,
                        y2,
                        #[trigger] out@[y2 * width + x2].bits as int,
                    ) by {
                    assert(y2 * width + x2 < y * width) by (nonlinear_arith)
                        requires
                            y2 < y,
                            x2 < width,
                    ;
                }
            }
        }
        y = y + 1;
    }
    proof {
        assert(out.len() == height * width && height * width == width * height)
            by (nonlinear_arith)
            requires
                out.len() == y * width,
                y == height,
        ;
    }
    out
}


/// The simple sampler admits exactly one trace: its single centre sample.
pub proof fn lemma_simple_trace_unique(smp: SimpleSampler, t1: Seq<Sample>, t2: Seq<Sample>)
    requires
        trace_ok(smp, t1),
        trace_ok(smp, t2),
    ensures
        t1 == t2,
{
    assert(smp.sample_ok(t1[0], 0));
    assert(smp.sample_ok(t2[0], 0));
    assert(t1 =~= t2);
}

/// Without jitter, the stratified sampler admits exactly one trace: each
/// cell's centre, row-major.
pub proof fn lemma_stratified_trace_unique(
    smp: StratifiedSampler,
    t1: Seq<Sample>,
    t2: Seq<Sample>,
)
    requires
        !smp.jitter,
        trace_ok(smp, t1),
        trace_ok(smp, t2),
    ensures
        t1 == t2,
{
    assert forall|k: int| 0 <= k < t1.len() implies t1[k] == t2[k] by {
        let kn = k as nat;
        assert(smp.sample_ok(t1[k], kn) && smp.sample_ok(t2[k], kn));
        let gx = smp.samples_per_pixel_x as int;
        let gy = smp.samples_per_pixel_y as int;
        let ix = kn as int % gx;
        let iy = kn as int / gx;
        let (jx1, jy1) = choose|jx: int, jy: int|
            #![trigger crate::sampling::stratified::valid_jitter(smp.jitter, jx),
                crate::sampling::stratified::valid_jitter(smp.jitter, jy)]
            (crate::sampling::stratified::valid_jitter(smp.jitter, jx)
                && crate::sampling::stratified::valid_jitter(smp.jitter, jy)
                && t1[k].offset_x.bits == crate::sampling::stratified::stratified_offset_bits(
                ix,
                jx,
                gx,
            ) && t1[k].offset_y.bits == crate::sampling::stratified::stratified_offset_bits(
                iy,
                jy,
                gy,
            ));
        let (jx2, jy2) = choose|jx: int, jy: int|
            #![trigger crate::sampling::stratified::valid_jitter(smp.jitter, jx),
                crate::sampling::stratified::valid_jitter(smp.jitter, jy)]
            (crate::sampling::stratified::valid_jitter(smp.jitter, jx)
                && crate::sampling::stratified::valid_jitter(smp.jitter, jy)
                && t2[k].offset_x.bits == crate::sampling::stratified::stratified_offset_bits(
                ix,
                jx,
                gx,
            ) && t2[k].offset_y.bits == crate::sampling::stratified::stratified_offset_bits(
                iy,
                jy,
                gy,
            ));
        assert(jx1 == crate::fixed::FX_HALF && jy1 == crate::fixed::FX_HALF);
        assert(jx2 == crate::fixed::FX_HALF && jy2 == crate::fixed::FX_HALF);
        assert(t1[k] =~= t2[k]);
    }
    assert(t1 =~= t2);
}

/// Rendering the same pixel twice with the simple sampler gives
/// bit-identical values.
pub proof fn lemma_simple_pixel_deterministic<R: Renderer, F: Filter>(
    smp: SimpleSampler,
    renderer: R,
    filter: F,
    b1: int,
    b2: int,
)
    requires
        pixel_admissible(smp, renderer, filter, b1),
        pixel_admissible(smp, renderer, filter, b2),
    ensures
        b1 == b2,
{
    let t1 = choose|trace: Seq<Sample>| #![trigger trace_ok(smp, trace)]
        trace_ok(smp, trace) && b1 == pixel_value_bits(renderer, filter, trace);
    let t2 = choose|trace: Seq<Sample>| #![trigger trace_ok(smp, trace)]
        trace_ok(smp, trace) && b2 == pixel_value_bits(renderer, filter, trace);
    lemma_simple_trace_unique(smp, t1, t2);
}

/// Rendering the same pixel twice with an unjittered stratified sampler
/// gives bit-identical values: without randomness the whole pipeline is
/// deterministic.
pub proof fn lemma_stratified_pixel_deterministic<R: Renderer, F: Filter>(
    smp: StratifiedSampler,
    renderer: R,
    filter: F,
    b1: int,
    b2: int,
)
    requires
        !smp.jitter,
        pixel_admissible(smp, renderer, filter, b1),
        pixel_admissible(smp, renderer, filter, b2),
    ensures
        b1 == b2,
{
    let t1 = choose|trace: Seq<Sample>| #![trigger trace_ok(smp, trace)]
        trace_ok(smp, trace) && b1 == pixel_value_bits(renderer, filter, trace);
    let t2 = choose|trace: Seq<Sample>| #![trigger trace_ok(smp, trace)]
        trace_ok(smp, trace) && b2 == pixel_value_bits(renderer, filter, trace);
    lemma_stratified_trace_unique(smp, t1, t2);
}

} // verus!
