//! Per-pixel reconstruction: render results are summed with filter
//! weights, and the weighted sum is normalised by the total weight once a
//! pixel's samples are exhausted.

use vstd::prelude::*;

use crate::fixed::{fx_div, fx_mul, fx_sat, iabs, lemma_fx_mul_mag, Fx, FX_HALF, FX_ONE};
use crate::reconstruction::filter::{Filter, FX_WEIGHT_MAX};
use crate::sampling::Sample;

pub mod filter;

verus! {

/// Render results handed to a reconstructor stay within this magnitude
/// (4 in fixed point); escape values lie in [-1, 1].
pub const FX_RESULT_MAX: i64 = 17179869184;

/// One weighted result moves the accumulator by at most this much:
/// `FX_RESULT_MAX * FX_WEIGHT_MAX / FX_ONE`.
pub const FX_ACC_STEP: i64 = 4503599627370496;

/// The accumulator is kept within this magnitude (2^62), leaving room
/// for one further step before the representable range ends.
pub const FX_ACC_MAX: i64 = 4611686018427387904;

/// A value a render function may produce: it has a zero, an addition, a
/// scaling by a weight and a division by a weight, together with the
/// algebra that makes accumulation order-independent. `mag` measures the
/// value's components in fixed-point bits, to bound the arithmetic.
pub trait RenderResult: Sized + Copy {
    /// The magnitude of the value's largest component, in bits.
    spec fn mag(&self) -> int;

    /// The zero value.
    spec fn zero_spec() -> Self;

    /// The sum of two values.
    spec fn add_spec(self, o: Self) -> Self;

    /// The value scaled by the fixed-point weight `w`.
    spec fn scale_spec(self, w: int) -> Self;

    /// The value divided by the fixed-point weight `w`.
    spec fn div_spec(self, w: int) -> Self;

    /// Magnitudes are never negative.
    proof fn lemma_mag_nonneg(a: Self)
        ensures
            a.mag() >= 0,
    ;

    /// Addition is commutative.
    proof fn lemma_add_comm(a: Self, b: Self)
        ensures
            a.add_spec(b) == b.add_spec(a),
    ;

    /// Addition is associative, as long as the values stay within the
    /// accumulator's range.
    proof fn lemma_add_assoc(a: Self, b: Self, c: Self)
        requires
            a.mag() + b.mag() + c.mag() <= FX_ACC_MAX,
        ensures
            a.add_spec(b).add_spec(c) == a.add_spec(b.add_spec(c)),
    ;

    /// The zero value.
    fn zero() -> (r: Self)
        ensures
            r == Self::zero_spec(),
            r.mag() == 0,
    ;

    /// The sum of two values.
    fn add(self, o: Self) -> (r: Self)
        requires
            self.mag() + o.mag() <= FX_ACC_MAX,
        ensures
            r == self.add_spec(o),
            r.mag() <= self.mag() + o.mag(),
    ;

    /// The value scaled by a filter weight.
    fn scale(self, w: Fx) -> (r: Self)
        requires
            self.mag() <= FX_RESULT_MAX,
            iabs(w.bits as int) <= FX_WEIGHT_MAX,
        ensures
            r == self.scale_spec(w.bits as int),
            r.mag() <= FX_ACC_STEP,
    ;

    /// The value divided by the total weight.
    fn div_by(self, w: Fx) -> (r: Self)
        requires
            w.bits != 0,
        ensures
            r == self.div_spec(w.bits as int),
    ;
}

/// The scalar render result: a single fixed-point number.
impl RenderResult for Fx {
    open spec fn mag(&self) -> int {
        iabs(self.bits as int)
    }

    open spec fn zero_spec() -> Fx {
        Fx { bits: 0 }
    }

    open spec fn add_spec(self, o: Fx) -> Fx {
        Fx { bits: (self.bits + o.bits) as i64 }
    }

    open spec fn scale_spec(self, w: int) -> Fx {
        Fx { bits: fx_mul(self.bits as int, w) as i64 }
    }

    open spec fn div_spec(self, w: int) -> Fx {
        Fx { bits: fx_sat(fx_div(self.bits as int, w)) as i64 }
    }

    proof fn lemma_mag_nonneg(a: Fx)
    {
    }

    proof fn lemma_add_comm(a: Fx, b: Fx)
    {
    }

    proof fn lemma_add_assoc(a: Fx, b: Fx, c: Fx)
    {
    }

    fn zero() -> (r: Fx)
    {
        Fx::zero()
    }

    fn add(self, o: Fx) -> (r: Fx)
    {
        Fx { bits: self.bits + o.bits }
    }

    fn scale(self, w: Fx) -> (r: Fx)
    {
        proof {
            lemma_fx_mul_mag(
                self.bits as int,
                w.bits as int,
                17179869184,
                1125899906842624,
                4503599627370496,
            );
        }
        self.mul(w)
    }

    fn div_by(self, w: Fx) -> (r: Fx)
    {
        self.div_sat(w)
    }
}

/// Accumulates filter-weighted render results over one pixel's samples
/// and yields their normalised value. Bound to one (shared, read-only)
/// filter for its lifetime; its state is strictly pixel-scoped.
pub struct Reconstructor<'a, R: RenderResult, F: Filter> {
    pub accumulator: R,
    pub total_weight: Fx,
    pub filter: &'a F,
}

impl<'a, R: RenderResult, F: Filter> Reconstructor<'a, R, F> {
    /// The filter weight this reconstructor gives a sample: the filter,
    /// evaluated at the sample's offset from the pixel centre.
    pub open spec fn weight_of(&self, sample: Sample) -> int {
        self.filter.eval_spec(
            sample.offset_x.bits - FX_HALF,
            sample.offset_y.bits - FX_HALF,
        )
    }

    /// The value this reconstructor would report: the weighted sum
    /// normalised by the total weight, or the zero value when no weight
    /// at all was gathered (so an all-zero-weight pixel never divides by
    /// zero).
    pub open spec fn value_spec(&self) -> R {
        if self.total_weight.bits != 0 {
            self.accumulator.div_spec(self.total_weight.bits as int)
        } else {
            R::zero_spec()
        }
    }

    /// A fresh reconstructor: zero accumulator, zero total weight.
    pub fn new(filter: &'a F) -> (r: Reconstructor<'a, R, F>)
        ensures
            r.filter == filter,
            r.accumulator == R::zero_spec(),
            r.accumulator.mag() == 0,
            r.total_weight.bits == 0,
    {
        Reconstructor { accumulator: R::zero(), total_weight: Fx::zero(), filter }
    }

    /// Fold one sample's render result into the pixel: the result is
    /// scaled by the sample's filter weight and added to the weighted
    /// sum, and the weight joins the total.
    pub fn accumulate(&mut self, sample: &Sample, result: R)
        requires
            old(self).filter.wf(),
            0 <= sample.offset_x.bits <= FX_ONE,
            0 <= sample.offset_y.bits <= FX_ONE,
            old(self).accumulator.mag() + FX_ACC_STEP <= FX_ACC_MAX,
            iabs(old(self).total_weight.bits as int) + FX_WEIGHT_MAX <= i64::MAX,
            result.mag() <= FX_RESULT_MAX,
        ensures
            final(self).filter == old(self).filter,
            final(self).accumulator == old(self).accumulator.add_spec(
                result.scale_spec(old(self).weight_of(*sample)),
            ),
            final(self).total_weight.bits == old(self).total_weight.bits + old(self).weight_of(
                *sample,
            ),
            final(self).accumulator.mag() <= old(self).accumulator.mag() + FX_ACC_STEP,
            iabs(old(self).weight_of(*sample)) <= FX_WEIGHT_MAX,
            iabs(final(self).total_weight.bits as int) <= iabs(
                old(self).total_weight.bits as int,
            ) + FX_WEIGHT_MAX,
    {
        proof {
            R::lemma_mag_nonneg(old(self).accumulator);
            R::lemma_mag_nonneg(result);
        }
        let offset_x = sample.offset_x;
        let offset_y = sample.offset_y;
        let weight = self.filter.evaluate(offset_x.sub(Fx::half()), offset_y.sub(Fx::half()));
        let scaled = result.scale(weight);
        self.accumulator = self.accumulator.add(scaled);
        self.total_weight = self.total_weight.add(weight);
    }

    /// The pixel's reconstructed value: the weighted sum divided by the
    /// total weight, or the zero value when the total weight is zero.
    pub fn value(self) -> (r: R)
        ensures
            r == self.value_spec(),
    {
        if self.total_weight.bits != 0 {
            self.accumulator.div_by(self.total_weight)
        } else {
            R::zero()
        }
    }

    /// When every accumulated weight was zero the total weight is zero,
    /// and the reconstructed value is the zero value: no division
    /// happens.
    pub proof fn lemma_value_defaults_without_weight(self)
        requires
            self.total_weight.bits == 0,
        ensures
            self.value_spec() == R::zero_spec(),
    {
    }
}


/// Folding two weighted results into an accumulator in either order gives
/// the same accumulator: with commutative, associative addition the
/// reconstruction is independent of sample arrival order.
pub proof fn lemma_accumulation_order_independent<R: RenderResult>(acc: R, a: R, b: R)
    requires
        acc.mag() + a.mag() + b.mag() <= FX_ACC_MAX,
    ensures
        acc.add_spec(a).add_spec(b) == acc.add_spec(b).add_spec(a),
{
    R::lemma_mag_nonneg(acc);
    R::lemma_mag_nonneg(a);
    R::lemma_mag_nonneg(b);
    R::lemma_add_assoc(acc, a, b);
    R::lemma_add_assoc(acc, b, a);
    R::lemma_add_comm(a, b);
}

} // verus!
