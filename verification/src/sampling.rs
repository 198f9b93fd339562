//! Sub-pixel sampling: a `Sample` names one probe location inside a pixel's
//! footprint, and a `Sampler` hands out a finite, non-restartable sequence
//! of such probes for a single pixel.

use vstd::prelude::*;

use crate::fixed::{Fx, FX_ONE};

pub mod simple;
pub mod stratified;

verus! {

/// Pixel coordinates are kept below this bound so that a sample's
/// continuous location always fits the fixed-point range.
pub const MAX_PIXEL_COORD: u32 = 1073741823;

/// One sub-pixel probe: the pixel it belongs to and the offset of the
/// probe inside that pixel, each axis in [0, 1).
#[derive(Clone, Copy, PartialEq, Eq, Structural, Debug)]
#[verifier::ext_equal]
pub struct Sample {
    pub pixel_x: u32,
    pub pixel_y: u32,
    pub offset_x: Fx,
    pub offset_y: Fx,
}

/// A sample whose offsets lie in the unit interval, as every sampler
/// produces them.
pub open spec fn sample_offsets_in_unit(s: Sample) -> bool {
    &&& 0 <= s.offset_x.bits < FX_ONE
    &&& 0 <= s.offset_y.bits < FX_ONE
}

impl Sample {
    /// A sample from its parts.
    pub fn new(pixel_x: u32, pixel_y: u32, offset_x: Fx, offset_y: Fx) -> (s: Sample)
        ensures
            s == (Sample { pixel_x, pixel_y, offset_x, offset_y }),
    {
        Sample { pixel_x, pixel_y, offset_x, offset_y }
    }

    /// The continuous image-plane location of the probe:
    /// `(pixel_x + offset_x, pixel_y + offset_y)`.
    pub fn location(&self) -> (r: (Fx, Fx))
        requires
            self.pixel_x <= MAX_PIXEL_COORD,
            self.pixel_y <= MAX_PIXEL_COORD,
            0 <= self.offset_x.bits <= FX_ONE,
            0 <= self.offset_y.bits <= FX_ONE,
        ensures
            r.0.bits == self.pixel_x * FX_ONE + self.offset_x.bits,
            r.1.bits == self.pixel_y * FX_ONE + self.offset_y.bits,
    {
        let x: i64 = self.pixel_x as i64 * FX_ONE + self.offset_x.bits;
        let y: i64 = self.pixel_y as i64 * FX_ONE + self.offset_y.bits;
        (Fx { bits: x }, Fx { bits: y })
    }
}

/// A producer of a finite, per-pixel sequence of samples. The sequence is
/// exhausted exactly once: `next` hands out one sample while any are left
/// and `None` ever after, and the exact number still to come is always
/// reported ahead of exhaustion.
pub trait Sampler: Sized {
    /// How many samples this sampler produces in all.
    spec fn total(&self) -> nat;

    /// How many samples have been handed out so far.
    spec fn produced(&self) -> nat;

    /// Internal consistency of the sampler's state.
    spec fn wf(&self) -> bool;

    /// What the `k`-th sample of the sequence is allowed to be. For a
    /// jittered sampler this admits one sample per jitter outcome; for a
    /// deterministic sampler it pins the sample exactly.
    spec fn sample_ok(&self, s: Sample, k: nat) -> bool;

    /// Hand out the next sample, or `None` once the sequence is exhausted.
    fn next(&mut self) -> (r: Option<Sample>)
        requires
            old(self).wf(),
        ensures
            final(self).wf(),
            final(self).total() == old(self).total(),
            forall|s2: Sample, k2: nat|
                final(self).sample_ok(s2, k2) == old(self).sample_ok(s2, k2),
            old(self).produced() <= old(self).total(),
            r is Some <==> old(self).produced() < old(self).total(),
            r is Some ==> final(self).produced() == old(self).produced() + 1,
            r is None ==> final(self).produced() == old(self).produced(),
            r matches Some(s) ==> old(self).sample_ok(s, old(self).produced())
                && sample_offsets_in_unit(s),
    ;

    /// How many samples are still to come.
    fn remaining(&self) -> (n: usize)
        requires
            self.wf(),
        ensures
            n == self.total() - self.produced(),
    ;
}

} // verus!
