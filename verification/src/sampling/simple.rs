//! The simplest sampler: one probe per pixel, placed at the pixel's
//! centre.

use vstd::prelude::*;

use crate::fixed::{Fx, FX_HALF};
use crate::sampling::{sample_offsets_in_unit, Sample, Sampler};

verus! {

/// Produces exactly one sample, at offset (1/2, 1/2); `fresh` records
/// whether that sample is still to come.
pub struct SimpleSampler {
    pub pixel_x: u32,
    pub pixel_y: u32,
    pub fresh: bool,
}

impl SimpleSampler {
    /// A sampler for the given pixel, with its single sample still to come.
    pub fn new(pixel_x: u32, pixel_y: u32) -> (s: SimpleSampler)
        ensures
            s.wf(),
            s.produced() == 0,
            s.total() == 1,
            forall|s2: Sample, k2: nat| s.sample_ok(s2, k2) == simple_sample_ok(
                pixel_x,
                pixel_y,
                s2,
                k2,
            ),
    {
        SimpleSampler { pixel_x, pixel_y, fresh: true }
    }
}

/// The single sample of a simple sampler: the pixel's centre.
pub open spec fn simple_sample_ok(pixel_x: u32, pixel_y: u32, s: Sample, k: nat) -> bool {
    k == 0 && s == (Sample {
        pixel_x,
        pixel_y,
        offset_x: Fx { bits: FX_HALF },
        offset_y: Fx { bits: FX_HALF },
    })
}

impl Sampler for SimpleSampler {
    open spec fn total(&self) -> nat {
        1
    }

    open spec fn produced(&self) -> nat {
        if self.fresh {
            0
        } else {
            1
        }
    }

    open spec fn wf(&self) -> bool {
        true
    }

    open spec fn sample_ok(&self, s: Sample, k: nat) -> bool {
        simple_sample_ok(self.pixel_x, self.pixel_y, s, k)
    }

    fn next(&mut self) -> (r: Option<Sample>)
    {
        if self.fresh {
            self.fresh = false;
            Some(Sample::new(self.pixel_x, self.pixel_y, Fx::half(), Fx::half()))
        } else {
            None
        }
    }

    fn remaining(&self) -> (n: usize)
    {
        if self.fresh {
            1
        } else {
            0
        }
    }
}

} // verus!
