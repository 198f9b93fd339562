//! Stratified sampling: the pixel is cut into a `grid_x` by `grid_y` lattice
//! of cells and one probe is placed in each cell, either at the cell's
//! centre or jittered uniformly inside it.

use vstd::prelude::*;

use crate::fixed::{Fx, FX_HALF, FX_ONE};
use crate::sampling::{Sample, Sampler};

verus! {

/// `r` is the nearest integer to the square root of `n` (ties cannot
/// arise: `sqrt(n) = r + 1/2` has no integer solution).
pub open spec fn is_round_sqrt(n: int, r: int) -> bool {
    &&& r >= 0
    &&& n <= r * r + r
    &&& (r == 0 || r * r - r + 1 <= n)
}

/// A jitter fraction of a cell, in units of 2^-32: any value in [0, 1)
/// when jitter is on, exactly 1/2 when it is off.
pub open spec fn valid_jitter(jitter: bool, j: int) -> bool {
    if jitter {
        0 <= j < FX_ONE
    } else {
        j == FX_HALF
    }
}

/// The fixed-point bits of the offset `(i + j/2^32) / g`: cell index plus
/// jitter fraction, scaled into the unit interval by the grid dimension.
pub open spec fn stratified_offset_bits(i: int, j: int, g: int) -> int {
    (i * FX_ONE + j) / g
}

/// What the `k`-th sample of a stratified grid may be: the cells are
/// enumerated row-major, and each axis offset is the cell index plus some
/// admissible jitter, divided by the grid dimension.
pub open spec fn stratified_sample_ok(
    x: u32,
    y: u32,
    grid_x: u32,
    grid_y: u32,
    jitter: bool,
    s: Sample,
    k: nat,
) -> bool {
    let ix = k as int % grid_x as int;
    let iy = k as int / grid_x as int;
    &&& s.pixel_x == x
    &&& s.pixel_y == y
    &&& exists|jx: int, jy: int|
        #![trigger valid_jitter(jitter, jx), valid_jitter(jitter, jy)]
        (valid_jitter(jitter, jx) && valid_jitter(jitter, jy) && s.offset_x.bits
            == stratified_offset_bits(ix, jx, grid_x as int) && s.offset_y.bits
            == stratified_offset_bits(iy, jy, grid_y as int))
}

/// Produces one sample per cell of a `samples_per_pixel_x` by
/// `samples_per_pixel_y` grid, row-major; `index_x`/`index_y` point at the
/// next cell still to be visited.
pub struct StratifiedSampler {
    pub x: u32,
    pub y: u32,
    pub samples_per_pixel_x: u32,
    pub samples_per_pixel_y: u32,
    pub jitter: bool,
    pub index_x: u32,
    pub index_y: u32,
}

/// Relies on rand::random::<u32>(): a uniformly distributed 32-bit value
/// from the thread-local generator. Any outcome is admitted; the value
/// stands for the jitter fraction `bits / 2^32` of one grid cell.
#[verifier::external_body]
fn random_unit_bits() -> u32 {
    rand::random::<u32>()
}

/// The nearest integer to the square root of `n`.
fn rounded_sqrt(n: u32) -> (r: u32)
    ensures
        is_round_sqrt(n as int, r as int),
        r <= 65536,
{
    let n64: u64 = n as u64;
    let mut s: u64 = 0;
    let mut sq: u64 = 0;
    while sq + 2 * s + 1 <= n64
        invariant
            n64 == n,
            sq == s * s,
            sq <= n64,
            s <= 65535,
        decreases n64 - sq,
    {
        proof {
            assert((s + 1) * (s + 1) == s * s + 2 * s + 1) by (nonlinear_arith);
            assert(s * s + 2 * s + 1 < 4294967296 ==> s + 1 <= 65535) by (nonlinear_arith);
        }
        sq = sq + 2 * s + 1;
        s = s + 1;
    }
    let r64: u64 = if n64 >= sq + s + 1 {
        s + 1
    } else {
        s
    };
    proof {
        assert(is_round_sqrt(n64 as int, r64 as int)) by (nonlinear_arith)
            requires
                sq == s * s,
                sq <= n64,
                n64 < sq + 2 * s + 1,
                r64 == if n64 >= sq + s + 1 {
                    s + 1int
                } else {
                    s as int
                },
        ;
    }
    r64 as u32
}

/// Row-major position arithmetic: the running index stays within the grid,
/// and reaches its end exactly when the row index does.
proof fn lemma_grid_counts(gx: int, gy: int, ix: int, iy: int)
    requires
        1 <= gx,
        0 <= ix < gx,
        0 <= iy <= gy,
        iy == gy ==> ix == 0,
    ensures
        0 <= iy * gx + ix <= gx * gy,
        iy < gy ==> iy * gx + ix < gx * gy,
        iy == gy ==> iy * gx + ix == gx * gy,
{
    assert(0 <= iy * gx + ix <= gx * gy && (iy < gy ==> iy * gx + ix < gx * gy) && (iy == gy
        ==> iy * gx + ix == gx * gy)) by (nonlinear_arith)
        requires
            1 <= gx,
            0 <= ix < gx,
            0 <= iy <= gy,
            iy == gy ==> ix == 0,
    ;
}

/// A cell offset lies in the unit interval.
proof fn lemma_offset_in_unit(i: int, j: int, g: int)
    requires
        0 <= i < g,
        0 <= j < FX_ONE,
    ensures
        0 <= stratified_offset_bits(i, j, g) < FX_ONE,
{
    let num = i * FX_ONE + j;
    assert(0 <= i * FX_ONE + j && i * FX_ONE + j < g * FX_ONE) by (nonlinear_arith)
        requires
            0 <= i < g,
            0 <= j < FX_ONE,
    ;
    vstd::arithmetic::div_mod::lemma_div_pos_is_pos(num, g);
    vstd::arithmetic::div_mod::lemma_fundamental_div_mod(num, g);
    vstd::arithmetic::div_mod::lemma_mod_division_less_than_divisor(num, g);
    assert(num / g < FX_ONE) by (nonlinear_arith)
        requires
            g >= 1,
            g * (num / g) + num % g == num,
            num % g >= 0,
            num < g * FX_ONE,
    ;
}

impl StratifiedSampler {
    /// A sampler for pixel `(x, y)` that cuts the pixel into a grid with
    /// `round(sqrt(samples_per_pixel))` columns and
    /// `samples_per_pixel / grid_x` rows (integer division: the grid may
    /// hold fewer cells than `samples_per_pixel` asked for).
    pub fn new(x: u32, y: u32, samples_per_pixel: u32, jitter: bool) -> (s: StratifiedSampler)
        requires
            samples_per_pixel >= 1,
        ensures
            s.wf(),
            s.produced() == 0,
            s.x == x,
            s.y == y,
            s.jitter == jitter,
            is_round_sqrt(samples_per_pixel as int, s.samples_per_pixel_x as int),
            s.samples_per_pixel_y == samples_per_pixel as int / s.samples_per_pixel_x as int,
            s.total() == s.samples_per_pixel_x * s.samples_per_pixel_y,
    {
        let samples_per_pixel_x: u32 = rounded_sqrt(samples_per_pixel);
        proof {
            let r = samples_per_pixel_x as int;
            let n = samples_per_pixel as int;
            assert(1 <= r && r <= n) by (nonlinear_arith)
                requires
                    is_round_sqrt(n, r),
                    n >= 1,
            ;
        }
        let samples_per_pixel_y: u32 = samples_per_pixel / samples_per_pixel_x;
        proof {
            let r = samples_per_pixel_x as int;
            let g = samples_per_pixel_y as int;
            let n = samples_per_pixel as int;
            vstd::arithmetic::div_mod::lemma_fundamental_div_mod(n, r);
            vstd::arithmetic::div_mod::lemma_mod_division_less_than_divisor(n, r);
            assert(r * g <= n);
            vstd::arithmetic::div_mod::lemma_div_is_ordered(r, n, r);
            vstd::arithmetic::div_mod::lemma_div_by_self(r);
            assert(g >= 1);
            assert(g <= r + 1) by (nonlinear_arith)
                requires
                    r >= 1,
                    r * g <= n,
                    n <= r * r + r,
            ;
        }
        StratifiedSampler {
            x,
            y,
            samples_per_pixel_x,
            samples_per_pixel_y,
            jitter,
            index_x: 0,
            index_y: 0,
        }
    }
}

impl Sampler for StratifiedSampler {
    open spec fn total(&self) -> nat {
        (self.samples_per_pixel_x * self.samples_per_pixel_y) as nat
    }

    open spec fn produced(&self) -> nat {
        (self.index_y * self.samples_per_pixel_x + self.index_x) as nat
    }

    open spec fn wf(&self) -> bool {
        &&& 1 <= self.samples_per_pixel_x <= 65536
        &&& 1 <= self.samples_per_pixel_y <= 65537
        &&& self.samples_per_pixel_x * self.samples_per_pixel_y <= u32::MAX
        &&& self.index_x < self.samples_per_pixel_x
        &&& self.index_y <= self.samples_per_pixel_y
        &&& (self.index_y == self.samples_per_pixel_y ==> self.index_x == 0)
    }

    open spec fn sample_ok(&self, s: Sample, k: nat) -> bool {
        stratified_sample_ok(
            self.x,
            self.y,
            self.samples_per_pixel_x,
            self.samples_per_pixel_y,
            self.jitter,
            s,
            k,
        )
    }

    fn next(&mut self) -> (r: Option<Sample>)
    {
        proof {
            lemma_grid_counts(
                self.samples_per_pixel_x as int,
                self.samples_per_pixel_y as int,
                self.index_x as int,
                self.index_y as int,
            );
        }
        if self.index_y < self.samples_per_pixel_y {
            let ghost k: nat = self.produced();
            let ghost pre_ix: int = self.index_x as int;
            let ghost pre_iy: int = self.index_y as int;
            let ghost gx: int = self.samples_per_pixel_x as int;
            let jx_bits: u32 = if self.jitter {
                random_unit_bits()
            } else {
                FX_HALF as u32
            };
            let jy_bits: u32 = if self.jitter {
                random_unit_bits()
            } else {
                FX_HALF as u32
            };
            let ox: u64 = (self.index_x as u64 * FX_ONE as u64 + jx_bits as u64)
                / self.samples_per_pixel_x as u64;
            let oy: u64 = (self.index_y as u64 * FX_ONE as u64 + jy_bits as u64)
                / self.samples_per_pixel_y as u64;
            proof {
                lemma_offset_in_unit(
                    self.index_x as int,
                    jx_bits as int,
                    self.samples_per_pixel_x as int,
                );
                lemma_offset_in_unit(
                    self.index_y as int,
                    jy_bits as int,
                    self.samples_per_pixel_y as int,
                );
            }
            let sample = Sample::new(
                self.x,
                self.y,
                Fx { bits: ox as i64 },
                Fx { bits: oy as i64 },
            );
            proof {
                vstd::arithmetic::div_mod::lemma_fundamental_div_mod_converse_div(
                    k as int,
                    gx,
                    pre_iy,
                    pre_ix,
                );
                vstd::arithmetic::div_mod::lemma_fundamental_div_mod_converse_mod(
                    k as int,
                    gx,
                    pre_iy,
                    pre_ix,
                );
                assert(valid_jitter(self.jitter, jx_bits as int));
                assert(valid_jitter(self.jitter, jy_bits as int));
                assert(self.sample_ok(sample, k));
            }
            self.index_x = self.index_x + 1;
            if self.index_x >= self.samples_per_pixel_x {
                self.index_x = 0;
                self.index_y = self.index_y + 1;
            }
            proof {
                assert((pre_iy + 1) * gx == pre_iy * gx + gx) by (nonlinear_arith);
            }
            Some(sample)
        } else {
            None
        }
    }

    fn remaining(&self) -> (n: usize)
    {
        proof {
            lemma_grid_counts(
                self.samples_per_pixel_x as int,
                self.samples_per_pixel_y as int,
                self.index_x as int,
                self.index_y as int,
            );
        }
        if self.index_y < self.samples_per_pixel_y {
            let remaining_y: u64 = (self.samples_per_pixel_y - self.index_y - 1) as u64;
            let remaining_x: u64 = (self.samples_per_pixel_x - self.index_x) as u64;
            proof {
                let gx = self.samples_per_pixel_x as int;
                let gy = self.samples_per_pixel_y as int;
                let ix = self.index_x as int;
                let iy = self.index_y as int;
                assert((gy - iy - 1) * gx + (gx - ix) == gx * gy - (iy * gx + ix) && 0 <= (gy
                    - iy - 1) * gx) by (nonlinear_arith)
                    requires
                        1 <= gx,
                        0 <= ix < gx,
                        0 <= iy < gy,
                ;
            }
            let rem: u64 = remaining_y * self.samples_per_pixel_x as u64 + remaining_x;
            rem as usize
        } else {
            0
        }
    }
}

} // verus!
