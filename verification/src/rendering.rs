//! Escape-time rendering: the shared iterate-until-escape core, the
//! smooth-colouring logarithm, and the render-function interface that the
//! pixel driver consumes.

use vstd::prelude::*;

use crate::fixed::{fx_div, fx_mul, iabs, lemma_fx_div_mag, lemma_fx_div_nonneg, lemma_fx_mul_mag, lemma_fx_mul_nonneg, tdiv, Fx, FX_ONE};
use crate::reconstruction::FX_RESULT_MAX;
use crate::sampling::Sample;

pub mod mandelbrot;

verus! {

/// A pure mapping from a sub-pixel sample to a scalar escape value. The
/// value is a function of the sample alone, so rendering is deterministic
/// and every pixel can be computed independently.
pub trait Renderer: Sized {
    /// Internal consistency of the derived viewport mapping.
    spec fn wf(&self) -> bool;

    /// The samples this renderer accepts: those inside its raster.
    spec fn in_domain(&self, s: Sample) -> bool;

    /// The escape value at the sample, as a function of the bit patterns.
    spec fn render_spec(&self, s: Sample) -> int;

    /// Evaluate the render function at one sample.
    fn render(&self, sample: &Sample) -> (r: Fx)
        requires
            self.wf(),
            self.in_domain(*sample),
        ensures
            r.bits == self.render_spec(*sample),
            iabs(r.bits as int) <= FX_RESULT_MAX,
    ;
}

/// The input to one squaring step of the fractional-bit extraction, kept
/// in [2^63, 2^64): the square, renormalised by 2^63.
pub open spec fn frac_step_m(m: int) -> int {
    let sq = (m * m) / 0x8000000000000000;
    if sq >= 0x10000000000000000 {
        sq / 2
    } else {
        sq
    }
}

/// One extracted bit of the binary logarithm's fraction: whether the
/// renormalised square reached two.
pub open spec fn frac_step_bit(m: int) -> int {
    if (m * m) / 0x8000000000000000 >= 0x10000000000000000 {
        1
    } else {
        0
    }
}

/// The first `k` fraction bits of `log2(m / 2^63)`, most significant
/// first, for `m` in [2^63, 2^64): the classical square-and-compare
/// digit recurrence.
pub open spec fn log2_frac_bits(m: int, k: nat) -> int
    decreases k,
{
    if k == 0 {
        0
    } else {
        frac_step_bit(m) * pow2_int((k - 1) as nat) + log2_frac_bits(frac_step_m(m), (k - 1) as nat)
    }
}

/// Two to the `e`, as a mathematical integer.
pub open spec fn pow2_int(e: nat) -> int
    decreases e,
{
    if e == 0 {
        1
    } else {
        2 * pow2_int((e - 1) as nat)
    }
}

/// `m`, doubled until it reaches [2^63, 2^64).
pub open spec fn normalize(m: int) -> int
    decreases 0x10000000000000000 - m when 1 <= m < 0x10000000000000000
{
    if m >= 0x8000000000000000 {
        m
    } else {
        normalize(2 * m)
    }
}

/// How many doublings `normalize` takes.
pub open spec fn normalize_count(m: int) -> int
    decreases 0x10000000000000000 - m when 1 <= m < 0x10000000000000000
{
    if m >= 0x8000000000000000 {
        0
    } else {
        1 + normalize_count(2 * m)
    }
}

/// The fixed-point binary logarithm of the fixed-point value `n / 2^32`:
/// integer part from the normalisation shift, 32 fraction bits from the
/// digit recurrence.
pub open spec fn log2_fx_spec(n: int) -> int {
    (31 - normalize_count(n)) * FX_ONE + log2_frac_bits(normalize(n), 32)
}

/// The fraction-bit recurrence keeps its argument in [2^63, 2^64).
proof fn lemma_frac_step_in_range(m: int)
    requires
        0x8000000000000000 <= m < 0x10000000000000000,
    ensures
        0x8000000000000000 <= frac_step_m(m) < 0x10000000000000000,
{
    let sq = (m * m) / 0x8000000000000000;
    assert(m * m < 0x100000000000000000000000000000000 && m * m
        >= 0x8000000000000000 * 0x8000000000000000) by (nonlinear_arith)
        requires
            0x8000000000000000 <= m < 0x10000000000000000,
    ;
    vstd::arithmetic::div_mod::lemma_div_is_ordered(
        0x8000000000000000int * 0x8000000000000000,
        m * m,
        0x8000000000000000,
    );
    vstd::arithmetic::div_mod::lemma_div_by_multiple(0x8000000000000000int, 0x8000000000000000);
    assert(sq >= 0x8000000000000000);
    vstd::arithmetic::div_mod::lemma_div_is_ordered(
        m * m,
        0x100000000000000000000000000000000int - 1,
        0x8000000000000000,
    );
    assert((0x100000000000000000000000000000000 - 1int) / 0x8000000000000000
        == 0x20000000000000000 - 1) by {
        vstd::arithmetic::div_mod::lemma_fundamental_div_mod_converse_div(
            0x100000000000000000000000000000000int - 1,
            0x8000000000000000,
            0x20000000000000000 - 1,
            0x8000000000000000 - 1,
        );
    }
    assert(sq <= 0x20000000000000000 - 1);
    if sq >= 0x10000000000000000 {
        vstd::arithmetic::div_mod::lemma_div_is_ordered(0x10000000000000000int, sq, 2);
        vstd::arithmetic::div_mod::lemma_div_is_ordered(sq, 0x20000000000000000int - 1, 2);
        vstd::arithmetic::div_mod::lemma_fundamental_div_mod_converse_div(
            0x10000000000000000int,
            2,
            0x8000000000000000,
            0,
        );
        vstd::arithmetic::div_mod::lemma_fundamental_div_mod_converse_div(
            0x20000000000000000int - 1,
            2,
            0x10000000000000000 - 1,
            1,
        );
    }
}

/// The fraction bits stay below one: `log2_frac_bits(m, k) < 2^k`.
proof fn lemma_frac_bits_range(m: int, k: nat)
    requires
        0x8000000000000000 <= m < 0x10000000000000000,
    ensures
        0 <= log2_frac_bits(m, k) < pow2_int(k),
    decreases k,
{
    if k == 0 {
    } else {
        lemma_frac_step_in_range(m);
        lemma_frac_bits_range(frac_step_m(m), (k - 1) as nat);
    }
}

/// The fixed-point binary logarithm of the value `n / 2^32`, correct to
/// its 32-bit digit recurrence.
pub fn log2_fx(n: i64) -> (r: Fx)
    requires
        n >= 1,
    ensures
        r.bits == log2_fx_spec(n as int),
        -32 * FX_ONE <= r.bits < 32 * FX_ONE,
{
    let mut m: u64 = n as u64;
    let mut s: u32 = 0;
    while m < 0x8000000000000000
        invariant
            1 <= m,
            pow2_int(s as nat) <= m,
            s <= 63,
            normalize(n as int) == normalize(m as int),
            normalize_count(n as int) == s + normalize_count(m as int),
        decreases 0x10000000000000000int - m,
    {
        proof {
            assert(normalize(m as int) == normalize(2 * (m as int)) && normalize_count(m as int)
                == 1 + normalize_count(2 * (m as int)));
            assert(pow2_int((s + 1) as nat) == 2 * pow2_int(s as nat));
            if s >= 63 {
                lemma_pow2_int_values();
            }
        }
        m = m * 2;
        s = s + 1;
    }
    proof {
        assert(normalize(m as int) == m as int && normalize_count(m as int) == 0);
        lemma_frac_bits_range(m as int, 32);
        lemma_pow2_int_32();
    }
    let ghost m0: int = m as int;
    let mut frac: i64 = 0;
    let mut i: u32 = 0;
    while i < 32
        invariant
            i <= 32,
            0x8000000000000000 <= m < 0x10000000000000000,
            0 <= frac < pow2_int(i as nat),
            log2_frac_bits(m0, 32) == frac * pow2_int((32 - i) as nat) + log2_frac_bits(
                m as int,
                (32 - i) as nat,
            ),
        decreases 32 - i,
    {
        proof {
            lemma_frac_step_in_range(m as int);
            lemma_frac_bits_range(m as int, (32 - i) as nat);
            lemma_pow2_int_32();
            lemma_frac_loop_step(m0, m as int, frac as int, i as nat);
            assert((m as u128) * (m as u128) < 0x100000000000000000000000000000000)
                by (nonlinear_arith)
                requires
                    m < 0x10000000000000000,
            ;
        }
        let wide: u128 = (m as u128) * (m as u128);
        let sq: u128 = wide / 0x8000000000000000;
        if sq >= 0x10000000000000000 {
            m = (sq / 2) as u64;
            frac = frac * 2 + 1;
        } else {
            m = sq as u64;
            frac = frac * 2;
        }
        i = i + 1;
    }
    proof {
        assert(log2_frac_bits(m as int, 0) == 0);
        assert(pow2_int(0) == 1);
        lemma_frac_bits_range(m0, 32);
        lemma_pow2_int_32();
    }
    let whole: i64 = 31 - s as i64;
    proof {
        assert(frac * pow2_int(0) == frac) by (nonlinear_arith);
    }
    Fx { bits: whole * FX_ONE + frac }
}

/// `pow2_int` at the loop's concrete exponents.
proof fn lemma_pow2_int_32()
    ensures
        pow2_int(32) == 0x100000000,
        forall|e: nat| e <= 32 ==> #[trigger] pow2_int(e) <= 0x100000000,
        forall|e: nat| 0 < #[trigger] pow2_int(e),
{
    assert forall|e: nat| 0 < #[trigger] pow2_int(e) by {
        lemma_pow2_int_pos(e);
    }
    assert(pow2_int(32) == 0x100000000) by {
        reveal_with_fuel(pow2_int, 33);
    }
    assert forall|e: nat| e <= 32 implies #[trigger] pow2_int(e) <= 0x100000000 by {
        lemma_pow2_int_mono(e, 32);
    }
}

/// `pow2_int` at the concrete exponents the logarithm code relies on.
#[verifier::spinoff_prover]
proof fn lemma_pow2_int_values()
    ensures
        pow2_int(0) == 1,
        pow2_int(32) == 0x100000000,
        pow2_int(34) == 0x400000000,
        pow2_int(35) == 0x800000000,
        pow2_int(47) == 0x800000000000,
        pow2_int(63) == 0x8000000000000000,
        pow2_int(64) == 0x10000000000000000,
{
    reveal_with_fuel(pow2_int, 65);
}

/// `pow2_int` is positive.
proof fn lemma_pow2_int_pos(e: nat)
    ensures
        0 < pow2_int(e),
    decreases e,
{
    if e > 0 {
        lemma_pow2_int_pos((e - 1) as nat);
    }
}

/// `pow2_int` is monotone.
proof fn lemma_pow2_int_mono(e1: nat, e2: nat)
    requires
        e1 <= e2,
    ensures
        pow2_int(e1) <= pow2_int(e2),
    decreases e2,
{
    if e1 < e2 {
        lemma_pow2_int_mono(e1, (e2 - 1) as nat);
        lemma_pow2_int_pos((e2 - 1) as nat);
    }
}

/// The squared magnitude `|z|^2` of a complex value, in fixed point.
pub open spec fn fx_norm_sqr(zr: int, zi: int) -> int {
    fx_mul(zr, zr) + fx_mul(zi, zi)
}

/// The real part of `z*z + c`.
pub open spec fn iter_step_re(zr: int, zi: int, cr: int) -> int {
    fx_mul(zr, zr) - fx_mul(zi, zi) + cr
}

/// The imaginary part of `z*z + c`.
pub open spec fn iter_step_im(zr: int, zi: int, ci: int) -> int {
    2 * fx_mul(zr, zi) + ci
}

/// The `k`-th iterate of `z -> z*z + c` from `z0`, as a pair of bit
/// patterns.
pub open spec fn iter_z(z0r: int, z0i: int, cr: int, ci: int, k: nat) -> (int, int)
    decreases k,
{
    if k == 0 {
        (z0r, z0i)
    } else {
        let p = iter_z(z0r, z0i, cr, ci, (k - 1) as nat);
        (iter_step_re(p.0, p.1, cr), iter_step_im(p.0, p.1, ci))
    }
}

/// The number of iterations the escape loop spends: the index of the
/// first iterate whose squared magnitude exceeds four, or the whole
/// budget when no iterate escapes.
pub open spec fn escape_count(z0r: int, z0i: int, cr: int, ci: int, max: nat) -> nat
    decreases max,
{
    if max == 0 {
        0
    } else if fx_norm_sqr(z0r, z0i) > 4 * FX_ONE {
        0
    } else {
        1 + escape_count(
            iter_step_re(z0r, z0i, cr),
            iter_step_im(z0r, z0i, ci),
            cr,
            ci,
            (max - 1) as nat,
        )
    }
}

/// Starting the iteration one step later shifts the iterate index.
proof fn lemma_iter_shift(z0r: int, z0i: int, cr: int, ci: int, k: nat)
    ensures
        iter_z(
            iter_step_re(z0r, z0i, cr),
            iter_step_im(z0r, z0i, ci),
            cr,
            ci,
            k,
        ) == iter_z(z0r, z0i, cr, ci, (k + 1) as nat),
    decreases k,
{
    let z1r = iter_step_re(z0r, z0i, cr);
    let z1i = iter_step_im(z0r, z0i, ci);
    if k == 0 {
        assert(iter_z(z1r, z1i, cr, ci, 0) == (z1r, z1i));
        assert(iter_z(z0r, z0i, cr, ci, (0 + 1) as nat) == {
            let p = iter_z(z0r, z0i, cr, ci, 0);
            (iter_step_re(p.0, p.1, cr), iter_step_im(p.0, p.1, ci))
        });
    } else {
        lemma_iter_shift(z0r, z0i, cr, ci, (k - 1) as nat);
        assert(iter_z(z1r, z1i, cr, ci, k) == {
            let p = iter_z(z1r, z1i, cr, ci, (k - 1) as nat);
            (iter_step_re(p.0, p.1, cr), iter_step_im(p.0, p.1, ci))
        });
        assert(iter_z(z0r, z0i, cr, ci, (k + 1) as nat) == {
            let p = iter_z(z0r, z0i, cr, ci, k);
            (iter_step_re(p.0, p.1, cr), iter_step_im(p.0, p.1, ci))
        });
    }
}

/// A trace that stays inside the escape bound for `i` steps and leaves it
/// at step `i` (if the budget allows) pins the escape count at `i`.
proof fn lemma_escape_count_eq(z0r: int, z0i: int, cr: int, ci: int, max: nat, i: nat)
    requires
        i <= max,
        forall|j: nat|
            #![trigger iter_z(z0r, z0i, cr, ci, j)]
            j < i ==> fx_norm_sqr(
                iter_z(z0r, z0i, cr, ci, j).0,
                iter_z(z0r, z0i, cr, ci, j).1,
            ) <= 4 * FX_ONE,
        i < max ==> fx_norm_sqr(
            iter_z(z0r, z0i, cr, ci, i).0,
            iter_z(z0r, z0i, cr, ci, i).1,
        ) > 4 * FX_ONE,
    ensures
        escape_count(z0r, z0i, cr, ci, max) == i,
    decreases max,
{
    if max == 0 {
    } else if i == 0 {
        assert(iter_z(z0r, z0i, cr, ci, 0) == (z0r, z0i));
    } else {
        assert(iter_z(z0r, z0i, cr, ci, 0) == (z0r, z0i));
        assert(fx_norm_sqr(z0r, z0i) <= 4 * FX_ONE);
        let z1r = iter_step_re(z0r, z0i, cr);
        let z1i = iter_step_im(z0r, z0i, ci);
        assert forall|j: nat|
            #![trigger iter_z(z1r, z1i, cr, ci, j)]
            j < i - 1 implies fx_norm_sqr(
            iter_z(z1r, z1i, cr, ci, j).0,
            iter_z(z1r, z1i, cr, ci, j).1,
        ) <= 4 * FX_ONE by {
            lemma_iter_shift(z0r, z0i, cr, ci, j);
            assert(fx_norm_sqr(
                iter_z(z0r, z0i, cr, ci, (j + 1) as nat).0,
                iter_z(z0r, z0i, cr, ci, (j + 1) as nat).1,
            ) <= 4 * FX_ONE);
        }
        if ((i - 1) as nat) < ((max - 1) as nat) {
            lemma_iter_shift(z0r, z0i, cr, ci, (i - 1) as nat);
        }
        lemma_escape_count_eq(z1r, z1i, cr, ci, (max - 1) as nat, (i - 1) as nat);
    }
}

/// Components computed with the fixed-point products form exactly one
/// iteration step.
proof fn lemma_step_matches(ozr: int, ozi: int, cr: int, ci: int, nr: int, ni: int)
    requires
        nr == fx_mul(ozr, ozr) - fx_mul(ozi, ozi) + cr,
        ni == 2 * fx_mul(ozr, ozi) + ci,
    ensures
        nr == iter_step_re(ozr, ozi, cr),
        ni == iter_step_im(ozr, ozi, ci),
{
}

/// A fixed-point square is never negative.
proof fn lemma_fx_sq_nonneg(a: int)
    ensures
        fx_mul(a, a) >= 0,
{
    assert(a * a >= 0) by (nonlinear_arith);
    vstd::arithmetic::div_mod::lemma_div_pos_is_pos(a * a, FX_ONE as int);
}

/// Inside the escape bound, both components of `z` are small: were a
/// component beyond three, the squared magnitude would exceed nine.
proof fn lemma_small_norm_bounds(zr: int, zi: int)
    requires
        iabs(zr) <= 0x7fffffffffffffff,
        iabs(zi) <= 0x7fffffffffffffff,
        fx_norm_sqr(zr, zi) <= 4 * FX_ONE,
    ensures
        iabs(zr) <= 12884901888,
        iabs(zi) <= 12884901888,
{
    lemma_fx_sq_nonneg(zr);
    lemma_fx_sq_nonneg(zi);
    if iabs(zr) > 12884901888 {
        assert(zr * zr >= 38654705664 * (FX_ONE as int)) by (nonlinear_arith)
            requires
                iabs(zr) > 12884901888,
        ;
        vstd::arithmetic::div_mod::lemma_div_is_ordered(
            38654705664 * (FX_ONE as int),
            zr * zr,
            FX_ONE as int,
        );
        vstd::arithmetic::div_mod::lemma_div_by_multiple(38654705664, FX_ONE as int);
        assert(fx_mul(zr, zr) >= 38654705664);
    }
    if iabs(zi) > 12884901888 {
        assert(zi * zi >= 38654705664 * (FX_ONE as int)) by (nonlinear_arith)
            requires
                iabs(zi) > 12884901888,
        ;
        vstd::arithmetic::div_mod::lemma_div_is_ordered(
            38654705664 * (FX_ONE as int),
            zi * zi,
            FX_ONE as int,
        );
        vstd::arithmetic::div_mod::lemma_div_by_multiple(38654705664, FX_ONE as int);
        assert(fx_mul(zi, zi) >= 38654705664);
    }
}

/// Iterate `z -> z*z + c` from `z0` until `|z|^2` exceeds four or the
/// budget runs out; the shared core of every escape-time render function.
/// Returns the iteration count and the final iterate.
#[verifier::rlimit(60)]
pub fn escape_iterate(z0_re: Fx, z0_im: Fx, c_re: Fx, c_im: Fx, max_iterations: u64) -> (r: (
    u64,
    Fx,
    Fx,
))
    requires
        max_iterations <= 1048576,
        iabs(z0_re.bits as int) <= 274877906944,
        iabs(z0_im.bits as int) <= 274877906944,
        iabs(c_re.bits as int) <= 274877906944,
        iabs(c_im.bits as int) <= 274877906944,
    ensures
        r.0 <= max_iterations,
        r.0 as nat == escape_count(
            z0_re.bits as int,
            z0_im.bits as int,
            c_re.bits as int,
            c_im.bits as int,
            max_iterations as nat,
        ),
        (r.1.bits as int, r.2.bits as int) == iter_z(
            z0_re.bits as int,
            z0_im.bits as int,
            c_re.bits as int,
            c_im.bits as int,
            r.0 as nat,
        ),
        r.0 < max_iterations ==> fx_norm_sqr(r.1.bits as int, r.2.bits as int) > 4 * FX_ONE,
        iabs(r.1.bits as int) <= 412316860416,
        iabs(r.2.bits as int) <= 412316860416,
{
    let ghost z0r: int = z0_re.bits as int;
    let ghost z0i: int = z0_im.bits as int;
    let ghost cr: int = c_re.bits as int;
    let ghost ci: int = c_im.bits as int;
    let mut zr = z0_re;
    let mut zi = z0_im;
    let mut i: u64 = 0;
    proof {
        lemma_fx_mul_mag(zr.bits as int, zr.bits as int, 274877906944, 274877906944, 17592186044416);
        lemma_fx_mul_mag(zi.bits as int, zi.bits as int, 274877906944, 274877906944, 17592186044416);
    }
    let mut nsq: i64 = zr.mul(zr).bits + zi.mul(zi).bits;
    while nsq <= 4 * FX_ONE && i < max_iterations
        invariant
            i <= max_iterations,
            z0r == z0_re.bits as int,
            z0i == z0_im.bits as int,
            cr == c_re.bits as int,
            ci == c_im.bits as int,
            iabs(c_re.bits as int) <= 274877906944,
            iabs(c_im.bits as int) <= 274877906944,
            iabs(zr.bits as int) <= 412316860416,
            iabs(zi.bits as int) <= 412316860416,
            nsq == fx_norm_sqr(zr.bits as int, zi.bits as int),
            (zr.bits as int, zi.bits as int) == iter_z(z0r, z0i, cr, ci, i as nat),
            forall|j: nat|
                #![trigger iter_z(z0r, z0i, cr, ci, j)]
                j < i ==> fx_norm_sqr(
                    iter_z(z0r, z0i, cr, ci, j).0,
                    iter_z(z0r, z0i, cr, ci, j).1,
                ) <= 4 * FX_ONE,
        decreases max_iterations - i,
    {
        proof {
            lemma_small_norm_bounds(zr.bits as int, zi.bits as int);
            lemma_fx_mul_mag(
                zr.bits as int,
                zr.bits as int,
                12884901888,
                12884901888,
                38654705664,
            );
            lemma_fx_mul_mag(
                zi.bits as int,
                zi.bits as int,
                12884901888,
                12884901888,
                38654705664,
            );
            lemma_fx_mul_mag(
                zr.bits as int,
                zi.bits as int,
                12884901888,
                12884901888,
                38654705664,
            );
        }
        let ghost ozr: int = zr.bits as int;
        let ghost ozi: int = zi.bits as int;
        let zr2 = zr.mul(zr);
        let zi2 = zi.mul(zi);
        let cross = zr.mul(zi);
        let new_re = zr2.sub(zi2).add(c_re);
        let new_im = Fx { bits: 2 * cross.bits }.add(c_im);
        proof {
            assert(zr2.bits == fx_mul(ozr, ozr) && zi2.bits == fx_mul(ozi, ozi) && cross.bits
                == fx_mul(ozr, ozi));
            lemma_step_matches(ozr, ozi, cr, ci, new_re.bits as int, new_im.bits as int);
        }
        zr = new_re;
        zi = new_im;
        i = i + 1;
        proof {
            assert(iter_z(z0r, z0i, cr, ci, i as nat) == {
                let p = iter_z(z0r, z0i, cr, ci, (i - 1) as nat);
                (iter_step_re(p.0, p.1, cr), iter_step_im(p.0, p.1, ci))
            });
            assert(iter_z(z0r, z0i, cr, ci, (i - 1) as nat) == (ozr, ozi));
            assert((zr.bits as int, zi.bits as int) == iter_z(z0r, z0i, cr, ci, i as nat));
            lemma_fx_mul_mag(
                zr.bits as int,
                zr.bits as int,
                412316860416,
                412316860416,
                39582418599936,
            );
            lemma_fx_mul_mag(
                zi.bits as int,
                zi.bits as int,
                412316860416,
                412316860416,
                39582418599936,
            );
        }
        nsq = zr.mul(zr).bits + zi.mul(zi).bits;
    }
    proof {
        lemma_escape_count_eq(z0r, z0i, cr, ci, max_iterations as nat, i as nat);
    }
    (i, zr, zi)
}

/// One step of the fraction loop preserves its accounting invariant.
proof fn lemma_frac_loop_step(m0: int, m: int, frac: int, i: nat)
    requires
        i < 32,
        0x8000000000000000 <= m < 0x10000000000000000,
        log2_frac_bits(m0, 32) == frac * pow2_int((32 - i) as nat) + log2_frac_bits(
            m,
            (32 - i) as nat,
        ),
    ensures
        log2_frac_bits(m0, 32) == (2 * frac + frac_step_bit(m)) * pow2_int((31 - i) as nat)
            + log2_frac_bits(frac_step_m(m), (31 - i) as nat),
{
    let k = (32 - i) as nat;
    assert(log2_frac_bits(m, k) == frac_step_bit(m) * pow2_int((k - 1) as nat) + log2_frac_bits(
        frac_step_m(m),
        (k - 1) as nat,
    ));
    assert(pow2_int(k) == 2 * pow2_int((k - 1) as nat));
    assert(frac * (2 * pow2_int((k - 1) as nat)) == (2 * frac) * pow2_int((k - 1) as nat))
        by (nonlinear_arith);
    assert((2 * frac) * pow2_int((k - 1) as nat) + frac_step_bit(m) * pow2_int((k - 1) as nat)
        == (2 * frac + frac_step_bit(m)) * pow2_int((k - 1) as nat)) by (nonlinear_arith);
}


/// `normalize` lands in [2^63, 2^64).
proof fn lemma_normalize_in_range(m: int)
    requires
        1 <= m < 0x10000000000000000,
    ensures
        0x8000000000000000 <= normalize(m) < 0x10000000000000000,
    decreases 0x10000000000000000 - m,
{
    if m < 0x8000000000000000 {
        lemma_normalize_in_range(2 * m);
    }
}

/// A value at least `2^e` is normalised within `63 - e` doublings.
proof fn lemma_count_upper(m: int, e: nat)
    requires
        e <= 63,
        pow2_int(e) <= m < 0x10000000000000000,
    ensures
        0 <= normalize_count(m) <= 63 - e,
    decreases 0x10000000000000000 - m,
{
    lemma_pow2_int_pos(e);
    if m >= 0x8000000000000000 {
    } else {
        lemma_pow2_int_values();
        if e >= 63 {
            lemma_pow2_int_mono(63, e);
        }
        assert(pow2_int((e + 1) as nat) == 2 * pow2_int(e));
        lemma_count_upper(2 * m, (e + 1) as nat);
    }
}

/// A value below `2^e` needs at least `63 - e` doublings.
proof fn lemma_count_lower(m: int, e: nat)
    requires
        e <= 63,
        1 <= m < pow2_int(e),
    ensures
        normalize_count(m) >= 63 - e,
    decreases 0x10000000000000000 - m,
{
    lemma_pow2_int_values();
    lemma_pow2_int_mono(e, 63);
    if e == 63 {
        lemma_count_nonneg(m);
    } else {
        assert(pow2_int((e + 1) as nat) == 2 * pow2_int(e));
        lemma_count_lower(2 * m, (e + 1) as nat);
    }
}

/// The normalisation count is never negative.
proof fn lemma_count_nonneg(m: int)
    requires
        1 <= m < 0x10000000000000000,
    ensures
        normalize_count(m) >= 0,
    decreases 0x10000000000000000 - m,
{
    if m < 0x8000000000000000 {
        lemma_count_nonneg(2 * m);
    }
}

/// The smooth escape value: the iteration count, corrected by the doubled
/// logarithm of the final magnitude, normalised by the iteration budget.
pub open spec fn smooth_spec(i: int, max: int, nsq: int) -> int {
    let l2 = log2_fx_spec(tdiv(log2_fx_spec(nsq), 2));
    tdiv(i * FX_ONE - l2, max)
}

/// The smooth escape value `(i - log2(log2(|z|))) / max`, computed from
/// the squared magnitude: `log2(|z|)` is half of `log2(|z|^2)`.
pub fn smooth_value(i: u64, max_iterations: u64, norm_sqr: Fx) -> (r: Fx)
    requires
        1 <= max_iterations <= 1048576,
        i < max_iterations,
        norm_sqr.bits > 4 * FX_ONE,
        norm_sqr.bits <= 79164837199872,
    ensures
        r.bits == smooth_spec(i as int, max_iterations as int, norm_sqr.bits as int),
        iabs(r.bits as int) <= FX_RESULT_MAX,
        r.bits < FX_ONE,
{
    let l1 = log2_fx(norm_sqr.bits);
    proof {
        lemma_pow2_int_values();
        lemma_count_upper(norm_sqr.bits as int, 34);
        lemma_count_lower(norm_sqr.bits as int, 47);
        lemma_normalize_in_range(norm_sqr.bits as int);
        lemma_frac_bits_range(normalize(norm_sqr.bits as int), 32);
        lemma_pow2_int_32();
    }
    let lhalf: i64 = l1.bits / 2;
    proof {
        assert(lhalf == tdiv(l1.bits as int, 2));
        assert(lhalf >= FX_ONE && lhalf < 34359738368) by {
            vstd::arithmetic::div_mod::lemma_div_is_ordered(2 * (FX_ONE as int), l1.bits as int, 2);
            vstd::arithmetic::div_mod::lemma_div_is_ordered(l1.bits as int, 68719476735, 2);
            vstd::arithmetic::div_mod::lemma_fundamental_div_mod_converse_div(
                2 * (FX_ONE as int),
                2,
                FX_ONE as int,
                0,
            );
            vstd::arithmetic::div_mod::lemma_fundamental_div_mod_converse_div(
                68719476735,
                2,
                34359738367,
                1,
            );
        }
    }
    let l2 = log2_fx(lhalf);
    proof {
        lemma_pow2_int_values();
        lemma_count_upper(lhalf as int, 32);
        lemma_count_lower(lhalf as int, 35);
        lemma_normalize_in_range(lhalf as int);
        lemma_frac_bits_range(normalize(lhalf as int), 32);
        lemma_pow2_int_32();
    }
    let num: i64 = (i as i64) * FX_ONE - l2.bits;
    let r: i64 = num / (max_iterations as i64);
    proof {
        crate::fixed::lemma_tdiv_mag(num as int, max_iterations as int);
        if num >= 0 {
            vstd::arithmetic::div_mod::lemma_div_is_ordered(
                num as int,
                max_iterations * (FX_ONE as int) - 1,
                max_iterations as int,
            );
            vstd::arithmetic::div_mod::lemma_fundamental_div_mod_converse_div(
                max_iterations * (FX_ONE as int) - 1,
                max_iterations as int,
                FX_ONE - 1,
                max_iterations - 1,
            );
            vstd::arithmetic::div_mod::lemma_div_pos_is_pos(num as int, max_iterations as int);
            assert(num <= max_iterations * (FX_ONE as int) - 1) by (nonlinear_arith)
                requires
                    num <= (max_iterations - 1) * (FX_ONE as int) + 0,
                    max_iterations >= 1,
            ;
        }
    }
    Fx { bits: r }
}


/// The aspect correction along x: one for landscape rasters, the height
/// over the width for portrait ones.
pub open spec fn aspect_x_bits(w: int, h: int) -> int {
    if w >= h {
        FX_ONE as int
    } else {
        fx_div(h * FX_ONE, w * FX_ONE)
    }
}

/// The aspect correction along y: the height over the width for
/// landscape rasters, one for portrait ones.
pub open spec fn aspect_y_bits(w: int, h: int) -> int {
    if w >= h {
        fx_div(h * FX_ONE, w * FX_ONE)
    } else {
        FX_ONE as int
    }
}

/// An aspect correction lies in (0, 2] when the raster dimensions are
/// within a factor of two of each other.
proof fn lemma_aspect_range(w: int, h: int)
    requires
        1 <= w <= 1048576,
        1 <= h <= 1048576,
        w <= 2 * h,
        h <= 2 * w,
    ensures
        0 <= aspect_x_bits(w, h) <= 2 * FX_ONE,
        0 <= aspect_y_bits(w, h) <= 2 * FX_ONE,
{
    lemma_fx_div_nonneg(h * FX_ONE, w * FX_ONE);
    crate::fixed::lemma_tdiv_mag(h * FX_ONE * FX_ONE, w * FX_ONE);
    assert(iabs(fx_div(h * FX_ONE, w * FX_ONE)) <= 2 * FX_ONE) by {
        lemma_fx_div_mag(h * FX_ONE, w * FX_ONE, 2 * w * FX_ONE, w * FX_ONE, 2 * FX_ONE);
        assert(iabs(h * FX_ONE) <= 2 * w * FX_ONE && iabs(w * FX_ONE) == w * FX_ONE && 2 * w
            * FX_ONE * FX_ONE <= 2 * FX_ONE * (w * FX_ONE) && 1 <= w * FX_ONE)
            by (nonlinear_arith)
            requires
                1 <= w,
                1 <= h,
                h <= 2 * w,
                FX_ONE == 4294967296,
        ;
    }
}

/// The derived affine viewport mapping shared by the escape-time render
/// functions: from a centre, a half-extent scale and the raster size to
/// the plane offset of the top-left corner and the per-pixel plane step
/// on each axis (the y step is applied downward from the top edge).
pub fn viewport(center_re: Fx, center_im: Fx, scale: Fx, width: u32, height: u32) -> (r: (
    Fx,
    Fx,
    Fx,
    Fx,
))
    requires
        1 <= width <= 1048576,
        1 <= height <= 1048576,
        width <= 2 * height,
        height <= 2 * width,
        iabs(center_re.bits as int) <= 8589934592,
        iabs(center_im.bits as int) <= 8589934592,
        0 < scale.bits <= 17179869184,
    ensures
        r.0.bits == center_re.bits - fx_mul(
            scale.bits as int,
            aspect_x_bits(width as int, height as int),
        ),
        r.1.bits == center_im.bits + fx_mul(
            scale.bits as int,
            aspect_y_bits(width as int, height as int),
        ),
        r.2.bits == fx_div(
            2 * fx_mul(scale.bits as int, aspect_x_bits(width as int, height as int)),
            width * FX_ONE,
        ),
        r.3.bits == fx_div(
            2 * fx_mul(scale.bits as int, aspect_y_bits(width as int, height as int)),
            height * FX_ONE,
        ),
        iabs(r.0.bits as int) <= 42949672960,
        iabs(r.1.bits as int) <= 42949672960,
        0 <= r.2.bits,
        0 <= r.3.bits,
        r.2.bits * (width + 1) <= 137438953472,
        r.3.bits * (height + 1) <= 137438953472,
{
    proof {
        lemma_aspect_range(width as int, height as int);
    }
    let wf_bits: i64 = (width as i64) * FX_ONE;
    let hf_bits: i64 = (height as i64) * FX_ONE;
    let ratio = Fx { bits: hf_bits }.div(Fx { bits: wf_bits });
    let aspect_x = if width >= height {
        Fx::one()
    } else {
        ratio
    };
    let aspect_y = if width >= height {
        ratio
    } else {
        Fx::one()
    };
    proof {
        lemma_fx_mul_mag(scale.bits as int, aspect_x.bits as int, 17179869184, 8589934592, 34359738368);
        lemma_fx_mul_mag(scale.bits as int, aspect_y.bits as int, 17179869184, 8589934592, 34359738368);
        lemma_fx_mul_nonneg(scale.bits as int, aspect_x.bits as int);
        lemma_fx_mul_nonneg(scale.bits as int, aspect_y.bits as int);
    }
    let sax = scale.mul(aspect_x);
    let say = scale.mul(aspect_y);
    let min_re = center_re.sub(sax);
    let max_re = center_re.add(sax);
    let min_im = center_im.sub(say);
    let max_im = center_im.add(say);
    let offset_re = min_re;
    let offset_im = max_im;
    proof {
        lemma_fx_div_mag(2 * sax.bits as int, wf_bits as int, 68719476736, 4294967296, 68719476736);
        lemma_fx_div_mag(2 * say.bits as int, hf_bits as int, 68719476736, 4294967296, 68719476736);
        lemma_fx_div_nonneg(2 * sax.bits as int, wf_bits as int);
        lemma_fx_div_nonneg(2 * say.bits as int, hf_bits as int);
    }
    let scale_re = max_re.sub(min_re).div(Fx { bits: wf_bits });
    let scale_im = max_im.sub(min_im).div(Fx { bits: hf_bits });
    proof {
        let w = width as int;
        let h = height as int;
        let sr = scale_re.bits as int;
        let si = scale_im.bits as int;
        assert(sr * (w + 1) <= 137438953472) by (nonlinear_arith)
            requires
                0 <= sr,
                (w * FX_ONE) * sr <= (2 * sax.bits) * FX_ONE,
                sr <= 68719476736,
                0 <= sax.bits <= 34359738368,
                1 <= w,
                FX_ONE == 4294967296,
        ;
        assert(si * (h + 1) <= 137438953472) by (nonlinear_arith)
            requires
                0 <= si,
                (h * FX_ONE) * si <= (2 * say.bits) * FX_ONE,
                si <= 68719476736,
                0 <= say.bits <= 34359738368,
                1 <= h,
                FX_ONE == 4294967296,
        ;
    }
    (offset_re, offset_im, scale_re, scale_im)
}

} // verus!
