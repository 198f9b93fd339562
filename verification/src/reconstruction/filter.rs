//! Reconstruction filters: finite-support weighting kernels, evaluated at
//! an offset from the pixel centre.

use vstd::prelude::*;

use crate::fixed::{
    fx_div, fx_mul, iabs, lemma_fx_div_mag, lemma_fx_mul_mag, lemma_tdiv_mag, tdiv, Fx, FX_HALF,
    FX_ONE,
};

verus! {

/// Filters accept arguments up to this magnitude (64 in fixed point);
/// reconstruction itself only ever asks for offsets within one pixel.
pub const FX_EVAL_DOM: i64 = 274877906944;

/// No filter weight exceeds this magnitude (2^18 in fixed point).
pub const FX_WEIGHT_MAX: i64 = 1125899906842624;

/// A symmetric, finite-support weighting kernel. `evaluate` takes the
/// offset from the pixel centre, axis by axis, and returns the kernel's
/// weight there; `radius` reports the support half-extent of each axis.
pub trait Filter: Sized {
    /// Internal consistency: radii positive, coefficients in range.
    spec fn wf(&self) -> bool;

    /// The support half-extent along x, in fixed-point bits.
    spec fn radius_x_spec(&self) -> int;

    /// The support half-extent along y, in fixed-point bits.
    spec fn radius_y_spec(&self) -> int;

    /// The weight at `(x, y)`, as a function of the bit patterns.
    spec fn eval_spec(&self, x: int, y: int) -> int;

    /// The support half-extents `(x, y)`.
    fn radius(&self) -> (r: (Fx, Fx))
        requires
            self.wf(),
        ensures
            r.0.bits == self.radius_x_spec(),
            r.1.bits == self.radius_y_spec(),
            r.0.bits > 0,
            r.1.bits > 0,
    ;

    /// The weight of a sample at offset `(x, y)` from the pixel centre.
    fn evaluate(&self, x: Fx, y: Fx) -> (w: Fx)
        requires
            self.wf(),
            iabs(x.bits as int) <= FX_EVAL_DOM,
            iabs(y.bits as int) <= FX_EVAL_DOM,
        ensures
            w.bits == self.eval_spec(x.bits as int, y.bits as int),
            iabs(w.bits as int) <= FX_WEIGHT_MAX,
    ;
}

/// A box kernel: weight one on its support rectangle, zero outside.
pub struct BoxFilter {
    pub radius_x: Fx,
    pub radius_y: Fx,
}

/// The box kernel's weight: one inside `|x| <= rx`, `|y| <= ry`, else zero.
pub open spec fn box_eval(rx: int, ry: int, x: int, y: int) -> int {
    if iabs(x) <= rx && iabs(y) <= ry {
        FX_ONE as int
    } else {
        0
    }
}

impl BoxFilter {
    /// A box kernel with the given support half-extents.
    pub fn new(radius_x: Fx, radius_y: Fx) -> (f: BoxFilter)
        requires
            radius_x.bits > 0,
            radius_y.bits > 0,
        ensures
            f == (BoxFilter { radius_x, radius_y }),
            f.wf(),
    {
        BoxFilter { radius_x, radius_y }
    }

    /// The box kernel with half-extent one half on each axis: exactly one
    /// pixel's footprint.
    pub fn with_defaults() -> (f: BoxFilter)
        ensures
            f.radius_x.bits == FX_HALF,
            f.radius_y.bits == FX_HALF,
            f.wf(),
    {
        BoxFilter::new(Fx::half(), Fx::half())
    }
}

impl Filter for BoxFilter {
    open spec fn wf(&self) -> bool {
        &&& self.radius_x.bits > 0
        &&& self.radius_y.bits > 0
    }

    open spec fn radius_x_spec(&self) -> int {
        self.radius_x.bits as int
    }

    open spec fn radius_y_spec(&self) -> int {
        self.radius_y.bits as int
    }

    open spec fn eval_spec(&self, x: int, y: int) -> int {
        box_eval(self.radius_x.bits as int, self.radius_y.bits as int, x, y)
    }

    fn radius(&self) -> (r: (Fx, Fx))
    {
        (self.radius_x, self.radius_y)
    }

    fn evaluate(&self, x: Fx, y: Fx) -> (w: Fx)
    {
        let ax = x.abs();
        let ay = y.abs();
        if ax.bits <= self.radius_x.bits && ay.bits <= self.radius_y.bits {
            Fx::one()
        } else {
            Fx::zero()
        }
    }
}

/// A Mitchell-Netravali kernel: a separable two-piece cubic in the scaled
/// offset, with free parameters `b` and `c`; the 2-D weight is the product
/// of the two axis evaluations. The kernel is negative near the edge of
/// its support; that ringing is part of the kernel's design.
pub struct MitchellFilter {
    pub radius_x: Fx,
    pub radius_y: Fx,
    pub p1_0: Fx,
    pub p1_1: Fx,
    pub p1_2: Fx,
    pub p1_3: Fx,
    pub p2_0: Fx,
    pub p2_1: Fx,
    pub p2_2: Fx,
    pub p2_3: Fx,
}

/// Mitchell coefficients never exceed this magnitude (16 in fixed point).
pub const FX_COEFF_MAX: i64 = 68719476736;

/// Mitchell radii are at least this (1/4 in fixed point), so that scaling
/// an offset by the radius stays representable.
pub const FX_RADIUS_MIN: i64 = 1073741824;

/// A one-axis Mitchell evaluation never exceeds this magnitude (256 in
/// fixed point).
pub const FX_MITCHELL_1D_MAX: i64 = 1099511627776;

/// The kernel's coefficients are the canonical Mitchell-Netravali
/// polynomials of its parameters: near piece `[1 - b/3, 0, -3 + 2b + c,
/// 2 - 3b/2 - c]`, far piece `[4b/3 + 4c, -2b - 8c, b + 5c, -b/6 - c]`.
pub open spec fn mitchell_coeffs_ok(f: MitchellFilter, b: int, c: int) -> bool {
    &&& f.p1_0.bits == FX_ONE - tdiv(b, 3)
    &&& f.p1_1.bits == 0
    &&& f.p1_2.bits == -3 * FX_ONE + 2 * b + c
    &&& f.p1_3.bits == 2 * FX_ONE - tdiv(3 * b, 2) - c
    &&& f.p2_0.bits == tdiv(4 * b, 3) + 4 * c
    &&& f.p2_1.bits == -2 * b - 8 * c
    &&& f.p2_2.bits == b + 5 * c
    &&& f.p2_3.bits == -tdiv(b, 6) - c
}

/// The cubic `c0 + c1*t + c2*t^2 + c3*t^3`, evaluated with fixed-point
/// products, the powers of `t` formed first as the code forms them.
pub open spec fn mitchell_poly(c0: int, c1: int, c2: int, c3: int, t: int) -> int {
    let t2 = fx_mul(t, t);
    let t3 = fx_mul(t2, t);
    c0 + fx_mul(c1, t) + fx_mul(c2, t2) + fx_mul(c3, t3)
}

impl MitchellFilter {
    /// A Mitchell-Netravali kernel with the given support half-extents and
    /// parameters `b` and `c`, each parameter within [-1, 1].
    pub fn new(radius_x: Fx, radius_y: Fx, b: Fx, c: Fx) -> (f: MitchellFilter)
        requires
            radius_x.bits >= FX_RADIUS_MIN,
            radius_y.bits >= FX_RADIUS_MIN,
            iabs(b.bits as int) <= FX_ONE,
            iabs(c.bits as int) <= FX_ONE,
        ensures
            f.wf(),
            f.radius_x == radius_x,
            f.radius_y == radius_y,
            mitchell_coeffs_ok(f, b.bits as int, c.bits as int),
    {
        proof {
            lemma_tdiv_mag(b.bits as int, 3);
            lemma_tdiv_mag(3 * b.bits, 2);
            lemma_tdiv_mag(4 * b.bits, 3);
            lemma_tdiv_mag(b.bits as int, 6);
        }
        let p1_0: i64 = FX_ONE - b.bits / 3;
        let p1_1: i64 = 0;
        let p1_2: i64 = -3 * FX_ONE + 2 * b.bits + c.bits;
        let p1_3: i64 = 2 * FX_ONE - (3 * b.bits) / 2 - c.bits;
        let p2_0: i64 = (4 * b.bits) / 3 + 4 * c.bits;
        let p2_1: i64 = -(2 * b.bits + 8 * c.bits);
        let p2_2: i64 = b.bits + 5 * c.bits;
        let p2_3: i64 = -(b.bits / 6) - c.bits;
        MitchellFilter {
            radius_x,
            radius_y,
            p1_0: Fx { bits: p1_0 },
            p1_1: Fx { bits: p1_1 },
            p1_2: Fx { bits: p1_2 },
            p1_3: Fx { bits: p1_3 },
            p2_0: Fx { bits: p2_0 },
            p2_1: Fx { bits: p2_1 },
            p2_2: Fx { bits: p2_2 },
            p2_3: Fx { bits: p2_3 },
        }
    }

    /// The kernel with support half-extent two and `b = c = 1/3`.
    pub fn with_defaults() -> (f: MitchellFilter)
        ensures
            f.wf(),
            f.radius_x.bits == 2 * FX_ONE,
            f.radius_y.bits == 2 * FX_ONE,
            mitchell_coeffs_ok(
                f,
                fx_div(FX_ONE as int, 3 * FX_ONE),
                fx_div(FX_ONE as int, 3 * FX_ONE),
            ),
    {
        proof {
            lemma_fx_div_mag(FX_ONE as int, 3 * FX_ONE, 4294967296, 4294967296, 4294967296);
        }
        let third = Fx::one().div(Fx::from_int(3));
        MitchellFilter::new(Fx::from_int(2), Fx::from_int(2), third, third)
    }

    /// The one-axis kernel value at the scaled offset `v`, as a function
    /// of the bit patterns.
    pub open spec fn mitchell_spec(&self, v: int) -> int {
        let t = 2 * iabs(v);
        if t <= FX_ONE {
            mitchell_poly(
                self.p1_0.bits as int,
                self.p1_1.bits as int,
                self.p1_2.bits as int,
                self.p1_3.bits as int,
                t,
            )
        } else if t <= 2 * FX_ONE {
            mitchell_poly(
                self.p2_0.bits as int,
                self.p2_1.bits as int,
                self.p2_2.bits as int,
                self.p2_3.bits as int,
                t,
            )
        } else {
            0
        }
    }

    /// One axis of the kernel: the canonical two-piece cubic in `2*|v|`.
    fn mitchell(&self, v: Fx) -> (r: Fx)
        requires
            self.wf(),
            iabs(v.bits as int) <= FX_MITCHELL_1D_MAX,
        ensures
            r.bits == self.mitchell_spec(v.bits as int),
            iabs(r.bits as int) <= FX_MITCHELL_1D_MAX,
    {
        let t: i64 = 2 * v.abs().bits;
        if t <= FX_ONE {
            self.poly(self.p1_0, self.p1_1, self.p1_2, self.p1_3, Fx { bits: t })
        } else if t <= 2 * FX_ONE {
            self.poly(self.p2_0, self.p2_1, self.p2_2, self.p2_3, Fx { bits: t })
        } else {
            Fx::zero()
        }
    }

    /// The cubic with the given coefficients at `t`.
    fn poly(&self, c0: Fx, c1: Fx, c2: Fx, c3: Fx, t: Fx) -> (r: Fx)
        requires
            0 <= t.bits <= 2 * FX_ONE,
            iabs(c0.bits as int) <= FX_COEFF_MAX,
            iabs(c1.bits as int) <= FX_COEFF_MAX,
            iabs(c2.bits as int) <= FX_COEFF_MAX,
            iabs(c3.bits as int) <= FX_COEFF_MAX,
        ensures
            r.bits == mitchell_poly(
                c0.bits as int,
                c1.bits as int,
                c2.bits as int,
                c3.bits as int,
                t.bits as int,
            ),
            iabs(r.bits as int) <= FX_MITCHELL_1D_MAX,
    {
        proof {
            lemma_fx_mul_mag(t.bits as int, t.bits as int, 8589934592, 8589934592, 17179869184);
        }
        let t2 = t.mul(t);
        proof {
            lemma_fx_mul_mag(t2.bits as int, t.bits as int, 17179869184, 8589934592, 34359738368);
        }
        let t3 = t2.mul(t);
        proof {
            lemma_fx_mul_mag(
                c1.bits as int,
                t.bits as int,
                68719476736,
                8589934592,
                137438953472,
            );
            lemma_fx_mul_mag(
                c2.bits as int,
                t2.bits as int,
                68719476736,
                17179869184,
                274877906944,
            );
            lemma_fx_mul_mag(
                c3.bits as int,
                t3.bits as int,
                68719476736,
                34359738368,
                549755813888,
            );
        }
        let s1 = c1.mul(t);
        let s2 = c2.mul(t2);
        let s3 = c3.mul(t3);
        c0.add(s1).add(s2).add(s3)
    }
}

impl Filter for MitchellFilter {
    open spec fn wf(&self) -> bool {
        &&& self.radius_x.bits >= FX_RADIUS_MIN
        &&& self.radius_y.bits >= FX_RADIUS_MIN
        &&& iabs(self.p1_0.bits as int) <= FX_COEFF_MAX
        &&& iabs(self.p1_1.bits as int) <= FX_COEFF_MAX
        &&& iabs(self.p1_2.bits as int) <= FX_COEFF_MAX
        &&& iabs(self.p1_3.bits as int) <= FX_COEFF_MAX
        &&& iabs(self.p2_0.bits as int) <= FX_COEFF_MAX
        &&& iabs(self.p2_1.bits as int) <= FX_COEFF_MAX
        &&& iabs(self.p2_2.bits as int) <= FX_COEFF_MAX
        &&& iabs(self.p2_3.bits as int) <= FX_COEFF_MAX
    }

    open spec fn radius_x_spec(&self) -> int {
        self.radius_x.bits as int
    }

    open spec fn radius_y_spec(&self) -> int {
        self.radius_y.bits as int
    }

    open spec fn eval_spec(&self, x: int, y: int) -> int {
        fx_mul(
            self.mitchell_spec(fx_div(x, self.radius_x.bits as int)),
            self.mitchell_spec(fx_div(y, self.radius_y.bits as int)),
        )
    }

    fn radius(&self) -> (r: (Fx, Fx))
    {
        (self.radius_x, self.radius_y)
    }

    fn evaluate(&self, x: Fx, y: Fx) -> (w: Fx)
    {
        proof {
            lemma_fx_div_mag(
                x.bits as int,
                self.radius_x.bits as int,
                274877906944,
                1073741824,
                1099511627776,
            );
            lemma_fx_div_mag(
                y.bits as int,
                self.radius_y.bits as int,
                274877906944,
                1073741824,
                1099511627776,
            );
        }
        let vx = x.div(self.radius_x);
        let vy = y.div(self.radius_y);
        let mx = self.mitchell(vx);
        let my = self.mitchell(vy);
        proof {
            lemma_fx_mul_mag(
                mx.bits as int,
                my.bits as int,
                1099511627776,
                1099511627776,
                281474976710656,
            );
        }
        mx.mul(my)
    }
}


/// The box kernel is even on each axis: negating either offset leaves
/// the weight unchanged.
pub proof fn lemma_box_symmetric(f: BoxFilter, x: int, y: int)
    ensures
        f.eval_spec(-x, y) == f.eval_spec(x, y),
        f.eval_spec(x, -y) == f.eval_spec(x, y),
{
    assert(iabs(-x) == iabs(x));
    assert(iabs(-y) == iabs(y));
}

/// Negating an axis offset leaves the scaled offset's magnitude, and so
/// the one-axis Mitchell value, unchanged.
proof fn lemma_mitchell_1d_even(f: MitchellFilter, x: int, r: int)
    requires
        r != 0,
    ensures
        f.mitchell_spec(fx_div(-x, r)) == f.mitchell_spec(fx_div(x, r)),
{
    assert((-x) * FX_ONE == -(x * FX_ONE));
    crate::fixed::lemma_tdiv_neg(x * FX_ONE, r);
    assert(iabs(fx_div(-x, r)) == iabs(fx_div(x, r)));
}

/// The Mitchell kernel is even on each axis: negating either offset
/// leaves the weight unchanged.
pub proof fn lemma_mitchell_symmetric(f: MitchellFilter, x: int, y: int)
    requires
        f.radius_x.bits > 0,
        f.radius_y.bits > 0,
    ensures
        f.eval_spec(-x, y) == f.eval_spec(x, y),
        f.eval_spec(x, -y) == f.eval_spec(x, y),
{
    lemma_mitchell_1d_even(f, x, f.radius_x.bits as int);
    lemma_mitchell_1d_even(f, y, f.radius_y.bits as int);
}

/// Beyond twice its radius on either axis the Mitchell kernel is exactly
/// zero.
pub proof fn lemma_mitchell_support(f: MitchellFilter, x: int, y: int)
    requires
        f.radius_x.bits > 0,
        f.radius_y.bits > 0,
        iabs(x) >= 2 * f.radius_x.bits || iabs(y) >= 2 * f.radius_y.bits,
    ensures
        f.eval_spec(x, y) == 0,
{
    if iabs(x) >= 2 * f.radius_x.bits {
        lemma_mitchell_1d_far(f, x, f.radius_x.bits as int);
        lemma_fx_mul_zero_left(f.mitchell_spec(fx_div(y, f.radius_y.bits as int)));
    } else {
        lemma_mitchell_1d_far(f, y, f.radius_y.bits as int);
        lemma_fx_mul_zero_right(f.mitchell_spec(fx_div(x, f.radius_x.bits as int)));
    }
}

/// An offset at least twice the radius scales to a magnitude of at least
/// two, where the one-axis kernel is zero.
proof fn lemma_mitchell_1d_far(f: MitchellFilter, x: int, r: int)
    requires
        r > 0,
        iabs(x) >= 2 * r,
    ensures
        f.mitchell_spec(fx_div(x, r)) == 0,
{
    lemma_tdiv_mag(x * FX_ONE, r);
    assert(iabs(x * FX_ONE) == iabs(x) * FX_ONE && iabs(x) * FX_ONE >= r * (2 * FX_ONE))
        by (nonlinear_arith)
        requires
            iabs(x) >= 2 * r,
            r > 0,
            FX_ONE == 4294967296,
    ;
    vstd::arithmetic::div_mod::lemma_div_is_ordered(r * (2 * FX_ONE), iabs(x * FX_ONE), r);
    vstd::arithmetic::div_mod::lemma_div_multiples_vanish(2 * FX_ONE, r);
    assert(iabs(fx_div(x, r)) >= 2 * FX_ONE);
}

/// Zero absorbs a fixed-point product on the left.
proof fn lemma_fx_mul_zero_left(b: int)
    ensures
        fx_mul(0, b) == 0,
{
    assert(0 * b == 0) by (nonlinear_arith);
    vstd::arithmetic::div_mod::lemma_div_of0(FX_ONE as int);
}

/// Zero absorbs a fixed-point product on the right.
proof fn lemma_fx_mul_zero_right(a: int)
    ensures
        fx_mul(a, 0) == 0,
{
    assert(a * 0 == 0) by (nonlinear_arith);
    vstd::arithmetic::div_mod::lemma_div_of0(FX_ONE as int);
}


/// The near piece of the default kernel stays within its centre value:
/// for `t` in [0, 1] the cubic `p1_0 - (2+ulp) t^2 + (7/6-ulp) t^3`
/// cannot leave `[-p1_0, p1_0]`.
#[verifier::rlimit(100)]
proof fn lemma_poly1_peak(t: int)
    requires
        0 <= t <= FX_ONE,
    ensures
        iabs(mitchell_poly(3817748708, 0, -8589934593, 5010795180, t)) <= 3817748708,
{
    let fo = FX_ONE as int;
    let t2 = fx_mul(t, t);
    let t3 = fx_mul(t2, t);
    lemma_fx_mul_zero_left(t);
    assert(t * t >= 0 && (-8589934593) * t2 == -(8589934593 * t2)) by (nonlinear_arith);
    assert(t2 == (t * t) / fo);
    vstd::arithmetic::div_mod::lemma_div_pos_is_pos(t * t, fo);
    vstd::arithmetic::div_mod::lemma_fundamental_div_mod(t * t, fo);
    vstd::arithmetic::div_mod::lemma_mod_division_less_than_divisor(t * t, fo);
    assert(t2 * t >= 0 && 8589934593 * t2 >= 0) by (nonlinear_arith)
        requires
            t >= 0,
            t2 >= 0,
    ;
    assert(t3 == (t2 * t) / fo);
    vstd::arithmetic::div_mod::lemma_div_pos_is_pos(t2 * t, fo);
    vstd::arithmetic::div_mod::lemma_fundamental_div_mod(t2 * t, fo);
    vstd::arithmetic::div_mod::lemma_mod_division_less_than_divisor(t2 * t, fo);
    let q2 = (8589934593 * t2) / fo;
    let q3 = (5010795180 * t3) / fo;
    assert(5010795180 * t3 >= 0) by (nonlinear_arith)
        requires
            t3 >= 0,
    ;
    assert(fx_mul(-8589934593, t2) == -q2);
    assert(fx_mul(5010795180, t3) == q3);
    vstd::arithmetic::div_mod::lemma_div_pos_is_pos(8589934593 * t2, fo);
    vstd::arithmetic::div_mod::lemma_fundamental_div_mod(8589934593 * t2, fo);
    vstd::arithmetic::div_mod::lemma_mod_division_less_than_divisor(8589934593 * t2, fo);
    vstd::arithmetic::div_mod::lemma_div_pos_is_pos(5010795180 * t3, fo);
    vstd::arithmetic::div_mod::lemma_fundamental_div_mod(5010795180 * t3, fo);
    vstd::arithmetic::div_mod::lemma_mod_division_less_than_divisor(5010795180 * t3, fo);
    assert(q3 <= q2) by (nonlinear_arith)
        requires
            0 <= t <= 4294967296,
            t2 >= 0,
            t3 >= 0,
            q2 >= 0,
            q3 >= 0,
            4294967296 * t3 <= t2 * t,
            4294967296 * q2 <= 8589934593 * t2 < 4294967296 * q2 + 4294967296,
            4294967296 * q3 <= 5010795180 * t3 < 4294967296 * q3 + 4294967296,
    ;
    assert(q2 - q3 <= 7635497416) by (nonlinear_arith)
        requires
            0 <= t <= 4294967296,
            t2 >= 0,
            t3 >= 0,
            q2 >= 0,
            q3 >= 0,
            4294967296 * t2 <= t * t,
            t2 * t < 4294967296 * t3 + 4294967296,
            4294967296 * q2 <= 8589934593 * t2,
            5010795180 * t3 < 4294967296 * q3 + 4294967296,
    ;
}

/// The far piece of the default kernel stays within the centre value:
/// for `t` in (1, 2] the tail cubic is small.
#[verifier::rlimit(100)]
proof fn lemma_poly2_peak(t: int)
    requires
        FX_ONE < t <= 2 * FX_ONE,
    ensures
        iabs(mitchell_poly(7635497413, -14316557650, 8589934590, -1670265059, t)) <= 3817748708,
{
    let fo = FX_ONE as int;
    let t2 = fx_mul(t, t);
    let t3 = fx_mul(t2, t);
    assert(t * t >= 0 && (-14316557650) * t == -(14316557650 * t) && (-1670265059) * t3 == -(
    1670265059 * t3)) by (nonlinear_arith);
    assert(t2 == (t * t) / fo);
    vstd::arithmetic::div_mod::lemma_div_pos_is_pos(t * t, fo);
    vstd::arithmetic::div_mod::lemma_fundamental_div_mod(t * t, fo);
    vstd::arithmetic::div_mod::lemma_mod_division_less_than_divisor(t * t, fo);
    assert(t2 * t >= 0 && 14316557650 * t >= 0 && 8589934590 * t2 >= 0) by (nonlinear_arith)
        requires
            t >= 0,
            t2 >= 0,
    ;
    assert(t3 == (t2 * t) / fo);
    vstd::arithmetic::div_mod::lemma_div_pos_is_pos(t2 * t, fo);
    vstd::arithmetic::div_mod::lemma_fundamental_div_mod(t2 * t, fo);
    vstd::arithmetic::div_mod::lemma_mod_division_less_than_divisor(t2 * t, fo);
    assert(1670265059 * t3 >= 0) by (nonlinear_arith)
        requires
            t3 >= 0,
    ;
    let q1 = (14316557650 * t) / fo;
    let q2 = (8589934590 * t2) / fo;
    let q3 = (1670265059 * t3) / fo;
    assert(fx_mul(-14316557650, t) == -q1);
    assert(fx_mul(8589934590, t2) == q2);
    assert(fx_mul(-1670265059, t3) == -q3);
    vstd::arithmetic::div_mod::lemma_div_pos_is_pos(14316557650 * t, fo);
    vstd::arithmetic::div_mod::lemma_fundamental_div_mod(14316557650 * t, fo);
    vstd::arithmetic::div_mod::lemma_mod_division_less_than_divisor(14316557650 * t, fo);
    vstd::arithmetic::div_mod::lemma_div_pos_is_pos(8589934590 * t2, fo);
    vstd::arithmetic::div_mod::lemma_fundamental_div_mod(8589934590 * t2, fo);
    vstd::arithmetic::div_mod::lemma_mod_division_less_than_divisor(8589934590 * t2, fo);
    vstd::arithmetic::div_mod::lemma_div_pos_is_pos(1670265059 * t3, fo);
    vstd::arithmetic::div_mod::lemma_fundamental_div_mod(1670265059 * t3, fo);
    vstd::arithmetic::div_mod::lemma_mod_division_less_than_divisor(1670265059 * t3, fo);
    assert(-3817748708 <= 7635497413 - q1 + q2 - q3 <= 3817748708) by (nonlinear_arith)
        requires
            4294967296 < t <= 8589934592,
            t2 >= 0,
            t3 >= 0,
            q1 >= 0,
            q2 >= 0,
            q3 >= 0,
            4294967296 * t2 <= t * t < 4294967296 * t2 + 4294967296,
            4294967296 * t3 <= t2 * t < 4294967296 * t3 + 4294967296,
            4294967296 * q1 <= 14316557650 * t < 4294967296 * q1 + 4294967296,
            4294967296 * q2 <= 8589934590 * t2 < 4294967296 * q2 + 4294967296,
            4294967296 * q3 <= 1670265059 * t3 < 4294967296 * q3 + 4294967296,
    ;
}

/// The parameter value one third, as the default constructor computes it.
pub proof fn lemma_default_third()
    ensures
        fx_div(FX_ONE as int, 3 * FX_ONE) == 1431655765,
{
    assert((FX_ONE as int) * (FX_ONE as int) == 18446744073709551616) by (nonlinear_arith);
    assert(18446744073709551616int / 12884901888 == 1431655765) by {
        vstd::arithmetic::div_mod::lemma_fundamental_div_mod_converse_div(
            18446744073709551616,
            12884901888,
            1431655765,
            4294967296,
        );
    }
}

/// One axis of the default kernel never exceeds its centre value.
proof fn lemma_mitchell_1d_peak(f: MitchellFilter, v: int)
    requires
        mitchell_coeffs_ok(f, 1431655765, 1431655765),
    ensures
        iabs(f.mitchell_spec(v)) <= 3817748708,
        f.mitchell_spec(0) == 3817748708,
{
    lemma_fx_mul_zero_left(0);
    lemma_fx_mul_zero_right(f.p1_1.bits as int);
    lemma_fx_mul_zero_right(f.p1_2.bits as int);
    lemma_fx_mul_zero_right(f.p1_3.bits as int);
    let t = 2 * iabs(v);
    assert(tdiv(1431655765, 3) == 477218588) by {
        vstd::arithmetic::div_mod::lemma_fundamental_div_mod_converse_div(
            1431655765,
            3,
            477218588,
            1,
        );
    }
    assert(tdiv(3int * 1431655765, 2) == 2147483647) by {
        vstd::arithmetic::div_mod::lemma_fundamental_div_mod_converse_div(
            4294967295,
            2,
            2147483647,
            1,
        );
    }
    assert(tdiv(4int * 1431655765, 3) == 1908874353) by {
        vstd::arithmetic::div_mod::lemma_fundamental_div_mod_converse_div(
            5726623060,
            3,
            1908874353,
            1,
        );
    }
    assert(tdiv(1431655765, 6) == 238609294) by {
        vstd::arithmetic::div_mod::lemma_fundamental_div_mod_converse_div(
            1431655765,
            6,
            238609294,
            1,
        );
    }
    assert(f.p1_0.bits == 3817748708 && f.p1_1.bits == 0 && f.p1_2.bits == -8589934593
        && f.p1_3.bits == 5010795180 && f.p2_0.bits == 7635497413 && f.p2_1.bits
        == -14316557650 && f.p2_2.bits == 8589934590 && f.p2_3.bits == -1670265059);
    if t <= FX_ONE {
        lemma_poly1_peak(t);
    } else if t <= 2 * FX_ONE {
        lemma_poly2_peak(t);
    }
}

/// With the default parameters the kernel's weight peaks at the origin:
/// no offset receives more weight than the pixel centre.
pub proof fn lemma_mitchell_default_peak(f: MitchellFilter, x: int, y: int)
    requires
        f.radius_x.bits > 0,
        f.radius_y.bits > 0,
        mitchell_coeffs_ok(
            f,
            fx_div(FX_ONE as int, 3 * FX_ONE),
            fx_div(FX_ONE as int, 3 * FX_ONE),
        ),
    ensures
        f.eval_spec(x, y) <= f.eval_spec(0, 0),
{
    lemma_default_third();
    let fo = FX_ONE as int;
    let mx = f.mitchell_spec(fx_div(x, f.radius_x.bits as int));
    let my = f.mitchell_spec(fx_div(y, f.radius_y.bits as int));
    lemma_mitchell_1d_peak(f, fx_div(x, f.radius_x.bits as int));
    lemma_mitchell_1d_peak(f, fx_div(y, f.radius_y.bits as int));
    assert(fx_div(0, f.radius_x.bits as int) == 0 && fx_div(0, f.radius_y.bits as int) == 0) by {
        vstd::arithmetic::div_mod::lemma_div_of0(iabs(f.radius_x.bits as int));
        vstd::arithmetic::div_mod::lemma_div_of0(iabs(f.radius_y.bits as int));
    }
    assert(f.eval_spec(0, 0) == fx_mul(3817748708, 3817748708));
    assert(3817748708 * 3817748708 == 14575205197435669264) by (nonlinear_arith);
    assert(fx_mul(3817748708, 3817748708) == 14575205197435669264int / fo);
    lemma_tdiv_mag(mx * my, fo);
    assert(iabs(mx * my) == iabs(mx) * iabs(my) && iabs(mx) * iabs(my) <= 14575205197435669264)
        by (nonlinear_arith)
        requires
            iabs(mx) <= 3817748708,
            iabs(my) <= 3817748708,
    ;
    vstd::arithmetic::div_mod::lemma_div_is_ordered(iabs(mx * my), 14575205197435669264, fo);
    assert(f.eval_spec(x, y) <= iabs(fx_mul(mx, my)));
}

} // verus!
