//! Signed binary fixed-point numbers: an `i64` bit pattern standing for
//! `bits / 2^32`. All real-valued quantities of the renderer (sample
//! offsets, filter weights, plane coordinates, escape values) are carried
//! in this representation, so every arithmetic step has an exact
//! mathematical description.

use vstd::prelude::*;

verus! {

/// The bit pattern of the number one: 2^32.
pub const FX_ONE: i64 = 4294967296;

/// The bit pattern of one half: 2^31.
pub const FX_HALF: i64 = 2147483648;

/// Absolute value of a mathematical integer.
pub open spec fn iabs(a: int) -> int {
    if a >= 0 {
        a
    } else {
        -a
    }
}

/// Truncating (round-toward-zero) integer division: the quotient of the
/// magnitudes, carrying the sign of the exact quotient. This is the
/// rounding the machine's signed division performs.
pub open spec fn tdiv(a: int, b: int) -> int {
    let q = iabs(a) / iabs(b);
    if (a >= 0) == (b >= 0) {
        q
    } else {
        -q
    }
}

/// The product of two fixed-point numbers, given by their bit patterns:
/// the wide product scaled back down, rounded toward zero.
pub open spec fn fx_mul(a: int, b: int) -> int {
    tdiv(a * b, FX_ONE as int)
}

/// The quotient of two fixed-point numbers, given by their bit patterns:
/// the numerator scaled up, divided, rounded toward zero.
pub open spec fn fx_div(a: int, b: int) -> int {
    tdiv(a * (FX_ONE as int), b)
}

/// A value clamped into the i64 range.
pub open spec fn fx_sat(v: int) -> int {
    if v > i64::MAX {
        i64::MAX as int
    } else if v < i64::MIN {
        i64::MIN as int
    } else {
        v
    }
}

/// A fixed-point number; the represented value is `bits / 2^32`.
#[derive(Clone, Copy, PartialEq, Eq, Structural, Debug)]
pub struct Fx {
    pub bits: i64,
}

impl Fx {
    /// The number with the given raw bit pattern.
    pub fn from_bits(bits: i64) -> (r: Fx)
        ensures
            r.bits == bits,
    {
        Fx { bits }
    }

    /// Zero.
    pub fn zero() -> (r: Fx)
        ensures
            r.bits == 0,
    {
        Fx { bits: 0 }
    }

    /// One.
    pub fn one() -> (r: Fx)
        ensures
            r.bits == FX_ONE,
    {
        Fx { bits: FX_ONE }
    }

    /// One half.
    pub fn half() -> (r: Fx)
        ensures
            r.bits == FX_HALF,
    {
        Fx { bits: FX_HALF }
    }

    /// The fixed-point image of a small integer.
    pub fn from_int(v: i64) -> (r: Fx)
        requires
            -0x40000000 <= v <= 0x40000000,
        ensures
            r.bits == v * FX_ONE,
    {
        Fx { bits: v * FX_ONE }
    }

    /// Exact sum.
    pub fn add(self, rhs: Fx) -> (r: Fx)
        requires
            i64::MIN <= self.bits + rhs.bits <= i64::MAX,
        ensures
            r.bits == self.bits + rhs.bits,
    {
        Fx { bits: self.bits + rhs.bits }
    }

    /// Exact difference.
    pub fn sub(self, rhs: Fx) -> (r: Fx)
        requires
            i64::MIN <= self.bits - rhs.bits <= i64::MAX,
        ensures
            r.bits == self.bits - rhs.bits,
    {
        Fx { bits: self.bits - rhs.bits }
    }

    /// Exact negation.
    pub fn neg(self) -> (r: Fx)
        requires
            self.bits != i64::MIN,
        ensures
            r.bits == -self.bits,
    {
        Fx { bits: -self.bits }
    }

    /// Exact absolute value.
    pub fn abs(self) -> (r: Fx)
        requires
            self.bits != i64::MIN,
        ensures
            r.bits == iabs(self.bits as int),
    {
        if self.bits < 0 {
            Fx { bits: -self.bits }
        } else {
            Fx { bits: self.bits }
        }
    }

    /// Fixed-point product, rounded toward zero.
    pub fn mul(self, rhs: Fx) -> (r: Fx)
        requires
            i64::MIN <= fx_mul(self.bits as int, rhs.bits as int) <= i64::MAX,
        ensures
            r.bits == fx_mul(self.bits as int, rhs.bits as int),
    {
        proof {
            lemma_i64_product_fits(self.bits as int, rhs.bits as int);
        }
        let p: i128 = (self.bits as i128) * (rhs.bits as i128);
        let q: i128 = if p >= 0 {
            p / (FX_ONE as i128)
        } else {
            -((-p) / (FX_ONE as i128))
        };
        Fx { bits: q as i64 }
    }

    /// Fixed-point quotient, rounded toward zero.
    pub fn div(self, rhs: Fx) -> (r: Fx)
        requires
            rhs.bits != 0,
            i64::MIN <= fx_div(self.bits as int, rhs.bits as int) <= i64::MAX,
        ensures
            r.bits == fx_div(self.bits as int, rhs.bits as int),
    {
        proof {
            lemma_i64_product_fits(self.bits as int, FX_ONE as int);
        }
        let n: i128 = (self.bits as i128) * (FX_ONE as i128);
        let num: i128 = if n >= 0 {
            n
        } else {
            -n
        };
        let den: i128 = if rhs.bits >= 0 {
            rhs.bits as i128
        } else {
            -(rhs.bits as i128)
        };
        let q: i128 = num / den;
        let signed_q: i128 = if (n >= 0) == (rhs.bits >= 0) {
            q
        } else {
            -q
        };
        proof {
            lemma_tdiv_mag(n as int, rhs.bits as int);
        }
        Fx { bits: signed_q as i64 }
    }

    /// Fixed-point quotient, rounded toward zero and clamped into the
    /// representable range.
    pub fn div_sat(self, rhs: Fx) -> (r: Fx)
        requires
            rhs.bits != 0,
        ensures
            r.bits == fx_sat(fx_div(self.bits as int, rhs.bits as int)),
    {
        proof {
            lemma_i64_product_fits(self.bits as int, FX_ONE as int);
        }
        let n: i128 = (self.bits as i128) * (FX_ONE as i128);
        let num: i128 = if n >= 0 {
            n
        } else {
            -n
        };
        let den: i128 = if rhs.bits >= 0 {
            rhs.bits as i128
        } else {
            -(rhs.bits as i128)
        };
        let q: i128 = num / den;
        let signed_q: i128 = if (n >= 0) == (rhs.bits >= 0) {
            q
        } else {
            -q
        };
        proof {
            lemma_tdiv_mag(n as int, rhs.bits as int);
        }
        if signed_q > i64::MAX as i128 {
            Fx { bits: i64::MAX }
        } else if signed_q < i64::MIN as i128 {
            Fx { bits: i64::MIN }
        } else {
            Fx { bits: signed_q as i64 }
        }
    }
}

/// The product of two i64-sized values stays strictly inside i128.
pub proof fn lemma_i64_product_fits(a: int, b: int)
    requires
        i64::MIN <= a <= i64::MAX,
        i64::MIN <= b <= i64::MAX,
    ensures
        i128::MIN < a * b < i128::MAX,
{
    assert(i128::MIN < a * b < i128::MAX) by (nonlinear_arith)
        requires
            -0x8000000000000000 <= a <= 0x7fffffffffffffff,
            -0x8000000000000000 <= b <= 0x7fffffffffffffff,
    ;
}

/// A truncated quotient is no larger in magnitude than the dividend.
pub proof fn lemma_tdiv_mag(a: int, b: int)
    requires
        b != 0,
    ensures
        iabs(tdiv(a, b)) == iabs(a) / iabs(b),
        iabs(tdiv(a, b)) <= iabs(a),
{
    vstd::arithmetic::div_mod::lemma_div_pos_is_pos(iabs(a), iabs(b));
    vstd::arithmetic::div_mod::lemma_div_is_ordered_by_denominator(iabs(a), 1, iabs(b));
    vstd::arithmetic::div_mod::lemma_div_basics(iabs(a));
}

/// Bounds on both factors bound the magnitude of a fixed-point product:
/// if the magnitudes' product stays under `bound` ones, so does the
/// fixed-point product.
pub proof fn lemma_fx_mul_mag(a: int, b: int, ma: int, mb: int, bound: int)
    requires
        iabs(a) <= ma,
        iabs(b) <= mb,
        0 <= bound,
        ma * mb <= bound * FX_ONE,
    ensures
        iabs(fx_mul(a, b)) <= bound,
{
    assert(iabs(a * b) == iabs(a) * iabs(b)) by (nonlinear_arith);
    assert(iabs(a) * iabs(b) <= ma * mb) by (nonlinear_arith)
        requires
            0 <= iabs(a) <= ma,
            0 <= iabs(b) <= mb,
    ;
    lemma_tdiv_mag(a * b, FX_ONE as int);
    vstd::arithmetic::div_mod::lemma_div_is_ordered(iabs(a * b), bound * FX_ONE, FX_ONE as int);
    vstd::arithmetic::div_mod::lemma_div_by_multiple(bound, FX_ONE as int);
}

/// A bound on the numerator and a floor under the denominator bound the
/// magnitude of a fixed-point quotient.
pub proof fn lemma_fx_div_mag(a: int, b: int, ma: int, blo: int, bound: int)
    requires
        iabs(a) <= ma,
        0 <= ma,
        0 <= bound,
        1 <= blo <= iabs(b),
        ma * FX_ONE <= bound * blo,
    ensures
        iabs(fx_div(a, b)) <= bound,
{
    lemma_tdiv_mag(a * FX_ONE, b);
    assert(iabs(a * FX_ONE) == iabs(a) * FX_ONE && iabs(a) * FX_ONE <= ma * FX_ONE)
        by (nonlinear_arith)
        requires
            iabs(a) <= ma,
    ;
    vstd::arithmetic::div_mod::lemma_div_is_ordered_by_denominator(iabs(a * FX_ONE), blo, iabs(b));
    vstd::arithmetic::div_mod::lemma_div_is_ordered(iabs(a * FX_ONE), bound * blo, blo);
    vstd::arithmetic::div_mod::lemma_div_by_multiple(bound, blo);
}


/// A fixed-point product of non-negative factors is non-negative.
pub proof fn lemma_fx_mul_nonneg(a: int, b: int)
    requires
        0 <= a,
        0 <= b,
    ensures
        0 <= fx_mul(a, b),
{
    assert(0 <= a * b) by (nonlinear_arith)
        requires
            0 <= a,
            0 <= b,
    ;
    vstd::arithmetic::div_mod::lemma_div_pos_is_pos(a * b, FX_ONE as int);
}

/// A fixed-point quotient of a non-negative numerator by a positive
/// denominator is non-negative, and multiplying it back by the
/// denominator stays under the scaled numerator.
pub proof fn lemma_fx_div_nonneg(a: int, b: int)
    requires
        0 <= a,
        0 < b,
    ensures
        0 <= fx_div(a, b),
        b * fx_div(a, b) <= a * FX_ONE,
{
    assert(0 <= a * FX_ONE);
    vstd::arithmetic::div_mod::lemma_div_pos_is_pos(a * FX_ONE, b);
    vstd::arithmetic::div_mod::lemma_fundamental_div_mod(a * FX_ONE, b);
    vstd::arithmetic::div_mod::lemma_mod_division_less_than_divisor(a * FX_ONE, b);
}


/// Negating the dividend negates the truncated quotient.
pub proof fn lemma_tdiv_neg(a: int, b: int)
    requires
        b != 0,
    ensures
        tdiv(-a, b) == -tdiv(a, b),
{
    assert(iabs(-a) == iabs(a));
    if a == 0 {
        vstd::arithmetic::div_mod::lemma_div_of0(iabs(b));
    }
}

} // verus!
