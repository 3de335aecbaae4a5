//! The numeric half of the value model: exact integers and decimal floats,
//! with the promotion rules binary operators apply to them.
//!
//! Integer paired with Integer stays Integer, except true division, which
//! always promotes to Float; any Float operand promotes the whole operation
//! to Float arithmetic; bitwise operators demand two Integers.

use vstd::prelude::*;
use vstd::math::abs;

use crate::error::RuntimeError;
use crate::floatnum::EXP_LIMIT;
use crate::floatnum::FloatNum;
use crate::floatnum::MANT_LIMIT;
use crate::floatnum::div_exact;
use crate::floatnum::div_quot;
use crate::floatnum::div_shift;
use crate::floatnum::float_add;
use crate::floatnum::float_div;
use crate::floatnum::float_eq;
use crate::floatnum::float_eq_spec;
use crate::floatnum::float_from_int;
use crate::floatnum::float_lt;
use crate::floatnum::float_lt_spec;
use crate::floatnum::float_mul;
use crate::floatnum::float_neg;
use crate::floatnum::float_of_int;
use crate::floatnum::float_sub;
use crate::floatnum::lemma_float_of_int;
use crate::floatnum::lemma_ndigits_bounds;
use crate::floatnum::min_exp;
use crate::floatnum::ndigits;
use crate::floatnum::pow10;
use crate::floatnum::strip10;

verus! {

/// A runtime number: either an exact integer or a decimal float.
#[derive(Debug, Clone, Copy)]
pub enum NumericType {
    Integer(i32),
    Float(FloatNum),
}

impl NumericType {
    /// Well-formedness: a float payload is canonical.
    pub open spec fn wf(self) -> bool {
        match self {
            NumericType::Integer(_) => true,
            NumericType::Float(f) => f.wf(),
        }
    }

    /// Whether the number is numerically zero.
    pub open spec fn is_zero(self) -> bool {
        match self {
            NumericType::Integer(v) => v == 0,
            NumericType::Float(f) => f.mant == 0,
        }
    }

    /// The decimal float with the same numeric value.
    pub open spec fn as_float(self) -> FloatNum {
        match self {
            NumericType::Integer(v) => float_of_int(v as int),
            NumericType::Float(f) => f,
        }
    }

    /// A number is truthy exactly when it is not numerically zero.
    pub fn to_bool(&self) -> (r: bool)
        ensures
            r == !self.is_zero(),
    {
        match *self {
            NumericType::Integer(val) => val != 0,
            NumericType::Float(f) => f.mant != 0,
        }
    }

    /// Numeric equality: same kind compares exactly, and an Integer compares
    /// equal to the Float of the same value.
    pub fn eq_num(&self, other: &NumericType) -> (r: bool)
        requires
            self.wf(),
            other.wf(),
        ensures
            r == float_eq_spec(self.as_float(), other.as_float()),
    {
        match (self, other) {
            (NumericType::Integer(a), NumericType::Integer(b)) => {
                proof {
                    lemma_float_of_int(*a as int);
                    lemma_float_of_int(*b as int);
                    if *a == *b {
                        crate::floatnum::lemma_eq_at_scale(
                            self.as_float(),
                            other.as_float(),
                            0,
                        );
                    } else if float_eq_spec(self.as_float(), other.as_float()) {
                        crate::floatnum::lemma_scaled_change(
                            self.as_float(),
                            min_exp(self.as_float(), other.as_float()),
                            0,
                        );
                        crate::floatnum::lemma_scaled_change(
                            other.as_float(),
                            min_exp(self.as_float(), other.as_float()),
                            0,
                        );
                    }
                }
                a == b
            },
            (NumericType::Integer(a), NumericType::Float(f)) => {
                let fa = float_from_int(*a);
                float_eq(&fa, f)
            },
            (NumericType::Float(f), NumericType::Integer(b)) => {
                let fb = float_from_int(*b);
                float_eq(f, &fb)
            },
            (NumericType::Float(f), NumericType::Float(g)) => float_eq(f, g),
        }
    }

    /// Numeric strict order, across both kinds.
    pub fn lt_num(&self, other: &NumericType) -> (r: bool)
        requires
            self.wf(),
            other.wf(),
        ensures
            r == float_lt_spec(self.as_float(), other.as_float()),
    {
        match (self, other) {
            (NumericType::Integer(a), NumericType::Integer(b)) => {
                proof {
                    lemma_float_of_int(*a as int);
                    lemma_float_of_int(*b as int);
                    let fa = self.as_float();
                    let fb = other.as_float();
                    let m = min_exp(fa, fb);
                    crate::floatnum::lemma_scaled_change(fa, m, 0);
                    crate::floatnum::lemma_scaled_change(fb, m, 0);
                    crate::floatnum::lemma_pow10_pos(m as nat);
                    assert((fa.scaled(m) < fb.scaled(m)) == (fa.scaled(0) < fb.scaled(0)))
                        by (nonlinear_arith)
                        requires
                            fa.scaled(0) == fa.scaled(m) * pow10(m as nat),
                            fb.scaled(0) == fb.scaled(m) * pow10(m as nat),
                            pow10(m as nat) >= 1;
                }
                a < b
            },
            (NumericType::Integer(a), NumericType::Float(f)) => {
                let fa = float_from_int(*a);
                float_lt(&fa, f)
            },
            (NumericType::Float(f), NumericType::Integer(b)) => {
                let fb = float_from_int(*b);
                float_lt(f, &fb)
            },
            (NumericType::Float(f), NumericType::Float(g)) => float_lt(f, g),
        }
    }

    /// What `add` and `sub` demand: an Integer pair must not overflow.
    pub open spec fn addsub_req(self, other: NumericType, minus: bool) -> bool {
        match (self, other) {
            (NumericType::Integer(a), NumericType::Integer(b)) => {
                if minus {
                    i32::MIN <= a - b <= i32::MAX
                } else {
                    i32::MIN <= a + b <= i32::MAX
                }
            },
            _ => true,
        }
    }

    /// The conditional exactness float addition and subtraction guarantee:
    /// operands within eighteen decimal orders of each other whose exact
    /// result fits eighteen digits.
    pub open spec fn float_addsub_exact(self, other: NumericType, minus: bool) -> bool {
        let af = self.as_float();
        let bf = other.as_float();
        let e = min_exp(af, bf);
        let s = if minus {
            af.scaled(e) - bf.scaled(e)
        } else {
            af.scaled(e) + bf.scaled(e)
        };
        &&& af.mant != 0
        &&& bf.mant != 0
        &&& -18 <= af.exp - bf.exp <= 18
        &&& strip10(abs(s) as nat) < MANT_LIMIT
        &&& min_exp(af, bf) + 40 <= EXP_LIMIT as int
    }

    /// What addition returns: an Integer pair gives the exact Integer sum;
    /// otherwise a well-formed Float, exact under `float_addsub_exact`.
    pub open spec fn add_post(self, other: NumericType, r: Result<NumericType, RuntimeError>) -> bool {
        match (self, other) {
            (NumericType::Integer(a), NumericType::Integer(b)) => r
                == Ok::<NumericType, RuntimeError>(NumericType::Integer((a + b) as i32)),
            _ => {
                let af = self.as_float();
                let bf = other.as_float();
                &&& match r {
                    Ok(n) => {
                        &&& n is Float
                        &&& n.wf()
                        &&& (self.float_addsub_exact(other, false) ==> {
                            let e = min_exp(af, bf);
                            n->Float_0.scaled(e) == af.scaled(e) + bf.scaled(e)
                        })
                    },
                    Err(e) => e is ValueError,
                }
                &&& (af.mant == 0 ==> r == Ok::<NumericType, RuntimeError>(
                    NumericType::Float(bf),
                ))
                &&& (bf.mant == 0 && af.mant != 0 ==> r == Ok::<NumericType, RuntimeError>(
                    NumericType::Float(af),
                ))
                &&& (af.mant != 0 && bf.mant != 0 && af.exp - bf.exp > 18 ==> r
                    == Ok::<NumericType, RuntimeError>(NumericType::Float(af)))
                &&& (af.mant != 0 && bf.mant != 0 && bf.exp - af.exp > 18 ==> r
                    == Ok::<NumericType, RuntimeError>(NumericType::Float(bf)))
                &&& (min_exp(af, bf) + 100 <= EXP_LIMIT as int ==> r is Ok)
            },
        }
    }

    /// Addition.  An Integer pair stays exact Integer; any Float operand
    /// promotes to decimal float arithmetic.
    pub fn add(&self, other: &NumericType) -> (r: Result<NumericType, RuntimeError>)
        requires
            self.wf(),
            other.wf(),
            self.addsub_req(*other, false),
        ensures
            self.add_post(*other, r),
    {
        match (self, other) {
            (NumericType::Integer(a), NumericType::Integer(b)) => {
                Ok(NumericType::Integer(*a + *b))
            },
            _ => {
                let fa = self.to_float_val();
                let fb = other.to_float_val();
                match float_add(&fa, &fb) {
                    Ok(f) => Ok(NumericType::Float(f)),
                    Err(e) => Err(e),
                }
            },
        }
    }

    /// What subtraction returns, mirroring `add_post`.
    pub open spec fn sub_post(self, other: NumericType, r: Result<NumericType, RuntimeError>) -> bool {
        match (self, other) {
            (NumericType::Integer(a), NumericType::Integer(b)) => r
                == Ok::<NumericType, RuntimeError>(NumericType::Integer((a - b) as i32)),
            _ => {
                let af = self.as_float();
                let bf = other.as_float();
                &&& match r {
                    Ok(n) => {
                        &&& n is Float
                        &&& n.wf()
                        &&& (self.float_addsub_exact(other, true) ==> {
                            let e = min_exp(af, bf);
                            n->Float_0.scaled(e) == af.scaled(e) - bf.scaled(e)
                        })
                    },
                    Err(e) => e is ValueError,
                }
                &&& (bf.mant == 0 ==> r == Ok::<NumericType, RuntimeError>(
                    NumericType::Float(af),
                ))
                &&& (af.mant == 0 && bf.mant != 0 ==> r == Ok::<NumericType, RuntimeError>(
                    NumericType::Float(FloatNum { mant: (-bf.mant as int) as i64, exp: bf.exp }),
                ))
                &&& (af.mant != 0 && bf.mant != 0 && af.exp - bf.exp > 18 ==> r
                    == Ok::<NumericType, RuntimeError>(NumericType::Float(af)))
                &&& (af.mant != 0 && bf.mant != 0 && bf.exp - af.exp > 18 ==> r
                    == Ok::<NumericType, RuntimeError>(NumericType::Float(
                    FloatNum { mant: (-bf.mant as int) as i64, exp: bf.exp },
                )))
                &&& (min_exp(af, bf) + 100 <= EXP_LIMIT as int ==> r is Ok)
            },
        }
    }

    /// Subtraction, under the same promotion rule as addition.
    pub fn sub(&self, other: &NumericType) -> (r: Result<NumericType, RuntimeError>)
        requires
            self.wf(),
            other.wf(),
            self.addsub_req(*other, true),
        ensures
            self.sub_post(*other, r),
    {
        match (self, other) {
            (NumericType::Integer(a), NumericType::Integer(b)) => {
                Ok(NumericType::Integer(*a - *b))
            },
            _ => {
                let fa = self.to_float_val();
                let fb = other.to_float_val();
                match float_sub(&fa, &fb) {
                    Ok(f) => Ok(NumericType::Float(f)),
                    Err(e) => Err(e),
                }
            },
        }
    }

    /// The overflow bound multiplication demands of an Integer pair.
    pub open spec fn mul_req(self, other: NumericType) -> bool {
        match (self, other) {
            (NumericType::Integer(a), NumericType::Integer(b)) => i32::MIN <= a * b
                <= i32::MAX,
            _ => true,
        }
    }

    /// What multiplication returns: an Integer pair gives the exact
    /// Integer product; otherwise a well-formed Float, exact when the raw
    /// mantissa product fits eighteen digits after stripping zeros.
    pub open spec fn mul_post(self, other: NumericType, r: Result<NumericType, RuntimeError>) -> bool {
        match (self, other) {
            (NumericType::Integer(a), NumericType::Integer(b)) => r
                == Ok::<NumericType, RuntimeError>(NumericType::Integer((a * b) as i32)),
            _ => {
                let af = self.as_float();
                let bf = other.as_float();
                &&& match r {
                    Ok(n) => {
                        &&& n is Float
                        &&& n.wf()
                        &&& (strip10(abs(af.mant * bf.mant) as nat) < MANT_LIMIT
                            ==> n->Float_0.scaled(af.exp + bf.exp) == af.mant * bf.mant)
                    },
                    Err(e) => e is ValueError,
                }
                &&& (af.mant == 0 || bf.mant == 0 ==> r == Ok::<NumericType, RuntimeError>(
                    NumericType::Float(FloatNum { mant: 0, exp: 0 }),
                ))
                &&& (-EXP_LIMIT <= af.exp + bf.exp && af.exp + bf.exp + 100 <= EXP_LIMIT as int
                    ==> r is Ok)
            },
        }
    }

    /// Multiplication.  An Integer pair stays exact Integer; any Float
    /// operand promotes to decimal float arithmetic.
    pub fn mul(&self, other: &NumericType) -> (r: Result<NumericType, RuntimeError>)
        requires
            self.wf(),
            other.wf(),
            self.mul_req(*other),
        ensures
            self.mul_post(*other, r),
    {
        match (self, other) {
            (NumericType::Integer(a), NumericType::Integer(b)) => {
                proof {
                    assert(i32::MIN <= *a * *b <= i32::MAX);
                }
                Ok(NumericType::Integer(i32_mul_exact(*a, *b)))
            },
            _ => {
                let fa = self.to_float_val();
                let fb = other.to_float_val();
                match float_mul(&fa, &fb) {
                    Ok(f) => Ok(NumericType::Float(f)),
                    Err(e) => Err(e),
                }
            },
        }
    }

    /// What true division returns: a ValueError exactly on a zero divisor;
    /// otherwise a well-formed Float, owed whenever the quotient's scale is
    /// inside the model's range, zero for a zero dividend, and the exact
    /// quotient whenever the scaled mantissa quotient terminates within
    /// eighteen digits.
    pub open spec fn div_post(self, other: NumericType, r: Result<NumericType, RuntimeError>) -> bool {
        let af = self.as_float();
        let bf = other.as_float();
        &&& (other.is_zero() ==> r == Err::<NumericType, RuntimeError>(
            RuntimeError::ValueError,
        ))
        &&& (!other.is_zero() ==> match r {
            Ok(n) => {
                &&& n is Float
                &&& n.wf()
                &&& (self.is_zero() ==> n == NumericType::Float(
                    FloatNum { mant: 0, exp: 0 },
                ))
                &&& (af.mant != 0 && div_exact(af, bf) && strip10(div_quot(af, bf) as nat)
                    < MANT_LIMIT ==> n->Float_0.scaled(
                    af.exp - bf.exp - div_shift(af),
                ) == if (af.mant > 0) == (bf.mant > 0) {
                    div_quot(af, bf)
                } else {
                    -div_quot(af, bf)
                })
            },
            Err(e) => e is ValueError,
        })
        &&& (!other.is_zero() && self.is_zero() ==> r == Ok::<NumericType, RuntimeError>(
            NumericType::Float(FloatNum { mant: 0, exp: 0 }),
        ))
        &&& (!other.is_zero() && af.mant != 0 && -EXP_LIMIT <= af.exp - bf.exp - div_shift(af)
            && af.exp - bf.exp - div_shift(af) + 100 <= EXP_LIMIT as int ==> r is Ok)
    }

    /// True division: always decimal float, exact whenever the scaled
    /// mantissa quotient terminates within eighteen digits.
    pub fn div(&self, other: &NumericType) -> (r: Result<NumericType, RuntimeError>)
        requires
            self.wf(),
            other.wf(),
        ensures
            self.div_post(*other, r),
            self is Integer && other is Integer && !other.is_zero() ==> r is Ok && r->Ok_0
                is Float,
    {
        proof {
            if self is Integer {
                lemma_float_of_int(self->Integer_0 as int);
            }
            if other is Integer {
                lemma_float_of_int(other->Integer_0 as int);
            }
        }
        if !other.to_bool() {
            return Err(RuntimeError::ValueError);
        }
        let fa = self.to_float_val();
        let fb = other.to_float_val();
        proof {
            if fa.mant != 0 {
                lemma_ndigits_bounds(abs(fa.mant as int) as nat);
                assert(crate::floatnum::pow10(18) == MANT_LIMIT as int) by {
                    reveal_with_fuel(crate::floatnum::pow10, 20);
                }
                if ndigits(abs(fa.mant as int) as nat) > 18 {
                    crate::floatnum::lemma_pow10_mono(
                        18,
                        (ndigits(abs(fa.mant as int) as nat) - 1) as nat,
                    );
                }
                assert(1 <= ndigits(abs(fa.mant as int) as nat) <= 18);
                assert(18 <= div_shift(fa) <= 35);
            }
        }
        match float_div(&fa, &fb) {
            Ok(f) => Ok(NumericType::Float(f)),
            Err(e) => Err(e),
        }
    }

    /// What remainder demands: an Integer divisor must be nonzero and the
    /// division must be representable.
    pub open spec fn rem_req(self, other: NumericType) -> bool {
        match (self, other) {
            (NumericType::Integer(a), NumericType::Integer(b)) => b != 0 && !(a == i32::MIN
                && b == -1),
            _ => true,
        }
    }

    /// Remainder, defined for Integer pairs only, with the sign of the
    /// dividend.
    pub fn rem(&self, other: &NumericType) -> (r: Result<NumericType, RuntimeError>)
        requires
            self.wf(),
            other.wf(),
            self.rem_req(*other),
        ensures
            match (self, other) {
                (NumericType::Integer(a), NumericType::Integer(b)) => r
                    == Ok::<NumericType, RuntimeError>(NumericType::Integer(
                    trunc_rem(*a as int, *b as int) as i32,
                )),
                _ => r == Err::<NumericType, RuntimeError>(RuntimeError::TypeMismatch),
            },
    {
        match (self, other) {
            (NumericType::Integer(a), NumericType::Integer(b)) => {
                let wa: i64 = *a as i64;
                let wb: i64 = *b as i64;
                let na: i64 = if wa < 0 { -wa } else { wa };
                let nb: i64 = if wb < 0 { -wb } else { wb };
                let m: i64 = na % nb;
                let res: i64 = if wa < 0 { -m } else { m };
                proof {
                    assert(0 <= m < nb);
                    assert(trunc_rem(*a as int, *b as int) == res);
                }
                Ok(NumericType::Integer(res as i32))
            },
            _ => Err(RuntimeError::TypeMismatch),
        }
    }

    /// Bitwise AND, Integers only.
    pub fn bitand(&self, other: &NumericType) -> (r: Result<NumericType, RuntimeError>)
        ensures
            match (self, other) {
                (NumericType::Integer(a), NumericType::Integer(b)) => r
                    == Ok::<NumericType, RuntimeError>(NumericType::Integer(*a & *b)),
                _ => r == Err::<NumericType, RuntimeError>(RuntimeError::TypeMismatch),
            },
    {
        match (self, other) {
            (NumericType::Integer(a), NumericType::Integer(b)) => {
                Ok(NumericType::Integer(*a & *b))
            },
            _ => Err(RuntimeError::TypeMismatch),
        }
    }

    /// Bitwise OR, Integers only.
    pub fn bitor(&self, other: &NumericType) -> (r: Result<NumericType, RuntimeError>)
        ensures
            match (self, other) {
                (NumericType::Integer(a), NumericType::Integer(b)) => r
                    == Ok::<NumericType, RuntimeError>(NumericType::Integer(*a | *b)),
                _ => r == Err::<NumericType, RuntimeError>(RuntimeError::TypeMismatch),
            },
    {
        match (self, other) {
            (NumericType::Integer(a), NumericType::Integer(b)) => {
                Ok(NumericType::Integer(*a | *b))
            },
            _ => Err(RuntimeError::TypeMismatch),
        }
    }

    /// Bitwise XOR, Integers only.
    pub fn bitxor(&self, other: &NumericType) -> (r: Result<NumericType, RuntimeError>)
        ensures
            match (self, other) {
                (NumericType::Integer(a), NumericType::Integer(b)) => r
                    == Ok::<NumericType, RuntimeError>(NumericType::Integer(*a ^ *b)),
                _ => r == Err::<NumericType, RuntimeError>(RuntimeError::TypeMismatch),
            },
    {
        match (self, other) {
            (NumericType::Integer(a), NumericType::Integer(b)) => {
                Ok(NumericType::Integer(*a ^ *b))
            },
            _ => Err(RuntimeError::TypeMismatch),
        }
    }

    /// What the shifts demand of an Integer pair: a shift amount within the
    /// integer width.
    pub open spec fn shift_req(self, other: NumericType) -> bool {
        match (self, other) {
            (NumericType::Integer(_), NumericType::Integer(b)) => 0 <= b < 32,
            _ => true,
        }
    }

    /// Left shift, Integers only.
    pub fn shl(&self, other: &NumericType) -> (r: Result<NumericType, RuntimeError>)
        requires
            self.shift_req(*other),
        ensures
            match (self, other) {
                (NumericType::Integer(a), NumericType::Integer(b)) => r
                    == Ok::<NumericType, RuntimeError>(NumericType::Integer(*a << *b)),
                _ => r == Err::<NumericType, RuntimeError>(RuntimeError::TypeMismatch),
            },
    {
        match (self, other) {
            (NumericType::Integer(a), NumericType::Integer(b)) => {
                Ok(NumericType::Integer(*a << *b))
            },
            _ => Err(RuntimeError::TypeMismatch),
        }
    }

    /// Arithmetic right shift, Integers only.
    pub fn shr(&self, other: &NumericType) -> (r: Result<NumericType, RuntimeError>)
        requires
            self.shift_req(*other),
        ensures
            match (self, other) {
                (NumericType::Integer(a), NumericType::Integer(b)) => r
                    == Ok::<NumericType, RuntimeError>(NumericType::Integer(*a >> *b)),
                _ => r == Err::<NumericType, RuntimeError>(RuntimeError::TypeMismatch),
            },
    {
        match (self, other) {
            (NumericType::Integer(a), NumericType::Integer(b)) => {
                Ok(NumericType::Integer(*a >> *b))
            },
            _ => Err(RuntimeError::TypeMismatch),
        }
    }

    /// What unary negation returns.
    pub open spec fn neg_spec(self) -> NumericType {
        match self {
            NumericType::Integer(a) => NumericType::Integer((-(a as int)) as i32),
            NumericType::Float(f) => NumericType::Float(
                FloatNum { mant: (-f.mant as int) as i64, exp: f.exp },
            ),
        }
    }

    /// Unary negation of either kind.
    pub fn neg(&self) -> (r: NumericType)
        requires
            self.wf(),
            self is Integer ==> self->Integer_0 != i32::MIN,
        ensures
            r == self.neg_spec(),
            r.wf(),
    {
        match *self {
            NumericType::Integer(a) => NumericType::Integer(-a),
            NumericType::Float(f) => NumericType::Float(float_neg(&f)),
        }
    }

    /// Bitwise complement: `~a == -a - 1` for an Integer; a Float has none.
    pub fn not(&self) -> (r: Result<NumericType, RuntimeError>)
        ensures
            match self {
                NumericType::Integer(a) => r == Ok::<NumericType, RuntimeError>(
                    NumericType::Integer((-(*a as int) - 1) as i32),
                ),
                NumericType::Float(_) => r == Err::<NumericType, RuntimeError>(
                    RuntimeError::TypeMismatch,
                ),
            },
    {
        match *self {
            NumericType::Integer(a) => {
                let w: i64 = -(a as i64) - 1;
                Ok(NumericType::Integer(w as i32))
            },
            NumericType::Float(_) => Err(RuntimeError::TypeMismatch),
        }
    }

    /// The executable conversion to the canonical decimal float.
    pub fn to_float_val(&self) -> (r: FloatNum)
        requires
            self.wf(),
        ensures
            r == self.as_float(),
            r.wf(),
    {
        proof {
            if self is Integer {
                lemma_float_of_int(self->Integer_0 as int);
            }
        }
        match *self {
            NumericType::Integer(v) => float_from_int(v),
            NumericType::Float(f) => f,
        }
    }
}

/// Remainder with truncated division semantics: the sign follows the
/// dividend.
pub open spec fn trunc_rem(a: int, b: int) -> int {
    let na = abs(a) as int;
    let nb = abs(b) as int;
    if a >= 0 {
        na % nb
    } else {
        -(na % nb)
    }
}

/// Exact product of two machine integers whose result is known to fit.
fn i32_mul_exact(a: i32, b: i32) -> (r: i32)
    requires
        i32::MIN <= a * b <= i32::MAX,
    ensures
        r == a * b,
{
    proof {
        assert(-0x8000_0000_0000_0000 <= (a as i64) * (b as i64) < 0x8000_0000_0000_0000)
            by (nonlinear_arith)
            requires -0x8000_0000 <= a < 0x8000_0000 && -0x8000_0000 <= b < 0x8000_0000;
    }
    ((a as i64) * (b as i64)) as i32
}

} // verus!
