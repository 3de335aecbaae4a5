//! The decimal representation behind `NumericType::Float`.
//!
//! A float value is held exactly as `mant * 10^exp` with a bounded integer
//! mantissa, the form a round-trip decimal rendering reads back.  Keeping the
//! payload in integers lets every coercion, comparison and rendering rule be
//! stated and checked over plain arithmetic.

use vstd::prelude::*;
use vstd::math::abs;

use crate::error::RuntimeError;

verus! {

/// Largest admissible mantissa magnitude: eighteen decimal digits.
pub const MANT_LIMIT: i64 = 1_000_000_000_000_000_000;

/// Largest admissible decimal exponent magnitude.
pub const EXP_LIMIT: i32 = 30_000;

/// A decimal float: the exact value `mant * 10^exp`.
///
/// Well-formed values are canonical: the mantissa has no trailing zero
/// digit, so every value has exactly one representation.
#[derive(Debug, Clone, Copy)]
pub struct FloatNum {
    pub mant: i64,
    pub exp: i32,
}

/// `10^n`.
pub open spec fn pow10(n: nat) -> int
    decreases n,
{
    if n == 0 {
        1
    } else {
        10 * pow10((n - 1) as nat)
    }
}

pub proof fn lemma_pow10_pos(n: nat)
    ensures
        pow10(n) >= 1,
    decreases n,
{
    if n > 0 {
        lemma_pow10_pos((n - 1) as nat);
    }
}

pub proof fn lemma_pow10_mono(m: nat, n: nat)
    requires
        m <= n,
    ensures
        pow10(m) <= pow10(n),
    decreases n,
{
    if m < n {
        lemma_pow10_mono(m, (n - 1) as nat);
        lemma_pow10_pos((n - 1) as nat);
    }
}

pub proof fn lemma_pow10_add(m: nat, n: nat)
    ensures
        pow10(m + n) == pow10(m) * pow10(n),
    decreases m,
{
    if m == 0 {
    } else {
        lemma_pow10_add((m - 1) as nat, n);
        assert(pow10(m + n) == 10 * pow10((m + n - 1) as nat));
        assert(10 * (pow10((m - 1) as nat) * pow10(n)) == (10 * pow10((m - 1) as nat)) * pow10(n))
            by (nonlinear_arith);
    }
}

/// `n` with every trailing zero digit removed.
pub open spec fn strip10(n: nat) -> nat
    decreases n,
{
    if n > 0 && n % 10 == 0 {
        strip10(n / 10)
    } else {
        n
    }
}

pub proof fn lemma_strip10_le(n: nat)
    ensures
        strip10(n) <= n,
    decreases n,
{
    if n > 0 && n % 10 == 0 {
        lemma_strip10_le(n / 10);
    }
}

/// Stripping trailing zeros from `x * 10^s` recovers `x` when `x` itself has
/// no trailing zero digit.
pub proof fn lemma_strip10_scale(x: nat, s: nat)
    requires
        x % 10 != 0,
    ensures
        strip10((x * pow10(s)) as nat) == x,
    decreases s,
{
    if s == 0 {
        assert(x * pow10(0) == x);
    } else {
        lemma_pow10_add((s - 1) as nat, 1);
        lemma_pow10_pos((s - 1) as nat);
        let y: int = x * pow10((s - 1) as nat);
        assert(x * pow10(s) == y * 10) by (nonlinear_arith)
            requires
                pow10(s) == pow10((s - 1) as nat) * 10 && y == x * pow10((s - 1) as nat);
        assert(y >= x) by (nonlinear_arith)
            requires
                pow10((s - 1) as nat) >= 1 && y == x * pow10((s - 1) as nat) && x >= 0;
        assert(x >= 1);
        assert((y * 10) % 10 == 0 && (y * 10) / 10 == y) by (nonlinear_arith)
            requires y >= 1;
        lemma_strip10_scale(x, (s - 1) as nat);
    }
}

/// The number of decimal digits of `n`.
pub open spec fn ndigits(n: nat) -> nat
    decreases n,
{
    if n < 10 {
        1
    } else {
        1 + ndigits(n / 10)
    }
}

/// The digit count brackets a positive number between two powers of ten.
pub proof fn lemma_ndigits_bounds(n: nat)
    requires
        n >= 1,
    ensures
        1 <= ndigits(n),
        pow10((ndigits(n) - 1) as nat) <= n < pow10(ndigits(n)),
    decreases n,
{
    if n < 10 {
    } else {
        lemma_ndigits_bounds(n / 10);
        let d = ndigits(n / 10);
        assert(pow10((d - 1) as nat) <= n / 10 < pow10(d));
        assert(n < 10 * (n / 10) + 10);
        assert(10 * (n / 10) + 10 <= 10 * pow10(d)) by (nonlinear_arith)
            requires n / 10 < pow10(d);
        assert(10 * pow10((d - 1) as nat) <= 10 * (n / 10)) by (nonlinear_arith)
            requires pow10((d - 1) as nat) <= n / 10;
        assert(10 * (n / 10) <= n);
    }
}

/// Counts the decimal digits of `n`.
#[verifier::loop_isolation(false)]
pub fn digit_count(n: u64) -> (d: u32)
    requires
        n >= 1,
    ensures
        d == ndigits(n as nat),
        1 <= d <= 20,
{
    let mut m: u64 = n;
    let mut d: u32 = 1;
    while m >= 10
        invariant
            1 <= m <= n,
            d >= 1,
            ndigits(n as nat) == d - 1 + ndigits(m as nat),
            d <= 21,
        decreases m,
    {
        proof {
            assert(ndigits(m as nat) == 1 + ndigits((m / 10) as nat));
            assert(d < 21) by {
                lemma_ndigits_bounds(n as nat);
                assert(pow10(20) > 0xffff_ffff_ffff_ffff) by {
                    reveal_with_fuel(pow10, 21);
                }
                if ndigits(n as nat) > 20 {
                    lemma_pow10_mono(20, (ndigits(n as nat) - 1) as nat);
                }
            }
        }
        m = m / 10;
        d = d + 1;
    }
    proof {
        lemma_ndigits_bounds(n as nat);
        assert(pow10(20) > 0xffff_ffff_ffff_ffff) by {
            reveal_with_fuel(pow10, 21);
        }
        if ndigits(n as nat) > 20 {
            lemma_pow10_mono(20, (ndigits(n as nat) - 1) as nat);
        }
    }
    d
}

/// A nonzero value scaled up by `10^k` stays at or above `10^k` in magnitude,
/// so `k` is bounded by the magnitude of the product.
proof fn lemma_scale_bound(a: int, k: nat, bound: nat)
    requires
        a >= 1,
        a * pow10(k) < pow10(bound),
    ensures
        k <= bound,
{
    lemma_pow10_pos(k);
    assert(a * pow10(k) >= pow10(k)) by (nonlinear_arith)
        requires a >= 1 && pow10(k) >= 1;
    if k > bound {
        lemma_pow10_mono(bound, k);
    }
}

impl FloatNum {
    /// Canonical form: bounded mantissa without trailing zero digits, zero
    /// written uniquely, bounded exponent.
    pub open spec fn wf(self) -> bool {
        &&& -MANT_LIMIT < self.mant < MANT_LIMIT
        &&& (self.mant == 0 ==> self.exp == 0)
        &&& (self.mant != 0 ==> self.mant % 10 != 0)
        &&& -EXP_LIMIT <= self.exp <= EXP_LIMIT
    }

    /// The value scaled to the exponent `e`: `mant * 10^(exp - e)`.
    /// Meaningful when `e <= self.exp`, so the result is an integer.
    pub open spec fn scaled(self, e: int) -> int {
        self.mant * pow10((self.exp - e) as nat)
    }

    /// Whether the value is numerically zero.
    pub open spec fn is_zero_spec(self) -> bool {
        self.mant == 0
    }

    /// The zero float.
    pub fn zero() -> (r: FloatNum)
        ensures
            r.wf(),
            r.mant == 0,
            r.exp == 0,
    {
        FloatNum { mant: 0, exp: 0 }
    }
}

/// Brings a raw scaled-integer value `m0 * 10^e0` into canonical form.
/// A mantissa beyond eighteen digits is rounded, ties away from zero; a
/// decimal exponent that leaves the admissible range is reported as a
/// `ValueError`.  For mantissas already within the eighteen-digit bound the
/// result is exact.
#[verifier::loop_isolation(false)]
#[verifier::rlimit(100)]
#[verifier::spinoff_prover]
pub fn normalize(m0: i128, e0: i64) -> (r: Result<FloatNum, RuntimeError>)
    requires
        -pow10(37) < m0 < pow10(37),
        -100_000 <= e0 <= 100_000,
    ensures
        match r {
            Ok(f) => {
                &&& f.wf()
                &&& (m0 != 0 ==> f.exp >= e0)
                &&& (strip10(abs(m0 as int) as nat) < MANT_LIMIT ==> f.scaled(e0 as int) == m0)
                &&& (f.mant > 0 <==> m0 > 0)
                &&& (f.mant < 0 <==> m0 < 0)
                &&& (m0 != 0 ==> 2 * abs(f.scaled(e0 as int) - m0) <= pow10(
                    (f.exp - e0) as nat,
                ))
            },
            Err(e) => e is ValueError,
        },
        m0 == 0 ==> r == Ok::<FloatNum, RuntimeError>(FloatNum { mant: 0, exp: 0 }),
        strip10(abs(m0 as int) as nat) < MANT_LIMIT && -EXP_LIMIT <= e0 && e0 + 40 <= EXP_LIMIT as i64
            ==> r is Ok,
        -EXP_LIMIT <= e0 && e0 + 100 <= EXP_LIMIT as i64 ==> r is Ok,
{
    proof {
        assert(pow10(38) < 0x8000_0000_0000_0000_0000_0000_0000_0000) by {
            reveal_with_fuel(pow10, 40);
        }
        lemma_pow10_add(37, 1);
    }
    if m0 == 0 {
        return Ok(FloatNum { mant: 0, exp: 0 });
    }
    let neg: bool = m0 < 0;
    let mut a: u128 = if neg { (-m0) as u128 } else { m0 as u128 };
    let mut e: i64 = e0;
    let ghost a0: int = a as int;

    // Strip trailing zero digits while keeping the value exact.
    while a % 10 == 0
        invariant
            1 <= a < pow10(37),
            a0 < pow10(37),
            e0 <= e <= e0 + 37,
            a * pow10((e - e0) as nat) == a0,
            -100_000 <= e0 <= 100_000,
        decreases a,
    {
        proof {
            lemma_pow10_add((e - e0) as nat, 1);
            assert((a / 10) * (pow10((e - e0) as nat) * 10) == a * pow10((e - e0) as nat))
                by (nonlinear_arith)
                requires a % 10 == 0 && a >= 1;
            lemma_scale_bound(a as int / 10, (e + 1 - e0) as nat, 37);
        }
        a = a / 10;
        e = e + 1;
    }
    proof {
        lemma_strip10_scale(a as nat, (e - e0) as nat);
        assert(strip10(a0 as nat) == a);
    }

    // Round a mantissa that does not fit in eighteen digits.
    if a >= MANT_LIMIT as u128 {
        proof {
            lemma_pow10_pos((e - e0) as nat);
            assert(a * pow10((e - e0) as nat) >= a) by (nonlinear_arith)
                requires a >= 1 && pow10((e - e0) as nat) >= 1;
        }
        let mut p: u128 = 1;
        let mut d: u32 = 0;
        while a / p >= MANT_LIMIT as u128
            invariant
                1 <= p,
                p == pow10(d as nat),
                d <= 37,
                MANT_LIMIT as u128 <= a < pow10(37),
                a / p >= (MANT_LIMIT as u128) / 10,
            decreases a / p,
        {
            proof {
                assert(a as int / (10 * p as int) >= (MANT_LIMIT as int) / 10)
                    by (nonlinear_arith)
                    requires
                        p as int >= 1,
                        a as int / (p as int) >= MANT_LIMIT as int,
                        a >= 1;
            }
            proof {
                lemma_pow10_add(d as nat, 1);
                assert(a as int / (10 * p as int) < a as int / (p as int)) by (nonlinear_arith)
                    requires p as int >= 1 && a as int / (p as int) >= MANT_LIMIT as int && a >= 1;
                assert(d < 37) by {
                    if d >= 37 {
                        lemma_pow10_mono(37, d as nat);
                        assert(a / p < 1) by (nonlinear_arith)
                            requires p >= pow10(37) && 0 < a < pow10(37);
                    }
                }
                lemma_pow10_mono(d as nat, 36);
                lemma_pow10_add(36, 1);
            }
            p = p * 10;
            d = d + 1;
        }
        let q: u128 = a / p;
        let rem: u128 = a % p;
        proof {
            lemma_pow10_mono(d as nat, 37);
            assert(rem < p);
        }
        let rounded: u128 = if 2 * rem >= p { q + 1 } else { q };
        proof {
            assert(rounded * pow10(0) == rounded);
        }
        let mut m2: u128 = rounded;
        let mut e2: i64 = e + d as i64;
        while m2 % 10 == 0
            invariant
                0 < m2 <= MANT_LIMIT as u128,
                0 < rounded <= MANT_LIMIT as u128,
                e + d as i64 <= e2 <= e + d as i64 + 19,
                m2 * pow10((e2 - (e + d as i64)) as nat) == rounded,
            decreases m2,
        {
            proof {
                let k: nat = (e2 - (e + d as i64)) as nat;
                lemma_pow10_add(k, 1);
                assert((m2 / 10) * (pow10(k) * 10) == m2 * pow10(k)) by (nonlinear_arith)
                    requires m2 % 10 == 0 && m2 >= 1;
                lemma_pow10_mono(0, 19);
                assert(pow10(19) > MANT_LIMIT as int) by { reveal_with_fuel(pow10, 20); }
                lemma_scale_bound(m2 as int / 10, (k + 1) as nat, 19);
            }
            m2 = m2 / 10;
            e2 = e2 + 1;
        }
        if e2 > EXP_LIMIT as i64 || e2 < -(EXP_LIMIT as i64) {
            proof {
                assert(e2 <= e0 + 37 + 37 + 19);
                assert(e2 >= e0);
            }
            return Err(RuntimeError::ValueError);
        }
        let mant: i64 = if neg { -(m2 as i64) } else { m2 as i64 };
        proof {
            // The result sits within half a unit of the final scale of the
            // exact value: the division bracket scaled back up.
            let s = (e2 - (e + d as i64)) as nat;
            let shift = (e - e0) as nat;
            let scaled_pos = m2 * pow10(((e2 - e0) as i64) as nat);
            vstd::arithmetic::div_mod::lemma_fundamental_div_mod(a as int, p as int);
            assert(a == q * (p as int) + rem && 0 <= rem < p as int);
            assert(2 * (if rounded * (p as int) >= a { rounded * (p as int) - a } else {
                a - rounded * (p as int)
            }) <= p) by (nonlinear_arith)
                requires
                    a == q * (p as int) + rem,
                    0 <= rem < p as int,
                    rounded == (if 2 * rem >= p { q + 1 as int } else { q as int }),
                    p >= 1;
            lemma_pow10_add(s, d as nat);
            lemma_pow10_add((s + d as nat) as nat, shift);
            assert((e2 - e0) as int == s + d as nat + shift);
            assert(m2 * pow10((s + d as nat + shift) as nat) == ((m2 * pow10(s)) * pow10(
                d as nat,
            )) * pow10(shift)) by (nonlinear_arith)
                requires
                    pow10((s + d as nat + shift) as nat) == (pow10(s) * pow10(d as nat))
                        * pow10(shift);
            assert(scaled_pos == (rounded * (p as int)) * pow10(shift));
            lemma_pow10_pos(shift);
            assert(2 * (if scaled_pos >= a0 { scaled_pos - a0 } else { a0 - scaled_pos })
                <= (p as int) * pow10(shift)) by (nonlinear_arith)
                requires
                    scaled_pos == (rounded * (p as int)) * pow10(shift),
                    a0 == a * pow10(shift),
                    2 * (if rounded * (p as int) >= a { rounded * (p as int) - a } else {
                        a - rounded * (p as int)
                    }) <= p,
                    pow10(shift) >= 1;
            lemma_pow10_add(d as nat, shift);
            lemma_pow10_mono((d as nat + shift) as nat, (e2 - e0) as nat);
            if neg {
                assert(mant * pow10((e2 - e0) as nat) == -scaled_pos) by (nonlinear_arith)
                    requires
                        mant == -(m2 as int),
                        scaled_pos == m2 * pow10((e2 - e0) as nat);
            }
        }
        return Ok(FloatNum { mant, exp: e2 as i32 });
    }

    if e > EXP_LIMIT as i64 || e < -(EXP_LIMIT as i64) {
        return Err(RuntimeError::ValueError);
    }
    let mant: i64 = if neg { -(a as i64) } else { a as i64 };
    proof {
        if neg {
            assert(mant * pow10((e - e0) as nat) == -(a * pow10((e - e0) as nat)))
                by (nonlinear_arith)
                requires mant == -(a as int);
        }
        lemma_pow10_pos((e - e0) as nat);
    }
    Ok(FloatNum { mant, exp: e as i32 })
}

/// The smaller of the two exponents: the scale at which both values are
/// integers.
pub open spec fn min_exp(a: FloatNum, b: FloatNum) -> int {
    if a.exp <= b.exp {
        a.exp as int
    } else {
        b.exp as int
    }
}

/// Numeric equality of two decimal floats.
pub open spec fn float_eq_spec(a: FloatNum, b: FloatNum) -> bool {
    a.scaled(min_exp(a, b)) == b.scaled(min_exp(a, b))
}

/// Numeric strict order on two decimal floats.
pub open spec fn float_lt_spec(a: FloatNum, b: FloatNum) -> bool {
    a.scaled(min_exp(a, b)) < b.scaled(min_exp(a, b))
}

/// Canonical forms are unique: numerically equal well-formed floats are the
/// same representation.
pub proof fn lemma_canonical_unique(a: FloatNum, b: FloatNum)
    requires
        a.wf(),
        b.wf(),
        float_eq_spec(a, b),
    ensures
        a == b,
{
    let e = min_exp(a, b);
    let ka = (a.exp - e) as nat;
    let kb = (b.exp - e) as nat;
    lemma_pow10_pos(ka);
    lemma_pow10_pos(kb);
    if a.exp == b.exp {
        assert(pow10(0) == 1);
        assert(a.mant * pow10(0) == a.mant) by (nonlinear_arith)
            requires pow10(0) == 1;
        assert(b.mant * pow10(0) == b.mant);
        assert(a.mant == b.mant);
    } else if a.exp > b.exp {
        assert(kb == 0 && b.mant * pow10(0) == b.mant);
        assert(ka >= 1);
        lemma_pow10_add((ka - 1) as nat, 1);
        let h = a.mant * pow10((ka - 1) as nat);
        assert(a.mant * pow10(ka) == h * 10) by (nonlinear_arith)
            requires pow10(ka) == pow10((ka - 1) as nat) * 10 && h == a.mant * pow10((ka - 1) as nat);
        assert((h * 10) % 10 == 0) by (nonlinear_arith);
        assert(b.mant == 0);
        assert(a.mant == 0) by (nonlinear_arith)
            requires a.mant * pow10(ka) == 0 && pow10(ka) >= 1;
        assert(false);
    } else {
        assert(ka == 0 && a.mant * pow10(0) == a.mant);
        assert(kb >= 1);
        lemma_pow10_add((kb - 1) as nat, 1);
        let h = b.mant * pow10((kb - 1) as nat);
        assert(b.mant * pow10(kb) == h * 10) by (nonlinear_arith)
            requires pow10(kb) == pow10((kb - 1) as nat) * 10 && h == b.mant * pow10((kb - 1) as nat);
        assert((h * 10) % 10 == 0) by (nonlinear_arith);
        assert(a.mant == 0);
        assert(b.mant == 0) by (nonlinear_arith)
            requires b.mant * pow10(kb) == 0 && pow10(kb) >= 1;
        assert(false);
    }
}

/// Scaling by a power of ten keeps the sign.
proof fn lemma_scaled_sign(f: FloatNum, e: int)
    requires
        e <= f.exp,
    ensures
        f.scaled(e) > 0 <==> f.mant > 0,
        f.scaled(e) < 0 <==> f.mant < 0,
        f.scaled(e) == 0 <==> f.mant == 0,
{
    let k = (f.exp - e) as nat;
    lemma_pow10_pos(k);
    assert(f.mant > 0 ==> f.mant * pow10(k) > 0) by (nonlinear_arith)
        requires pow10(k) >= 1;
    assert(f.mant < 0 ==> f.mant * pow10(k) < 0) by (nonlinear_arith)
        requires pow10(k) >= 1;
    assert(f.mant == 0 ==> f.mant * pow10(k) == 0) by (nonlinear_arith);
}

/// `10^k` as a machine integer.
#[verifier::loop_isolation(false)]
pub fn pow10_i128(k: u32) -> (r: i128)
    requires
        k <= 37,
    ensures
        r == pow10(k as nat),
{
    proof {
        assert(pow10(37) < 0x8000_0000_0000_0000_0000_0000_0000_0000) by {
            reveal_with_fuel(pow10, 40);
        }
    }
    let mut r: i128 = 1;
    let mut i: u32 = 0;
    while i < k
        invariant
            i <= k,
            r == pow10(i as nat),
        decreases k - i,
    {
        proof {
            lemma_pow10_pos(i as nat);
            lemma_pow10_mono((i + 1) as nat, 37);
            assert(r * 10 == pow10((i + 1) as nat));
        }
        r = r * 10;
        i = i + 1;
    }
    r
}

/// Numeric equality test; by canonicity this is representation equality.
pub fn float_eq(a: &FloatNum, b: &FloatNum) -> (r: bool)
    requires
        a.wf(),
        b.wf(),
    ensures
        r == float_eq_spec(*a, *b),
{
    proof {
        if float_eq_spec(*a, *b) {
            lemma_canonical_unique(*a, *b);
        }
        lemma_pow10_pos((a.exp - min_exp(*a, *b)) as nat);
    }
    a.mant == b.mant && a.exp == b.exp
}

/// A positive value is bracketed by powers of ten determined by its digit
/// count and exponent, which orders values of different magnitude classes.
proof fn lemma_mag_class_lt(a: FloatNum, b: FloatNum)
    requires
        a.wf(),
        b.wf(),
        a.mant > 0,
        b.mant > 0,
        ndigits(a.mant as nat) + a.exp < ndigits(b.mant as nat) + b.exp,
    ensures
        float_lt_spec(a, b),
{
    let e = min_exp(a, b);
    let ka = (a.exp - e) as nat;
    let kb = (b.exp - e) as nat;
    let da = ndigits(a.mant as nat);
    let db = ndigits(b.mant as nat);
    lemma_ndigits_bounds(a.mant as nat);
    lemma_ndigits_bounds(b.mant as nat);
    lemma_pow10_pos(ka);
    lemma_pow10_pos(kb);
    assert(a.mant * pow10(ka) < pow10(da) * pow10(ka)) by (nonlinear_arith)
        requires a.mant < pow10(da) && pow10(ka) >= 1;
    lemma_pow10_add(da, ka);
    assert(pow10((db - 1) as nat) * pow10(kb) <= b.mant * pow10(kb)) by (nonlinear_arith)
        requires pow10((db - 1) as nat) <= b.mant && pow10(kb) >= 1;
    lemma_pow10_add((db - 1) as nat, kb);
    assert(da + ka <= db - 1 + kb);
    lemma_pow10_mono((da + ka) as nat, ((db - 1) as nat + kb) as nat);
}

/// Numeric strict-order test.
pub fn float_lt(a: &FloatNum, b: &FloatNum) -> (r: bool)
    requires
        a.wf(),
        b.wf(),
    ensures
        r == float_lt_spec(*a, *b),
{
    proof {
        lemma_scaled_sign(*a, min_exp(*a, *b));
        lemma_scaled_sign(*b, min_exp(*a, *b));
    }
    if a.mant <= 0 && b.mant > 0 {
        return true;
    }
    if a.mant >= 0 && b.mant <= 0 {
        return false;
    }
    if a.mant < 0 && b.mant == 0 {
        return true;
    }
    // Both mantissas now share one strict sign.
    let neg: bool = a.mant < 0;
    let na: u64 = if neg { (-a.mant) as u64 } else { a.mant as u64 };
    let nb: u64 = if neg { (-b.mant) as u64 } else { b.mant as u64 };
    let da = digit_count(na);
    let db = digit_count(nb);
    let ca: i64 = da as i64 + a.exp as i64;
    let cb: i64 = db as i64 + b.exp as i64;
    let flip = FloatNum { mant: if neg { -a.mant } else { a.mant }, exp: a.exp };
    let flop = FloatNum { mant: if neg { -b.mant } else { b.mant }, exp: b.exp };
    proof {
        assert(flip.wf() && flop.wf()) by {
            assert(a.mant % 10 != 0 && b.mant % 10 != 0);
            if neg {
                assert((-a.mant) % 10 != 0);
                assert((-b.mant) % 10 != 0);
            }
        }
        // Relate the magnitude comparison of flip/flop to the original order.
        let e = min_exp(*a, *b);
        assert(min_exp(flip, flop) == e);
        if neg {
            assert(flip.scaled(e) == -a.scaled(e) && flop.scaled(e) == -b.scaled(e))
                by (nonlinear_arith)
                requires
                    flip.mant == -a.mant && flop.mant == -b.mant
                        && flip.exp == a.exp && flop.exp == b.exp;
        }
    }
    let r_mag: bool = if ca < cb {
        proof { lemma_mag_class_lt(flip, flop); }
        true
    } else if ca > cb {
        proof { lemma_mag_class_lt(flop, flip); }
        false
    } else {
        // Same magnitude class: the exponent gap is at most the digit spread.
        let e_low: i32 = if a.exp <= b.exp { a.exp } else { b.exp };
        proof {
            assert(pow10(19) == 10_000_000_000_000_000_000) by {
                reveal_with_fuel(pow10, 20);
            }
            lemma_pow10_pos((a.exp - e_low) as nat);
            lemma_pow10_pos((b.exp - e_low) as nat);
            lemma_pow10_mono((a.exp - e_low) as nat, 19);
            lemma_pow10_mono((b.exp - e_low) as nat, 19);
            assert((na as int) * pow10((a.exp - e_low) as nat) < pow10(19) * pow10(19))
                by (nonlinear_arith)
                requires
                    na > 0 && (na as int) < pow10(19),
                    pow10((a.exp - e_low) as nat) > 0,
                    pow10((a.exp - e_low) as nat) <= pow10(19);
            assert((nb as int) * pow10((b.exp - e_low) as nat) < pow10(19) * pow10(19))
                by (nonlinear_arith)
                requires
                    nb > 0 && (nb as int) < pow10(19),
                    pow10((b.exp - e_low) as nat) > 0,
                    pow10((b.exp - e_low) as nat) <= pow10(19);
            lemma_pow10_add(19, 19);
            assert(pow10(38) < 0x8000_0000_0000_0000_0000_0000_0000_0000) by {
                reveal_with_fuel(pow10, 40);
            }
        }
        let va: i128 = na as i128 * pow10_i128((a.exp - e_low) as u32);
        let vb: i128 = nb as i128 * pow10_i128((b.exp - e_low) as u32);
        proof {
            assert(flip.scaled(e_low as int) == va && flop.scaled(e_low as int) == vb);
        }
        va < vb
    };
    if neg {
        // Magnitude order reverses under negation.
        if r_mag {
            false
        } else {
            !float_eq(a, b)
        }
    } else {
        r_mag
    }
}

/// How many trailing zero digits `n` has.
pub open spec fn strip_count(n: nat) -> nat
    decreases n,
{
    if n > 0 && n % 10 == 0 {
        1 + strip_count(n / 10)
    } else {
        0
    }
}

pub proof fn lemma_strip10_props(n: nat)
    ensures
        strip10(n) * pow10(strip_count(n)) == n,
        n > 0 ==> strip10(n) % 10 != 0 && strip10(n) >= 1,
        n == 0 ==> strip10(n) == 0 && strip_count(n) == 0,
        strip_count(n) <= ndigits(n),
    decreases n,
{
    if n > 0 && n % 10 == 0 {
        lemma_strip10_props(n / 10);
        let c = strip_count(n / 10);
        lemma_pow10_add(c, 1);
        assert(strip10(n) * pow10(c + 1) == (strip10(n) * pow10(c)) * 10) by (nonlinear_arith)
            requires pow10(c + 1) == pow10(c) * 10;
        assert((n / 10) * 10 == n);
        assert(ndigits(n) == 1 + ndigits(n / 10));
    } else {
        assert(strip10(n) * pow10(0) == n);
    }
}

/// The canonical decimal float holding the integer `v`.
pub open spec fn float_of_int(v: int) -> FloatNum {
    if v == 0 {
        FloatNum { mant: 0, exp: 0 }
    } else if v > 0 {
        FloatNum { mant: strip10(v as nat) as i64, exp: strip_count(v as nat) as i32 }
    } else {
        FloatNum { mant: (-(strip10((-v) as nat) as int)) as i64, exp: strip_count((-v) as nat) as i32 }
    }
}

pub proof fn lemma_float_of_int(v: int)
    requires
        -MANT_LIMIT < v < MANT_LIMIT,
    ensures
        float_of_int(v).wf(),
        0 <= float_of_int(v).exp <= 19,
        float_of_int(v).scaled(0) == v,
        (float_of_int(v).mant > 0 <==> v > 0),
        (float_of_int(v).mant < 0 <==> v < 0),
{
    let f = float_of_int(v);
    if v == 0 {
        assert(f.scaled(0) == 0);
    } else {
        let n: nat = if v > 0 { v as nat } else { (-v) as nat };
        lemma_strip10_props(n);
        lemma_strip10_le(n);
        lemma_ndigits_bounds(n);
        assert(pow10(19) > MANT_LIMIT as int) by { reveal_with_fuel(pow10, 20); }
        if ndigits(n) > 19 {
            lemma_pow10_mono(19, (ndigits(n) - 1) as nat);
        }
        assert(strip_count(n) <= 19);
        if v > 0 {
            assert(f.scaled(0) == strip10(n) * pow10(strip_count(n)));
        } else {
            assert(f.scaled(0) == -(strip10(n) as int) * pow10(strip_count(n)));
            assert(-(strip10(n) as int) * pow10(strip_count(n))
                == -(strip10(n) * pow10(strip_count(n)))) by (nonlinear_arith);
        }
    }
}

/// Moving a value to a lower scale multiplies it by the matching power of
/// ten.
pub proof fn lemma_scaled_change(f: FloatNum, e1: int, e2: int)
    requires
        e2 <= e1 <= f.exp,
    ensures
        f.scaled(e2) == f.scaled(e1) * pow10((e1 - e2) as nat),
{
    lemma_pow10_add((f.exp - e1) as nat, (e1 - e2) as nat);
    assert(f.mant * (pow10((f.exp - e1) as nat) * pow10((e1 - e2) as nat))
        == (f.mant * pow10((f.exp - e1) as nat)) * pow10((e1 - e2) as nat))
        by (nonlinear_arith);
}

/// Two values that agree at some common scale agree at the lowest one.
pub proof fn lemma_eq_at_scale(a: FloatNum, b: FloatNum, e: int)
    requires
        e <= a.exp,
        e <= b.exp,
        a.scaled(e) == b.scaled(e),
    ensures
        float_eq_spec(a, b),
{
    let m = min_exp(a, b);
    if e < m {
        lemma_scaled_change(a, m, e);
        lemma_scaled_change(b, m, e);
        lemma_pow10_pos((m - e) as nat);
        assert(a.scaled(m) == b.scaled(m)) by (nonlinear_arith)
            requires
                a.scaled(m) * pow10((m - e) as nat) == b.scaled(m) * pow10((m - e) as nat),
                pow10((m - e) as nat) >= 1;
    }
}

/// The decimal float holding an exact integer.
pub fn float_from_int(v: i32) -> (r: FloatNum)
    ensures
        r.wf(),
        r.exp >= 0,
        r.scaled(0) == v,
        r == float_of_int(v as int),
        (r.mant > 0 <==> v > 0),
        (r.mant < 0 <==> v < 0),
{
    proof {
        lemma_float_of_int(v as int);
    }
    proof {
        lemma_strip10_le(abs(v as int) as nat);
        assert(pow10(37) > 0x8000_0000) by { reveal_with_fuel(pow10, 40); }
        if v == 0 {
            assert(FloatNum { mant: 0, exp: 0 }.scaled(0) == 0);
        }
    }
    match normalize(v as i128, 0) {
        Ok(f) => {
            proof {
                if v != 0 {
                    lemma_eq_at_scale(f, float_of_int(v as int), 0);
                    lemma_canonical_unique(f, float_of_int(v as int));
                } else {
                    assert(f == float_of_int(0));
                }
            }
            f
        },
        Err(_) => {
            proof {
                assert(false);
            }
            FloatNum { mant: 0, exp: 0 }
        },
    }
}

/// The negation of a decimal float.
pub fn float_neg(a: &FloatNum) -> (r: FloatNum)
    requires
        a.wf(),
    ensures
        r.wf(),
        r.mant == -a.mant,
        r.exp == a.exp,
{
    FloatNum { mant: -a.mant, exp: a.exp }
}

/// The sum of two decimal floats.  The sum is exact whenever the operands
/// are within nineteen decimal orders of each other and the exact sum fits
/// in eighteen digits after removing trailing zeros; an operand negligibly
/// small against the other leaves the larger operand unchanged.
pub fn float_add(a: &FloatNum, b: &FloatNum) -> (r: Result<FloatNum, RuntimeError>)
    requires
        a.wf(),
        b.wf(),
    ensures
        match r {
            Ok(f) => f.wf(),
            Err(e) => e is ValueError,
        },
        a.mant == 0 ==> r == Ok::<FloatNum, RuntimeError>(*b),
        b.mant == 0 && a.mant != 0 ==> r == Ok::<FloatNum, RuntimeError>(*a),
        a.mant != 0 && b.mant != 0 && a.exp - b.exp > 18
            ==> r == Ok::<FloatNum, RuntimeError>(*a),
        a.mant != 0 && b.mant != 0 && b.exp - a.exp > 18
            ==> r == Ok::<FloatNum, RuntimeError>(*b),
        (a.mant != 0 && b.mant != 0 && -18 <= a.exp - b.exp <= 18
            && strip10(abs(a.scaled(min_exp(*a, *b)) + b.scaled(min_exp(*a, *b))) as nat)
                < MANT_LIMIT) ==> match r {
            Ok(f) => {
                &&& (f.exp >= min_exp(*a, *b) || f.mant == 0)
                &&& f.scaled(min_exp(*a, *b))
                    == a.scaled(min_exp(*a, *b)) + b.scaled(min_exp(*a, *b))
            },
            Err(_) => min_exp(*a, *b) + 40 > EXP_LIMIT as int,
        },
        min_exp(*a, *b) + 100 <= EXP_LIMIT as int ==> r is Ok,
{
    if a.mant == 0 {
        return Ok(*b);
    }
    if b.mant == 0 {
        return Ok(*a);
    }
    let gap: i64 = a.exp as i64 - b.exp as i64;
    if gap > 18 {
        return Ok(*a);
    }
    if gap < -18 {
        return Ok(*b);
    }
    let e_low: i32 = if a.exp <= b.exp { a.exp } else { b.exp };
    proof {
        assert(pow10(18) == MANT_LIMIT as int) by { reveal_with_fuel(pow10, 20); }
        lemma_pow10_pos((a.exp - e_low) as nat);
        lemma_pow10_pos((b.exp - e_low) as nat);
        lemma_pow10_mono((a.exp - e_low) as nat, 18);
        lemma_pow10_mono((b.exp - e_low) as nat, 18);
        assert(-(pow10(18) * pow10(18)) < (a.mant as int) * pow10((a.exp - e_low) as nat)
            && (a.mant as int) * pow10((a.exp - e_low) as nat) < pow10(18) * pow10(18))
            by (nonlinear_arith)
            requires
                -pow10(18) < a.mant as int && (a.mant as int) < pow10(18),
                pow10((a.exp - e_low) as nat) > 0,
                pow10((a.exp - e_low) as nat) <= pow10(18);
        assert(-(pow10(18) * pow10(18)) < (b.mant as int) * pow10((b.exp - e_low) as nat)
            && (b.mant as int) * pow10((b.exp - e_low) as nat) < pow10(18) * pow10(18))
            by (nonlinear_arith)
            requires
                -pow10(18) < b.mant as int && (b.mant as int) < pow10(18),
                pow10((b.exp - e_low) as nat) > 0,
                pow10((b.exp - e_low) as nat) <= pow10(18);
        lemma_pow10_add(18, 18);
        assert(pow10(37) == 10 * pow10(36));
        assert(pow10(38) < 0x8000_0000_0000_0000_0000_0000_0000_0000) by {
            reveal_with_fuel(pow10, 40);
        }
        lemma_pow10_mono(37, 38);
    }
    let va: i128 = a.mant as i128 * pow10_i128((a.exp - e_low) as u32);
    let vb: i128 = b.mant as i128 * pow10_i128((b.exp - e_low) as u32);
    let sum: i128 = va + vb;
    proof {
        assert(a.scaled(e_low as int) == va && b.scaled(e_low as int) == vb);
    }
    normalize(sum, e_low as i64)
}

/// The difference of two decimal floats, as `a + (-b)`.
pub fn float_sub(a: &FloatNum, b: &FloatNum) -> (r: Result<FloatNum, RuntimeError>)
    requires
        a.wf(),
        b.wf(),
    ensures
        match r {
            Ok(f) => f.wf(),
            Err(e) => e is ValueError,
        },
        b.mant == 0 ==> r == Ok::<FloatNum, RuntimeError>(*a),
        a.mant == 0 && b.mant != 0 ==> r == Ok::<FloatNum, RuntimeError>(FloatNum {
            mant: (-b.mant as int) as i64,
            exp: b.exp,
        }),
        a.mant != 0 && b.mant != 0 && a.exp - b.exp > 18
            ==> r == Ok::<FloatNum, RuntimeError>(*a),
        a.mant != 0 && b.mant != 0 && b.exp - a.exp > 18
            ==> r == Ok::<FloatNum, RuntimeError>(FloatNum {
            mant: (-b.mant as int) as i64,
            exp: b.exp,
        }),
        min_exp(*a, *b) + 100 <= EXP_LIMIT as int ==> r is Ok,
        (a.mant != 0 && b.mant != 0 && -18 <= a.exp - b.exp <= 18
            && strip10(abs(a.scaled(min_exp(*a, *b)) - b.scaled(min_exp(*a, *b))) as nat)
                < MANT_LIMIT) ==> match r {
            Ok(f) => {
                &&& (f.exp >= min_exp(*a, *b) || f.mant == 0)
                &&& f.scaled(min_exp(*a, *b))
                    == a.scaled(min_exp(*a, *b)) - b.scaled(min_exp(*a, *b))
            },
            Err(_) => min_exp(*a, *b) + 40 > EXP_LIMIT as int,
        },
{
    let nb = float_neg(b);
    if b.mant == 0 {
        return Ok(*a);
    }
    proof {
        assert(min_exp(*a, nb) == min_exp(*a, *b));
        if a.mant != 0 {
            let e = min_exp(*a, *b);
            assert(nb.scaled(e) == -b.scaled(e)) by (nonlinear_arith)
                requires nb.mant == -b.mant && nb.exp == b.exp;
        }
    }
    float_add(a, &nb)
}

/// The product of two decimal floats, exact whenever the raw mantissa
/// product fits in eighteen digits after removing trailing zeros.
pub fn float_mul(a: &FloatNum, b: &FloatNum) -> (r: Result<FloatNum, RuntimeError>)
    requires
        a.wf(),
        b.wf(),
    ensures
        match r {
            Ok(f) => {
                &&& f.wf()
                &&& (f.mant > 0 <==> a.mant * b.mant > 0)
                &&& (f.mant < 0 <==> a.mant * b.mant < 0)
                &&& (strip10(abs(a.mant * b.mant) as nat) < MANT_LIMIT
                    ==> f.scaled(a.exp + b.exp) == a.mant * b.mant)
            },
            Err(e) => e is ValueError,
        },
        a.mant == 0 || b.mant == 0 ==> r == Ok::<FloatNum, RuntimeError>(FloatNum {
            mant: 0,
            exp: 0,
        }),
        strip10(abs(a.mant * b.mant) as nat) < MANT_LIMIT
            && -EXP_LIMIT <= a.exp + b.exp && a.exp + b.exp + 40 <= EXP_LIMIT as int
            ==> r is Ok,
        -EXP_LIMIT <= a.exp + b.exp && a.exp + b.exp + 100 <= EXP_LIMIT as int ==> r is Ok,
{
    proof {
        assert(pow10(19) == 10_000_000_000_000_000_000) by { reveal_with_fuel(pow10, 20); }
        assert(abs(a.mant as int * b.mant as int) < pow10(19) * pow10(19))
            by (nonlinear_arith)
            requires
                abs(a.mant as int) < pow10(19),
                abs(b.mant as int) < pow10(19);
        lemma_pow10_add(19, 19);
        assert(pow10(38) < 0x8000_0000_0000_0000_0000_0000_0000_0000) by {
            reveal_with_fuel(pow10, 40);
        }
        lemma_pow10_mono(37, 38);
        if a.mant == 0 || b.mant == 0 {
            assert(a.mant as int * b.mant as int == 0) by (nonlinear_arith)
                requires a.mant == 0 || b.mant == 0;
        }
    }
    let raw: i128 = a.mant as i128 * b.mant as i128;
    let e: i64 = a.exp as i64 + b.exp as i64;
    proof {
        if abs(raw as int) < pow10(37) {
        } else {
            lemma_pow10_add(18, 18);
            lemma_pow10_mono(36, 37);
            assert(abs(a.mant as int * b.mant as int) < pow10(18) * pow10(18))
                by (nonlinear_arith)
                requires
                    abs(a.mant as int) < pow10(18),
                    abs(b.mant as int) < pow10(18),
                    pow10(18) == MANT_LIMIT as int;
            assert(pow10(18) == MANT_LIMIT as int) by { reveal_with_fuel(pow10, 20); }
            assert(false);
        }
    }
    normalize(raw, e)
}

/// The shift that gives an integer division of mantissas eighteen-plus
/// significant digits.
pub open spec fn div_shift(a: FloatNum) -> nat {
    (36 - ndigits(abs(a.mant as int) as nat)) as nat
}

/// The rounded mantissa quotient: `|a.mant| * 10^div_shift(a) / |b.mant|`.
pub open spec fn div_quot(a: FloatNum, b: FloatNum) -> int {
    ((abs(a.mant as int) as int) * pow10(div_shift(a))) / (abs(b.mant as int) as int)
}

/// Whether the mantissa quotient is exact.
pub open spec fn div_exact(a: FloatNum, b: FloatNum) -> bool {
    ((abs(a.mant as int) as int) * pow10(div_shift(a))) % (abs(b.mant as int) as int) == 0
}

/// The quotient of two decimal floats, computed to eighteen-plus significant
/// digits and rounded, ties away from zero.  The result is pinned exactly
/// whenever the scaled mantissa quotient terminates.
#[verifier::rlimit(100)]
#[verifier::spinoff_prover]
pub fn float_div(a: &FloatNum, b: &FloatNum) -> (r: Result<FloatNum, RuntimeError>)
    requires
        a.wf(),
        b.wf(),
        b.mant != 0,
    ensures
        match r {
            Ok(f) => {
                &&& f.wf()
                &&& (f.mant > 0 <==> a.mant * b.mant > 0)
                &&& (f.mant < 0 <==> a.mant * b.mant < 0)
                &&& (a.mant != 0 && div_exact(*a, *b) && strip10(div_quot(*a, *b) as nat)
                        < MANT_LIMIT
                    ==> f.scaled(a.exp - b.exp - div_shift(*a))
                        == if (a.mant > 0) == (b.mant > 0) {
                            div_quot(*a, *b)
                        } else {
                            -div_quot(*a, *b)
                        })
            },
            Err(e) => e is ValueError,
        },
        a.mant == 0 ==> r == Ok::<FloatNum, RuntimeError>(FloatNum { mant: 0, exp: 0 }),
        a.mant != 0 && -EXP_LIMIT <= a.exp - b.exp - div_shift(*a) && a.exp - b.exp
            - div_shift(*a) + 100 <= EXP_LIMIT as int ==> r is Ok,
{
    if a.mant == 0 {
        proof {
            assert(a.mant * b.mant == 0) by (nonlinear_arith)
                requires a.mant == 0;
        }
        return Ok(FloatNum { mant: 0, exp: 0 });
    }
    let na: u64 = if a.mant < 0 { (-a.mant) as u64 } else { a.mant as u64 };
    let nb: u64 = if b.mant < 0 { (-b.mant) as u64 } else { b.mant as u64 };
    let da: u32 = digit_count(na);
    proof {
        assert(pow10(19) == 10_000_000_000_000_000_000) by { reveal_with_fuel(pow10, 20); }
        lemma_ndigits_bounds(na as nat);
        if ndigits(na as nat) > 18 {
            lemma_pow10_mono(18, (ndigits(na as nat) - 1) as nat);
            assert(pow10(18) == MANT_LIMIT as int) by { reveal_with_fuel(pow10, 20); }
            assert(false);
        }
    }
    let k: u32 = 36 - da;
    proof {
        lemma_pow10_pos(k as nat);
        lemma_pow10_mono(k as nat, 36);
        assert((na as int) * pow10(k as nat) < pow10(da as nat) * pow10(k as nat))
            by (nonlinear_arith)
            requires
                (na as int) < pow10(da as nat),
                pow10(k as nat) > 0;
        lemma_pow10_add(da as nat, k as nat);
        lemma_pow10_mono(36, 37);
        assert(pow10(37) < 0x8000_0000_0000_0000_0000_0000_0000_0000) by {
            reveal_with_fuel(pow10, 40);
        }
        assert((na as int) * pow10(k as nat) >= pow10(k as nat)) by (nonlinear_arith)
            requires
                (na as int) >= 1,
                pow10(k as nat) > 0;
    }
    let x: u128 = na as u128 * (pow10_i128(k) as u128);
    let q: u128 = x / nb as u128;
    let rem: u128 = x % nb as u128;
    proof {
        assert(k as nat == div_shift(*a));
        assert(na as int == abs(a.mant as int) as int);
        assert(nb as int == abs(b.mant as int) as int);
        assert(q == div_quot(*a, *b));
        assert(q <= x) by (nonlinear_arith)
            requires
                q == x as int / (nb as int),
                nb >= 1,
                x >= 0;
        assert(pow10(18) == MANT_LIMIT as int) by { reveal_with_fuel(pow10, 20); }
        assert(18 <= k);
        lemma_pow10_mono(18, k as nat);
        assert(q >= 1) by (nonlinear_arith)
            requires
                q == x as int / (nb as int),
                x as int >= nb as int,
                nb >= 1;
    }
    let rounded: u128 = if 2 * rem >= nb as u128 { q + 1 } else { q };
    let neg: bool = (a.mant < 0) != (b.mant < 0);
    let m: i128 = if neg { -(rounded as i128) } else { rounded as i128 };
    let e: i64 = a.exp as i64 - b.exp as i64 - k as i64;
    proof {
        if rem == 0 {
            assert(2 * rem < nb as u128);
            assert(rounded == div_quot(*a, *b));
        }
    }
    match normalize(m, e) {
        Ok(f) => {
            proof {
                if (a.mant > 0) == (b.mant > 0) {
                    assert(a.mant * b.mant > 0) by (nonlinear_arith)
                        requires
                            a.mant != 0 && b.mant != 0 && ((a.mant > 0) == (b.mant > 0));
                } else {
                    assert(a.mant * b.mant < 0) by (nonlinear_arith)
                        requires
                            a.mant != 0 && b.mant != 0 && ((a.mant > 0) != (b.mant > 0));
                }
            }
            Ok(f)
        },
        Err(e2) => Err(e2),
    }
}

} // verus!
