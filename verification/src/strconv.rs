//! Decimal text: rendering integers and decimal floats, and parsing both
//! back from source text.

use vstd::prelude::*;
use vstd::string::StrSliceExecFns;
use vstd::string::StringExecFns;

use crate::error::RuntimeError;
use crate::floatnum::FloatNum;
use crate::floatnum::MANT_LIMIT;
use crate::floatnum::normalize;
use crate::floatnum::strip10;
use crate::floatnum::lemma_strip10_le;
use crate::floatnum::ndigits;
use crate::floatnum::lemma_ndigits_bounds;
use crate::floatnum::pow10;

verus! {

/// The canonical digit run is exactly as long as the digit count.
pub proof fn lemma_dec_digits_ndigits(n: nat)
    ensures
        dec_digits(n as int).len() == ndigits(n),
    decreases n,
{
    if n >= 10 {
        lemma_dec_digits_ndigits(n / 10);
    }
}

/// Relies on `String::push`: appends exactly one character.
#[verifier::external_body]
pub fn push_char(s: &mut String, c: char)
    ensures
        final(s)@ == old(s)@.push(c),
{
    s.push(c);
}

/// The character for one decimal digit.
pub open spec fn digit_char(d: int) -> char {
    (48 + d) as char
}

/// The decimal digit a character stands for.
pub open spec fn char_digit(c: char) -> int {
    c as int - 48
}

/// Whether the character is a decimal digit.
pub open spec fn is_digit(c: char) -> bool {
    48 <= c as int <= 57
}

/// Whether every character of the run is a decimal digit.
pub open spec fn all_digits(s: Seq<char>) -> bool {
    forall|i: int| 0 <= i < s.len() ==> is_digit(#[trigger] s[i])
}

/// The number a digit run denotes; an empty run counts as zero.
pub open spec fn digits_val(s: Seq<char>) -> int
    decreases s.len(),
{
    if s.len() == 0 {
        0
    } else {
        digits_val(s.drop_last()) * 10 + char_digit(s.last())
    }
}

/// The canonical digit run of a non-negative number.
pub open spec fn dec_digits(n: int) -> Seq<char>
    decreases n,
{
    if n <= 0 {
        seq![digit_char(0)]
    } else if n < 10 {
        seq![digit_char(n)]
    } else {
        dec_digits(n / 10).push(digit_char(n % 10))
    }
}

/// The rendered form of an integer: an optional minus sign and digits.
pub open spec fn int_text(v: int) -> Seq<char> {
    if v < 0 {
        seq!['-'].add(dec_digits(-v))
    } else {
        dec_digits(v)
    }
}

/// A run of `n` zero characters.
pub open spec fn zero_chars(n: int) -> Seq<char> {
    Seq::new(if n >= 0 {
        n as nat
    } else {
        0
    }, |i: int| digit_char(0))
}

/// The rendered form of a decimal float: the digits of the mantissa with
/// the decimal point placed by the exponent, zeros supplied as needed; an
/// integral value prints without a point, as a round-trip decimal form.
pub open spec fn float_text(f: FloatNum) -> Seq<char> {
    let ds = dec_digits(if f.mant >= 0 {
        f.mant as int
    } else {
        -f.mant as int
    });
    let body = if f.exp >= 0 {
        ds.add(zero_chars(f.exp as int))
    } else if ds.len() > -f.exp as int {
        ds.subrange(0, ds.len() + f.exp).add(seq!['.']).add(
            ds.subrange(ds.len() + f.exp, ds.len() as int),
        )
    } else {
        seq!['0', '.'].add(zero_chars(-f.exp - ds.len())).add(ds)
    };
    if f.mant < 0 {
        seq!['-'].add(body)
    } else {
        body
    }
}

/// Whitespace that trimming removes.
pub open spec fn is_ws(c: char) -> bool {
    c == ' ' || c == '\t' || c == '\n' || c == '\r'
}

/// The sequence with leading whitespace removed.
pub open spec fn trim_front(s: Seq<char>) -> Seq<char>
    decreases s.len(),
{
    if s.len() > 0 && is_ws(s[0]) {
        trim_front(s.skip(1))
    } else {
        s
    }
}

/// The sequence with trailing whitespace removed.
pub open spec fn trim_back(s: Seq<char>) -> Seq<char>
    decreases s.len(),
{
    if s.len() > 0 && is_ws(s.last()) {
        trim_back(s.drop_last())
    } else {
        s
    }
}

/// The sequence with whitespace removed from both ends.
pub open spec fn trimmed(s: Seq<char>) -> Seq<char> {
    trim_back(trim_front(s))
}

/// Splits an optional leading sign from a literal: whether it is negative,
/// and the rest.
pub open spec fn sign_split(t: Seq<char>) -> (bool, Seq<char>) {
    if t.len() > 0 && t[0] == '-' {
        (true, t.skip(1))
    } else if t.len() > 0 && t[0] == '+' {
        (false, t.skip(1))
    } else {
        (false, t)
    }
}

/// Whether a trimmed literal is a base-10 integer: an optional sign and at
/// least one digit.
pub open spec fn int_lit_valid(t: Seq<char>) -> bool {
    sign_split(t).1.len() > 0 && all_digits(sign_split(t).1)
}

/// The value of a base-10 integer literal.
pub open spec fn int_lit_val(t: Seq<char>) -> int {
    if sign_split(t).0 {
        -digits_val(sign_split(t).1)
    } else {
        digits_val(sign_split(t).1)
    }
}

/// Whether the character is trimmed whitespace.
fn is_ws_exec(c: char) -> (r: bool)
    ensures
        r == is_ws(c),
{
    c == ' ' || c == '\t' || c == '\n' || c == '\r'
}

/// The window of `s` that trimming keeps: the first index kept and the
/// index past the last one kept.
#[verifier::loop_isolation(false)]
fn trim_window(s: &str) -> (r: (usize, usize))
    ensures
        r.0 <= r.1 <= s@.len(),
        trimmed(s@) == s@.subrange(r.0 as int, r.1 as int),
{
    let n = s.unicode_len();
    let mut lo: usize = 0;
    proof {
        assert(s@.skip(0) =~= s@);
    }
    while lo < n && is_ws_exec(s.get_char(lo))
        invariant
            lo <= n,
            n == s@.len(),
            trim_front(s@) == trim_front(s@.skip(lo as int)),
        decreases n - lo,
    {
        proof {
            assert(s@.skip(lo as int)[0] == s@[lo as int]);
            assert(s@.skip(lo as int).skip(1) =~= s@.skip(lo + 1));
        }
        lo = lo + 1;
    }
    proof {
        if lo < n {
            assert(!is_ws(s@.skip(lo as int)[0]));
        }
        assert(trim_front(s@) == s@.skip(lo as int));
    }
    let mut hi: usize = n;
    while hi > lo && is_ws_exec(s.get_char(hi - 1))
        invariant
            lo <= hi <= n,
            n == s@.len(),
            trim_front(s@) == s@.skip(lo as int),
            trim_back(s@.skip(lo as int)) == trim_back(s@.subrange(lo as int, hi as int)),
        decreases hi,
    {
        proof {
            assert(s@.subrange(lo as int, hi as int).last() == s@[hi - 1]);
            assert(s@.subrange(lo as int, hi as int).drop_last() =~= s@.subrange(
                lo as int,
                hi - 1,
            ));
        }
        hi = hi - 1;
    }
    proof {
        let w = s@.subrange(lo as int, hi as int);
        if hi > lo {
            assert(w.last() == s@[hi - 1]);
            assert(!is_ws(w.last()));
        }
        assert(trim_back(w) == w);
    }
    (lo, hi)
}

/// Parses a trimmed base-10 integer out of `s`, trimming whitespace first.
/// The result is the literal's value when the literal is well-formed and
/// fits the integer width; otherwise nothing.
#[verifier::loop_isolation(false)]
pub fn parse_int(s: &str) -> (r: Option<i32>)
    ensures
        match r {
            Some(v) => int_lit_valid(trimmed(s@)) && v as int == int_lit_val(trimmed(s@)),
            None => !(int_lit_valid(trimmed(s@)) && i32::MIN <= int_lit_val(trimmed(s@))
                <= i32::MAX),
        },
{
    let (lo, hi) = trim_window(s);
    let ghost t = trimmed(s@);
    if lo == hi {
        return None;
    }
    let c0 = s.get_char(lo);
    let neg = c0 == '-';
    let signed: bool = neg || c0 == '+';
    let dstart: usize = if signed { lo + 1 } else { lo };
    proof {
        assert(t[0] == s@[lo as int]);
        if signed {
            assert(sign_split(t).1 =~= s@.subrange(dstart as int, hi as int));
        } else {
            assert(sign_split(t).1 =~= s@.subrange(dstart as int, hi as int));
        }
    }
    let ghost d = s@.subrange(dstart as int, hi as int);
    if dstart == hi {
        return None;
    }
    let mut acc: i64 = 0;
    let mut i: usize = dstart;
    while i < hi
        invariant
            dstart <= i <= hi <= s@.len(),
            d == s@.subrange(dstart as int, hi as int),
            dstart < hi,
            all_digits(s@.subrange(dstart as int, i as int)),
            0 <= acc,
            digits_val(s@.subrange(dstart as int, i as int)) <= 0x1_0000_0000 ==> acc
                == digits_val(s@.subrange(dstart as int, i as int)),
            digits_val(s@.subrange(dstart as int, i as int)) > 0x1_0000_0000 ==> acc
                > 0x1_0000_0000,
            acc <= 0xA_0000_0009,
        decreases hi - i,
    {
        let c = s.get_char(i);
        let cu: u32 = c as u32;
        if !(cu >= 48 && cu <= 57) {
            proof {
                assert(d[i - dstart] == s@[i as int]);
                assert(!is_digit(d[i - dstart]));
            }
            return None;
        }
        let dv: i64 = cu as i64 - 48;
        proof {
            let pre = s@.subrange(dstart as int, i as int);
            let post = s@.subrange(dstart as int, i + 1);
            assert(post.drop_last() =~= pre);
            assert(post.last() == s@[i as int]);
            assert(all_digits(post));
            if digits_val(pre) > 0x1_0000_0000 {
                assert(digits_val(pre) * 10 + char_digit(s@[i as int]) > 0x1_0000_0000)
                    by (nonlinear_arith)
                    requires
                        digits_val(pre) > 0x1_0000_0000,
                        char_digit(s@[i as int]) >= 0;
            }
        }
        if acc <= 0x1_0000_0000 {
            acc = acc * 10 + dv;
        }
        i = i + 1;
    }
    proof {
        assert(s@.subrange(dstart as int, hi as int) == d);
        assert(int_lit_valid(t));
        assert(int_lit_val(t) == if neg {
            -digits_val(d)
        } else {
            digits_val(d)
        });
    }
    if neg {
        if acc > 0x8000_0000 {
            return None;
        }
        Some((-acc) as i32)
    } else {
        if acc > 0x7fff_ffff {
            return None;
        }
        Some(acc as i32)
    }
}

/// The index of the first exponent marker, or the length when there is
/// none.
pub open spec fn find_exp(t: Seq<char>) -> int
    decreases t.len(),
{
    if t.len() == 0 {
        0
    } else if t[0] == 'e' || t[0] == 'E' {
        0
    } else {
        1 + find_exp(t.skip(1))
    }
}

/// The index of the first decimal point, or the length when there is none.
pub open spec fn find_dot(t: Seq<char>) -> int
    decreases t.len(),
{
    if t.len() == 0 {
        0
    } else if t[0] == '.' {
        0
    } else {
        1 + find_dot(t.skip(1))
    }
}

/// The unsigned mantissa region of a float literal: everything before the
/// exponent marker.
pub open spec fn mant_region(t: Seq<char>) -> Seq<char> {
    let u = sign_split(t).1;
    u.take(find_exp(u))
}

/// The integer-part digits of a float literal.
pub open spec fn int_digits(t: Seq<char>) -> Seq<char> {
    let m = mant_region(t);
    m.take(find_dot(m))
}

/// The fraction digits of a float literal; empty without a point.
pub open spec fn frac_digits(t: Seq<char>) -> Seq<char> {
    let m = mant_region(t);
    if find_dot(m) < m.len() {
        m.skip(find_dot(m) + 1)
    } else {
        Seq::empty()
    }
}

/// The signed exponent region of a float literal, when one is written.
pub open spec fn exp_region(t: Seq<char>) -> Option<Seq<char>> {
    let u = sign_split(t).1;
    if find_exp(u) < u.len() {
        Some(u.skip(find_exp(u) + 1))
    } else {
        None
    }
}

/// Whether a trimmed literal is a base-10 float: an optional sign, digits
/// with at most one point and at least one digit, and an optional signed
/// exponent with at least one digit.
pub open spec fn float_lit_valid(t: Seq<char>) -> bool {
    &&& all_digits(int_digits(t))
    &&& all_digits(frac_digits(t))
    &&& int_digits(t).len() + frac_digits(t).len() > 0
    &&& match exp_region(t) {
        Some(e) => sign_split(e).1.len() > 0 && all_digits(sign_split(e).1),
        None => true,
    }
}

/// The signed integer mantissa of a float literal: all its digits run
/// together.
pub open spec fn float_lit_mant(t: Seq<char>) -> int {
    let v = digits_val(int_digits(t).add(frac_digits(t)));
    if sign_split(t).0 {
        -v
    } else {
        v
    }
}

/// The decimal exponent of a float literal: the written exponent, less one
/// for each fraction digit.
pub open spec fn float_lit_exp(t: Seq<char>) -> int {
    let written = match exp_region(t) {
        Some(e) => if sign_split(e).0 {
            -digits_val(sign_split(e).1)
        } else {
            digits_val(sign_split(e).1)
        },
        None => 0,
    };
    written - frac_digits(t).len()
}

/// Whether the character marks an exponent.
fn is_exp_char(c: char) -> (r: bool)
    ensures
        r == (c == 'e' || c == 'E'),
{
    c == 'e' || c == 'E'
}

/// Accumulates the digit run `s[from..to]` into a machine integer,
/// reporting failure on a non-digit; the overflow marker caps the result.
#[verifier::loop_isolation(false)]
fn scan_digits(s: &str, from: usize, to: usize, cap: i128) -> (r: Option<i128>)
    requires
        from <= to <= s@.len(),
        0 < cap <= pow10(37),
    ensures
        match r {
            Some(acc) => {
                &&& all_digits(s@.subrange(from as int, to as int))
                &&& 0 <= acc
                &&& (digits_val(s@.subrange(from as int, to as int)) <= cap ==> acc
                    == digits_val(s@.subrange(from as int, to as int)))
                &&& (digits_val(s@.subrange(from as int, to as int)) > cap ==> acc > cap)
            },
            None => !all_digits(s@.subrange(from as int, to as int)),
        },
{
    let mut acc: i128 = 0;
    let mut i: usize = from;
    while i < to
        invariant
            from <= i <= to,
            all_digits(s@.subrange(from as int, i as int)),
            0 <= acc <= cap * 10 + 9,
            digits_val(s@.subrange(from as int, i as int)) <= cap ==> acc == digits_val(
                s@.subrange(from as int, i as int),
            ),
            digits_val(s@.subrange(from as int, i as int)) > cap ==> acc > cap,
        decreases to - i,
    {
        let c = s.get_char(i);
        let cu: u32 = c as u32;
        if !(cu >= 48 && cu <= 57) {
            proof {
                assert(s@.subrange(from as int, to as int)[i - from] == s@[i as int]);
                assert(!is_digit(s@.subrange(from as int, to as int)[i - from]));
            }
            return None;
        }
        let dv: i128 = cu as i128 - 48;
        proof {
            let pre = s@.subrange(from as int, i as int);
            let post = s@.subrange(from as int, i + 1);
            assert(post.drop_last() =~= pre);
            assert(post.last() == s@[i as int]);
            assert(all_digits(post));
            if digits_val(pre) > cap {
                assert(digits_val(pre) * 10 + char_digit(s@[i as int]) > cap)
                    by (nonlinear_arith)
                    requires
                        digits_val(pre) > cap && cap > 0,
                        char_digit(s@[i as int]) >= 0;
            }
        }
        proof {
            assert(pow10(38) < 0x7fff_ffff_ffff_ffff_ffff_ffff_ffff_ffff) by {
                reveal_with_fuel(pow10, 40);
            }
            crate::floatnum::lemma_pow10_add(37, 1);
        }
        if acc <= cap {
            acc = acc * 10 + dv;
        }
        i = i + 1;
    }
    Some(acc)
}

/// Parses a trimmed base-10 float literal: an optional sign, digits with
/// an optional decimal point, and an optional decimal exponent.  The
/// result is the decimal value in canonical form, exact up to eighteen
/// significant digits and rounded beyond them.  A literal that is
/// malformed, carries more than thirty-seven written digits, or escapes
/// the admissible exponent range, fails.
#[verifier::loop_isolation(false)]
#[verifier::rlimit(100)]
#[verifier::spinoff_prover]
pub fn parse_float(s: &str) -> (r: Option<FloatNum>)
    ensures
        match r {
            Some(f) => {
                &&& float_lit_valid(trimmed(s@))
                &&& f.wf()
                &&& (float_lit_mant(trimmed(s@)) == 0 ==> f == (FloatNum { mant: 0, exp: 0 }))
                &&& (float_lit_mant(trimmed(s@)) != 0 ==> f.exp >= float_lit_exp(trimmed(s@))
                    && (strip10(
                    vstd::math::abs(float_lit_mant(trimmed(s@))) as nat,
                ) < MANT_LIMIT ==> f.scaled(float_lit_exp(trimmed(s@))) == float_lit_mant(
                    trimmed(s@),
                )) && 2 * vstd::math::abs(
                    f.scaled(float_lit_exp(trimmed(s@))) - float_lit_mant(trimmed(s@)),
                ) <= pow10((f.exp - float_lit_exp(trimmed(s@))) as nat))
            },
            None => !(float_lit_valid(trimmed(s@)) && int_digits(trimmed(s@)).len()
                + frac_digits(trimmed(s@)).len() <= 37 && (match exp_region(trimmed(s@)) {
                Some(e) => digits_val(sign_split(e).1) <= 20_000,
                None => true,
            })),
        },
        (float_lit_valid(trimmed(s@)) && int_digits(trimmed(s@)).len() + frac_digits(
            trimmed(s@),
        ).len() <= 37 && (match exp_region(trimmed(s@)) {
            Some(e) => digits_val(sign_split(e).1) <= 20_000,
            None => true,
        })) <==> r is Some,
{
    let (lo, hi) = trim_window(s);
    let ghost t = trimmed(s@);
    if lo == hi {
        return None;
    }
    let c0 = s.get_char(lo);
    let neg = c0 == '-';
    let signed: bool = neg || c0 == '+';
    let ustart: usize = if signed { lo + 1 } else { lo };
    let ghost u = sign_split(t).1;
    proof {
        assert(t[0] == s@[lo as int]);
        assert(u =~= s@.subrange(ustart as int, hi as int));
    }
    // Find the exponent marker.
    let mut ep: usize = ustart;
    proof {
        assert(u.skip(0) =~= u);
    }
    while ep < hi && !is_exp_char(s.get_char(ep))
        invariant
            ustart <= ep <= hi <= s@.len(),
            u == s@.subrange(ustart as int, hi as int),
            find_exp(u) == ep - ustart + find_exp(u.skip(ep - ustart)),
        decreases hi - ep,
    {
        proof {
            assert(u.skip(ep - ustart)[0] == s@[ep as int]);
            assert(u.skip(ep - ustart).skip(1) =~= u.skip(ep + 1 - ustart));
        }
        ep = ep + 1;
    }
    proof {
        if ep < hi {
            assert(u.skip(ep - ustart)[0] == s@[ep as int]);
        }
        assert(find_exp(u) == ep - ustart);
        assert(mant_region(t) =~= s@.subrange(ustart as int, ep as int));
    }
    let ghost mreg = mant_region(t);
    // Find the decimal point within the mantissa region.
    let mut dp: usize = ustart;
    proof {
        assert(mreg.skip(0) =~= mreg);
    }
    while dp < ep && s.get_char(dp) != '.'
        invariant
            ustart <= dp <= ep <= s@.len(),
            mreg == s@.subrange(ustart as int, ep as int),
            find_dot(mreg) == dp - ustart + find_dot(mreg.skip(dp - ustart)),
        decreases ep - dp,
    {
        proof {
            assert(mreg.skip(dp - ustart)[0] == s@[dp as int]);
            assert(mreg.skip(dp - ustart).skip(1) =~= mreg.skip(dp + 1 - ustart));
        }
        dp = dp + 1;
    }
    proof {
        if dp < ep {
            assert(mreg.skip(dp - ustart)[0] == s@[dp as int]);
        }
        assert(find_dot(mreg) == dp - ustart);
        assert(int_digits(t) =~= s@.subrange(ustart as int, dp as int));
        if dp < ep {
            assert(frac_digits(t) =~= s@.subrange(dp + 1, ep as int));
        } else {
            assert(frac_digits(t) =~= Seq::<char>::empty());
        }
    }
    // The digit runs.
    let ilen: usize = dp - ustart;
    let flen: usize = if dp < ep { ep - dp - 1 } else { 0 };
    if ilen + flen == 0 || ilen + flen > 37 {
        return None;
    }
    proof {
        assert(pow10(37) >= 0x1000_0000_0000_0000) by { reveal_with_fuel(pow10, 40); }
    }
    let digit_cap: i128 = crate::floatnum::pow10_i128(37);
    let iacc = match scan_digits(s, ustart, dp, digit_cap) {
        Some(a) => a,
        None => { return None },
    };
    let facc = match (if dp < ep {
        scan_digits(s, dp + 1, ep, digit_cap)
    } else {
        Some(0)
    }) {
        Some(a) => a,
        None => { return None },
    };
    proof {
        lemma_digits_bound(s@.subrange(ustart as int, dp as int));
        if dp < ep {
            lemma_digits_bound(s@.subrange(dp + 1, ep as int));
        }
        lemma_digits_concat(int_digits(t), frac_digits(t));
    }
    // The exponent, if one is written.
    let written: i64 = if ep < hi {
        let estart0: usize = ep + 1;
        proof {
            assert(exp_region(t)->Some_0 =~= s@.subrange(estart0 as int, hi as int));
        }
        if estart0 == hi {
            return None;
        }
        let ce = s.get_char(estart0);
        let eneg = ce == '-';
        let esigned: bool = eneg || ce == '+';
        let estart: usize = if esigned { estart0 + 1 } else { estart0 };
        let ghost ereg = exp_region(t)->Some_0;
        proof {
            assert(ereg == s@.subrange(estart0 as int, hi as int));
            assert(ereg[0] == s@[estart0 as int]);
            assert(sign_split(ereg).1 =~= s@.subrange(estart as int, hi as int));
        }
        if estart == hi {
            return None;
        }
        let eacc = match scan_digits(s, estart, hi, 100_000) {
            Some(a) => a,
            None => { return None },
        };
        if eacc > 20_000 {
            return None;
        }
        if eneg { -(eacc as i64) } else { eacc as i64 }
    } else {
        0
    };
    let ghost fdigits = if dp < ep {
        s@.subrange(dp + 1, ep as int)
    } else {
        Seq::<char>::empty()
    };
    proof {
        lemma_digits_bound(s@.subrange(ustart as int, dp as int));
        lemma_digits_bound(fdigits);
        crate::floatnum::lemma_pow10_mono(ilen as nat, 37);
        crate::floatnum::lemma_pow10_mono(flen as nat, 37);
        crate::floatnum::lemma_pow10_pos(flen as nat);
        assert(pow10(18) == MANT_LIMIT as int) by { reveal_with_fuel(pow10, 20); }
        assert(facc == digits_val(fdigits) && facc >= 0);
        crate::floatnum::lemma_pow10_add(ilen as nat, flen as nat);
        assert((iacc as int) * pow10(flen as nat) + digits_val(fdigits) < pow10(
            (ilen + flen) as nat,
        )) by (nonlinear_arith)
            requires
                iacc >= 0,
                (iacc as int) < pow10(ilen as nat),
                digits_val(fdigits) >= 0,
                digits_val(fdigits) < pow10(flen as nat),
                pow10((ilen + flen) as nat) == pow10(ilen as nat) * pow10(flen as nat),
                pow10(flen as nat) >= 1;
        crate::floatnum::lemma_pow10_mono((ilen + flen) as nat, 37);
        if !(dp < ep) {
            assert((iacc as int) * pow10(0) == iacc as int);
        }
    }
    let mant: i128 = if neg {
        -(iacc * pow10_small(flen) + facc)
    } else {
        iacc * pow10_small(flen) + facc
    };
    let e10: i64 = written - flen as i64;
    proof {
        assert(float_lit_valid(t));
        assert(mant == if sign_split(t).0 {
            -digits_val(int_digits(t).add(frac_digits(t)))
        } else {
            digits_val(int_digits(t).add(frac_digits(t)))
        });
        assert(float_lit_exp(t) == e10);
        lemma_strip10_le((if mant >= 0 { mant as int } else { -(mant as int) }) as nat);
        crate::floatnum::lemma_pow10_mono(18, 37);
        assert(pow10(18) == MANT_LIMIT as int) by { reveal_with_fuel(pow10, 20); }
        assert(-20_037 <= e10 <= 20_000);
    }
    match normalize(mant, e10) {
        Ok(f) => Some(f),
        Err(_) => {
            proof {
                assert(false);
            }
            None
        },
    }
}

/// A digit run is bounded by ten to its length.
pub proof fn lemma_digits_bound(s: Seq<char>)
    requires
        all_digits(s),
        s.len() <= 37,
    ensures
        0 <= digits_val(s) < pow10(s.len() as nat),
    decreases s.len(),
{
    if s.len() == 0 {
    } else {
        lemma_digits_bound(s.drop_last());
        crate::floatnum::lemma_pow10_add((s.len() - 1) as nat, 1);
        assert(is_digit(s[s.len() - 1]));
        assert(digits_val(s.drop_last()) * 10 + 9 < pow10((s.len() - 1) as nat) * 10)
            by (nonlinear_arith)
            requires
                digits_val(s.drop_last()) < pow10((s.len() - 1) as nat);
        assert(digits_val(s.drop_last()) * 10 >= 0) by (nonlinear_arith)
            requires digits_val(s.drop_last()) >= 0;
    }
}

/// Concatenating digit runs multiplies the head by ten per appended digit.
proof fn lemma_digits_concat(a: Seq<char>, b: Seq<char>)
    ensures
        digits_val(a.add(b)) == digits_val(a) * pow10(b.len() as nat) + digits_val(b),
    decreases b.len(),
{
    if b.len() == 0 {
        assert(a.add(b) =~= a);
        assert(digits_val(a) * pow10(0) == digits_val(a));
    } else {
        lemma_digits_concat(a, b.drop_last());
        assert(a.add(b).drop_last() =~= a.add(b.drop_last()));
        assert(a.add(b).last() == b.last());
        crate::floatnum::lemma_pow10_add((b.len() - 1) as nat, 1);
        assert((digits_val(a) * pow10((b.len() - 1) as nat) + digits_val(b.drop_last())) * 10
            == digits_val(a) * (pow10((b.len() - 1) as nat) * 10) + digits_val(b.drop_last())
            * 10) by (nonlinear_arith);
    }
}

/// `10^k` for a small `k`, as an `i128`.
fn pow10_small(k: usize) -> (r: i128)
    requires
        k <= 37,
    ensures
        r == pow10(k as nat),
{
    crate::floatnum::pow10_i128(k as u32)
}

/// The digit character of a value below ten.
fn digit_to_char(d: u8) -> (r: char)
    requires
        d <= 9,
    ensures
        r == digit_char(d as int),
{
    (48 + d) as char
}

/// Renders a non-negative number as its digit run.
#[verifier::loop_isolation(false)]
pub fn digits_string(n: u64) -> (r: String)
    ensures
        r@ == dec_digits(n as int),
{
    let mut ds: Vec<char> = Vec::new();
    let mut m: u64 = n;
    if n == 0 {
        let mut out = String::new();
        push_char(&mut out, digit_to_char(0));
        proof {
            assert(out@ =~= dec_digits(0));
        }
        return out;
    }
    while m > 0
        invariant
            0 <= m <= n,
            n > 0,
            m > 0 ==> dec_digits(n as int) =~= dec_digits(m as int).add(ds@.reverse()),
            m == 0 ==> dec_digits(n as int) =~= ds@.reverse(),
        decreases m,
    {
        let d: u8 = (m % 10) as u8;
        let c = digit_to_char(d);
        proof {
            assert(ds@.push(c).reverse() =~= seq![c].add(ds@.reverse()));
            if m >= 10 {
                assert(dec_digits(m as int) == dec_digits(m as int / 10).push(
                    digit_char(m as int % 10),
                ));
                assert(dec_digits(m as int / 10).push(c).add(ds@.reverse()) =~= dec_digits(
                    m as int / 10,
                ).add(seq![c].add(ds@.reverse())));
            } else {
                assert(dec_digits(m as int) =~= seq![c]);
                assert(seq![c].add(ds@.reverse()) =~= ds@.push(c).reverse());
            }
        }
        ds.push(c);
        m = m / 10;
    }
    let mut out = String::new();
    let mut j: usize = 0;
    while j < ds.len()
        invariant
            j <= ds@.len(),
            out@ =~= ds@.reverse().subrange(0, j as int),
        decreases ds@.len() - j,
    {
        push_char(&mut out, ds[ds.len() - 1 - j]);
        proof {
            assert(ds@.reverse()[j as int] == ds@[ds@.len() - 1 - j]);
            assert(out@ =~= ds@.reverse().subrange(0, j + 1));
        }
        j = j + 1;
    }
    proof {
        assert(ds@.reverse().subrange(0, ds@.len() as int) =~= ds@.reverse());
    }
    out
}

/// Renders an integer.
pub fn int_string(v: i32) -> (r: String)
    ensures
        r@ == int_text(v as int),
{
    if v < 0 {
        let mut out = String::new();
        push_char(&mut out, '-');
        let mag: i64 = -(v as i64);
        let tail = digits_string(mag as u64);
        out.append(tail.as_str());
        proof {
            assert(out@ =~= int_text(v as int));
        }
        out
    } else {
        digits_string(v as u64)
    }
}

/// Renders a decimal float in its round-trip decimal form.
#[verifier::loop_isolation(false)]
pub fn float_string(f: &FloatNum) -> (r: String)
    requires
        f.wf(),
    ensures
        r@ == float_text(*f),
{
    let neg = f.mant < 0;
    let mag: i64 = if neg { -f.mant } else { f.mant };
    let ds = digits_string(mag as u64);
    let dlen = ds.as_str().unicode_len();
    let ghost dsq = dec_digits(if f.mant >= 0 { f.mant as int } else { -f.mant as int });
    proof {
        assert(ds@ == dsq);
    }
    proof {
        lemma_dec_digits_ndigits(if f.mant >= 0 { f.mant as nat } else { (-f.mant) as nat });
        if f.mant != 0 {
            lemma_ndigits_bounds(if f.mant >= 0 { f.mant as nat } else { (-f.mant) as nat });
        }
        assert(pow10(19) > MANT_LIMIT as int) by { reveal_with_fuel(pow10, 20); }
        if f.mant != 0 && ndigits(if f.mant >= 0 { f.mant as nat } else { (-f.mant) as nat })
            > 19 {
            crate::floatnum::lemma_pow10_mono(
                19,
                (ndigits(if f.mant >= 0 { f.mant as nat } else { (-f.mant) as nat }) - 1) as nat,
            );
        }
        assert(dsq.len() <= 19);
    }
    let mut out = String::new();
    if neg {
        push_char(&mut out, '-');
    }
    if f.exp >= 0 {
        out.append(ds.as_str());
        let mut z: u32 = 0;
        while z < f.exp as u32
            invariant
                z <= f.exp as u32,
                f.exp >= 0,
                out@ =~= (if neg {
                    seq!['-']
                } else {
                    Seq::<char>::empty()
                }).add(dsq).add(zero_chars(z as int)),
            decreases f.exp as u32 - z,
        {
            push_char(&mut out, digit_to_char(0));
            proof {
                assert(out@ =~= (if neg {
                    seq!['-']
                } else {
                    Seq::<char>::empty()
                }).add(dsq).add(zero_chars(z + 1)));
            }
            z = z + 1;
        }
        proof {
            assert(out@ =~= float_text(*f));
        }
        out
    } else {
        let k: i64 = -(f.exp as i64);
        if dlen as i64 > k {
            let cut: usize = dlen - (k as usize);
            let head = ds.as_str().substring_char(0, cut);
            let tail = ds.as_str().substring_char(cut, dlen);
            out.append(head);
            push_char(&mut out, '.');
            out.append(tail);
            proof {
                assert(out@ =~= float_text(*f));
            }
            out
        } else {
            push_char(&mut out, digit_to_char(0));
            push_char(&mut out, '.');
            let mut z: i64 = 0;
            let zn: i64 = k - dlen as i64;
            while z < zn
                invariant
                    0 <= z <= zn,
                    zn == -(f.exp as int) - dsq.len(),
                    out@ =~= (if neg {
                        seq!['-']
                    } else {
                        Seq::<char>::empty()
                    }).add(seq!['0', '.']).add(zero_chars(z as int)),
                decreases zn - z,
            {
                push_char(&mut out, digit_to_char(0));
                proof {
                    assert(out@ =~= (if neg {
                        seq!['-']
                    } else {
                        Seq::<char>::empty()
                    }).add(seq!['0', '.']).add(zero_chars(z + 1)));
                }
                z = z + 1;
            }
            out.append(ds.as_str());
            proof {
                assert(out@ =~= float_text(*f));
            }
            out
        }
    }
}

} // verus!
