//! The fixed set of free functions exposed to generated code, and the
//! stringification engine they share.

pub mod math;
pub mod sys;

use vstd::prelude::*;
use vstd::string::StrSliceExecFns;
use vstd::string::StringExecFns;

use crate::error::RuntimeError;
use crate::floatnum::FloatNum;
use crate::floatnum::MANT_LIMIT;
use crate::numeric_type::NumericType;
use crate::value::Builtin;
use crate::value::FuncRef;
use crate::value::HostRequest;
use crate::value::Outcome;
use crate::strconv::float_text;
use crate::strconv::float_string;
use crate::strconv::int_text;
use crate::strconv::int_string;
use crate::strconv::push_char;
use crate::iowrapper::FileState;
use crate::iowrapper::IOWrapper;
use crate::value::Env;
use crate::value::Value;

verus! {

/// How deep nested containers are followed while rendering before the
/// attempt is abandoned; aliasing admits cyclic lists, which no finite
/// rendering could print.
pub const RENDER_DEPTH: u32 = 32;

/// The rendered text of a value, `None` where the variant has no printed
/// form or nesting exceeds the allowed depth.  An Integer prints without a
/// decimal point, a Float in round-trip decimal form, a Bool and the null
/// value as their literal spellings, a Str as its text, a List in square
/// brackets, a Tuple in parentheses with a trailing comma when it has
/// exactly one element.
pub open spec fn spec_render(env: Env, v: Value, depth: nat) -> Option<Seq<char>>
    decreases depth, 0nat, 0nat,
{
    match v {
        Value::Number(NumericType::Integer(i)) => Some(int_text(i as int)),
        Value::Number(NumericType::Float(f)) => Some(float_text(f)),
        Value::Str(s) => Some(s@),
        Value::Bool(b) => Some(
            if b {
                seq!['t', 'r', 'u', 'e']
            } else {
                seq!['f', 'a', 'l', 's', 'e']
            },
        ),
        Value::PyNone => Some(seq!['N', 'o', 'n', 'e']),
        Value::List(id) => if id < env.lists@.len() && depth > 0 {
            match spec_render_items(env, env.lists@[id as int].list@, (depth - 1) as nat) {
                Some(body) => Some(seq!['['].add(body).add(seq![']'])),
                None => None,
            }
        } else {
            None
        },
        Value::Tuple(id) => if id < env.tuples@.len() && depth > 0 {
            let items = env.tuples@[id as int].list@;
            match spec_render_items(env, items, (depth - 1) as nat) {
                Some(body) => Some(
                    seq!['('].add(body).add(
                        if items.len() == 1 {
                            seq![',', ')']
                        } else {
                            seq![')']
                        },
                    ),
                ),
                None => None,
            }
        } else {
            None
        },
        _ => None,
    }
}

/// A Str element inside a container is quoted, with a double quote only if
/// the text itself contains the default quote character.
pub open spec fn quote_text(s: Seq<char>) -> Seq<char> {
    if s.contains('\'') {
        seq!['"'].add(s).add(seq!['"'])
    } else {
        seq!['\''].add(s).add(seq!['\''])
    }
}

/// The rendered text of one container element: quoted for a Str, the
/// ordinary rendering otherwise.
pub open spec fn spec_render_elem(env: Env, v: Value, depth: nat) -> Option<Seq<char>>
    decreases depth, 1nat, 0nat,
{
    match v {
        Value::Str(s) => Some(quote_text(s@)),
        _ => spec_render(env, v, depth),
    }
}

/// The comma-joined rendering of a container's elements.
pub open spec fn spec_render_items(env: Env, items: Seq<Value>, depth: nat) -> Option<
    Seq<char>,
>
    decreases depth, 2nat, items.len(),
{
    if items.len() == 0 {
        Some(Seq::empty())
    } else {
        match (
            spec_render_items(env, items.drop_last(), depth),
            spec_render_elem(env, items.last(), depth),
        ) {
            (Some(init), Some(e)) => Some(
                init.add(
                    if items.len() > 1 {
                        seq![',', ' ']
                    } else {
                        Seq::<char>::empty()
                    },
                ).add(e),
            ),
            _ => None,
        }
    }
}

/// Whether the string holds the character.
fn str_contains_char(s: &str, c: char) -> (r: bool)
    ensures
        r == s@.contains(c),
{
    let n = s.unicode_len();
    let mut i: usize = 0;
    while i < n
        invariant
            i <= n,
            n == s@.len(),
            forall|j: int| 0 <= j < i ==> s@[j] != c,
        decreases n - i,
    {
        if s.get_char(i) == c {
            return true;
        }
        i = i + 1;
    }
    proof {
        assert(!s@.contains(c));
    }
    false
}

/// Renders one container element, quoting a Str.
fn render_elem(env: &Env, v: &Value, depth: u32) -> (r: Result<String, RuntimeError>)
    requires
        env.wf(),
        v.wf(*env),
    ensures
        match r {
            Ok(out) => spec_render_elem(*env, *v, depth as nat) == Some(out@),
            Err(e) => spec_render_elem(*env, *v, depth as nat) is None && e is TypeMismatch,
        },
    decreases depth, 1nat, 0nat,
{
    match v {
        Value::Str(s) => {
            let mut out = String::new();
            let dq = str_contains_char(s.as_str(), '\'');
            let q: char = if dq { '"' } else { '\'' };
            push_char(&mut out, q);
            out.append(s.as_str());
            push_char(&mut out, q);
            proof {
                assert(out@ =~= quote_text(s@));
            }
            Ok(out)
        },
        _ => render_value(env, v, depth),
    }
}

/// Renders the comma-joined elements of a container.
fn render_items(env: &Env, items: &Vec<Value>, depth: u32) -> (r: Result<
    String,
    RuntimeError,
>)
    requires
        env.wf(),
        forall|i: int| 0 <= i < items@.len() ==> (#[trigger] items@[i]).wf(*env),
    ensures
        match r {
            Ok(out) => spec_render_items(*env, items@, depth as nat) == Some(out@),
            Err(e) => spec_render_items(*env, items@, depth as nat) is None
                && e is TypeMismatch,
        },
    decreases depth, 2nat, items@.len(),
{
    let mut out = String::new();
    let mut j: usize = 0;
    proof {
        assert(items@.subrange(0, 0) =~= Seq::<Value>::empty());
    }
    while j < items.len()
        invariant
            j <= items@.len(),
            env.wf(),
            forall|i: int| 0 <= i < items@.len() ==> (#[trigger] items@[i]).wf(*env),
            spec_render_items(*env, items@.subrange(0, j as int), depth as nat) == Some(out@),
        decreases items@.len() - j,
    {
        let piece = match render_elem(env, &items[j], depth) {
            Ok(p) => p,
            Err(e) => {
                proof {
                    lemma_render_items_elem_fail(*env, items@, depth as nat, j as int);
                }
                return Err(e);
            },
        };
        if j > 0 {
            push_char(&mut out, ',');
            push_char(&mut out, ' ');
        }
        out.append(piece.as_str());
        proof {
            let pre = items@.subrange(0, j as int);
            let post = items@.subrange(0, j + 1);
            assert(post.drop_last() =~= pre);
            assert(post.last() == items@[j as int]);
            if j > 0 {
                assert(out@ =~= spec_render_items(*env, pre, depth as nat)->Some_0.add(
                    seq![',', ' '],
                ).add(piece@));
            } else {
                assert(out@ =~= spec_render_items(*env, pre, depth as nat)->Some_0.add(
                    Seq::<char>::empty(),
                ).add(piece@));
            }
        }
        j = j + 1;
    }
    proof {
        assert(items@.subrange(0, items@.len() as int) =~= items@);
    }
    Ok(out)
}

/// A failing element makes the whole joined rendering fail.
proof fn lemma_render_items_elem_fail(env: Env, items: Seq<Value>, depth: nat, j: int)
    requires
        0 <= j < items.len(),
        spec_render_elem(env, items[j], depth) is None,
    ensures
        spec_render_items(env, items, depth) is None,
    decreases items.len(),
{
    if items.len() > 0 {
        if j == items.len() - 1 {
        } else {
            lemma_render_items_elem_fail(env, items.drop_last(), depth, j);
        }
    }
}

/// Renders a value to its printed text; a Class, Object, Function, stream
/// or uninitialized slot has none, and too-deep nesting is refused.
pub fn render_value(env: &Env, v: &Value, depth: u32) -> (r: Result<String, RuntimeError>)
    requires
        env.wf(),
        v.wf(*env),
    ensures
        match r {
            Ok(out) => spec_render(*env, *v, depth as nat) == Some(out@),
            Err(e) => spec_render(*env, *v, depth as nat) is None && e is TypeMismatch,
        },
    decreases depth, 0nat, 0nat,
{
    match v {
        Value::Number(NumericType::Integer(i)) => Ok(int_string(*i)),
        Value::Number(NumericType::Float(f)) => Ok(float_string(f)),
        Value::Str(s) => Ok(s.clone()),
        Value::Bool(b) => {
            let t = if *b {
                String::from_str("true")
            } else {
                String::from_str("false")
            };
            proof {
                reveal_strlit("true");
                reveal_strlit("false");
                if *b {
                    assert(t@ =~= seq!['t', 'r', 'u', 'e']);
                } else {
                    assert(t@ =~= seq!['f', 'a', 'l', 's', 'e']);
                }
            }
            Ok(t)
        },
        Value::PyNone => {
            let t = String::from_str("None");
            proof {
                reveal_strlit("None");
                assert(t@ =~= seq!['N', 'o', 'n', 'e']);
            }
            Ok(t)
        },
        Value::List(id) => {
            if depth == 0 {
                return Err(RuntimeError::TypeMismatch);
            }
            let body = match render_items(env, &env.lists[*id].list, depth - 1) {
                Ok(b) => b,
                Err(e) => { return Err(e) },
            };
            let mut out = String::new();
            push_char(&mut out, '[');
            out.append(body.as_str());
            push_char(&mut out, ']');
            proof {
                assert(out@ =~= seq!['['].add(body@).add(seq![']']));
            }
            Ok(out)
        },
        Value::Tuple(id) => {
            if depth == 0 {
                return Err(RuntimeError::TypeMismatch);
            }
            let items = &env.tuples[*id].list;
            let single = items.len() == 1;
            let body = match render_items(env, items, depth - 1) {
                Ok(b) => b,
                Err(e) => { return Err(e) },
            };
            let mut out = String::new();
            push_char(&mut out, '(');
            out.append(body.as_str());
            if single {
                push_char(&mut out, ',');
            }
            push_char(&mut out, ')');
            proof {
                if single {
                    assert(out@ =~= seq!['('].add(body@).add(seq![',', ')']));
                } else {
                    assert(out@ =~= seq!['('].add(body@).add(seq![')']));
                }
            }
            Ok(out)
        },
        _ => Err(RuntimeError::TypeMismatch),
    }
}

/// The stringified form of the first argument, or the empty string with
/// no argument.
/// What `py_str` returns: the rendering where one exists, the empty string
/// with no argument, a type error exactly where the variant has no printed
/// form.
pub open spec fn py_str_post(env: Env, params: Seq<Value>, r: Result<Value, RuntimeError>) -> bool {
    match r {
        Ok(v) => {
            &&& v is Str
            &&& (params.len() == 0 ==> v->Str_0@ == Seq::<char>::empty())
            &&& (params.len() > 0 ==> spec_render(env, params[0], RENDER_DEPTH as nat)
                == Some(v->Str_0@))
        },
        Err(e) => params.len() > 0 && spec_render(env, params[0], RENDER_DEPTH as nat)
            is None && e is TypeMismatch,
    }
}

/// The stringified form of the first argument, or the empty string with
/// no argument.
pub fn py_str(env: &Env, params: Vec<Value>) -> (r: Result<Value, RuntimeError>)
    requires
        env.wf(),
        forall|i: int| 0 <= i < params@.len() ==> (#[trigger] params@[i]).wf(*env),
    ensures
        py_str_post(*env, params@, r),
{
    if params.len() == 0 {
        return Ok(Value::Str(String::new()));
    }
    match render_value(env, &params[0], RENDER_DEPTH) {
        Ok(out) => Ok(Value::Str(out)),
        Err(e) => Err(e),
    }
}

/// The length of a Str, List or Tuple, as an Integer; other variants have
/// none.  A length beyond the integer width is a value error.
/// The element count `len` reports for a measurable value.
pub open spec fn len_count(env: Env, v: Value) -> nat {
    match v {
        Value::Str(s) => s@.len(),
        Value::List(id) => env.lists@[id as int].list@.len(),
        Value::Tuple(id) => env.tuples@[id as int].list@.len(),
        _ => 0,
    }
}

/// What `len` returns: the length of a Str, List or Tuple as an Integer —
/// owed whenever it fits the integer width — an arity error with no
/// argument, a type error on any other variant.
pub open spec fn len_post(env: Env, params: Seq<Value>, r: Result<Value, RuntimeError>) -> bool {
    &&& match r {
        Ok(v) => params.len() >= 1 && v == Value::Number(
            NumericType::Integer(len_count(env, params[0]) as i32),
        ) && (params[0] is Str || params[0] is List || params[0] is Tuple),
        Err(e) => {
            &&& (params.len() == 0 ==> e is ArityError)
            &&& (params.len() >= 1 && !(params[0] is Str || params[0] is List
                || params[0] is Tuple) ==> e is TypeMismatch)
        },
    }
    &&& ((params.len() >= 1 && (params[0] is Str || params[0] is List
        || params[0] is Tuple) && len_count(env, params[0]) <= i32::MAX) <==> r is Ok)
}

/// The length of a Str, List or Tuple, as an Integer; other variants
/// have none.
pub fn len(env: &Env, params: Vec<Value>) -> (r: Result<Value, RuntimeError>)
    requires
        env.wf(),
        forall|i: int| 0 <= i < params@.len() ==> (#[trigger] params@[i]).wf(*env),
    ensures
        len_post(*env, params@, r),
{
    if params.len() == 0 {
        return Err(RuntimeError::ArityError);
    }
    let n: usize = match &params[0] {
        Value::Str(s) => s.as_str().unicode_len(),
        Value::List(id) => env.lists[*id].list.len(),
        Value::Tuple(id) => env.tuples[*id].list.len(),
        _ => { return Err(RuntimeError::TypeMismatch) },
    };
    if n > 0x7fff_ffff {
        return Err(RuntimeError::ValueError);
    }
    Ok(Value::Number(NumericType::Integer(n as i32)))
}

/// Converts the first argument to an Integer: a Str parses as a trimmed
/// base-10 literal, an Integer passes through, a Float truncates toward
/// zero clamped to the integer width.  An unparsable Str falls back to the
/// second argument when one is given; with no argument at all the result
/// is zero.
/// What `py_int` returns: zero with no argument; a valid in-range trimmed
/// literal's value; the supplied default on an unparsable Str, else a
/// value error; an Integer unchanged; a Float truncated toward zero and
/// clamped; a type error on any other variant.
pub open spec fn int_post(params: Seq<Value>, r: Result<Value, RuntimeError>) -> bool {
    &&& (r matches Ok(v) ==> v.num_wf())
    &&& (params.len() == 0 ==> r == Ok::<Value, RuntimeError>(Value::Number(
        NumericType::Integer(0),
    )))
    &&& (params.len() >= 1 ==> match params[0] {
        Value::Str(s) => {
            if crate::strconv::int_lit_valid(crate::strconv::trimmed(s@))
                && i32::MIN <= crate::strconv::int_lit_val(crate::strconv::trimmed(s@))
                <= i32::MAX {
                r == Ok::<Value, RuntimeError>(Value::Number(
                    NumericType::Integer(
                        crate::strconv::int_lit_val(crate::strconv::trimmed(s@)) as i32,
                    ),
                ))
            } else if params.len() >= 2 {
                r == Ok::<Value, RuntimeError>(params[1])
            } else {
                r == Err::<Value, RuntimeError>(RuntimeError::ValueError)
            }
        },
        Value::Number(NumericType::Integer(_)) => r == Ok::<Value, RuntimeError>(params[0]),
        Value::Number(NumericType::Float(f)) => r == Ok::<Value, RuntimeError>(
            Value::Number(NumericType::Integer(float_trunc_spec(f) as i32)),
        ),
        _ => r == Err::<Value, RuntimeError>(RuntimeError::TypeMismatch),
    })
}

/// Converts the first argument to an Integer: a Str parses as a trimmed
/// base-10 literal, an Integer passes through, a Float truncates toward
/// zero clamped to the integer width; an unparsable Str falls back to the
/// second argument when one is given; with no argument at all the result
/// is zero.
pub fn py_int(params: Vec<Value>) -> (r: Result<Value, RuntimeError>)
    requires
        forall|i: int| 0 <= i < params@.len() ==> (#[trigger] params@[i]).num_wf(),
    ensures
        int_post(params@, r),
{
    if params.len() == 0 {
        return Ok(Value::Number(NumericType::Integer(0)));
    }
    match &params[0] {
        Value::Str(s) => {
            match crate::strconv::parse_int(s.as_str()) {
                Some(v) => Ok(Value::Number(NumericType::Integer(v))),
                None => {
                    if params.len() >= 2 {
                        Ok(params[1].clone())
                    } else {
                        Err(RuntimeError::ValueError)
                    }
                },
            }
        },
        Value::Number(NumericType::Integer(v)) => Ok(Value::Number(NumericType::Integer(*v))),
        Value::Number(NumericType::Float(f)) => Ok(
            Value::Number(NumericType::Integer(float_trunc(f))),
        ),
        _ => Err(RuntimeError::TypeMismatch),
    }
}

/// What truncating a decimal float toward zero gives, clamped to the
/// integer width.
pub open spec fn float_trunc_spec(f: FloatNum) -> int {
    let mag = vstd::math::abs(f.mant as int) as int;
    let t = if f.exp >= 0 {
        mag * crate::floatnum::pow10(f.exp as nat)
    } else {
        mag / crate::floatnum::pow10((-f.exp) as nat)
    };
    let s: int = if f.mant < 0 {
        -t
    } else {
        t
    };
    if s > i32::MAX {
        i32::MAX as int
    } else if s < i32::MIN {
        i32::MIN as int
    } else {
        s
    }
}

/// Truncates a decimal float toward zero, clamped to the integer width.
fn float_trunc(f: &FloatNum) -> (r: i32)
    requires
        f.wf(),
    ensures
        r as int == float_trunc_spec(*f),
{
    let neg = f.mant < 0;
    let mag: i64 = if neg { -f.mant } else { f.mant };
    if f.exp >= 0 {
        if f.exp > 10 {
            if f.mant == 0 {
                return 0;
            }
            proof {
                crate::floatnum::lemma_pow10_mono(11, f.exp as nat);
                assert(crate::floatnum::pow10(11) == 100_000_000_000) by {
                    reveal_with_fuel(crate::floatnum::pow10, 12);
                }
                assert((mag as int) * crate::floatnum::pow10(f.exp as nat)
                    >= crate::floatnum::pow10(f.exp as nat)) by (nonlinear_arith)
                    requires
                        mag >= 1,
                        crate::floatnum::pow10(f.exp as nat) >= 1;
            }
            return if neg { i32::MIN } else { i32::MAX };
        }
        proof {
            assert(crate::floatnum::pow10(10) == 10_000_000_000) by {
                reveal_with_fuel(crate::floatnum::pow10, 11);
            }
            crate::floatnum::lemma_pow10_mono(f.exp as nat, 10);
            crate::floatnum::lemma_pow10_pos(f.exp as nat);
            assert((mag as int) * crate::floatnum::pow10(f.exp as nat) <= (mag as int)
                * 10_000_000_000) by (nonlinear_arith)
                requires
                    mag >= 0,
                    crate::floatnum::pow10(f.exp as nat) <= 10_000_000_000,
                    crate::floatnum::pow10(f.exp as nat) >= 1;
        }
        let full: i128 = (mag as i128) * crate::floatnum::pow10_i128(f.exp as u32);
        let full_s: i128 = if neg { -full } else { full };
        if full_s > 0x7fff_ffff {
            i32::MAX
        } else if full_s < -0x8000_0000 {
            i32::MIN
        } else {
            full_s as i32
        }
    } else {
        let k: i64 = -(f.exp as i64);
        if k > 18 {
            proof {
                crate::floatnum::lemma_pow10_mono(19, k as nat);
                assert(crate::floatnum::pow10(19) == 10_000_000_000_000_000_000) by {
                    reveal_with_fuel(crate::floatnum::pow10, 20);
                }
                assert((mag as int) / crate::floatnum::pow10(k as nat) == 0)
                    by (nonlinear_arith)
                    requires
                        0 <= mag < 1_000_000_000_000_000_000,
                        crate::floatnum::pow10(k as nat) >= 10_000_000_000_000_000_000;
            }
            return 0;
        }
        proof {
            crate::floatnum::lemma_pow10_pos(k as nat);
            crate::floatnum::lemma_pow10_mono(k as nat, 18);
            assert(crate::floatnum::pow10(18) == 1_000_000_000_000_000_000) by {
                reveal_with_fuel(crate::floatnum::pow10, 20);
            }
        }
        let p: i128 = crate::floatnum::pow10_i128(k as u32);
        let q128: i128 = mag as i128 / p;
        proof {
            assert(0 <= q128 <= mag) by (nonlinear_arith)
                requires
                    q128 == mag as int / (p as int),
                    p >= 1,
                    mag >= 0;
        }
        let q: i64 = q128 as i64;
        let qs: i64 = if neg { -q } else { q };
        if qs > 0x7fff_ffff {
            i32::MAX
        } else if qs < -0x8000_0000 {
            i32::MIN
        } else {
            qs as i32
        }
    }
}

/// Converts the first argument to a Float: a Str parses as a trimmed
/// base-10 decimal literal with an optional exponent, an Integer converts
/// exactly, a Float passes through.  An unparsable Str falls back to the
/// second argument when one is given; with no argument at all the result
/// is zero.
/// Whether a trimmed float literal sits inside the decimal model's range:
/// at most thirty-seven written digits and a written exponent of at most
/// twenty thousand.
pub open spec fn float_lit_in_model(t: Seq<char>) -> bool {
    &&& crate::strconv::float_lit_valid(t)
    &&& crate::strconv::int_digits(t).len() + crate::strconv::frac_digits(t).len() <= 37
    &&& match crate::strconv::exp_region(t) {
        Some(e) => crate::strconv::digits_val(crate::strconv::sign_split(e).1) <= 20_000,
        None => true,
    }
}

/// The parse an in-model literal pins `r` to: the exact decimal value
/// whenever it fits eighteen digits after removing trailing zeros, and
/// within half a unit of the result's final scale otherwise.
pub open spec fn float_parse_pinned(t: Seq<char>, v: Value) -> bool {
    &&& v is Number && v->Number_0 is Float && v->Number_0->Float_0.wf()
    &&& (crate::strconv::float_lit_mant(t) == 0 ==> v->Number_0->Float_0 == (FloatNum {
        mant: 0,
        exp: 0,
    }))
    &&& (crate::strconv::float_lit_mant(t) != 0 ==> {
        let f = v->Number_0->Float_0;
        let e10 = crate::strconv::float_lit_exp(t);
        let m = crate::strconv::float_lit_mant(t);
        &&& f.exp >= e10
        &&& (crate::floatnum::strip10(vstd::math::abs(m) as nat) < MANT_LIMIT ==> f.scaled(
            e10,
        ) == m)
        &&& 2 * vstd::math::abs(f.scaled(e10) - m) <= crate::floatnum::pow10(
            (f.exp - e10) as nat,
        )
    })
}

/// What `float` returns: zero with no argument; a trimmed literal inside
/// the model parses — exactly up to eighteen significant digits, rounded
/// beyond them; a literal that is malformed or outside the model's digit
/// or exponent range takes the supplied default, else a value error; an
/// Integer converts exactly; a Float passes through; a type error on any
/// other variant.
pub open spec fn float_post(params: Seq<Value>, r: Result<Value, RuntimeError>) -> bool {
    &&& (r matches Ok(v) ==> v.num_wf())
    &&& (params.len() == 0 ==> r == Ok::<Value, RuntimeError>(Value::Number(
        NumericType::Float(FloatNum { mant: 0, exp: 0 }),
    )))
    &&& (params.len() >= 1 ==> match params[0] {
        Value::Str(s) => {
            let t = crate::strconv::trimmed(s@);
            if float_lit_in_model(t) {
                match r {
                    Ok(v) => float_parse_pinned(t, v),
                    Err(_) => false,
                }
            } else {
                if params.len() >= 2 {
                    r == Ok::<Value, RuntimeError>(params[1])
                } else {
                    r == Err::<Value, RuntimeError>(RuntimeError::ValueError)
                }
            }
        },
        Value::Number(NumericType::Integer(v)) => r == Ok::<Value, RuntimeError>(
            Value::Number(NumericType::Float(crate::floatnum::float_of_int(v as int))),
        ),
        Value::Number(NumericType::Float(_)) => r == Ok::<Value, RuntimeError>(params[0]),
        _ => r == Err::<Value, RuntimeError>(RuntimeError::TypeMismatch),
    })
}

/// Converts the first argument to a Float: a Str parses as a trimmed
/// base-10 decimal literal with an optional exponent, an Integer converts
/// exactly, a Float passes through; an unparsable Str falls back to the
/// second argument when one is given; with no argument at all the result
/// is zero.
pub fn float(params: Vec<Value>) -> (r: Result<Value, RuntimeError>)
    requires
        forall|i: int| 0 <= i < params@.len() ==> (#[trigger] params@[i]).num_wf(),
    ensures
        float_post(params@, r),
{
    if params.len() == 0 {
        return Ok(Value::Number(NumericType::Float(FloatNum { mant: 0, exp: 0 })));
    }
    match &params[0] {
        Value::Str(s) => {
            match crate::strconv::parse_float(s.as_str()) {
                Some(f) => Ok(Value::Number(NumericType::Float(f))),
                None => {
                    if params.len() >= 2 {
                        Ok(params[1].clone())
                    } else {
                        Err(RuntimeError::ValueError)
                    }
                },
            }
        },
        Value::Number(NumericType::Integer(v)) => Ok(
            Value::Number(NumericType::Float(crate::floatnum::float_from_int(*v))),
        ),
        Value::Number(NumericType::Float(f)) => Ok(Value::Number(NumericType::Float(*f))),
        _ => Err(RuntimeError::TypeMismatch),
    }
}

/// The smallest character of the run, scanning left with strict
/// less-than, so the earliest of equals is kept.
pub open spec fn min_char_scan(s: Seq<char>, acc: char) -> char
    decreases s.len(),
{
    if s.len() == 0 {
        acc
    } else if (s[0] as u32) < (acc as u32) {
        min_char_scan(s.skip(1), s[0])
    } else {
        min_char_scan(s.skip(1), acc)
    }
}

/// The smallest character of a non-empty string, as a one-character Str.
fn min_char(s: &str) -> (r: String)
    requires
        s@.len() > 0,
    ensures
        r@ == seq![min_char_scan(s@.skip(1), s@[0])],
{
    let n = s.unicode_len();
    let mut best: char = s.get_char(0);
    let mut i: usize = 1;
    proof {
        assert(s@.skip(1) =~= s@.skip(1));
    }
    while i < n
        invariant
            1 <= i <= n,
            n == s@.len(),
            min_char_scan(s@.skip(1), s@[0]) == min_char_scan(s@.skip(i as int), best),
        decreases n - i,
    {
        let c = s.get_char(i);
        proof {
            assert(s@.skip(i as int)[0] == s@[i as int]);
            assert(s@.skip(i as int).skip(1) =~= s@.skip(i + 1));
        }
        if (c as u32) < (best as u32) {
            best = c;
        }
        i = i + 1;
    }
    proof {
        assert(s@.skip(i as int).len() == 0);
    }
    let mut out = String::new();
    push_char(&mut out, best);
    proof {
        assert(out@ =~= seq![best]);
    }
    out
}

/// The minimum: with one argument an iterable (Str, List or Tuple) whose
/// smallest element is taken, failing on an empty sequence; with several
/// arguments the pairwise reduction of the arguments themselves; with none
/// an arity error.
/// What `min` returns: with one argument, the smallest character of a
/// non-empty Str or the pairwise minimum of a non-empty List or Tuple,
/// value errors on empty ones and type errors elsewhere; with several
/// arguments, the pairwise reduction of the arguments; with none, an
/// arity error.
pub open spec fn min_post(env: Env, params: Seq<Value>, r: Result<Value, RuntimeError>) -> bool {
    &&& (params.len() == 0 ==> r == Err::<Value, RuntimeError>(RuntimeError::ArityError))
    &&& (params.len() == 1 ==> match params[0] {
        Value::Str(s) => if s@.len() == 0 {
            r == Err::<Value, RuntimeError>(RuntimeError::ValueError)
        } else {
            match r {
                Ok(v) => v is Str && v->Str_0@ == seq![min_char_scan(s@.skip(1), s@[0])],
                Err(_) => false,
            }
        },
        Value::List(id) => {
            let xs = env.lists@[id as int].list@;
            if xs.len() == 0 {
                r == Err::<Value, RuntimeError>(RuntimeError::ValueError)
            } else {
                r == crate::list_type::min_scan(xs.skip(1), xs[0])
            }
        },
        Value::Tuple(id) => {
            let xs = env.tuples@[id as int].list@;
            if xs.len() == 0 {
                r == Err::<Value, RuntimeError>(RuntimeError::ValueError)
            } else {
                r == crate::list_type::min_scan(xs.skip(1), xs[0])
            }
        },
        _ => r == Err::<Value, RuntimeError>(RuntimeError::TypeMismatch),
    })
    &&& (params.len() >= 2 ==> r == crate::list_type::min_scan(params.skip(1), params[0]))
}

/// The minimum: with one argument an iterable (Str, List or Tuple) whose
/// smallest element is taken, failing on an empty sequence; with several
/// arguments the pairwise reduction of the arguments themselves.
pub fn min(env: &Env, params: Vec<Value>) -> (r: Result<Value, RuntimeError>)
    requires
        env.wf(),
        forall|i: int| 0 <= i < params@.len() ==> (#[trigger] params@[i]).wf(*env),
    ensures
        min_post(*env, params@, r),
{
    if params.len() == 0 {
        return Err(RuntimeError::ArityError);
    }
    if params.len() == 1 {
        match &params[0] {
            Value::Str(s) => {
                if s.as_str().unicode_len() == 0 {
                    return Err(RuntimeError::ValueError);
                }
                Ok(Value::Str(min_char(s.as_str())))
            },
            Value::List(id) => {
                proof {
                    assert(params@[0].wf(*env));
                }
                env.lists[*id].min()
            },
            Value::Tuple(id) => crate::list_type::min_values(&env.tuples[*id].list),
            _ => Err(RuntimeError::TypeMismatch),
        }
    } else {
        crate::list_type::min_values(&params)
    }
}

/// The binding a keyword-argument list carries for the name: the latest
/// one wins.
pub open spec fn kw_lookup(kws: Seq<(String, Value)>, name: Seq<char>) -> Option<Value>
    decreases kws.len(),
{
    if kws.len() == 0 {
        None
    } else if kws.last().0@ == name {
        Some(kws.last().1)
    } else {
        kw_lookup(kws.drop_last(), name)
    }
}

/// Looks a name up in a keyword-argument list.
fn kw_get(kwargs: &Vec<(String, Value)>, name: &str) -> (r: Option<Value>)
    ensures
        r == kw_lookup(kwargs@, name@),
{
    let mut i: usize = kwargs.len();
    proof {
        assert(kwargs@.subrange(0, kwargs@.len() as int) =~= kwargs@);
    }
    while i > 0
        invariant
            i <= kwargs@.len(),
            kw_lookup(kwargs@, name@) == kw_lookup(kwargs@.subrange(0, i as int), name@),
        decreases i,
    {
        proof {
            assert(kwargs@.subrange(0, i as int).last() == kwargs@[i - 1]);
            assert(kwargs@.subrange(0, i as int).drop_last() =~= kwargs@.subrange(0, i - 1));
        }
        if crate::value::str_eq(kwargs[i - 1].0.as_str(), name) {
            return Some(kwargs[i - 1].1.clone());
        }
        i = i - 1;
    }
    None
}

/// The joined rendering of the printed arguments: the pieces separated by
/// single spaces.
pub open spec fn spec_print_join(env: Env, params: Seq<Value>, depth: nat) -> Option<
    Seq<char>,
>
    decreases params.len(),
{
    if params.len() == 0 {
        Some(Seq::empty())
    } else if params.len() == 1 {
        spec_render(env, params[0], depth)
    } else {
        match (
            spec_print_join(env, params.drop_last(), depth),
            spec_render(env, params.last(), depth),
        ) {
            (Some(init), Some(e)) => Some(init.add(seq![' ']).add(e)),
            _ => None,
        }
    }
}

/// The full printed line: the joined arguments and a newline.
pub open spec fn spec_print_text(env: Env, params: Seq<Value>, depth: nat) -> Option<
    Seq<char>,
>{
    match spec_print_join(env, params, depth) {
        Some(j) => Some(j.push('\n')),
        None => None,
    }
}

/// Where `print` writes and what it does to the environment.  The stream
/// is chosen by the `file` keyword: standard output when absent, standard
/// error or an open writable file handle otherwise; the text is appended
/// to a file's modelled content, and the host mirrors the write.
/// What `print` does: with renderable arguments the joined line goes to
/// the selected stream — standard output by default, standard error, or
/// an open writable file whose modelled content is appended and whose
/// write the host mirrors; an unrenderable argument or a non-stream
/// `file` keyword is a type error, a closed or read-only target an
/// input/output error.  Success is owed exactly for renderable arguments
/// aimed at the console or a writable open file.
pub open spec fn print_post(
    env0: Env,
    env1: Env,
    params: Seq<Value>,
    kwargs: Seq<(String, Value)>,
    r: Result<Outcome, RuntimeError>,
) -> bool {
    &&& match r {
        Ok(o) => {
            &&& spec_print_text(env0, params, RENDER_DEPTH as nat) is Some
            &&& ({
                let text = spec_print_text(env0, params, RENDER_DEPTH as nat)->Some_0;
                match kw_lookup(kwargs, "file"@) {
                    Option::None => o matches Outcome::Effect(
                        Value::PyNone,
                        HostRequest::WriteStdout { text: t },
                    ) && t@ == text && env1 == env0,
                    Option::Some(Value::TextIOWrapper(IOWrapper::Stdout)) => o matches
                        Outcome::Effect(
                        Value::PyNone,
                        HostRequest::WriteStdout { text: t },
                    ) && t@ == text && env1 == env0,
                    Option::Some(Value::TextIOWrapper(IOWrapper::Stderr)) => o matches
                        Outcome::Effect(
                        Value::PyNone,
                        HostRequest::WriteStderr { text: t },
                    ) && t@ == text && env1 == env0,
                    Option::Some(Value::TextIOWrapper(IOWrapper::File(id))) => o matches
                        Outcome::Effect(
                        Value::PyNone,
                        HostRequest::WriteFile { file, text: t },
                    ) && file == id && t@ == text && id < env0.files@.len()
                        && env0.files@[id as int].writable && !env0.files@[id as int].closed
                        && env1.files@ == env0.files@.update(
                        id as int,
                        FileState {
                            content: env1.files@[id as int].content,
                            ..env0.files@[id as int]
                        },
                    ) && env1.files@[id as int].content@ == env0.files@[
                        id as int
                    ].content@.add(text) && env1.lists == env0.lists && env1.tuples
                        == env0.tuples && env1.classes == env0.classes && env1.objects
                        == env0.objects && env1.frames == env0.frames,
                    _ => false,
                }
            })
        },
        Err(e) => {
            &&& env1 == env0
            &&& (spec_print_text(env0, params, RENDER_DEPTH as nat) is None
                ==> e is TypeMismatch)
            &&& (spec_print_text(env0, params, RENDER_DEPTH as nat) is Some
                ==> match kw_lookup(kwargs, "file"@) {
                Option::Some(Value::TextIOWrapper(IOWrapper::File(id))) => (id
                    < env0.files@.len() ==> (!env0.files@[id as int].writable
                    || env0.files@[id as int].closed) && e is IOError),
                Option::Some(Value::TextIOWrapper(IOWrapper::Stdout)) => false,
                Option::Some(Value::TextIOWrapper(IOWrapper::Stderr)) => false,
                Option::Some(Value::TextIOWrapper(IOWrapper::Closed)) => e is IOError,
                Option::None => false,
                Option::Some(_) => e is TypeMismatch,
            })
        },
    }
    &&& ((spec_print_text(env0, params, RENDER_DEPTH as nat) is Some
        && match kw_lookup(kwargs, "file"@) {
        Option::None => true,
        Option::Some(Value::TextIOWrapper(IOWrapper::Stdout)) => true,
        Option::Some(Value::TextIOWrapper(IOWrapper::Stderr)) => true,
        Option::Some(Value::TextIOWrapper(IOWrapper::File(id))) => id < env0.files@.len()
            && env0.files@[id as int].writable && !env0.files@[id as int].closed,
        _ => false,
    }) <==> r is Ok)
}

/// Joins the stringified arguments with single spaces, appends a
/// newline, and writes to the stream the `file` keyword selects.
pub fn print(env: &mut Env, params: Vec<Value>, kwargs: Vec<(String, Value)>) -> (r: Result<
    Outcome,
    RuntimeError,
>)
    requires
        old(env).wf(),
        forall|i: int| 0 <= i < params@.len() ==> (#[trigger] params@[i]).wf(*old(env)),
        forall|i: int|
            0 <= i < kwargs@.len() ==> (#[trigger] kwargs@[i]).1.wf(*old(env)),
    ensures
        final(env).wf(),
        print_post(*old(env), *final(env), params@, kwargs@, r),
{
    let mut out = String::new();
    let mut j: usize = 0;
    proof {
        assert(params@.subrange(0, 0) =~= Seq::<Value>::empty());
    }
    while j < params.len()
        invariant
            j <= params@.len(),
            old(env).wf(),
            forall|i: int| 0 <= i < params@.len() ==> (#[trigger] params@[i]).wf(*old(env)),
            spec_print_join(*old(env), params@.subrange(0, j as int), RENDER_DEPTH as nat)
                == Some(out@),
            *env == *old(env),
        decreases params@.len() - j,
    {
        let piece = match render_value(env, &params[j], RENDER_DEPTH) {
            Ok(p) => p,
            Err(e) => {
                proof {
                    lemma_print_join_elem_fail(
                        *old(env),
                        params@,
                        RENDER_DEPTH as nat,
                        j as int,
                    );
                }
                return Err(e);
            },
        };
        if j > 0 {
            push_char(&mut out, ' ');
        }
        out.append(piece.as_str());
        proof {
            let pre = params@.subrange(0, j as int);
            let post = params@.subrange(0, j + 1);
            assert(post.drop_last() =~= pre);
            assert(post.last() == params@[j as int]);
            if j > 0 {
                assert(out@ =~= spec_print_join(*old(env), pre, RENDER_DEPTH as nat)
                    ->Some_0.add(seq![' ']).add(piece@));
            } else {
                assert(out@ =~= piece@);
            }
        }
        j = j + 1;
    }
    proof {
        assert(params@.subrange(0, params@.len() as int) =~= params@);
    }
    push_char(&mut out, '\n');
    match kw_get(&kwargs, "file") {
        Option::None => Ok(
            Outcome::Effect(Value::PyNone, HostRequest::WriteStdout { text: out }),
        ),
        Option::Some(Value::TextIOWrapper(IOWrapper::Stdout)) => Ok(
            Outcome::Effect(Value::PyNone, HostRequest::WriteStdout { text: out }),
        ),
        Option::Some(Value::TextIOWrapper(IOWrapper::Stderr)) => Ok(
            Outcome::Effect(Value::PyNone, HostRequest::WriteStderr { text: out }),
        ),
        Option::Some(Value::TextIOWrapper(IOWrapper::File(id))) => {
            proof {
                assert(kw_lookup(kwargs@, "file"@)->Some_0.wf(*old(env))) by {
                    lemma_kw_lookup_wf(kwargs@, "file"@, *old(env));
                }
            }
            if !env.files[id].writable || env.files[id].closed {
                return Err(RuntimeError::IOError);
            }
            let text2 = out.clone();
            let fs = &mut env.files[id];
            fs.content.append(out.as_str());
            proof {
                let e1 = *old(env);
                let e2 = *env;
                assert(crate::value::env_shape_le(e1, e2));
                assert(crate::value::all_stored_wf(e2, e1));
                crate::value::lemma_env_wf_from(e1, e2);
                assert(e2.files@ =~= e1.files@.update(
                    id as int,
                    FileState { content: e2.files@[id as int].content, ..e1.files@[id as int] },
                ));
            }
            Ok(Outcome::Effect(Value::PyNone, HostRequest::WriteFile { file: id, text: text2 }))
        },
        Option::Some(Value::TextIOWrapper(IOWrapper::Closed)) => Err(RuntimeError::IOError),
        Option::Some(_) => Err(RuntimeError::TypeMismatch),
    }
}

/// A failing argument makes the whole joined rendering fail.
proof fn lemma_print_join_elem_fail(env: Env, params: Seq<Value>, depth: nat, j: int)
    requires
        0 <= j < params.len(),
        spec_render(env, params[j], depth) is None,
    ensures
        spec_print_join(env, params, depth) is None,
    decreases params.len(),
{
    if params.len() > 1 && j < params.len() - 1 {
        lemma_print_join_elem_fail(env, params.drop_last(), depth, j);
    }
}

/// A value found in a keyword-argument list is one of its stored values.
proof fn lemma_kw_lookup_wf(kws: Seq<(String, Value)>, name: Seq<char>, env: Env)
    requires
        forall|i: int| 0 <= i < kws.len() ==> (#[trigger] kws[i]).1.wf(env),
        kw_lookup(kws, name) is Some,
    ensures
        kw_lookup(kws, name)->Some_0.wf(env),
    decreases kws.len(),
{
    if kws.len() > 0 && kws.last().0@ != name {
        lemma_kw_lookup_wf(kws.drop_last(), name, env);
    }
}

/// Opens a file: the mode string is scanned independently for reading and
/// writing flags, write implying truncate-and-create, and the host is
/// asked to perform the filesystem work.
/// What `open` returns: for a Str filename and an absent-or-Str mode —
/// and exactly then — a pending host request whose flags scan the mode
/// independently for reading and writing; an arity error with no
/// argument, a type error on non-Str arguments.
pub open spec fn open_post(params: Seq<Value>, r: Result<Outcome, RuntimeError>) -> bool {
    &&& match r {
        Ok(o) => {
            &&& params.len() >= 1 && params[0] is Str
            &&& o matches Outcome::Pending(
                HostRequest::OpenFile { filename, read, write },
            ) && filename@ == params[0]->Str_0@ && read == (if params.len() >= 2 {
                params[1] is Str && params[1]->Str_0@.contains('r')
            } else {
                true
            }) && write == (params.len() >= 2 && params[1] is Str
                && params[1]->Str_0@.contains('w'))
            &&& (params.len() >= 2 ==> params[1] is Str)
        },
        Err(e) => {
            &&& (params.len() == 0 ==> e is ArityError)
            &&& (params.len() >= 1 && !(params[0] is Str) ==> e is TypeMismatch)
            &&& (params.len() >= 2 && params[0] is Str && !(params[1] is Str)
                ==> e is TypeMismatch)
        },
    }
    &&& ((params.len() >= 1 && params[0] is Str && (params.len() < 2 || params[1] is Str))
        <==> r is Ok)
}

/// Opens a file: the mode string is scanned independently for reading
/// and writing flags, write implying truncate-and-create, and the host
/// is asked to perform the filesystem work.
pub fn open(params: Vec<Value>) -> (r: Result<Outcome, RuntimeError>)
    ensures
        open_post(params@, r),
{
    if params.len() == 0 {
        return Err(RuntimeError::ArityError);
    }
    let filename: String = match &params[0] {
        Value::Str(s) => s.clone(),
        _ => { return Err(RuntimeError::TypeMismatch) },
    };
    if params.len() >= 2 {
        match &params[1] {
            Value::Str(mode) => {
                let read = str_contains_char(mode.as_str(), 'r');
                let write = str_contains_char(mode.as_str(), 'w');
                Ok(Outcome::Pending(HostRequest::OpenFile { filename, read, write }))
            },
            _ => Err(RuntimeError::TypeMismatch),
        }
    } else {
        Ok(Outcome::Pending(HostRequest::OpenFile { filename, read: true, write: false }))
    }
}

/// Registers a file the host has opened: the modelled state starts with
/// the content the host read, or empty for a fresh write, and the handle
/// is shared by every alias of the returned value.
pub fn finish_open(env: &mut Env, read: bool, write: bool, content: String) -> (r: Value)
    requires
        old(env).wf(),
    ensures
        final(env).wf(),
        r == Value::TextIOWrapper(IOWrapper::File(old(env).files@.len() as usize)),
        final(env).files@ == old(env).files@.push(
            FileState { readable: read, writable: write, closed: false, content, pos: 0 },
        ),
        final(env).lists == old(env).lists,
        final(env).tuples == old(env).tuples,
        final(env).classes == old(env).classes,
        final(env).objects == old(env).objects,
        final(env).frames == old(env).frames,
{
    let id = env.files.len();
    env.files.push(FileState { readable: read, writable: write, closed: false, content, pos: 0 });
    proof {
        assert(crate::value::env_shape_le(*old(env), *env));
        crate::value::lemma_env_wf_from(*old(env), *env);
    }
    Value::TextIOWrapper(IOWrapper::File(id))
}

/// The index of the first newline, or the length when there is none.
pub open spec fn find_nl(t: Seq<char>) -> int
    decreases t.len(),
{
    if t.len() == 0 {
        0
    } else if t[0] == '\n' {
        0
    } else {
        1 + find_nl(t.skip(1))
    }
}

/// One read line in its delivered form: any trailing carriage return
/// dropped, a newline appended.
pub open spec fn norm_line(piece: Seq<char>) -> Seq<char> {
    let core = if piece.len() > 0 && piece.last() == '\r' {
        piece.drop_last()
    } else {
        piece
    };
    core.push('\n')
}

/// The lines of a text, each delivered with a trailing newline; text after
/// the last newline forms a final line of its own.
pub open spec fn lines_of(s: Seq<char>) -> Seq<Seq<char>>
    decreases s.len(),
{
    if s.len() == 0 {
        Seq::empty()
    } else {
        let p = find_nl(s);
        if 0 <= p < s.len() {
            seq![norm_line(s.take(p))].add(lines_of(s.skip(p + 1)))
        } else {
            seq![norm_line(s)]
        }
    }
}

/// Splits the tail of `content` starting at `pos` into delivered lines.
#[verifier::loop_isolation(false)]
fn split_lines(content: &str, pos: usize) -> (r: Vec<String>)
    requires
        pos <= content@.len(),
    ensures
        r@.len() == lines_of(content@.skip(pos as int)).len(),
        forall|i: int|
            0 <= i < r@.len() ==> (#[trigger] r@[i])@ == lines_of(
                content@.skip(pos as int),
            )[i],
    decreases content@.len() - pos,
{
    let n = content.unicode_len();
    if pos == n {
        proof {
            assert(content@.skip(pos as int).len() == 0);
        }
        return Vec::new();
    }
    let ghost tail = content@.skip(pos as int);
    // Find the next newline.
    let mut p: usize = pos;
    proof {
        assert(tail.skip(0) =~= tail);
    }
    while p < n && content.get_char(p) != '\n'
        invariant
            pos <= p <= n,
            n == content@.len(),
            tail == content@.skip(pos as int),
            find_nl(tail) == p - pos + find_nl(tail.skip(p - pos)),
        decreases n - p,
    {
        proof {
            assert(tail.skip(p - pos)[0] == content@[p as int]);
            assert(tail.skip(p - pos).skip(1) =~= tail.skip(p + 1 - pos));
        }
        p = p + 1;
    }
    proof {
        if p < n {
            assert(tail.skip(p - pos)[0] == content@[p as int]);
        }
        assert(find_nl(tail) == p - pos);
    }
    // Build this line.
    let core_end: usize = if p > pos && content.get_char(p - 1) == '\r' {
        p - 1
    } else {
        p
    };
    let mut line = content.substring_char(pos, core_end).to_owned();
    push_char(&mut line, '\n');
    proof {
        let piece = if p < n {
            tail.take(p - pos)
        } else {
            tail
        };
        assert(piece =~= content@.subrange(pos as int, p as int));
        if p > pos && content@[p - 1] == '\r' {
            assert(piece.last() == content@[p - 1]);
            assert(piece.drop_last() =~= content@.subrange(pos as int, core_end as int));
        }
        assert(line@ =~= norm_line(piece));
    }
    if p < n {
        let mut rest = split_lines(content, p + 1);
        let ghost rest0 = rest@;
        let mut out: Vec<String> = Vec::new();
        out.push(line);
        out.append(&mut rest);
        proof {
            assert(content@.skip(p + 1) =~= tail.skip(p + 1 - pos));
            assert(out@ =~= seq![out@[0]].add(rest0));
            assert(lines_of(tail) == seq![norm_line(tail.take(p - pos))].add(
                lines_of(tail.skip(p + 1 - pos)),
            ));
        }
        out
    } else {
        let mut out: Vec<String> = Vec::new();
        out.push(line);
        proof {
            assert(lines_of(tail) == seq![norm_line(tail)]);
        }
        out
    }
}

/// A text with no newline anywhere.
pub open spec fn newline_free(t: Seq<char>) -> bool {
    forall|i: int| 0 <= i < t.len() ==> t[i] != '\n' && t[i] != '\r'
}

/// Scanning past a newline-free prefix finds the newline right after it.
proof fn lemma_find_nl_prefix(t: Seq<char>, rest: Seq<char>)
    requires
        newline_free(t),
    ensures
        find_nl(t.push('\n').add(rest)) == t.len(),
    decreases t.len(),
{
    let s = t.push('\n').add(rest);
    if t.len() == 0 {
        assert(s[0] == '\n');
    } else {
        assert(s[0] == t[0]);
        assert(s[0] != '\n');
        assert(s.skip(1) =~= t.skip(1).push('\n').add(rest));
        assert(newline_free(t.skip(1))) by {
            assert forall|i: int| 0 <= i < t.skip(1).len() implies t.skip(1)[i] != '\n'
                && t.skip(1)[i] != '\r' by {
                assert(t.skip(1)[i] == t[i + 1]);
            }
        }
        lemma_find_nl_prefix(t.skip(1), rest);
    }
}

/// The concatenation of the given texts, each closed by a newline.
pub open spec fn join_lines(texts: Seq<Seq<char>>) -> Seq<char>
    decreases texts.len(),
{
    if texts.len() == 0 {
        Seq::empty()
    } else {
        texts[0].push('\n').add(join_lines(texts.skip(1)))
    }
}

/// Writing lines and reading them back reproduces them exactly: the
/// lines of the concatenation of newline-closed, newline-free texts are
/// those texts, each with its closing newline.
pub proof fn lemma_file_round_trip(texts: Seq<Seq<char>>)
    requires
        forall|i: int| 0 <= i < texts.len() ==> newline_free(#[trigger] texts[i]),
    ensures
        lines_of(join_lines(texts)) =~= Seq::new(
            texts.len(),
            |i: int| texts[i].push('\n'),
        ),
    decreases texts.len(),
{
    if texts.len() == 0 {
        assert(join_lines(texts).len() == 0);
    } else {
        let t = texts[0];
        let rest = join_lines(texts.skip(1));
        let s = join_lines(texts);
        assert(s == t.push('\n').add(rest));
        lemma_find_nl_prefix(t, rest);
        assert(s.len() == t.len() + 1 + rest.len());
        assert(find_nl(s) == t.len() as int && t.len() < s.len());
        assert(s.take(t.len() as int) =~= t);
        assert(s.skip(t.len() as int + 1) =~= rest);
        assert(norm_line(t) == t.push('\n')) by {
            if t.len() > 0 {
                assert(t.last() != '\r');
            }
        }
        assert forall|i: int| 0 <= i < texts.skip(1).len() implies newline_free(
            #[trigger] texts.skip(1)[i],
        ) by {
            assert(texts.skip(1)[i] == texts[i + 1]);
        }
        lemma_file_round_trip(texts.skip(1));
        assert(lines_of(s) == seq![norm_line(t)].add(lines_of(rest)));
    }
}

/// One pair of the enumeration: a Tuple holding the running index and the
/// element.
pub open spec fn enum_pair(env: Env, v: Value, idx: int, elem: Value) -> bool {
    &&& v is Tuple
    &&& (v->Tuple_0 as int) < env.tuples@.len()
    &&& env.tuples@[v->Tuple_0 as int].list@ =~= seq![
        Value::Number(NumericType::Integer(idx as i32)),
        elem,
    ]
}

/// Builds the enumeration pairs `(start + j, elems[j])` as fresh tuples
/// and wraps them in a fresh list.
fn build_enumeration(env: &mut Env, elems: Vec<Value>, start: i32) -> (r: Value)
    requires
        old(env).wf(),
        forall|i: int| 0 <= i < elems@.len() ==> (#[trigger] elems@[i]).wf(*old(env)),
        start + elems@.len() <= i32::MAX + 1,
    ensures
        final(env).wf(),
        r is List,
        (r->List_0 as int) == final(env).lists@.len() - 1,
        final(env).lists@.len() == old(env).lists@.len() + 1,
        forall|i: int|
            0 <= i < old(env).lists@.len() ==> final(env).lists@[i] == old(env).lists@[i],
        final(env).tuples@.len() >= old(env).tuples@.len(),
        forall|i: int|
            0 <= i < old(env).tuples@.len() ==> final(env).tuples@[i] == old(env).tuples@[i],
        ({
            let out = final(env).lists@[r->List_0 as int].list@;
            &&& out.len() == elems@.len()
            &&& forall|j: int|
                0 <= j < elems@.len() ==> enum_pair(
                    *final(env),
                    #[trigger] out[j],
                    start + j,
                    elems@[j],
                )
        }),
        final(env).classes == old(env).classes,
        final(env).objects == old(env).objects,
        final(env).frames == old(env).frames,
        final(env).files == old(env).files,
{
    let mut out: Vec<Value> = Vec::new();
    let mut j: usize = 0;
    while j < elems.len()
        invariant
            j <= elems@.len(),
            env.wf(),
            start + elems@.len() <= i32::MAX + 1,
            forall|i: int| 0 <= i < elems@.len() ==> (#[trigger] elems@[i]).wf(*env),
            out@.len() == j,
            forall|i: int|
                0 <= i < j ==> enum_pair(*env, #[trigger] out@[i], start + i, elems@[i]),
            forall|i: int| 0 <= i < j ==> (#[trigger] out@[i]).wf(*env),
            env.lists == old(env).lists,
            env.classes == old(env).classes,
            env.objects == old(env).objects,
            env.frames == old(env).frames,
            env.files == old(env).files,
            env.tuples@.len() >= old(env).tuples@.len(),
            forall|i: int|
                0 <= i < old(env).tuples@.len() ==> env.tuples@[i] == old(env).tuples@[i],
            crate::value::env_shape_le(*old(env), *env),
        decreases elems@.len() - j,
    {
        let idx: i32 = ((start as i64) + (j as i64)) as i32;
        let mut pair: Vec<Value> = Vec::new();
        pair.push(Value::Number(NumericType::Integer(idx)));
        pair.push(elems[j].clone());
        proof {
            assert(pair@ =~= seq![
                Value::Number(NumericType::Integer(idx)),
                elems@[j as int],
            ]);
        }
        let ghost pairv = pair@;
        let ghost before = *env;
        let tup = env.alloc_tuple(pair);
        proof {
            assert(env.tuples@[(tup->Tuple_0) as int].list@ == pairv);
            assert(idx as int == start + j);
            assert(pairv =~= seq![
                Value::Number(NumericType::Integer(((start + j) as int) as i32)),
                elems@[j as int],
            ]);
        }
        proof {
            assert forall|i: int|
                0 <= i < j implies enum_pair(*env, #[trigger] out@[i], start + i, elems@[i]) by {
                assert(enum_pair(before, out@[i], start + i, elems@[i]));
                assert((out@[i]->Tuple_0 as int) < before.tuples@.len());
                assert(env.tuples@[out@[i]->Tuple_0 as int] == before.tuples@[
                    out@[i]->Tuple_0 as int
                ]);
            }
            assert forall|i: int| 0 <= i < j implies (#[trigger] out@[i]).wf(*env) by {
                crate::value::lemma_value_wf_grow(out@[i], before, *env);
            }
            assert forall|i: int|
                0 <= i < elems@.len() implies (#[trigger] elems@[i]).wf(*env) by {
                crate::value::lemma_value_wf_grow(elems@[i], before, *env);
            }
            assert(enum_pair(*env, tup, start + j, elems@[j as int]));
        }
        out.push(tup);
        j = j + 1;
    }
    let ghost before_list = *env;
    let r = env.alloc_list(out);
    proof {
        assert forall|i: int|
            0 <= i < elems@.len() implies enum_pair(
            *env,
            #[trigger] env.lists@[r->List_0 as int].list@[i],
            start + i,
            elems@[i],
        ) by {
            assert(env.lists@[r->List_0 as int].list@[i] == out@[i]);
            assert(enum_pair(before_list, out@[i], start + i, elems@[i]));
        }
    }
    r
}

/// Enumerates an iterable: a List of `(index, element)` Tuples over a Str
/// by character, a List or Tuple by element, or an open readable file by
/// line with the newline preserved; the index starts at `start`, default
/// zero, and counts up by one.
/// The index enumeration starts from: the second argument, default zero.
pub open spec fn enum_start(params: Seq<Value>) -> int {
    if params.len() >= 2 {
        params[1]->Number_0->Integer_0 as int
    } else {
        0
    }
}

/// The inputs on which enumeration is owed to succeed: an iterable first
/// argument — a Str, List or Tuple whose element count fits the integer
/// width, or an open readable file with that many lines — an Integer (or
/// absent) start, and every running index within the integer width.
pub open spec fn enum_ok(env: Env, params: Seq<Value>) -> bool {
    &&& params.len() >= 1
    &&& (params.len() < 2 || params[1] matches Value::Number(NumericType::Integer(_)))
    &&& match params[0] {
        Value::Str(s) => s@.len() <= i32::MAX && enum_start(params) + s@.len() <= i32::MAX
            + 1,
        Value::List(id) => env.lists@[id as int].list@.len() <= i32::MAX && enum_start(
            params,
        ) + env.lists@[id as int].list@.len() <= i32::MAX + 1,
        Value::Tuple(id) => env.tuples@[id as int].list@.len() <= i32::MAX && enum_start(
            params,
        ) + env.tuples@[id as int].list@.len() <= i32::MAX + 1,
        Value::TextIOWrapper(IOWrapper::File(id)) => {
            let lines = lines_of(
                env.files@[id as int].content@.skip(env.files@[id as int].pos as int),
            );
            &&& !env.files@[id as int].closed
            &&& env.files@[id as int].readable
            &&& lines.len() <= i32::MAX
            &&& enum_start(params) + lines.len() <= i32::MAX + 1
        },
        _ => false,
    }
}

/// What enumeration does to the environment and returns: a fresh List of
/// `(index, element)` Tuples over the iterable, counting up from the
/// start, owed to succeed exactly on `enum_ok` inputs, with the error
/// taxonomy of the failing ones.
pub open spec fn enumerate_post(
    env0: Env,
    env1: Env,
    params: Seq<Value>,
    r: Result<Value, RuntimeError>,
) -> bool {
    &&& (env1.classes == env0.classes)
    &&& (env1.objects == env0.objects)
    &&& (env1.frames == env0.frames)
    &&& (env1.files@.len() == env0.files@.len())
    &&& (env1.tuples@.len() >= env0.tuples@.len())
    &&& (forall|i: int|
            0 <= i < env0.tuples@.len() ==> env1.tuples@[i] == env0.tuples@[i])
    &&& (r is Err ==> env1.lists == env0.lists && env1.tuples == env0.tuples)
    &&& (match r {
            Ok(v) => {
                &&& params.len() >= 1
                &&& v is List
                &&& (v->List_0 as int) == env1.lists@.len() - 1
                &&& env1.lists@.len() == env0.lists@.len() + 1
                &&& (forall|i: int|
                    0 <= i < env0.lists@.len() ==> env1.lists@[i] == env0.lists@[i])
                &&& ({
                    let out = env1.lists@[v->List_0 as int].list@;
                    let start = if params.len() >= 2 {
                        params[1]->Number_0->Integer_0 as int
                    } else {
                        0
                    };
                    match params[0] {
                        Value::Str(s) => out.len() == s@.len() && forall|j: int|
                            0 <= j < out.len() ==> enum_pair(
                                env1,
                                #[trigger] out[j],
                                start + j,
                                env1.tuples@[out[j]->Tuple_0 as int].list@[1],
                            ) && env1.tuples@[out[j]->Tuple_0 as int].list@[1] is Str
                                && env1.tuples@[out[j]->Tuple_0 as int].list@[1]
                                ->Str_0@ == seq![s@[j]],
                        Value::List(id) => out.len() == env0.lists@[id as int].list@.len()
                            && forall|j: int|
                            0 <= j < out.len() ==> enum_pair(
                                env1,
                                #[trigger] out[j],
                                start + j,
                                env0.lists@[id as int].list@[j],
                            ),
                        Value::Tuple(id) => out.len() == env0.tuples@[id as int].list@.len() && forall|j: int|
                            0 <= j < out.len() ==> enum_pair(
                                env1,
                                #[trigger] out[j],
                                start + j,
                                env0.tuples@[id as int].list@[j],
                            ),
                        Value::TextIOWrapper(IOWrapper::File(id)) => ({
                            let lines = lines_of(
                                env0.files@[id as int].content@.skip(
                                    env0.files@[id as int].pos as int,
                                ),
                            );
                            &&& out.len() == lines.len()
                            &&& (forall|j: int|
                                0 <= j < out.len() ==> enum_pair(
                                    env1,
                                    #[trigger] out[j],
                                    start + j,
                                    env1.tuples@[out[j]->Tuple_0 as int].list@[1],
                                ) && env1.tuples@[out[j]->Tuple_0 as int].list@[1]
                                    is Str && env1.tuples@[
                                    out[j]->Tuple_0 as int
                                ].list@[1]->Str_0@ == lines[j])
                            &&& env1.files@[id as int].pos
                                == env1.files@[id as int].content@.len()
                        }),
                        _ => false,
                    }
                })
            },
            Err(e) => {
                &&& (params.len() == 0 ==> e is ArityError)
                &&& (params.len() >= 2 && !(params[1] matches Value::Number(
                    NumericType::Integer(_),
                )) ==> e is TypeMismatch)
                &&& (params.len() >= 1 && (params.len() < 2 || params[1] matches
                    Value::Number(NumericType::Integer(_))) ==> match params[0] {
                    Value::TextIOWrapper(IOWrapper::File(id)) => (id < env0.files@.len()
                        && (env0.files@[id as int].closed || !env0.files@[id as int].readable) ==> e is IOError),
                    Value::Str(_) => e is ValueError,
                    Value::List(_) => e is ValueError,
                    Value::Tuple(_) => e is ValueError,
                    Value::TextIOWrapper(_) => e is TypeMismatch,
                    _ => e is TypeMismatch,
                })
            },
        })
    &&& (enum_ok(env0, params) <==> r is Ok)
}

/// Enumerates an iterable: a List of `(index, element)` Tuples over a
/// Str by character, a List or Tuple by element, or an open readable
/// file by line with the newline preserved; the index starts at `start`,
/// default zero, and counts up by one.
pub fn enumerate(env: &mut Env, params: Vec<Value>) -> (r: Result<Value, RuntimeError>)
    requires
        old(env).wf(),
        forall|i: int| 0 <= i < params@.len() ==> (#[trigger] params@[i]).wf(*old(env)),
    ensures
        final(env).wf(),
        enumerate_post(*old(env), *final(env), params@, r),
{
    if params.len() == 0 {
        return Err(RuntimeError::ArityError);
    }
    let start: i32 = if params.len() >= 2 {
        match &params[1] {
            Value::Number(NumericType::Integer(i)) => *i,
            _ => { return Err(RuntimeError::TypeMismatch) },
        }
    } else {
        0
    };
    match &params[0] {
        Value::Str(s) => {
            let n = s.as_str().unicode_len();
            if n > 0x7fff_ffff {
                return Err(RuntimeError::ValueError);
            }
            if start as i64 + n as i64 > i32::MAX as i64 + 1 {
                return Err(RuntimeError::ValueError);
            }
            let mut elems: Vec<Value> = Vec::new();
            let mut i: usize = 0;
            while i < n
                invariant
                    i <= n,
                    n == s@.len(),
                    elems@.len() == i,
                    forall|j: int|
                        0 <= j < i ==> (#[trigger] elems@[j]) is Str && elems@[j]->Str_0@
                            == seq![s@[j]],
                decreases n - i,
            {
                let mut one = String::new();
                push_char(&mut one, s.as_str().get_char(i));
                proof {
                    assert(one@ =~= seq![s@[i as int]]);
                }
                elems.push(Value::Str(one));
                i = i + 1;
            }
            proof {
                assert forall|j: int|
                    0 <= j < elems@.len() implies (#[trigger] elems@[j]).wf(*env) by {}
            }
            Ok(build_enumeration(env, elems, start))
        },
        Value::List(id) => {
            let elems = env.lists[*id].clone_seq();
            if elems.len() > 0x7fff_ffff {
                return Err(RuntimeError::ValueError);
            }
            if start as i64 + elems.len() as i64 > i32::MAX as i64 + 1 {
                return Err(RuntimeError::ValueError);
            }
            proof {
                assert forall|j: int|
                    0 <= j < elems@.len() implies (#[trigger] elems@[j]).wf(*env) by {
                    assert(elems@[j] == env.lists@[*id as int].list@[j]);
                }
            }
            Ok(build_enumeration(env, elems, start))
        },
        Value::Tuple(id) => {
            let elems = env.tuples[*id].clone_seq();
            if elems.len() > 0x7fff_ffff {
                return Err(RuntimeError::ValueError);
            }
            if start as i64 + elems.len() as i64 > i32::MAX as i64 + 1 {
                return Err(RuntimeError::ValueError);
            }
            proof {
                assert forall|j: int|
                    0 <= j < elems@.len() implies (#[trigger] elems@[j]).wf(*env) by {
                    assert(elems@[j] == env.tuples@[*id as int].list@[j]);
                }
            }
            Ok(build_enumeration(env, elems, start))
        },
        Value::TextIOWrapper(IOWrapper::File(id)) => {
            if env.files[*id].closed || !env.files[*id].readable {
                return Err(RuntimeError::IOError);
            }
            let pos = env.files[*id].pos;
            let lines = split_lines(env.files[*id].content.as_str(), pos);
            let endpos = env.files[*id].content.as_str().unicode_len();
            let ghost before = *env;
            let fs = &mut env.files[*id];
            fs.pos = endpos;
            proof {
                assert(crate::value::env_shape_le(before, *env));
                assert(crate::value::all_stored_wf(*env, before));
                crate::value::lemma_env_wf_from(before, *env);
            }
            let mut elems: Vec<Value> = Vec::new();
            let mut i: usize = 0;
            while i < lines.len()
                invariant
                    i <= lines@.len(),
                    elems@.len() == i,
                    forall|j: int|
                        0 <= j < i ==> (#[trigger] elems@[j]) is Str && elems@[j]->Str_0@
                            == lines@[j]@,
                decreases lines@.len() - i,
            {
                elems.push(Value::Str(lines[i].clone()));
                i = i + 1;
            }
            if elems.len() > 0x7fff_ffff {
                return Err(RuntimeError::ValueError);
            }
            if start as i64 + elems.len() as i64 > i32::MAX as i64 + 1 {
                return Err(RuntimeError::ValueError);
            }
            proof {
                assert forall|j: int|
                    0 <= j < elems@.len() implies (#[trigger] elems@[j]).wf(*env) by {}
            }
            Ok(build_enumeration(env, elems, start))
        },
        _ => Err(RuntimeError::TypeMismatch),
    }
}

/// The built-in function values, in the order `get_mapping` assigns their
/// names.
pub fn get_scope() -> (r: Vec<Value>)
    ensures
        r@ == seq![
            Value::Function(FuncRef::Builtin(Builtin::Print)),
            Value::Function(FuncRef::Builtin(Builtin::Str)),
            Value::Function(FuncRef::Builtin(Builtin::Len)),
            Value::Function(FuncRef::Builtin(Builtin::Min)),
            Value::Function(FuncRef::Builtin(Builtin::Int)),
            Value::Function(FuncRef::Builtin(Builtin::Float)),
            Value::Function(FuncRef::Builtin(Builtin::Enumerate)),
            Value::Function(FuncRef::Builtin(Builtin::Open)),
        ],
{
    let mut vec: Vec<Value> = Vec::new();
    vec.push(Value::Function(FuncRef::Builtin(Builtin::Print)));
    vec.push(Value::Function(FuncRef::Builtin(Builtin::Str)));
    vec.push(Value::Function(FuncRef::Builtin(Builtin::Len)));
    vec.push(Value::Function(FuncRef::Builtin(Builtin::Min)));
    vec.push(Value::Function(FuncRef::Builtin(Builtin::Int)));
    vec.push(Value::Function(FuncRef::Builtin(Builtin::Float)));
    vec.push(Value::Function(FuncRef::Builtin(Builtin::Enumerate)));
    vec.push(Value::Function(FuncRef::Builtin(Builtin::Open)));
    proof {
        assert(vec@ =~= seq![
            Value::Function(FuncRef::Builtin(Builtin::Print)),
            Value::Function(FuncRef::Builtin(Builtin::Str)),
            Value::Function(FuncRef::Builtin(Builtin::Len)),
            Value::Function(FuncRef::Builtin(Builtin::Min)),
            Value::Function(FuncRef::Builtin(Builtin::Int)),
            Value::Function(FuncRef::Builtin(Builtin::Float)),
            Value::Function(FuncRef::Builtin(Builtin::Enumerate)),
            Value::Function(FuncRef::Builtin(Builtin::Open)),
        ]);
    }
    vec
}

/// Runs one builtin on the given arguments.  The value-producing builtins
/// finish as `Done`; printing finishes with a write for the host to
/// mirror; opening, square roots and exit surface as pending host
/// requests.
pub fn call_builtin(
    env: &mut Env,
    b: Builtin,
    args: Vec<Value>,
    kwargs: Vec<(String, Value)>,
) -> (r: Result<Outcome, RuntimeError>)
    requires
        old(env).wf(),
        forall|i: int| 0 <= i < args@.len() ==> (#[trigger] args@[i]).wf(*old(env)),
        forall|i: int| 0 <= i < kwargs@.len() ==> (#[trigger] kwargs@[i]).1.wf(*old(env)),
    ensures
        final(env).wf(),
        crate::value::env_shape_le(*old(env), *final(env)),
        b is Print ==> print_post(*old(env), *final(env), args@, kwargs@, r),
        b is Str ==> *final(env) == *old(env) && (match r {
            Ok(o) => o is Done && py_str_post(*old(env), args@, Ok(o->Done_0)),
            Err(e) => py_str_post(*old(env), args@, Err(e)),
        }),
        b is Len ==> *final(env) == *old(env) && (match r {
            Ok(o) => o is Done && len_post(*old(env), args@, Ok(o->Done_0)),
            Err(e) => len_post(*old(env), args@, Err(e)),
        }),
        b is Min ==> *final(env) == *old(env) && (match r {
            Ok(o) => o is Done && min_post(*old(env), args@, Ok(o->Done_0)),
            Err(e) => min_post(*old(env), args@, Err(e)),
        }),
        b is Int ==> *final(env) == *old(env) && (match r {
            Ok(o) => o is Done && int_post(args@, Ok(o->Done_0)),
            Err(e) => int_post(args@, Err(e)),
        }),
        b is Float ==> *final(env) == *old(env) && (match r {
            Ok(o) => o is Done && float_post(args@, Ok(o->Done_0)),
            Err(e) => float_post(args@, Err(e)),
        }),
        b is Enumerate ==> match r {
            Ok(o) => o is Done && enumerate_post(
                *old(env),
                *final(env),
                args@,
                Ok(o->Done_0),
            ),
            Err(e) => enumerate_post(*old(env), *final(env), args@, Err(e)),
        },
        b is Open ==> *final(env) == *old(env) && open_post(args@, r),
        b is Sqrt ==> *final(env) == *old(env) && crate::builtin::math::sqrt_post(args@, r),
        b is Exit ==> *final(env) == *old(env) && crate::builtin::sys::exit_post(args@, r),
        match r {
            Ok(o) => match o {
                Outcome::Done(v) => v.wf(*final(env)),
                Outcome::Effect(v, _) => v.wf(*final(env)),
                _ => true,
            },
            Err(_) => true,
        },
{
    match b {
        Builtin::Print => print(env, args, kwargs),
        Builtin::Str => match py_str(env, args) {
            Ok(v) => Ok(Outcome::Done(v)),
            Err(e) => Err(e),
        },
        Builtin::Len => match len(env, args) {
            Ok(v) => Ok(Outcome::Done(v)),
            Err(e) => Err(e),
        },
        Builtin::Min => {
            match min(env, args) {
                Ok(v) => {
                    proof {
                        lemma_min_result_wf(*env, args@, v);
                    }
                    Ok(Outcome::Done(v))
                },
                Err(e) => Err(e),
            }
        },
        Builtin::Int => match py_int(args) {
            Ok(v) => Ok(Outcome::Done(v)),
            Err(e) => Err(e),
        },
        Builtin::Float => match float(args) {
            Ok(v) => Ok(Outcome::Done(v)),
            Err(e) => Err(e),
        },
        Builtin::Enumerate => match enumerate(env, args) {
            Ok(v) => Ok(Outcome::Done(v)),
            Err(e) => Err(e),
        },
        Builtin::Open => open(args),
        Builtin::Sqrt => crate::builtin::math::sqrt(args),
        Builtin::Exit => crate::builtin::sys::py_exit(args),
    }
}

/// The result of a minimum reduction is one of the scanned values, so it
/// stays well-formed.
proof fn lemma_min_scan_wf(s: Seq<Value>, acc: Value, env: Env, r: Value)
    requires
        crate::list_type::min_scan(s, acc) == Ok::<Value, RuntimeError>(r),
        forall|i: int| 0 <= i < s.len() ==> (#[trigger] s[i]).wf(env),
        acc.wf(env),
    ensures
        r.wf(env),
    decreases s.len(),
{
    if s.len() > 0 {
        if !crate::value::ord_defined(s[0], acc) {
        } else if crate::value::lt_spec(s[0], acc) {
            assert forall|i: int| 0 <= i < s.skip(1).len() implies (#[trigger] s.skip(1)[i]).wf(
                env,
            ) by {
                assert(s.skip(1)[i] == s[i + 1]);
            }
            lemma_min_scan_wf(s.skip(1), s[0], env, r);
        } else {
            assert forall|i: int| 0 <= i < s.skip(1).len() implies (#[trigger] s.skip(1)[i]).wf(
                env,
            ) by {
                assert(s.skip(1)[i] == s[i + 1]);
            }
            lemma_min_scan_wf(s.skip(1), acc, env, r);
        }
    }
}

/// Whatever `min` returns is well-formed against the environment.
proof fn lemma_min_result_wf(env: Env, params: Seq<Value>, v: Value)
    requires
        env.wf(),
        forall|i: int| 0 <= i < params.len() ==> (#[trigger] params[i]).wf(env),
        params.len() >= 1,
        ({
            ||| (params.len() == 1 && match params[0] {
                Value::Str(s) => s@.len() > 0 && v is Str,
                Value::List(id) => {
                    let xs = env.lists@[id as int].list@;
                    xs.len() > 0 && crate::list_type::min_scan(xs.skip(1), xs[0])
                        == Ok::<Value, RuntimeError>(v)
                },
                Value::Tuple(id) => {
                    let xs = env.tuples@[id as int].list@;
                    xs.len() > 0 && crate::list_type::min_scan(xs.skip(1), xs[0])
                        == Ok::<Value, RuntimeError>(v)
                },
                _ => false,
            })
            ||| (params.len() >= 2 && crate::list_type::min_scan(params.skip(1), params[0])
                == Ok::<Value, RuntimeError>(v))
        }),
    ensures
        v.wf(env),
{
    if params.len() == 1 {
        match params[0] {
            Value::Str(_) => {},
            Value::List(id) => {
                let xs = env.lists@[id as int].list@;
                assert forall|i: int| 0 <= i < xs.skip(1).len() implies (
                #[trigger] xs.skip(1)[i]).wf(env) by {
                    assert(xs.skip(1)[i] == xs[i + 1]);
                }
                lemma_min_scan_wf(xs.skip(1), xs[0], env, v);
            },
            Value::Tuple(id) => {
                let xs = env.tuples@[id as int].list@;
                assert forall|i: int| 0 <= i < xs.skip(1).len() implies (
                #[trigger] xs.skip(1)[i]).wf(env) by {
                    assert(xs.skip(1)[i] == xs[i + 1]);
                }
                lemma_min_scan_wf(xs.skip(1), xs[0], env, v);
            },
            _ => {},
        }
    } else {
        assert forall|i: int| 0 <= i < params.skip(1).len() implies (
        #[trigger] params.skip(1)[i]).wf(env) by {
            assert(params.skip(1)[i] == params[i + 1]);
        }
        lemma_min_scan_wf(params.skip(1), params[0], env, v);
    }
}

/// The builtin name table: each name with its index into `get_scope`'s
/// order, none carrying an alias.
pub fn get_mapping() -> (r: Vec<(String, (usize, Option<String>))>)
    ensures
        r@.len() == 8,
        r@[0].0@ == "print"@ && r@[0].1 == (0usize, Option::<String>::None),
        r@[1].0@ == "str"@ && r@[1].1 == (1usize, Option::<String>::None),
        r@[2].0@ == "len"@ && r@[2].1 == (2usize, Option::<String>::None),
        r@[3].0@ == "min"@ && r@[3].1 == (3usize, Option::<String>::None),
        r@[4].0@ == "int"@ && r@[4].1 == (4usize, Option::<String>::None),
        r@[5].0@ == "float"@ && r@[5].1 == (5usize, Option::<String>::None),
        r@[6].0@ == "enumerate"@ && r@[6].1 == (6usize, Option::<String>::None),
        r@[7].0@ == "open"@ && r@[7].1 == (7usize, Option::<String>::None),
{
    let mut map: Vec<(String, (usize, Option<String>))> = Vec::new();
    map.push((String::from_str("print"), (0, None)));
    map.push((String::from_str("str"), (1, None)));
    map.push((String::from_str("len"), (2, None)));
    map.push((String::from_str("min"), (3, None)));
    map.push((String::from_str("int"), (4, None)));
    map.push((String::from_str("float"), (5, None)));
    map.push((String::from_str("enumerate"), (6, None)));
    map.push((String::from_str("open"), (7, None)));
    map
}

} // verus!
