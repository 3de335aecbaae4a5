//! The shared mutable list body: indexing, stepped slicing, scanning
//! reductions and mutation, together with the index arithmetic slicing
//! uses.

use vstd::prelude::*;

use crate::error::RuntimeError;
use crate::numeric_type::NumericType;
use crate::value::Env;
use crate::value::Value;
use crate::value::eq_defined;
use crate::value::eq_spec;
use crate::value::lt_spec;
use crate::value::ord_defined;
use crate::value::str_eq;
use crate::value::env_shape_le;
use crate::value::lemma_value_wf_grow;

verus! {

/// The backing storage of a list value.  Every `Value::List` handle that
/// names the same environment slot shares one of these.
#[derive(Debug)]
pub struct ListType {
    pub list: Vec<Value>,
}

/// Clamps a slice bound into `[lower, upper]`, counting a negative index
/// from the upper end.
pub fn calculate_slice(index: i32, lower: i32, upper: i32) -> (r: i32)
    requires
        0 <= upper,
        -1 <= lower <= 0,
    ensures
        r == clamp_index(index as int, lower as int, upper as int),
        lower <= r <= upper,
{
    if index < 0 {
        let mag: i64 = -(index as i64);
        if mag >= upper as i64 {
            lower
        } else {
            upper - (mag as i32)
        }
    } else {
        if index >= upper {
            upper
        } else {
            index
        }
    }
}

/// What `calculate_slice` computes: a negative index counts from `upper`,
/// and everything is clamped into `[lower, upper]`.
pub open spec fn clamp_index(index: int, lower: int, upper: int) -> int {
    if index < 0 {
        if -index >= upper {
            lower
        } else {
            upper + index
        }
    } else {
        if index >= upper {
            upper
        } else {
            index
        }
    }
}

/// Every `step`-th element of `s`, starting at its first element.
pub open spec fn stride<A>(s: Seq<A>, step: int) -> Seq<A>
    recommends
        step >= 1,
{
    Seq::new(((s.len() + step - 1) / step) as nat, |i: int| s[i * step])
}

/// A slice bound as handed in by the client: an Integer is an index, the
/// null value or an omitted argument means the default.
pub open spec fn bound_valid(v: Option<Value>) -> bool {
    match v {
        Some(Value::Number(NumericType::Integer(_))) => true,
        Some(Value::PyNone) => true,
        None => true,
        _ => false,
    }
}

/// The index a slice bound carries, if one was given.
pub open spec fn bound_index(v: Option<Value>) -> Option<int> {
    match v {
        Some(Value::Number(NumericType::Integer(i))) => Some(i as int),
        _ => None,
    }
}

/// Whether a slice step argument is acceptable: an Integer, the null
/// value, or omitted; zero is rejected separately.
pub open spec fn step_valid(v: Option<Value>) -> bool {
    bound_valid(v)
}

/// The step a slice argument carries; the default is one.
pub open spec fn step_of(v: Option<Value>) -> int {
    match bound_index(v) {
        Some(s) => s,
        None => 1,
    }
}

/// The element sequence a slice selects.  With a positive step the bounds
/// clamp into `[0, len]` and every `step`-th element of the bounded range
/// is kept.  With a negative step the walk runs from the exclusive upper
/// bound down to the inclusive lower bound in magnitudes of the step,
/// producing the reversed order.
pub open spec fn spec_slice(s: Seq<Value>, lower: Option<int>, upper: Option<int>, step: int) -> Seq<
    Value,
> {
    let len = s.len() as int;
    if step > 0 {
        let lo = match lower {
            Some(l) => clamp_index(l, 0, len),
            None => 0,
        };
        let hi = match upper {
            Some(u) => clamp_index(u, 0, len),
            None => len,
        };
        if lo >= hi {
            Seq::empty()
        } else {
            stride(s.subrange(lo, hi), step)
        }
    } else {
        let lo = match lower {
            Some(l) => clamp_index(l, 0, len),
            None => len,
        };
        let hi = match upper {
            Some(u) => clamp_index(u, -1, len),
            None => -1,
        };
        if lo > hi {
            let start = hi + 1;
            let end = if lo == len {
                len
            } else {
                lo + 1
            };
            stride(s.subrange(start, end).reverse(), -step)
        } else {
            Seq::empty()
        }
    }
}

/// Builds the slice of `s` selected by clamped bounds `start <= end` taken
/// in reverse order with step magnitude `k`.
pub(crate) fn take_reversed(s: &Vec<Value>, start: usize, end: usize, k: usize) -> (r: Vec<Value>)
    requires
        start < end <= s@.len(),
        k >= 1,
    ensures
        r@ == stride(s@.subrange(start as int, end as int).reverse(), k as int),
        forall|j: int| 0 <= j < r@.len() ==> s@.contains(#[trigger] r@[j]),
{
    let ghost sub = s@.subrange(start as int, end as int).reverse();
    let ghost m: int = (sub.len() + k - 1) as int / k as int;
    let mut out: Vec<Value> = Vec::new();
    let mut i: usize = 0;
    proof {
        assert(sub.len() == end - start);
        assert(m * k >= sub.len() && (m - 1) * k < sub.len() && m >= 1) by (nonlinear_arith)
            requires
                m == (sub.len() + k - 1) as int / k as int,
                k >= 1,
                sub.len() >= 1;
        assert(m == (sub.len() - 1) as int / k as int + 1) by (nonlinear_arith)
            requires
                m == (sub.len() + k - 1) as int / k as int,
                k >= 1,
                sub.len() >= 1;
    }
    while i < (end - start - 1) / k + 1
        invariant
            0 <= i <= m,
            m == (sub.len() + k - 1) as int / k as int,
            m == (sub.len() - 1) as int / k as int + 1,
            sub == s@.subrange(start as int, end as int).reverse(),
            sub.len() == end - start,
            start < end <= s@.len(),
            k >= 1,
            m * k >= sub.len(),
            (m - 1) * k < sub.len(),
            out@ == stride(sub, k as int).subrange(0, i as int),
            forall|j: int| 0 <= j < out@.len() ==> s@.contains(#[trigger] out@[j]),
        decreases m - i,
    {
        proof {
            assert(i * k <= (m - 1) * k) by (nonlinear_arith)
                requires i <= m - 1 && k >= 1;
            assert(sub[i as int * k as int] == s@[end - 1 - i * k]);
        }
        out.push(s[end - 1 - i * k].clone());
        proof {
            assert(out@ =~= stride(sub, k as int).subrange(0, i + 1));
            assert forall|j: int| 0 <= j < out@.len() implies s@.contains(
                #[trigger] out@[j]) by {
                if j == out@.len() - 1 {
                    assert(out@[j] == s@[end - 1 - i * k]);
                }
            }
        }
        i = i + 1;
    }
    proof {
        assert(out@ =~= stride(sub, k as int));
    }
    out
}

/// Builds the slice of `s` selected by clamped bounds `start <= end` in
/// forward order with step `k`.
pub(crate) fn take_forward(s: &Vec<Value>, start: usize, end: usize, k: usize) -> (r: Vec<Value>)
    requires
        start < end <= s@.len(),
        k >= 1,
    ensures
        r@ == stride(s@.subrange(start as int, end as int), k as int),
        forall|j: int| 0 <= j < r@.len() ==> s@.contains(#[trigger] r@[j]),
{
    let ghost sub = s@.subrange(start as int, end as int);
    let ghost m: int = (sub.len() + k - 1) as int / k as int;
    let mut out: Vec<Value> = Vec::new();
    let mut i: usize = 0;
    proof {
        assert(sub.len() == end - start);
        assert(m * k >= sub.len() && (m - 1) * k < sub.len() && m >= 1) by (nonlinear_arith)
            requires
                m == (sub.len() + k - 1) as int / k as int,
                k >= 1,
                sub.len() >= 1;
        assert(m == (sub.len() - 1) as int / k as int + 1) by (nonlinear_arith)
            requires
                m == (sub.len() + k - 1) as int / k as int,
                k >= 1,
                sub.len() >= 1;
    }
    while i < (end - start - 1) / k + 1
        invariant
            0 <= i <= m,
            m == (sub.len() + k - 1) as int / k as int,
            m == (sub.len() - 1) as int / k as int + 1,
            sub == s@.subrange(start as int, end as int),
            sub.len() == end - start,
            start < end <= s@.len(),
            k >= 1,
            m * k >= sub.len(),
            (m - 1) * k < sub.len(),
            out@ == stride(sub, k as int).subrange(0, i as int),
            forall|j: int| 0 <= j < out@.len() ==> s@.contains(#[trigger] out@[j]),
        decreases m - i,
    {
        proof {
            assert(i * k <= (m - 1) * k) by (nonlinear_arith)
                requires i <= m - 1 && k >= 1;
            assert(sub[i as int * k as int] == s@[start + i * k]);
        }
        out.push(s[start + i * k].clone());
        proof {
            assert(out@ =~= stride(sub, k as int).subrange(0, i + 1));
            assert forall|j: int| 0 <= j < out@.len() implies s@.contains(
                #[trigger] out@[j]) by {
                if j == out@.len() - 1 {
                    assert(out@[j] == s@[start + i * k]);
                }
            }
        }
        i = i + 1;
    }
    proof {
        assert(out@ =~= stride(sub, k as int));
    }
    out
}

impl ListType {
    /// Wraps an element sequence as a list body.
    pub fn new(list: Vec<Value>) -> (r: ListType)
        ensures
            r.list == list,
    {
        ListType { list }
    }

    /// Float payloads held anywhere in the list are canonical.
    pub open spec fn nums_wf(self) -> bool {
        forall|i: int| 0 <= i < self.list@.len() ==> (#[trigger] self.list@[i]).num_wf()
    }

    /// A list is truthy exactly when it is not empty.
    pub fn to_bool(&self) -> (r: bool)
        ensures
            r == (self.list@.len() != 0),
    {
        self.list.len() != 0
    }

    /// The element a (possibly negative) integer index selects: a negative
    /// index counts from the end, and a magnitude at or past the length is
    /// an index error; any other index variant is a type error.
    pub fn index(&self, index: Value) -> (r: Result<Value, RuntimeError>)
        requires
            self.list@.len() <= i32::MAX,
        ensures
            match index {
                Value::Number(NumericType::Integer(p)) => {
                    if -(self.list@.len() as int) < p < self.list@.len() {
                        r == Ok::<Value, RuntimeError>(
                            self.list@[
                                if p < 0 {
                                    self.list@.len() + p
                                } else {
                                    p as int
                                }
                            ],
                        )
                    } else {
                        r == Err::<Value, RuntimeError>(RuntimeError::IndexError)
                    }
                },
                _ => r == Err::<Value, RuntimeError>(RuntimeError::TypeMismatch),
            },
    {
        let pos: i32 = match index {
            Value::Number(NumericType::Integer(p)) => p,
            _ => { return Err(RuntimeError::TypeMismatch) },
        };
        let mag: i64 = if pos < 0 { -(pos as i64) } else { pos as i64 };
        if mag >= self.list.len() as i64 {
            return Err(RuntimeError::IndexError);
        }
        let at: usize = if pos < 0 {
            self.list.len() - (mag as usize)
        } else {
            pos as usize
        };
        Ok(self.list[at].clone())
    }

    /// Whether the list holds an element equal to `value`, scanning from
    /// the front with variant-aware equality; the scan stops at the first
    /// match or the first undefined comparison.
    pub fn contains(&self, value: &Value) -> (r: Result<bool, RuntimeError>)
        requires
            self.nums_wf(),
            value.num_wf(),
        ensures
            r == contains_scan(self.list@, *value),
    {
        let mut i: usize = 0;
        proof {
            assert(self.list@.skip(0) =~= self.list@);
        }
        while i < self.list.len()
            invariant
                i <= self.list@.len(),
                self.nums_wf(),
                value.num_wf(),
                contains_scan(self.list@, *value) == contains_scan(
                    self.list@.skip(i as int),
                    *value,
                ),
            decreases self.list@.len() - i,
        {
            proof {
                assert(self.list@.skip(i as int)[0] == self.list@[i as int]);
                assert(self.list@.skip(i as int).skip(1) =~= self.list@.skip(i + 1));
            }
            match self.list[i].eq(value) {
                Ok(true) => { return Ok(true) },
                Ok(false) => {},
                Err(e) => { return Err(e) },
            }
            i = i + 1;
        }
        Ok(false)
    }

    /// The length, as an Integer value.
    pub fn len(&self) -> (r: Value)
        requires
            self.list@.len() <= i32::MAX,
        ensures
            r == Value::Number(NumericType::Integer(self.list@.len() as i32)),
    {
        Value::Number(NumericType::Integer(self.list.len() as i32))
    }

    /// The minimum element under pairwise ordering, keeping the earliest of
    /// equals; an empty list is a value error, and an undefined comparison
    /// along the scan is a type error.
    pub fn min(&self) -> (r: Result<Value, RuntimeError>)
        requires
            self.nums_wf(),
        ensures
            self.list@.len() == 0 ==> r == Err::<Value, RuntimeError>(RuntimeError::ValueError),
            self.list@.len() > 0 ==> r == min_scan(self.list@.skip(1), self.list@[0]),
    {
        min_values(&self.list)
    }

    /// The stepped slice, as a fresh list allocated in the environment.
    /// Bounds clamp; a zero step is a value error; a bound of any other
    /// variant is a type error; on error the environment is unchanged.
    pub fn slice(
        &self,
        env: &mut Env,
        lower: Option<Value>,
        upper: Option<Value>,
        step: Option<Value>,
    ) -> (r: Result<Value, RuntimeError>)
        requires
            self.list@.len() <= i32::MAX,
            old(env).wf(),
            forall|i: int|
                0 <= i < self.list@.len() ==> (#[trigger] self.list@[i]).wf(*old(env)),
        ensures
            final(env).wf(),
            match r {
                Ok(v) => {
                    &&& bound_valid(lower) && bound_valid(upper) && step_valid(step)
                    &&& step_of(step) != 0
                    &&& v is List && (v->List_0 as int) == old(env).lists@.len() as int
                    &&& final(env).lists@.len() == old(env).lists@.len() + 1
                    &&& (forall|i: int|
                        0 <= i < old(env).lists@.len() ==> final(env).lists@[i] == old(
                            env,
                        ).lists@[i])
                    &&& final(env).lists@[old(env).lists@.len() as int].list@ == spec_slice(
                        self.list@,
                        bound_index(lower),
                        bound_index(upper),
                        step_of(step),
                    )
                    &&& final(env).tuples == old(env).tuples
                    &&& final(env).classes == old(env).classes
                    &&& final(env).objects == old(env).objects
                    &&& final(env).frames == old(env).frames
                    &&& final(env).files == old(env).files
                },
                Err(e) => {
                    &&& *final(env) == *old(env)
                    &&& e == (if step_valid(step) && step_of(step) == 0 {
                        RuntimeError::ValueError
                    } else {
                        RuntimeError::TypeMismatch
                    })
                },
            },
            (bound_valid(lower) && bound_valid(upper) && step_valid(step) && step_of(step) != 0)
                <==> r is Ok,
    {
        let out = match slice_elems(&self.list, lower, upper, step) {
            Ok(out) => out,
            Err(e) => { return Err(e) },
        };
        proof {
            assert forall|j: int| 0 <= j < out@.len() implies (#[trigger] out@[j]).wf(
                *old(env),
            ) by {
                assert(self.list@.contains(out@[j]));
                let t = choose|t: int| 0 <= t < self.list@.len() && self.list@[t] == out@[j];
            }
        }
        Ok(env.alloc_list(out))
    }

    /// A copy of the element sequence.
    pub fn clone_seq(&self) -> (r: Vec<Value>)
        ensures
            r@ == self.list@,
    {
        crate::value::clone_values(&self.list)
    }

    /// Element-wise equality of two list bodies under variant-aware value
    /// equality; a pair the value model cannot compare is a type error.
    pub fn eq(&self, other: &ListType) -> (r: Result<bool, RuntimeError>)
        requires
            self.nums_wf(),
            other.nums_wf(),
        ensures
            r == list_eq_scan(self.list@, other.list@),
    {
        if self.list.len() != other.list.len() {
            return Ok(false);
        }
        let mut i: usize = 0;
        proof {
            assert(self.list@.skip(0) =~= self.list@);
            assert(other.list@.skip(0) =~= other.list@);
        }
        while i < self.list.len()
            invariant
                i <= self.list@.len(),
                self.list@.len() == other.list@.len(),
                self.nums_wf(),
                other.nums_wf(),
                list_eq_scan(self.list@, other.list@) == list_eq_scan(
                    self.list@.skip(i as int),
                    other.list@.skip(i as int),
                ),
            decreases self.list@.len() - i,
        {
            proof {
                assert(self.list@.skip(i as int)[0] == self.list@[i as int]);
                assert(other.list@.skip(i as int)[0] == other.list@[i as int]);
                assert(self.list@.skip(i as int).skip(1) =~= self.list@.skip(i + 1));
                assert(other.list@.skip(i as int).skip(1) =~= other.list@.skip(i + 1));
            }
            match self.list[i].eq(&other.list[i]) {
                Ok(true) => {},
                Ok(false) => { return Ok(false) },
                Err(e) => { return Err(e) },
            }
            i = i + 1;
        }
        Ok(true)
    }

    /// The negation of element-wise equality, over the same comparable
    /// pairs.
    pub fn ne(&self, other: &ListType) -> (r: Result<bool, RuntimeError>)
        requires
            self.nums_wf(),
            other.nums_wf(),
        ensures
            r == match list_eq_scan(self.list@, other.list@) {
                Ok(b) => Ok::<bool, RuntimeError>(!b),
                Err(e) => Err::<bool, RuntimeError>(e),
            },
    {
        match self.eq(other) {
            Ok(b) => Ok(!b),
            Err(e) => Err(e),
        }
    }

    /// Appends the single given argument; any other argument count is an
    /// arity error.
    pub fn append(&mut self, args: Vec<Value>) -> (r: Result<Value, RuntimeError>)
        ensures
            if args@.len() == 1 {
                r == Ok::<Value, RuntimeError>(Value::PyNone) && final(self).list@ == old(
                    self,
                ).list@.push(args@[0])
            } else {
                r == Err::<Value, RuntimeError>(RuntimeError::ArityError) && *final(self)
                    == *old(self)
            },
    {
        if args.len() != 1 {
            return Err(RuntimeError::ArityError);
        }
        let mut args = args;
        match args.pop() {
            Some(v) => {
                self.list.push(v);
                Ok(Value::PyNone)
            },
            None => Err(RuntimeError::ArityError),
        }
    }

    /// Dispatches a method call on the list: `append` is the method set;
    /// an unknown attribute is an attribute error.
    pub fn call(&mut self, attr: &str, args: Vec<Value>) -> (r: Result<Value, RuntimeError>)
        ensures
            if attr@ == "append"@ {
                if args@.len() == 1 {
                    r == Ok::<Value, RuntimeError>(Value::PyNone) && final(self).list@ == old(
                        self,
                    ).list@.push(args@[0])
                } else {
                    r == Err::<Value, RuntimeError>(RuntimeError::ArityError) && *final(self)
                        == *old(self)
                }
            } else {
                (match r {
                    Err(e) => e is AttributeError && e->AttributeError_0@ == attr@,
                    Ok(_) => false,
                }) && *final(self) == *old(self)
            },
    {
        if str_eq(attr, "append") {
            self.append(args)
        } else {
            Err(RuntimeError::AttributeError(attr.to_owned()))
        }
    }
}

/// A slice over the whole sequence with step minus one selects exactly the
/// reversed sequence.
pub proof fn lemma_slice_reverse(s: Seq<Value>)
    ensures
        spec_slice(s, None, None, -1) == s.reverse(),
{
    let len = s.len() as int;
    assert(s.subrange(0, len) =~= s);
    let rev = s.subrange(0, len).reverse();
    assert(stride(rev, 1) =~= s.reverse());
}

/// The length of a slice follows the clamped stepped-range rule: with the
/// bounds normalized, the count is the range width divided by the step
/// magnitude, rounded up, and zero for an empty range.
pub proof fn lemma_slice_len(s: Seq<Value>, lower: Option<int>, upper: Option<int>, step: int)
    requires
        step != 0,
    ensures
        step > 0 ==> spec_slice(s, lower, upper, step).len() == ({
            let len = s.len() as int;
            let lo = match lower {
                Some(l) => clamp_index(l, 0, len),
                None => 0,
            };
            let hi = match upper {
                Some(u) => clamp_index(u, 0, len),
                None => len,
            };
            if lo >= hi {
                0
            } else {
                (hi - lo + step - 1) / step
            }
        }),
        step < 0 ==> spec_slice(s, lower, upper, step).len() == ({
            let len = s.len() as int;
            let lo = match lower {
                Some(l) => clamp_index(l, 0, len),
                None => len,
            };
            let hi = match upper {
                Some(u) => clamp_index(u, -1, len),
                None => -1,
            };
            if lo > hi {
                let start = hi + 1;
                let end = if lo == len {
                    len
                } else {
                    lo + 1
                };
                (end - start + (-step) - 1) / (-step)
            } else {
                0
            }
        }),
{
}

/// The outcome of comparing two value sequences element by element:
/// false on a length mismatch or the first unequal pair, a type error on
/// the first pair whose comparison is undefined.
pub open spec fn list_eq_scan(a: Seq<Value>, b: Seq<Value>) -> Result<bool, RuntimeError>
    decreases a.len(),
{
    if a.len() != b.len() {
        Ok(false)
    } else if a.len() == 0 {
        Ok(true)
    } else if !eq_defined(a[0], b[0]) {
        Err(RuntimeError::TypeMismatch)
    } else if !eq_spec(a[0], b[0]) {
        Ok(false)
    } else {
        list_eq_scan(a.skip(1), b.skip(1))
    }
}

/// The outcome of scanning a sequence for an element equal to `v`:
/// true at the first equal element, a type error at the first undefined
/// comparison, false past the end.
pub open spec fn contains_scan(s: Seq<Value>, v: Value) -> Result<bool, RuntimeError>
    decreases s.len(),
{
    if s.len() == 0 {
        Ok(false)
    } else if !eq_defined(s[0], v) {
        Err(RuntimeError::TypeMismatch)
    } else if eq_spec(s[0], v) {
        Ok(true)
    } else {
        contains_scan(s.skip(1), v)
    }
}


/// The element sequence a slice of `xs` selects, or the error the slice
/// arguments draw.  Shared by list and tuple slicing.
pub(crate) fn slice_elems(
    xs: &Vec<Value>,
    lower: Option<Value>,
    upper: Option<Value>,
    step: Option<Value>,
) -> (r: Result<Vec<Value>, RuntimeError>)
    requires
        xs@.len() <= i32::MAX,
    ensures
        match r {
            Ok(out) => {
                &&& bound_valid(lower) && bound_valid(upper) && step_valid(step)
                &&& step_of(step) != 0
                &&& out@ == spec_slice(xs@, bound_index(lower), bound_index(upper), step_of(
                    step,
                ))
                &&& (forall|j: int| 0 <= j < out@.len() ==> xs@.contains(#[trigger] out@[j]))
            },
            Err(e) => {
                &&& e == (if step_valid(step) && step_of(step) == 0 {
                    RuntimeError::ValueError
                } else {
                    RuntimeError::TypeMismatch
                })
                &&& !(bound_valid(lower) && bound_valid(upper) && step_valid(step)
                    && step_of(step) != 0)
            },
        },
{
    let step_i: i32 = match step {
        Some(Value::Number(NumericType::Integer(s))) => {
            if s == 0 {
                return Err(RuntimeError::ValueError);
            }
            s
        },
        Some(Value::PyNone) => 1,
        None => 1,
        _ => { return Err(RuntimeError::TypeMismatch) },
    };
    let len_i: i32 = xs.len() as i32;
    if step_i < 0 {
        let lo: i32 = match lower {
            Some(Value::Number(NumericType::Integer(l))) => calculate_slice(l, 0, len_i),
            Some(Value::PyNone) => len_i,
            None => len_i,
            _ => { return Err(RuntimeError::TypeMismatch) },
        };
        let hi: i32 = match upper {
            Some(Value::Number(NumericType::Integer(u))) => calculate_slice(u, -1, len_i),
            Some(Value::PyNone) => -1,
            None => -1,
            _ => { return Err(RuntimeError::TypeMismatch) },
        };
        if lo > hi {
            let start: usize = (hi + 1) as usize;
            let end: usize = if lo == len_i {
                len_i as usize
            } else {
                (lo + 1) as usize
            };
            let mag: i64 = -(step_i as i64);
            let k: usize = mag as usize;
            if start < end {
                Ok(take_reversed(xs, start, end, k))
            } else {
                proof {
                    assert(xs@.subrange(start as int, end as int).reverse().len() == 0);
                    assert((k as int - 1) / (k as int) == 0) by (nonlinear_arith)
                        requires k >= 1;
                    assert(stride(xs@.subrange(start as int, end as int).reverse(), k as int)
                        =~= Seq::<Value>::empty());
                }
                Ok(Vec::new())
            }
        } else {
            proof {
                assert(spec_slice(xs@, bound_index(lower), bound_index(upper), step_of(step))
                    =~= Seq::<Value>::empty());
            }
            Ok(Vec::new())
        }
    } else {
        let lo: i32 = match lower {
            Some(Value::Number(NumericType::Integer(l))) => calculate_slice(l, 0, len_i),
            Some(Value::PyNone) => 0,
            None => 0,
            _ => { return Err(RuntimeError::TypeMismatch) },
        };
        let hi: i32 = match upper {
            Some(Value::Number(NumericType::Integer(u))) => calculate_slice(u, 0, len_i),
            Some(Value::PyNone) => len_i,
            None => len_i,
            _ => { return Err(RuntimeError::TypeMismatch) },
        };
        if lo >= hi {
            proof {
                assert(spec_slice(xs@, bound_index(lower), bound_index(upper), step_of(step))
                    =~= Seq::<Value>::empty());
            }
            Ok(Vec::new())
        } else {
            Ok(take_forward(xs, lo as usize, hi as usize, step_i as usize))
        }
    }
}

/// The minimum element of a value sequence under pairwise ordering,
/// keeping the earliest of equals; empty is a value error.
pub fn min_values(xs: &Vec<Value>) -> (r: Result<Value, RuntimeError>)
    requires
        forall|i: int| 0 <= i < xs@.len() ==> (#[trigger] xs@[i]).num_wf(),
    ensures
        xs@.len() == 0 ==> r == Err::<Value, RuntimeError>(RuntimeError::ValueError),
        xs@.len() > 0 ==> r == min_scan(xs@.skip(1), xs@[0]),
{
    if xs.len() == 0 {
        return Err(RuntimeError::ValueError);
    }
    let mut best: Value = xs[0].clone();
    let mut i: usize = 1;
    while i < xs.len()
        invariant
            1 <= i <= xs@.len(),
            forall|k: int| 0 <= k < xs@.len() ==> (#[trigger] xs@[k]).num_wf(),
            best.num_wf(),
            min_scan(xs@.skip(1), xs@[0]) == min_scan(xs@.skip(i as int), best),
        decreases xs@.len() - i,
    {
        proof {
            assert(xs@.skip(i as int)[0] == xs@[i as int]);
            assert(xs@.skip(i as int).skip(1) =~= xs@.skip(i + 1));
        }
        match xs[i].lt(&best) {
            Ok(true) => {
                best = xs[i].clone();
            },
            Ok(false) => {},
            Err(e) => { return Err(e) },
        }
        i = i + 1;
    }
    proof {
        assert(xs@.skip(i as int).len() == 0);
    }
    Ok(best)
}

/// The outcome of the pairwise minimum reduction over `s` with the running
/// minimum `acc`: a strictly smaller element replaces the running minimum,
/// and an undefined comparison is a type error.
pub open spec fn min_scan(s: Seq<Value>, acc: Value) -> Result<Value, RuntimeError>
    decreases s.len(),
{
    if s.len() == 0 {
        Ok(acc)
    } else if !ord_defined(s[0], acc) {
        Err(RuntimeError::TypeMismatch)
    } else if lt_spec(s[0], acc) {
        min_scan(s.skip(1), s[0])
    } else {
        min_scan(s.skip(1), acc)
    }
}

} // verus!
