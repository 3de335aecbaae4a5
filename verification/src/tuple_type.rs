//! The immutable tuple body: indexing and stepped slicing.

use vstd::prelude::*;

use crate::error::RuntimeError;
use crate::list_type::bound_index;
use crate::list_type::bound_valid;
use crate::list_type::min_scan;
use crate::list_type::min_values;
use crate::list_type::slice_elems;
use crate::list_type::spec_slice;
use crate::list_type::step_of;
use crate::list_type::step_valid;
use crate::numeric_type::NumericType;
use crate::value::Env;
use crate::value::Value;

verus! {

/// The element sequence of a tuple value.  Tuple storage is never mutated
/// after it is built, so a `Value::Tuple` handle behaves exactly like a
/// value-owned copy; elements that are themselves handles keep their own
/// aliasing behaviour.
#[derive(Debug)]
pub struct TupleType {
    pub list: Vec<Value>,
}

impl TupleType {
    /// Wraps an element sequence as a tuple body.
    pub fn new(list: Vec<Value>) -> (r: TupleType)
        ensures
            r.list == list,
    {
        TupleType { list }
    }

    /// Float payloads held anywhere in the tuple are canonical.
    pub open spec fn nums_wf(self) -> bool {
        forall|i: int| 0 <= i < self.list@.len() ==> (#[trigger] self.list@[i]).num_wf()
    }

    /// The element a (possibly negative) integer index selects: a negative
    /// index counts from the end, and a magnitude at or past the length is
    /// an index error; any other index variant is a type error.
    pub fn index(&self, index: Value) -> (r: Result<Value, RuntimeError>)
        requires
            self.list@.len() <= i32::MAX,
        ensures
            match index {
                Value::Number(NumericType::Integer(p)) => {
                    if -(self.list@.len() as int) < p < self.list@.len() {
                        r == Ok::<Value, RuntimeError>(
                            self.list@[
                                if p < 0 {
                                    self.list@.len() + p
                                } else {
                                    p as int
                                }
                            ],
                        )
                    } else {
                        r == Err::<Value, RuntimeError>(RuntimeError::IndexError)
                    }
                },
                _ => r == Err::<Value, RuntimeError>(RuntimeError::TypeMismatch),
            },
    {
        let pos: i32 = match index {
            Value::Number(NumericType::Integer(p)) => p,
            _ => { return Err(RuntimeError::TypeMismatch) },
        };
        let mag: i64 = if pos < 0 { -(pos as i64) } else { pos as i64 };
        if mag >= self.list.len() as i64 {
            return Err(RuntimeError::IndexError);
        }
        let at: usize = if pos < 0 {
            self.list.len() - (mag as usize)
        } else {
            pos as usize
        };
        Ok(self.list[at].clone())
    }

    /// The stepped slice, as a fresh tuple allocated in the environment,
    /// under the same bound and step rules as a list slice.
    pub fn slice(
        &self,
        env: &mut Env,
        lower: Option<Value>,
        upper: Option<Value>,
        step: Option<Value>,
    ) -> (r: Result<Value, RuntimeError>)
        requires
            self.list@.len() <= i32::MAX,
            old(env).wf(),
            forall|i: int|
                0 <= i < self.list@.len() ==> (#[trigger] self.list@[i]).wf(*old(env)),
        ensures
            final(env).wf(),
            match r {
                Ok(v) => {
                    &&& bound_valid(lower) && bound_valid(upper) && step_valid(step)
                    &&& step_of(step) != 0
                    &&& v is Tuple && (v->Tuple_0 as int) == old(env).tuples@.len() as int
                    &&& final(env).tuples@.len() == old(env).tuples@.len() + 1
                    &&& (forall|i: int|
                        0 <= i < old(env).tuples@.len() ==> final(env).tuples@[i] == old(
                            env,
                        ).tuples@[i])
                    &&& final(env).tuples@[old(env).tuples@.len() as int].list@ == spec_slice(
                        self.list@,
                        bound_index(lower),
                        bound_index(upper),
                        step_of(step),
                    )
                    &&& final(env).lists == old(env).lists
                    &&& final(env).classes == old(env).classes
                    &&& final(env).objects == old(env).objects
                    &&& final(env).frames == old(env).frames
                    &&& final(env).files == old(env).files
                },
                Err(e) => {
                    &&& *final(env) == *old(env)
                    &&& e == (if step_valid(step) && step_of(step) == 0 {
                        RuntimeError::ValueError
                    } else {
                        RuntimeError::TypeMismatch
                    })
                },
            },
            (bound_valid(lower) && bound_valid(upper) && step_valid(step) && step_of(step) != 0)
                <==> r is Ok,
    {
        let out = match slice_elems(&self.list, lower, upper, step) {
            Ok(out) => out,
            Err(e) => { return Err(e) },
        };
        proof {
            assert forall|j: int| 0 <= j < out@.len() implies (#[trigger] out@[j]).wf(
                *old(env),
            ) by {
                assert(self.list@.contains(out@[j]));
                let t = choose|t: int| 0 <= t < self.list@.len() && self.list@[t] == out@[j];
            }
        }
        Ok(env.alloc_tuple(out))
    }

    /// The length, as an Integer value.
    pub fn len(&self) -> (r: Value)
        requires
            self.list@.len() <= i32::MAX,
        ensures
            r == Value::Number(NumericType::Integer(self.list@.len() as i32)),
    {
        Value::Number(NumericType::Integer(self.list.len() as i32))
    }

    /// The minimum element under pairwise ordering, keeping the earliest of
    /// equals; an empty tuple is a value error.
    pub fn min(&self) -> (r: Result<Value, RuntimeError>)
        requires
            self.nums_wf(),
        ensures
            self.list@.len() == 0 ==> r == Err::<Value, RuntimeError>(RuntimeError::ValueError),
            self.list@.len() > 0 ==> r == min_scan(self.list@.skip(1), self.list@[0]),
    {
        min_values(&self.list)
    }

    /// A copy of the element sequence.
    pub fn clone_seq(&self) -> (r: Vec<Value>)
        ensures
            r@ == self.list@,
    {
        crate::value::clone_values(&self.list)
    }
}

} // verus!
