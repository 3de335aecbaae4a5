//! The math module singleton.

use vstd::prelude::*;

use crate::error::RuntimeError;
use crate::value::Builtin;
use crate::value::Env;
use crate::value::FuncRef;
use crate::value::HostRequest;
use crate::value::Outcome;
use crate::value::Value;

verus! {

/// Builds the math module singleton: a class whose slots name the module
/// and its square-root function.
pub fn import_module(env: &mut Env) -> (r: Value)
    requires
        old(env).wf(),
    ensures
        final(env).wf(),
        r is Class && (r->Class_0 as int) == old(env).classes@.len() as int,
        final(env).classes@.len() == old(env).classes@.len() + 1,
        final(env).classes@[old(env).classes@.len() as int].tbl@.len() == 2,
        final(env).classes@[old(env).classes@.len() as int].tbl@[0]@ == "__name__"@,
        final(env).classes@[old(env).classes@.len() as int].tbl@[1]@ == "sqrt"@,
        final(env).classes@[old(env).classes@.len() as int].members@ == seq![
            Value::Str(final(env).classes@[old(env).classes@.len() as int].members@[0]->Str_0),
            Value::Function(FuncRef::Builtin(Builtin::Sqrt)),
        ],
        final(env).classes@[old(env).classes@.len() as int].members@[0]->Str_0@ == "math"@,
        final(env).lists == old(env).lists,
        final(env).tuples == old(env).tuples,
        final(env).objects == old(env).objects,
        final(env).frames == old(env).frames,
        final(env).files == old(env).files,
        forall|i: int|
            0 <= i < old(env).classes@.len() ==> final(env).classes@[i] == old(env).classes@[i],
{
    let mut tbl: Vec<String> = Vec::new();
    tbl.push(String::from_str("__name__"));
    tbl.push(String::from_str("sqrt"));
    let mut members: Vec<Value> = Vec::new();
    members.push(Value::Str(String::from_str("math")));
    members.push(Value::Function(FuncRef::Builtin(Builtin::Sqrt)));
    proof {
        reveal_strlit("__name__");
        reveal_strlit("sqrt");
        assert(tbl@[0]@.len() != tbl@[1]@.len());
    }
    env.alloc_class(tbl, members)
}

/// The module-level square root: the host computes the value, so the call
/// surfaces as a pending request carrying the numeric argument.
/// What `sqrt` returns: a pending host request carrying the numeric
/// argument — owed exactly for one — an arity error with none, a type
/// error otherwise.
pub open spec fn sqrt_post(params: Seq<Value>, r: Result<Outcome, RuntimeError>) -> bool {
    match r {
        Ok(o) => params.len() >= 1 && params[0] is Number && o == Outcome::Pending(
            HostRequest::Sqrt { value: params[0]->Number_0 },
        ),
        Err(e) => {
            &&& (params.len() == 0 ==> e is ArityError)
            &&& (params.len() >= 1 && !(params[0] is Number) ==> e is TypeMismatch)
            &&& (params.len() >= 1 && params[0] is Number ==> false)
        },
    }
}

pub fn sqrt(params: Vec<Value>) -> (r: Result<Outcome, RuntimeError>)
    ensures
        sqrt_post(params@, r),
{
    if params.len() == 0 {
        return Err(RuntimeError::ArityError);
    }
    match &params[0] {
        Value::Number(n) => Ok(Outcome::Pending(HostRequest::Sqrt { value: *n })),
        _ => Err(RuntimeError::TypeMismatch),
    }
}

} // verus!
