//! The sys module singleton.

use vstd::prelude::*;
use vstd::string::StringExecFns;

use crate::error::RuntimeError;
use crate::iowrapper::IOWrapper;
use crate::numeric_type::NumericType;
use crate::value::Builtin;
use crate::value::Env;
use crate::value::FuncRef;
use crate::value::HostRequest;
use crate::value::Outcome;
use crate::value::Value;

verus! {

/// Builds the sys module singleton from the program arguments the host
/// collected: a class whose slots name the module, the argument list, the
/// standard error stream and the exit function.
pub fn import_module(env: &mut Env, argv: Vec<String>) -> (r: Value)
    requires
        old(env).wf(),
    ensures
        final(env).wf(),
        r is Class && (r->Class_0 as int) == old(env).classes@.len() as int,
        final(env).classes@.len() == old(env).classes@.len() + 1,
        ({
            let c = final(env).classes@[old(env).classes@.len() as int];
            &&& c.tbl@.len() == 4
            &&& c.tbl@[0]@ == "__name__"@
            &&& c.tbl@[1]@ == "argv"@
            &&& c.tbl@[2]@ == "stderr"@
            &&& c.tbl@[3]@ == "exit"@
            &&& c.members@.len() == 4
            &&& c.members@[0] is Str && c.members@[0]->Str_0@ == "sys"@
            &&& c.members@[1] == Value::List(old(env).lists@.len() as usize)
            &&& c.members@[2] == Value::TextIOWrapper(IOWrapper::Stderr)
            &&& c.members@[3] == Value::Function(FuncRef::Builtin(Builtin::Exit))
        }),
        final(env).lists@.len() == old(env).lists@.len() + 1,
        final(env).lists@[old(env).lists@.len() as int].list@.len() == argv@.len(),
        forall|i: int|
            0 <= i < argv@.len() ==> final(env).lists@[old(env).lists@.len() as int].list@[i]
                == Value::Str(argv@[i]),
        forall|i: int|
            0 <= i < old(env).lists@.len() ==> final(env).lists@[i] == old(env).lists@[i],
        forall|i: int|
            0 <= i < old(env).classes@.len() ==> final(env).classes@[i] == old(
                env,
            ).classes@[i],
        final(env).tuples == old(env).tuples,
        final(env).objects == old(env).objects,
        final(env).frames == old(env).frames,
        final(env).files == old(env).files,
{
    let mut args: Vec<Value> = Vec::new();
    let mut i: usize = 0;
    while i < argv.len()
        invariant
            i <= argv@.len(),
            args@.len() == i,
            forall|j: int| 0 <= j < i ==> args@[j] == Value::Str(argv@[j]),
        decreases argv@.len() - i,
    {
        args.push(Value::Str(argv[i].clone()));
        i = i + 1;
    }
    proof {
        assert forall|j: int| 0 <= j < args@.len() implies (#[trigger] args@[j]).wf(*env) by {}
    }
    let arg_list = env.alloc_list(args);
    let mut tbl: Vec<String> = Vec::new();
    tbl.push(String::from_str("__name__"));
    tbl.push(String::from_str("argv"));
    tbl.push(String::from_str("stderr"));
    tbl.push(String::from_str("exit"));
    let mut members: Vec<Value> = Vec::new();
    members.push(Value::Str(String::from_str("sys")));
    members.push(arg_list);
    members.push(Value::TextIOWrapper(IOWrapper::Stderr));
    members.push(Value::Function(FuncRef::Builtin(Builtin::Exit)));
    proof {
        reveal_strlit("__name__");
        reveal_strlit("argv");
        reveal_strlit("stderr");
        reveal_strlit("exit");
        assert forall|i: int, j: int|
            0 <= i < j < tbl@.len() implies (#[trigger] tbl@[i])@ != (#[trigger] tbl@[j])@ by {
            if i == 1 && j == 3 {
                assert(tbl@[i]@[0] != tbl@[j]@[0]);
            } else {
                assert(tbl@[i]@.len() != tbl@[j]@.len());
            }
        }
    }
    env.alloc_class(tbl, members)
}

/// Program exit: a diverging action only the host can take, surfaced as a
/// pending request carrying the integer status, zero when omitted.
/// What `exit` returns: a pending host request carrying the integer
/// status, zero when omitted — owed exactly for an absent or Integer
/// argument — a type error otherwise.
pub open spec fn exit_post(params: Seq<Value>, r: Result<Outcome, RuntimeError>) -> bool {
    &&& match r {
        Ok(o) => match o {
            Outcome::Pending(HostRequest::Exit { status }) => {
                if params.len() == 0 {
                    status == 0
                } else {
                    params[0] == Value::Number(NumericType::Integer(status))
                }
            },
            _ => false,
        },
        Err(e) => params.len() >= 1 && !(params[0] matches Value::Number(
            NumericType::Integer(_),
        )) && e is TypeMismatch,
    }
    &&& ((params.len() == 0 || params[0] matches Value::Number(NumericType::Integer(_)))
        <==> r is Ok)
}

pub fn py_exit(params: Vec<Value>) -> (r: Result<Outcome, RuntimeError>)
    ensures
        exit_post(params@, r),
{
    if params.len() == 0 {
        return Ok(Outcome::Pending(HostRequest::Exit { status: 0 }));
    }
    match &params[0] {
        Value::Number(NumericType::Integer(v)) => Ok(
            Outcome::Pending(HostRequest::Exit { status: *v }),
        ),
        _ => Err(RuntimeError::TypeMismatch),
    }
}

} // verus!
