//! Stream handles: the console streams and shared file handles.
//!
//! A file handle names a slot in the environment, so every alias of the
//! handle sees the same state; the slot keeps an in-memory model of the
//! file's content, which the host mirrors to the operating system.

use vstd::prelude::*;
use vstd::string::StrSliceExecFns;

use crate::error::RuntimeError;
use crate::value::Env;
use crate::value::HostRequest;
use crate::value::Outcome;
use crate::value::Value;

verus! {

/// A stream a value can hold: console streams, an open file slot, or a
/// handle already closed.
#[derive(Debug, Clone, Copy)]
pub enum IOWrapper {
    File(usize),
    Stdin,
    Stderr,
    Stdout,
    Closed,
}

/// The state of one open file: its access mode, whether it was closed, the
/// modelled content, and how far reads have consumed it.
#[derive(Debug)]
pub struct FileState {
    pub readable: bool,
    pub writable: bool,
    pub closed: bool,
    pub content: String,
    pub pos: usize,
}

impl FileState {
    /// The read position never passes the end of the content.
    pub open spec fn wf(&self) -> bool {
        self.pos <= self.content@.len()
    }
}

impl IOWrapper {
    /// Dispatches a method call on a stream: `close` is the operation
    /// set, a no-op on console streams; anything else is unsupported.
    /// Closing a file handle marks the shared slot closed, so every alias
    /// sees it, and hands the host the matching request.
    pub fn call(
        &self,
        env: &mut Env,
        attr: &str,
        args: Vec<Value>,
        kwargs: Vec<(String, Value)>,
    ) -> (r: Result<Outcome, RuntimeError>)
        requires
            old(env).wf(),
            self matches IOWrapper::File(id) ==> id < old(env).files@.len(),
        ensures
            final(env).wf(),
            if attr@ == "close"@ {
                match self {
                    IOWrapper::File(id) => r matches Ok(o) && o matches Outcome::Effect(
                        v,
                        HostRequest::CloseFile { file },
                    ) && v is PyNone && file == id && final(env).files@ == old(
                        env,
                    ).files@.update(
                        *id as int,
                        FileState { closed: true, ..old(env).files@[*id as int] },
                    ) && final(env).lists == old(env).lists && final(env).tuples == old(
                        env,
                    ).tuples && final(env).classes == old(env).classes && final(env).objects
                        == old(env).objects && final(env).frames == old(env).frames,
                    _ => r == Ok::<Outcome, RuntimeError>(Outcome::Done(Value::PyNone))
                        && *final(env) == *old(env),
                }
            } else {
                (r matches Err(e) && e is AttributeError && e->AttributeError_0@ == attr@)
                    && *final(env) == *old(env)
            },
    {
        if crate::value::str_eq(attr, "close") {
            match self {
                IOWrapper::File(id) => {
                    let ghost e1 = *env;
                    let fs = &mut env.files[*id];
                    fs.closed = true;
                    proof {
                        assert(env.files@ =~= e1.files@.update(
                            *id as int,
                            FileState { closed: true, ..e1.files@[*id as int] },
                        ));
                        assert(crate::value::env_shape_le(e1, *env));
                        assert(crate::value::all_stored_wf(*env, e1));
                        crate::value::lemma_env_wf_from(e1, *env);
                    }
                    Ok(Outcome::Effect(Value::PyNone, HostRequest::CloseFile { file: *id }))
                },
                _ => Ok(Outcome::Done(Value::PyNone)),
            }
        } else {
            Err(RuntimeError::AttributeError(attr.to_owned()))
        }
    }
}

} // verus!
