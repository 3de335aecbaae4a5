//! The error taxonomy shared by every fallible operation of the runtime.

use vstd::prelude::*;

verus! {

/// Every failure a runtime operation can report.  The modelled language
/// aborts evaluation at the point of detection; here each trigger condition
/// surfaces as a value of this type so that callers may choose to recover.
#[derive(Debug)]
pub enum RuntimeError {
    /// An identifier was not bound in any scope frame; carries the name.
    NameError(String),
    /// A member was missing, or the attribute target cannot hold attributes;
    /// carries the attribute name.
    AttributeError(String),
    /// An operator or builtin was applied to an incompatible variant
    /// combination.
    TypeMismatch,
    /// An index was out of range.
    IndexError,
    /// An invalid slice step or an empty-sequence reduction.
    ValueError,
    /// A call received the wrong number of arguments.
    ArityError,
    /// A filesystem operation failed, or a stream was already closed.
    IOError,
}

} // verus!
