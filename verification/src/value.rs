//! The tagged union every runtime datum lives in, and the environment that
//! holds all shared and compound backing storage.
//!
//! A `List` or `Object` value is a handle into the environment: copying the
//! value copies the handle, so mutation through one alias is visible through
//! every other, exactly as reference-counted storage behaves in the modelled
//! language.  `Tuple` and `Class` storage is immutable once built, so those
//! values are handles as well, which keeps every `Value` flat.

use vstd::prelude::*;
use vstd::string::StrSliceExecFns;
use vstd::string::StringExecFns;

use crate::error::RuntimeError;
use crate::floatnum::float_eq_spec;
use crate::floatnum::float_lt_spec;
use crate::iowrapper::FileState;
use crate::iowrapper::IOWrapper;
use crate::list_type::ListType;
use crate::numeric_type::NumericType;
use crate::tuple_type::TupleType;

verus! {

/// Which function a `Function` value names: one of the fixed builtins, or a
/// function of the client, known to the runtime only by a token.
#[derive(Debug, Clone, Copy)]
pub enum FuncRef {
    Builtin(Builtin),
    External(u32),
}

/// The fixed set of builtin functions.
#[derive(Debug, Clone, Copy, PartialEq, Eq, Structural)]
pub enum Builtin {
    Print,
    Str,
    Len,
    Min,
    Int,
    Float,
    Enumerate,
    Open,
    Sqrt,
    Exit,
}

/// An action only the host process can perform: real file and console
/// traffic, machine square roots, and process exit.  The runtime decides;
/// the host mirrors the decision onto the operating system.
#[derive(Debug)]
pub enum HostRequest {
    /// Open the named file, reading or writing as flagged; write implies
    /// truncate-and-create.  The host answers with the file's current text.
    OpenFile { filename: String, read: bool, write: bool },
    /// Append `text` to the file behind the handle; the in-memory model has
    /// already been updated identically.
    WriteFile { file: usize, text: String },
    /// Write `text` to standard output.
    WriteStdout { text: String },
    /// Write `text` to standard error.
    WriteStderr { text: String },
    /// Close the file behind the handle.
    CloseFile { file: usize },
    /// Take the square root of the number and feed the result back.
    Sqrt { value: NumericType },
    /// End the process with the status.
    Exit { status: i32 },
}

/// What a call produced: a finished value, a value together with a host
/// action to mirror, a host action whose answer the runtime still needs,
/// or a call into a resolved function value, adjusted arguments included,
/// that the caller now invokes.
#[derive(Debug)]
pub enum Outcome {
    Done(Value),
    Effect(Value, HostRequest),
    Pending(HostRequest),
    Invoke { func: FuncRef, args: Vec<Value>, kwargs: Vec<(String, Value)> },
}

/// A class body: the name-to-slot schema, built once and never mutated,
/// and the member values the slots hold.
#[derive(Debug)]
pub struct ClassType {
    /// The slot names; a name's position is its slot index.
    pub tbl: Vec<String>,
    /// One member value per slot.
    pub members: Vec<Value>,
}

/// A runtime value.
#[derive(Debug)]
pub enum Value {
    /// A number, Integer or Float.
    Number(NumericType),
    /// A text string.
    Str(String),
    /// A boolean.
    Bool(bool),
    /// The null value of the modelled language.
    PyNone,
    /// A shared mutable list: a handle into `Env::lists`.
    List(usize),
    /// An immutable tuple: a handle into `Env::tuples`.
    Tuple(usize),
    /// A named-slot schema plus member values, possibly a module singleton:
    /// a handle into `Env::classes`.
    Class(usize),
    /// An instance: the handle of its class, whose schema it shares, and a
    /// handle to its own mutable member sequence in `Env::objects`.
    Object { class: usize, members: usize },
    /// A callable.
    Function(FuncRef),
    /// A stream handle.
    TextIOWrapper(IOWrapper),
    /// The sentinel for a slot not yet initialized.
    Undefined,
}

/// All shared or compound backing storage: list and tuple bodies, class
/// definitions, object member sequences, scope frames and open files, each
/// addressed by index.
#[derive(Debug)]
pub struct Env {
    pub lists: Vec<ListType>,
    pub tuples: Vec<TupleType>,
    pub classes: Vec<ClassType>,
    pub objects: Vec<Vec<Value>>,
    pub frames: Vec<Vec<(String, Value)>>,
    pub files: Vec<FileState>,
}

impl Value {
    /// Structural well-formedness against an environment: handles are in
    /// range, float payloads canonical, an instance's member sequence as
    /// long as its class's schema.
    pub open spec fn wf(self, env: Env) -> bool {
        match self {
            Value::Number(n) => n.wf(),
            Value::Str(_) => true,
            Value::Bool(_) => true,
            Value::PyNone => true,
            Value::List(id) => id < env.lists@.len(),
            Value::Tuple(id) => id < env.tuples@.len(),
            Value::Class(id) => id < env.classes@.len(),
            Value::Object { class, members } => class < env.classes@.len()
                && members < env.objects@.len()
                && env.objects@[members as int]@.len() == env.classes@[class as int].tbl@.len(),
            Value::Function(_) => true,
            Value::TextIOWrapper(w) => match w {
                IOWrapper::File(id) => id < env.files@.len(),
                _ => true,
            },
            Value::Undefined => true,
        }
    }
}

impl Env {
    /// Every value held anywhere in the environment is well-formed against
    /// it, every class schema as long as its member sequence, and every
    /// file state consistent.
    pub open spec fn wf(self) -> bool {
        &&& forall|i: int, j: int|
            0 <= i < self.lists@.len() && 0 <= j < self.lists@[i].list@.len()
                ==> (#[trigger] self.lists@[i].list@[j]).wf(self)
        &&& forall|i: int, j: int|
            0 <= i < self.tuples@.len() && 0 <= j < self.tuples@[i].list@.len()
                ==> (#[trigger] self.tuples@[i].list@[j]).wf(self)
        &&& forall|i: int, j: int|
            0 <= i < self.classes@.len() && 0 <= j < self.classes@[i].members@.len()
                ==> (#[trigger] self.classes@[i].members@[j]).wf(self)
        &&& forall|i: int|
            0 <= i < self.classes@.len()
                ==> (#[trigger] self.classes@[i]).tbl@.len() == self.classes@[i].members@.len()
        &&& forall|i: int, j: int|
            0 <= i < self.objects@.len() && 0 <= j < self.objects@[i]@.len()
                ==> (#[trigger] self.objects@[i]@[j]).wf(self)
        &&& forall|i: int, j: int|
            0 <= i < self.frames@.len() && 0 <= j < self.frames@[i]@.len()
                ==> (#[trigger] self.frames@[i]@[j]).1.wf(self)
        &&& forall|i: int| 0 <= i < self.files@.len() ==> (#[trigger] self.files@[i]).wf()
    }

    /// An empty environment.
    pub fn new() -> (r: Env)
        ensures
            r.wf(),
            r.lists@.len() == 0,
            r.tuples@.len() == 0,
            r.classes@.len() == 0,
            r.objects@.len() == 0,
            r.frames@.len() == 0,
            r.files@.len() == 0,
    {
        Env {
            lists: Vec::new(),
            tuples: Vec::new(),
            classes: Vec::new(),
            objects: Vec::new(),
            frames: Vec::new(),
            files: Vec::new(),
        }
    }
}

/// The growth relation on environments that keeps values well-formed: no
/// storage shrinks, and the schema and member-sequence lengths a value may
/// rely on are unchanged.
pub open spec fn env_shape_le(e1: Env, e2: Env) -> bool {
    &&& e1.lists@.len() <= e2.lists@.len()
    &&& e1.tuples@.len() <= e2.tuples@.len()
    &&& e1.classes@.len() <= e2.classes@.len()
    &&& (forall|i: int|
        0 <= i < e1.classes@.len() ==> (#[trigger] e2.classes@[i]).tbl@.len()
            == e1.classes@[i].tbl@.len())
    &&& e1.objects@.len() <= e2.objects@.len()
    &&& (forall|i: int|
        0 <= i < e1.objects@.len() ==> (#[trigger] e2.objects@[i])@.len()
            == e1.objects@[i]@.len())
    &&& e1.files@.len() <= e2.files@.len()
}

/// Well-formedness survives any shape-preserving growth of the
/// environment.
pub proof fn lemma_value_wf_grow(v: Value, e1: Env, e2: Env)
    requires
        v.wf(e1),
        env_shape_le(e1, e2),
    ensures
        v.wf(e2),
{
}

/// Every value stored anywhere in `e2` is well-formed against `e1`.
pub open spec fn all_stored_wf(e2: Env, e1: Env) -> bool {
    &&& forall|i: int, j: int|
        0 <= i < e2.lists@.len() && 0 <= j < e2.lists@[i].list@.len()
            ==> (#[trigger] e2.lists@[i].list@[j]).wf(e1)
    &&& forall|i: int, j: int|
        0 <= i < e2.tuples@.len() && 0 <= j < e2.tuples@[i].list@.len()
            ==> (#[trigger] e2.tuples@[i].list@[j]).wf(e1)
    &&& forall|i: int, j: int|
        0 <= i < e2.classes@.len() && 0 <= j < e2.classes@[i].members@.len()
            ==> (#[trigger] e2.classes@[i].members@[j]).wf(e1)
    &&& forall|i: int|
        0 <= i < e2.classes@.len() ==> (#[trigger] e2.classes@[i]).tbl@.len()
            == e2.classes@[i].members@.len()
    &&& forall|i: int, j: int|
        0 <= i < e2.objects@.len() && 0 <= j < e2.objects@[i]@.len()
            ==> (#[trigger] e2.objects@[i]@[j]).wf(e1)
    &&& forall|i: int, j: int|
        0 <= i < e2.frames@.len() && 0 <= j < e2.frames@[i]@.len()
            ==> (#[trigger] e2.frames@[i]@[j]).1.wf(e1)
    &&& forall|i: int| 0 <= i < e2.files@.len() ==> (#[trigger] e2.files@[i]).wf()
}

/// An environment whose stored values are all well-formed against a
/// shape-compatible smaller one is itself well-formed.
pub proof fn lemma_env_wf_from(e1: Env, e2: Env)
    requires
        all_stored_wf(e2, e1),
        env_shape_le(e1, e2),
    ensures
        e2.wf(),
{
    assert forall|i: int, j: int|
        0 <= i < e2.lists@.len() && 0 <= j < e2.lists@[i].list@.len() implies (
    #[trigger] e2.lists@[i].list@[j]).wf(e2) by {
        lemma_value_wf_grow(e2.lists@[i].list@[j], e1, e2);
    }
    assert forall|i: int, j: int|
        0 <= i < e2.tuples@.len() && 0 <= j < e2.tuples@[i].list@.len() implies (
    #[trigger] e2.tuples@[i].list@[j]).wf(e2) by {
        lemma_value_wf_grow(e2.tuples@[i].list@[j], e1, e2);
    }
    assert forall|i: int, j: int|
        0 <= i < e2.classes@.len() && 0 <= j < e2.classes@[i].members@.len() implies (
    #[trigger] e2.classes@[i].members@[j]).wf(e2) by {
        lemma_value_wf_grow(e2.classes@[i].members@[j], e1, e2);
    }
    assert forall|i: int, j: int|
        0 <= i < e2.objects@.len() && 0 <= j < e2.objects@[i]@.len() implies (
    #[trigger] e2.objects@[i]@[j]).wf(e2) by {
        lemma_value_wf_grow(e2.objects@[i]@[j], e1, e2);
    }
    assert forall|i: int, j: int|
        0 <= i < e2.frames@.len() && 0 <= j < e2.frames@[i]@.len() implies (
    #[trigger] e2.frames@[i]@[j]).1.wf(e2) by {
        lemma_value_wf_grow(e2.frames@[i]@[j].1, e1, e2);
    }
}

impl Env {
    /// Allocates a fresh tuple body and hands back its value.
    pub fn alloc_tuple(&mut self, items: Vec<Value>) -> (r: Value)
        requires
            old(self).wf(),
            forall|i: int| 0 <= i < items@.len() ==> (#[trigger] items@[i]).wf(*old(self)),
        ensures
            final(self).wf(),
            r is Tuple && (r->Tuple_0 as int) == old(self).tuples@.len() as int,
            final(self).tuples@.len() == old(self).tuples@.len() + 1,
            final(self).tuples@[old(self).tuples@.len() as int].list@ == items@,
            forall|i: int|
                0 <= i < old(self).tuples@.len() ==> final(self).tuples@[i] == old(
                    self,
                ).tuples@[i],
            final(self).lists == old(self).lists,
            final(self).classes == old(self).classes,
            final(self).objects == old(self).objects,
            final(self).frames == old(self).frames,
            final(self).files == old(self).files,
    {
        let id = self.tuples.len();
        self.tuples.push(crate::tuple_type::TupleType { list: items });
        proof {
            assert(env_shape_le(*old(self), *self));
            lemma_env_wf_from(*old(self), *self);
        }
        Value::Tuple(id)
    }

    /// Allocates a fresh list body and hands back its value.
    pub fn alloc_list(&mut self, items: Vec<Value>) -> (r: Value)
        requires
            old(self).wf(),
            forall|i: int| 0 <= i < items@.len() ==> (#[trigger] items@[i]).wf(*old(self)),
        ensures
            final(self).wf(),
            r is List && (r->List_0 as int) == old(self).lists@.len() as int,
            final(self).lists@.len() == old(self).lists@.len() + 1,
            final(self).lists@[old(self).lists@.len() as int].list@ == items@,
            forall|i: int|
                0 <= i < old(self).lists@.len() ==> final(self).lists@[i] == old(
                    self,
                ).lists@[i],
            final(self).tuples == old(self).tuples,
            final(self).classes == old(self).classes,
            final(self).objects == old(self).objects,
            final(self).frames == old(self).frames,
            final(self).files == old(self).files,
    {
        let id = self.lists.len();
        self.lists.push(crate::list_type::ListType { list: items });
        proof {
            assert(env_shape_le(*old(self), *self));
            lemma_env_wf_from(*old(self), *self);
        }
        Value::List(id)
    }

    /// Allocates a fresh class body and hands back its value.  Slot names
    /// are distinct, as a name-to-index map could not hold duplicates.
    pub fn alloc_class(&mut self, tbl: Vec<String>, members: Vec<Value>) -> (r: Value)
        requires
            old(self).wf(),
            tbl@.len() == members@.len(),
            forall|i: int, j: int|
                0 <= i < j < tbl@.len() ==> (#[trigger] tbl@[i])@ != (#[trigger] tbl@[j])@,
            forall|i: int| 0 <= i < members@.len() ==> (#[trigger] members@[i]).wf(*old(self)),
        ensures
            final(self).wf(),
            r is Class && (r->Class_0 as int) == old(self).classes@.len() as int,
            final(self).classes@.len() == old(self).classes@.len() + 1,
            final(self).classes@[old(self).classes@.len() as int].tbl@ == tbl@,
            final(self).classes@[old(self).classes@.len() as int].members@ == members@,
            forall|i: int|
                0 <= i < old(self).classes@.len() ==> final(self).classes@[i] == old(
                    self,
                ).classes@[i],
            final(self).lists == old(self).lists,
            final(self).tuples == old(self).tuples,
            final(self).objects == old(self).objects,
            final(self).frames == old(self).frames,
            final(self).files == old(self).files,
    {
        let id = self.classes.len();
        self.classes.push(ClassType { tbl, members });
        proof {
            assert(env_shape_le(*old(self), *self));
            lemma_env_wf_from(*old(self), *self);
        }
        Value::Class(id)
    }

    /// Allocates a fresh member sequence for an instance of the class and
    /// hands back the object value.
    pub fn alloc_object(&mut self, class: usize, members: Vec<Value>) -> (r: Value)
        requires
            old(self).wf(),
            class < old(self).classes@.len(),
            members@.len() == old(self).classes@[class as int].tbl@.len(),
            forall|i: int| 0 <= i < members@.len() ==> (#[trigger] members@[i]).wf(*old(self)),
        ensures
            final(self).wf(),
            r is Object && r->Object_class == class && (r->Object_members as int) == old(
                self,
            ).objects@.len() as int,
            final(self).objects@.len() == old(self).objects@.len() + 1,
            final(self).objects@[old(self).objects@.len() as int]@ == members@,
            forall|i: int|
                0 <= i < old(self).objects@.len() ==> final(self).objects@[i] == old(
                    self,
                ).objects@[i],
            final(self).lists == old(self).lists,
            final(self).tuples == old(self).tuples,
            final(self).classes == old(self).classes,
            final(self).frames == old(self).frames,
            final(self).files == old(self).files,
    {
        let id = self.objects.len();
        self.objects.push(members);
        proof {
            assert(env_shape_le(*old(self), *self));
            lemma_env_wf_from(*old(self), *self);
        }
        Value::Object { class, members: id }
    }
}

impl Clone for Value {
    /// Copies the value.  A `List` or `Object` result is a new handle to
    /// the same backing storage, so mutation through the copy is visible
    /// through the original.
    fn clone(&self) -> (r: Value)
        ensures
            r == *self,
    {
        match self {
            Value::Number(n) => Value::Number(*n),
            Value::Str(s) => Value::Str(s.clone()),
            Value::Bool(b) => Value::Bool(*b),
            Value::PyNone => Value::PyNone,
            Value::List(id) => Value::List(*id),
            Value::Tuple(id) => Value::Tuple(*id),
            Value::Class(id) => Value::Class(*id),
            Value::Object { class, members } => Value::Object {
                class: *class,
                members: *members,
            },
            Value::Function(f) => Value::Function(*f),
            Value::TextIOWrapper(w) => Value::TextIOWrapper(*w),
            Value::Undefined => Value::Undefined,
        }
    }
}

/// Equality of two strings, decided character by character.
pub fn str_eq(a: &str, b: &str) -> (r: bool)
    ensures
        r == (a@ == b@),
{
    let la = a.unicode_len();
    let lb = b.unicode_len();
    if la != lb {
        return false;
    }
    let mut i: usize = 0;
    while i < la
        invariant
            i <= la,
            la == a@.len(),
            la == b@.len(),
            forall|j: int| 0 <= j < i ==> a@[j] == b@[j],
        decreases la - i,
    {
        if a.get_char(i) != b.get_char(i) {
            return false;
        }
        i = i + 1;
    }
    proof {
        assert(a@ =~= b@);
    }
    true
}

/// Lexicographic strict order on character sequences, by code point.
pub open spec fn seq_lt(a: Seq<char>, b: Seq<char>) -> bool
    decreases a.len(),
{
    if b.len() == 0 {
        false
    } else if a.len() == 0 {
        true
    } else if a[0] != b[0] {
        (a[0] as u32) < (b[0] as u32)
    } else {
        seq_lt(a.skip(1), b.skip(1))
    }
}

/// Lexicographic strict order on strings.
fn str_lt(a: &str, b: &str) -> (r: bool)
    ensures
        r == seq_lt(a@, b@),
{
    let la = a.unicode_len();
    let lb = b.unicode_len();
    let mut i: usize = 0;
    proof {
        assert(a@.skip(0) =~= a@);
        assert(b@.skip(0) =~= b@);
    }
    while i < la && i < lb
        invariant
            i <= la,
            i <= lb,
            la == a@.len(),
            lb == b@.len(),
            seq_lt(a@, b@) == seq_lt(a@.skip(i as int), b@.skip(i as int)),
        decreases la - i,
    {
        let ca = a.get_char(i);
        let cb = b.get_char(i);
        if ca != cb {
            proof {
                assert(a@.skip(i as int)[0] == a@[i as int]);
                assert(b@.skip(i as int)[0] == b@[i as int]);
            }
            return (ca as u32) < (cb as u32);
        }
        proof {
            assert(a@.skip(i as int)[0] == a@[i as int]);
            assert(b@.skip(i as int)[0] == b@[i as int]);
            assert(a@.skip(i as int).skip(1) =~= a@.skip(i + 1));
            assert(b@.skip(i as int).skip(1) =~= b@.skip(i + 1));
        }
        i = i + 1;
    }
    proof {
        assert(a@.skip(i as int).len() == la - i);
        assert(b@.skip(i as int).len() == lb - i);
    }
    i >= la && i < lb
}

/// Whether equality is defined for the pair: matching variants of Number,
/// Str, Bool or the null value, and the null value against any of those.
pub open spec fn eq_defined(a: Value, b: Value) -> bool {
    ||| (a is Number && b is Number)
    ||| (a is Str && b is Str)
    ||| (a is Bool && b is Bool)
    ||| (a is PyNone && none_comparable(b))
    ||| (b is PyNone && none_comparable(a))
}

/// The variants the null value may be compared against.
pub open spec fn none_comparable(v: Value) -> bool {
    v is Number || v is Str || v is Bool || v is PyNone
}

/// What equality returns where it is defined: exact value equality per
/// matching variant pair, and the null value equal only to itself.
pub open spec fn eq_spec(a: Value, b: Value) -> bool {
    match (a, b) {
        (Value::Number(x), Value::Number(y)) => float_eq_spec(x.as_float(), y.as_float()),
        (Value::Str(x), Value::Str(y)) => x@ == y@,
        (Value::Bool(x), Value::Bool(y)) => x == y,
        (Value::PyNone, Value::PyNone) => true,
        _ => false,
    }
}

/// Whether ordering is defined for the pair: only same-variant Number, Str
/// or Bool pairs.
pub open spec fn ord_defined(a: Value, b: Value) -> bool {
    ||| (a is Number && b is Number)
    ||| (a is Str && b is Str)
    ||| (a is Bool && b is Bool)
}

/// What strict order returns where it is defined: numeric order on
/// numbers, lexicographic order on strings, false before true on booleans.
pub open spec fn lt_spec(a: Value, b: Value) -> bool {
    match (a, b) {
        (Value::Number(x), Value::Number(y)) => float_lt_spec(x.as_float(), y.as_float()),
        (Value::Str(x), Value::Str(y)) => seq_lt(x@, y@),
        (Value::Bool(x), Value::Bool(y)) => !x && y,
        _ => false,
    }
}

impl Value {
    /// Float payloads, if any, are canonical.
    pub open spec fn num_wf(self) -> bool {
        match self {
            Value::Number(n) => n.wf(),
            _ => true,
        }
    }

    /// Truthiness: a number is false iff zero, a string or sequence iff
    /// empty, a boolean is itself, the null value always false; a class,
    /// object or function has no truth conversion.
    pub fn to_bool(&self, env: &Env) -> (r: Result<bool, RuntimeError>)
        requires
            self.wf(*env),
        ensures
            match r {
                Ok(v) => v == self.truth(*env) && self.truth_defined(),
                Err(e) => !self.truth_defined() && e is TypeMismatch,
            },
    {
        match self {
            Value::Number(n) => Ok(n.to_bool()),
            Value::Str(s) => Ok(!s.as_str().is_empty()),
            Value::Bool(b) => Ok(*b),
            Value::PyNone => Ok(false),
            Value::List(id) => Ok(env.lists[*id].to_bool()),
            Value::Tuple(id) => Ok(env.tuples[*id].list.len() != 0),
            _ => Err(RuntimeError::TypeMismatch),
        }
    }

    /// Which variants have a truth conversion.
    pub open spec fn truth_defined(self) -> bool {
        self is Number || self is Str || self is Bool || self is PyNone || self is List
            || self is Tuple
    }

    /// The truth value of a convertible variant.
    pub open spec fn truth(self, env: Env) -> bool {
        match self {
            Value::Number(n) => !n.is_zero(),
            Value::Str(s) => s@.len() != 0,
            Value::Bool(b) => b,
            Value::PyNone => false,
            Value::List(id) => env.lists@[id as int].list@.len() != 0,
            Value::Tuple(id) => env.tuples@[id as int].list@.len() != 0,
            _ => false,
        }
    }

    /// Logical NOT: the negated truth value, as a Bool.
    pub fn logical_not(&self, env: &Env) -> (r: Result<Value, RuntimeError>)
        requires
            self.wf(*env),
        ensures
            match r {
                Ok(v) => v == Value::Bool(!self.truth(*env)) && self.truth_defined(),
                Err(e) => !self.truth_defined() && e is TypeMismatch,
            },
    {
        match self.to_bool(env) {
            Ok(b) => Ok(Value::Bool(!b)),
            Err(e) => Err(e),
        }
    }

    /// Equality, defined per matching variant pair; the null value
    /// compares equal only to itself; any other cross-variant comparison
    /// is a type error.
    pub fn eq(&self, other: &Value) -> (r: Result<bool, RuntimeError>)
        requires
            self.num_wf(),
            other.num_wf(),
        ensures
            match r {
                Ok(v) => eq_defined(*self, *other) && v == eq_spec(*self, *other),
                Err(e) => !eq_defined(*self, *other) && e is TypeMismatch,
            },
    {
        match (self, other) {
            (Value::Number(x), Value::Number(y)) => Ok(x.eq_num(y)),
            (Value::Str(x), Value::Str(y)) => Ok(x.eq(y)),
            (Value::Bool(x), Value::Bool(y)) => Ok(x == y),
            (Value::PyNone, Value::PyNone) => Ok(true),
            (Value::PyNone, Value::Number(_)) => Ok(false),
            (Value::PyNone, Value::Str(_)) => Ok(false),
            (Value::PyNone, Value::Bool(_)) => Ok(false),
            (Value::Number(_), Value::PyNone) => Ok(false),
            (Value::Str(_), Value::PyNone) => Ok(false),
            (Value::Bool(_), Value::PyNone) => Ok(false),
            _ => Err(RuntimeError::TypeMismatch),
        }
    }

    /// Inequality: the negation of equality, over the same defined pairs.
    pub fn ne(&self, other: &Value) -> (r: Result<bool, RuntimeError>)
        requires
            self.num_wf(),
            other.num_wf(),
        ensures
            match r {
                Ok(v) => eq_defined(*self, *other) && v == !eq_spec(*self, *other),
                Err(e) => !eq_defined(*self, *other) && e is TypeMismatch,
            },
    {
        match self.eq(other) {
            Ok(v) => Ok(!v),
            Err(e) => Err(e),
        }
    }

    /// Strict less-than, defined only for same-variant Number, Str and
    /// Bool pairs.
    pub fn lt(&self, other: &Value) -> (r: Result<bool, RuntimeError>)
        requires
            self.num_wf(),
            other.num_wf(),
        ensures
            match r {
                Ok(v) => ord_defined(*self, *other) && v == lt_spec(*self, *other),
                Err(e) => !ord_defined(*self, *other) && e is TypeMismatch,
            },
    {
        match (self, other) {
            (Value::Number(x), Value::Number(y)) => Ok(x.lt_num(y)),
            (Value::Str(x), Value::Str(y)) => Ok(str_lt(x.as_str(), y.as_str())),
            (Value::Bool(x), Value::Bool(y)) => Ok(!*x && *y),
            _ => Err(RuntimeError::TypeMismatch),
        }
    }

    /// Less-or-equal: the complement of the reversed strict order.
    pub fn le(&self, other: &Value) -> (r: Result<bool, RuntimeError>)
        requires
            self.num_wf(),
            other.num_wf(),
        ensures
            match r {
                Ok(v) => ord_defined(*self, *other) && v == !lt_spec(*other, *self),
                Err(e) => !ord_defined(*self, *other) && e is TypeMismatch,
            },
    {
        match other.lt(self) {
            Ok(v) => Ok(!v),
            Err(e) => Err(e),
        }
    }

    /// Strict greater-than: the reversed strict order.
    pub fn gt(&self, other: &Value) -> (r: Result<bool, RuntimeError>)
        requires
            self.num_wf(),
            other.num_wf(),
        ensures
            match r {
                Ok(v) => ord_defined(*self, *other) && v == lt_spec(*other, *self),
                Err(e) => !ord_defined(*self, *other) && e is TypeMismatch,
            },
    {
        other.lt(self)
    }

    /// Greater-or-equal: the complement of the strict order.
    pub fn ge(&self, other: &Value) -> (r: Result<bool, RuntimeError>)
        requires
            self.num_wf(),
            other.num_wf(),
        ensures
            match r {
                Ok(v) => ord_defined(*self, *other) && v == !lt_spec(*self, *other),
                Err(e) => !ord_defined(*self, *other) && e is TypeMismatch,
            },
    {
        match self.lt(other) {
            Ok(v) => Ok(!v),
            Err(e) => Err(e),
        }
    }

    /// What addition demands: a Number pair inherits the numeric bound.
    pub open spec fn add_req(self, other: Value) -> bool {
        match (self, other) {
            (Value::Number(x), Value::Number(y)) => x.addsub_req(y, false),
            _ => true,
        }
    }

    /// Addition: numeric addition on a Number pair, concatenation on a Str
    /// pair, a type error on anything else.
    pub fn add(&self, other: &Value) -> (r: Result<Value, RuntimeError>)
        requires
            self.num_wf(),
            other.num_wf(),
            self.add_req(*other),
        ensures
            match (self, other) {
                (Value::Number(x), Value::Number(y)) => match r {
                    Ok(v) => v is Number && x.add_post(*y, Ok(v->Number_0)),
                    Err(e) => x.add_post(*y, Err(e)),
                },
                (Value::Str(x), Value::Str(y)) => match r {
                    Ok(v) => v is Str && v->Str_0@ == x@ + y@,
                    Err(_) => false,
                },
                _ => r == Err::<Value, RuntimeError>(RuntimeError::TypeMismatch),
            },
    {
        match (self, other) {
            (Value::Number(x), Value::Number(y)) => match x.add(y) {
                Ok(n) => Ok(Value::Number(n)),
                Err(e) => Err(e),
            },
            (Value::Str(x), Value::Str(y)) => {
                Ok(Value::Str(x.clone().concat(y.as_str())))
            },
            _ => Err(RuntimeError::TypeMismatch),
        }
    }

    /// What subtraction demands: a Number pair inherits the numeric bound.
    pub open spec fn sub_req(self, other: Value) -> bool {
        match (self, other) {
            (Value::Number(x), Value::Number(y)) => x.addsub_req(y, true),
            _ => true,
        }
    }

    /// Subtraction: numeric on a Number pair, a type error otherwise.
    pub fn sub(&self, other: &Value) -> (r: Result<Value, RuntimeError>)
        requires
            self.num_wf(),
            other.num_wf(),
            self.sub_req(*other),
        ensures
            match (self, other) {
                (Value::Number(x), Value::Number(y)) => match r {
                    Ok(v) => v is Number && x.sub_post(*y, Ok(v->Number_0)),
                    Err(e) => x.sub_post(*y, Err(e)),
                },
                _ => r == Err::<Value, RuntimeError>(RuntimeError::TypeMismatch),
            },
    {
        match (self, other) {
            (Value::Number(x), Value::Number(y)) => match x.sub(y) {
                Ok(n) => Ok(Value::Number(n)),
                Err(e) => Err(e),
            },
            _ => Err(RuntimeError::TypeMismatch),
        }
    }

    /// What multiplication demands: a Number pair inherits the numeric
    /// bound.
    pub open spec fn mul_req(self, other: Value) -> bool {
        match (self, other) {
            (Value::Number(x), Value::Number(y)) => x.mul_req(y),
            _ => true,
        }
    }

    /// Multiplication: numeric on a Number pair, a type error otherwise.
    pub fn mul(&self, other: &Value) -> (r: Result<Value, RuntimeError>)
        requires
            self.num_wf(),
            other.num_wf(),
            self.mul_req(*other),
        ensures
            match (self, other) {
                (Value::Number(x), Value::Number(y)) => match r {
                    Ok(v) => v is Number && x.mul_post(*y, Ok(v->Number_0)),
                    Err(e) => x.mul_post(*y, Err(e)),
                },
                _ => r == Err::<Value, RuntimeError>(RuntimeError::TypeMismatch),
            },
    {
        match (self, other) {
            (Value::Number(x), Value::Number(y)) => match x.mul(y) {
                Ok(n) => Ok(Value::Number(n)),
                Err(e) => Err(e),
            },
            _ => Err(RuntimeError::TypeMismatch),
        }
    }

    /// True division: always a Float on a Number pair, a value error on a
    /// zero divisor, a type error otherwise.
    pub fn div(&self, other: &Value) -> (r: Result<Value, RuntimeError>)
        requires
            self.num_wf(),
            other.num_wf(),
        ensures
            match (self, other) {
                (Value::Number(x), Value::Number(y)) => match r {
                    Ok(v) => v is Number && x.div_post(*y, Ok(v->Number_0)),
                    Err(e) => x.div_post(*y, Err(e)),
                },
                _ => r == Err::<Value, RuntimeError>(RuntimeError::TypeMismatch),
            },
    {
        match (self, other) {
            (Value::Number(x), Value::Number(y)) => match x.div(y) {
                Ok(n) => Ok(Value::Number(n)),
                Err(e) => Err(e),
            },
            _ => Err(RuntimeError::TypeMismatch),
        }
    }

    /// What remainder demands of a Number pair.
    pub open spec fn rem_req(self, other: Value) -> bool {
        match (self, other) {
            (Value::Number(x), Value::Number(y)) => x.rem_req(y),
            _ => true,
        }
    }

    /// Remainder: Integer pairs only, a type error otherwise.
    pub fn rem(&self, other: &Value) -> (r: Result<Value, RuntimeError>)
        requires
            self.num_wf(),
            other.num_wf(),
            self.rem_req(*other),
        ensures
            match (self, other) {
                (Value::Number(NumericType::Integer(a)), Value::Number(
                    NumericType::Integer(b),
                )) => r == Ok::<Value, RuntimeError>(Value::Number(NumericType::Integer(
                    crate::numeric_type::trunc_rem(*a as int, *b as int) as i32,
                ))),
                _ => r == Err::<Value, RuntimeError>(RuntimeError::TypeMismatch),
            },
    {
        match (self, other) {
            (Value::Number(x), Value::Number(y)) => match x.rem(y) {
                Ok(n) => Ok(Value::Number(n)),
                Err(e) => Err(e),
            },
            _ => Err(RuntimeError::TypeMismatch),
        }
    }

    /// Bitwise AND: Integer pairs only.
    pub fn bitand(&self, other: &Value) -> (r: Result<Value, RuntimeError>)
        ensures
            match (self, other) {
                (Value::Number(NumericType::Integer(a)), Value::Number(
                    NumericType::Integer(b),
                )) => r == Ok::<Value, RuntimeError>(Value::Number(NumericType::Integer(
                    *a & *b,
                ))),
                _ => r == Err::<Value, RuntimeError>(RuntimeError::TypeMismatch),
            },
    {
        match (self, other) {
            (Value::Number(x), Value::Number(y)) => match x.bitand(y) {
                Ok(n) => Ok(Value::Number(n)),
                Err(e) => Err(e),
            },
            _ => Err(RuntimeError::TypeMismatch),
        }
    }

    /// Bitwise OR: Integer pairs only.
    pub fn bitor(&self, other: &Value) -> (r: Result<Value, RuntimeError>)
        ensures
            match (self, other) {
                (Value::Number(NumericType::Integer(a)), Value::Number(
                    NumericType::Integer(b),
                )) => r == Ok::<Value, RuntimeError>(Value::Number(NumericType::Integer(
                    *a | *b,
                ))),
                _ => r == Err::<Value, RuntimeError>(RuntimeError::TypeMismatch),
            },
    {
        match (self, other) {
            (Value::Number(x), Value::Number(y)) => match x.bitor(y) {
                Ok(n) => Ok(Value::Number(n)),
                Err(e) => Err(e),
            },
            _ => Err(RuntimeError::TypeMismatch),
        }
    }

    /// Bitwise XOR: Integer pairs only.
    pub fn bitxor(&self, other: &Value) -> (r: Result<Value, RuntimeError>)
        ensures
            match (self, other) {
                (Value::Number(NumericType::Integer(a)), Value::Number(
                    NumericType::Integer(b),
                )) => r == Ok::<Value, RuntimeError>(Value::Number(NumericType::Integer(
                    *a ^ *b,
                ))),
                _ => r == Err::<Value, RuntimeError>(RuntimeError::TypeMismatch),
            },
    {
        match (self, other) {
            (Value::Number(x), Value::Number(y)) => match x.bitxor(y) {
                Ok(n) => Ok(Value::Number(n)),
                Err(e) => Err(e),
            },
            _ => Err(RuntimeError::TypeMismatch),
        }
    }

    /// What the shifts demand of a Number pair.
    pub open spec fn shift_req(self, other: Value) -> bool {
        match (self, other) {
            (Value::Number(x), Value::Number(y)) => x.shift_req(y),
            _ => true,
        }
    }

    /// Left shift: Integer pairs only.
    pub fn shl(&self, other: &Value) -> (r: Result<Value, RuntimeError>)
        requires
            self.shift_req(*other),
        ensures
            match (self, other) {
                (Value::Number(NumericType::Integer(a)), Value::Number(
                    NumericType::Integer(b),
                )) => r == Ok::<Value, RuntimeError>(Value::Number(NumericType::Integer(
                    *a << *b,
                ))),
                _ => r == Err::<Value, RuntimeError>(RuntimeError::TypeMismatch),
            },
    {
        match (self, other) {
            (Value::Number(x), Value::Number(y)) => match x.shl(y) {
                Ok(n) => Ok(Value::Number(n)),
                Err(e) => Err(e),
            },
            _ => Err(RuntimeError::TypeMismatch),
        }
    }

    /// Arithmetic right shift: Integer pairs only.
    pub fn shr(&self, other: &Value) -> (r: Result<Value, RuntimeError>)
        requires
            self.shift_req(*other),
        ensures
            match (self, other) {
                (Value::Number(NumericType::Integer(a)), Value::Number(
                    NumericType::Integer(b),
                )) => r == Ok::<Value, RuntimeError>(Value::Number(NumericType::Integer(
                    *a >> *b,
                ))),
                _ => r == Err::<Value, RuntimeError>(RuntimeError::TypeMismatch),
            },
    {
        match (self, other) {
            (Value::Number(x), Value::Number(y)) => match x.shr(y) {
                Ok(n) => Ok(Value::Number(n)),
                Err(e) => Err(e),
            },
            _ => Err(RuntimeError::TypeMismatch),
        }
    }

    /// What unary minus demands: an Integer payload must be negatable.
    pub open spec fn neg_req(self) -> bool {
        match self {
            Value::Number(NumericType::Integer(a)) => a != i32::MIN,
            _ => true,
        }
    }

    /// Unary minus: negates a Number; a Bool counts as its integer value;
    /// anything else is a type error.
    pub fn neg(&self) -> (r: Result<Value, RuntimeError>)
        requires
            self.num_wf(),
            self.neg_req(),
        ensures
            match self {
                Value::Number(n) => match r {
                    Ok(v) => v is Number && v->Number_0 == n.neg_spec(),
                    Err(_) => false,
                },
                Value::Bool(b) => r == Ok::<Value, RuntimeError>(Value::Number(
                    NumericType::Integer(if *b { -1i32 } else { 0i32 }),
                )),
                _ => r == Err::<Value, RuntimeError>(RuntimeError::TypeMismatch),
            },
    {
        match self {
            Value::Number(n) => Ok(Value::Number(n.neg())),
            Value::Bool(b) => Ok(Value::Number(NumericType::Integer(if *b { -1 } else { 0 }))),
            _ => Err(RuntimeError::TypeMismatch),
        }
    }

    /// Bitwise NOT: `~x == -x - 1` on an Integer; a Bool counts as its
    /// integer value; anything else is a type error.
    pub fn not(&self) -> (r: Result<Value, RuntimeError>)
        ensures
            match self {
                Value::Number(NumericType::Integer(a)) => r == Ok::<Value, RuntimeError>(
                    Value::Number(NumericType::Integer((-(*a as int) - 1) as i32)),
                ),
                Value::Bool(b) => r == Ok::<Value, RuntimeError>(Value::Number(
                    NumericType::Integer(if *b { -2i32 } else { -1i32 }),
                )),
                _ => r == Err::<Value, RuntimeError>(RuntimeError::TypeMismatch),
            },
    {
        match self {
            Value::Number(n) => match n.not() {
                Ok(m) => Ok(Value::Number(m)),
                Err(e) => Err(e),
            },
            Value::Bool(b) => Ok(Value::Number(NumericType::Integer(if *b { -2 } else { -1 }))),
            _ => Err(RuntimeError::TypeMismatch),
        }
    }
}

/// Clones a sequence of values element by element.
pub fn clone_values(vs: &Vec<Value>) -> (r: Vec<Value>)
    ensures
        r@ == vs@,
{
    let mut out: Vec<Value> = Vec::new();
    let mut i: usize = 0;
    while i < vs.len()
        invariant
            i <= vs@.len(),
            out@ == vs@.subrange(0, i as int),
        decreases vs@.len() - i,
    {
        out.push(vs[i].clone());
        proof {
            assert(out@ =~= vs@.subrange(0, i + 1));
        }
        i = i + 1;
    }
    proof {
        assert(out@ =~= vs@);
    }
    out
}

} // verus!
