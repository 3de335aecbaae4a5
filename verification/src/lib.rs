//! Runtime support for statically compiled programs that need the value
//! semantics of a dynamically typed scripting language: tagged values,
//! operator coercion, sequence slicing, scope-chain name resolution and
//! class/object attribute dispatch.

pub mod builtin;
pub mod error;
pub mod floatnum;
pub mod iowrapper;
pub mod list_type;
pub mod numeric_type;
pub mod strconv;
pub mod tuple_type;
pub mod value;

pub use error::RuntimeError;
pub use iowrapper::IOWrapper;
pub use list_type::ListType;
pub use numeric_type::NumericType;
pub use tuple_type::TupleType;
pub use value::Env;
pub use value::Value;

use vstd::prelude::*;
use vstd::string::StrSliceExecFns;

use crate::iowrapper::FileState;
use crate::value::FuncRef;
use crate::value::HostRequest;
use crate::value::Outcome;
use crate::value::str_eq;

verus! {

/// Two environments hold the same storage, component by component; the
/// observation surviving an in-place borrow that wrote nothing new.
pub open spec fn env_same(e1: Env, e2: Env) -> bool {
    &&& e1.lists@ == e2.lists@
    &&& e1.tuples@ == e2.tuples@
    &&& e1.classes@ == e2.classes@
    &&& e1.objects@ == e2.objects@
    &&& e1.frames@ == e2.frames@
    &&& e1.files@ == e2.files@
}

/// The binding a scope frame carries for a name: the latest one wins.
pub open spec fn frame_lookup(f: Seq<(String, Value)>, name: Seq<char>) -> Option<Value>
    decreases f.len(),
{
    if f.len() == 0 {
        None
    } else if f.last().0@ == name {
        Some(f.last().1)
    } else {
        frame_lookup(f.drop_last(), name)
    }
}

/// Every frame handle of a scope chain names a frame of the environment.
pub open spec fn scope_wf(env: Env, scope: Seq<usize>) -> bool {
    forall|i: int| 0 <= i < scope.len() ==> (#[trigger] scope[i]) < env.frames@.len()
}

/// The innermost binding of a name along the scope chain: frames are
/// scanned from the last, innermost one to the outermost.
pub open spec fn scope_lookup(env: Env, scope: Seq<usize>, name: Seq<char>) -> Option<Value>
    decreases scope.len(),
{
    if scope.len() == 0 {
        None
    } else {
        match frame_lookup(env.frames@[scope.last() as int]@, name) {
            Some(v) => Some(v),
            None => scope_lookup(env, scope.drop_last(), name),
        }
    }
}

/// Looks a name up along the scope chain, innermost frame first, and
/// hands back the first binding; an unbound name is a name error carrying
/// the name.
pub fn lookup_value(env: &Env, scope: &Vec<usize>, name: &str) -> (r: Result<
    Value,
    RuntimeError,
>)
    requires
        scope_wf(*env, scope@),
    ensures
        match r {
            Ok(v) => scope_lookup(*env, scope@, name@) == Some(v),
            Err(e) => {
                &&& scope_lookup(*env, scope@, name@) is None
                &&& e is NameError && e->NameError_0@ == name@
            },
        },
{
    let mut i: usize = scope.len();
    proof {
        assert(scope@.subrange(0, scope@.len() as int) =~= scope@);
    }
    while i > 0
        invariant
            i <= scope@.len(),
            scope_wf(*env, scope@),
            scope_lookup(*env, scope@, name@) == scope_lookup(
                *env,
                scope@.subrange(0, i as int),
                name@,
            ),
        decreases i,
    {
        proof {
            assert(scope@.subrange(0, i as int).last() == scope@[i - 1]);
            assert(scope@.subrange(0, i as int).drop_last() =~= scope@.subrange(0, i - 1));
        }
        let fid: usize = scope[i - 1];
        match frame_get(&env.frames[fid], name) {
            Some(v) => { return Ok(v) },
            None => {},
        }
        i = i - 1;
    }
    Err(RuntimeError::NameError(name.to_owned()))
}

/// Looks a name up in one frame, latest binding first.
fn frame_get(f: &Vec<(String, Value)>, name: &str) -> (r: Option<Value>)
    ensures
        r == frame_lookup(f@, name@),
{
    let mut i: usize = f.len();
    proof {
        assert(f@.subrange(0, f@.len() as int) =~= f@);
    }
    while i > 0
        invariant
            i <= f@.len(),
            frame_lookup(f@, name@) == frame_lookup(f@.subrange(0, i as int), name@),
        decreases i,
    {
        proof {
            assert(f@.subrange(0, i as int).last() == f@[i - 1]);
            assert(f@.subrange(0, i as int).drop_last() =~= f@.subrange(0, i - 1));
        }
        if str_eq(f[i - 1].0.as_str(), name) {
            return Some(f[i - 1].1.clone());
        }
        i = i - 1;
    }
    None
}

/// Binds a name in the current, innermost frame, creating or shadowing
/// it.  Attribute assignment is a different operation: it mutates an
/// object's slot rather than rebinding a scope name.
pub fn bind_value(env: &mut Env, scope: &Vec<usize>, name: &str, v: Value)
    requires
        old(env).wf(),
        scope_wf(*old(env), scope@),
        scope@.len() > 0,
        v.wf(*old(env)),
    ensures
        final(env).wf(),
        scope_wf(*final(env), scope@),
        final(env).frames@ == old(env).frames@.update(
            scope@.last() as int,
            final(env).frames@[scope@.last() as int],
        ),
        final(env).frames@[scope@.last() as int]@ == old(env).frames@[
            scope@.last() as int
        ]@.push((final(env).frames@[scope@.last() as int]@.last().0, v)),
        final(env).frames@[scope@.last() as int]@.last().0@ == name@,
        frame_lookup(final(env).frames@[scope@.last() as int]@, name@) == Some(v),
        final(env).lists == old(env).lists,
        final(env).tuples == old(env).tuples,
        final(env).classes == old(env).classes,
        final(env).objects == old(env).objects,
        final(env).files == old(env).files,
{
    let fid: usize = scope[scope.len() - 1];
    let ghost e1 = *env;
    let frame = &mut env.frames[fid];
    frame.push((name.to_owned(), v));
    proof {
        assert(env.frames@ =~= e1.frames@.update(fid as int, env.frames@[fid as int]));
        assert(crate::value::env_shape_le(e1, *env));
        assert forall|i: int, j: int|
            0 <= i < env.frames@.len() && 0 <= j < env.frames@[i]@.len() implies (
        #[trigger] env.frames@[i]@[j]).1.wf(e1) by {
            if i == fid as int && j == env.frames@[i]@.len() - 1 {
            } else {
                assert(env.frames@[i]@[j] == e1.frames@[i]@[j]);
            }
        }
        crate::value::lemma_env_wf_from(e1, *env);
    }
}

/// The slot index a schema assigns to a name: the first position whose
/// name matches.
pub open spec fn slot_of(tbl: Seq<String>, name: Seq<char>) -> Option<int>
    decreases tbl.len(),
{
    if tbl.len() == 0 {
        None
    } else if tbl[0]@ == name {
        Some(0)
    } else {
        match slot_of(tbl.skip(1), name) {
            Some(i) => Some(i + 1),
            None => None,
        }
    }
}

/// Finds the slot a schema assigns to a name.
fn find_slot(tbl: &Vec<String>, name: &str) -> (r: Option<usize>)
    ensures
        match r {
            Some(i) => slot_of(tbl@, name@) == Some(i as int) && i < tbl@.len(),
            None => slot_of(tbl@, name@) is None,
        },
{
    let mut i: usize = 0;
    proof {
        assert(tbl@.skip(0) =~= tbl@);
    }
    while i < tbl.len()
        invariant
            i <= tbl@.len(),
            slot_of(tbl@, name@) == match slot_of(tbl@.skip(i as int), name@) {
                Some(k) => Some(i + k),
                None => None::<int>,
            },
        decreases tbl@.len() - i,
    {
        proof {
            assert(tbl@.skip(i as int)[0] == tbl@[i as int]);
            assert(tbl@.skip(i as int).skip(1) =~= tbl@.skip(i + 1));
        }
        if str_eq(tbl[i].as_str(), name) {
            return Some(i);
        }
        i = i + 1;
    }
    proof {
        assert(tbl@.skip(i as int).len() == 0);
    }
    None
}

/// Overwrites the slot `attr` names in the object's own member sequence.
/// Only an Object can take an attribute assignment, and the attribute
/// must exist in its class's schema.
pub fn attr_assign(env: &mut Env, dest: Value, attr: &str, src: Value) -> (r: Result<
    (),
    RuntimeError,
>)
    requires
        old(env).wf(),
        dest.wf(*old(env)),
        src.wf(*old(env)),
    ensures
        final(env).wf(),
        match r {
            Ok(()) => {
                &&& dest is Object
                &&& ({
                    let cid = dest->Object_class as int;
                    let oid = dest->Object_members as int;
                    let n = slot_of(old(env).classes@[cid].tbl@, attr@)->Some_0;
                    &&& slot_of(old(env).classes@[cid].tbl@, attr@) is Some
                    &&& final(env).objects@ == old(env).objects@.update(
                        oid,
                        final(env).objects@[oid],
                    )
                    &&& final(env).objects@[oid]@ == old(env).objects@[oid]@.update(n, src)
                })
                &&& final(env).lists == old(env).lists
                &&& final(env).tuples == old(env).tuples
                &&& final(env).classes == old(env).classes
                &&& final(env).frames == old(env).frames
                &&& final(env).files == old(env).files
            },
            Err(e) => {
                &&& *final(env) == *old(env)
                &&& e is AttributeError && e->AttributeError_0@ == attr@
                &&& (dest is Object ==> slot_of(
                    old(env).classes@[dest->Object_class as int].tbl@,
                    attr@,
                ) is None)
            },
        },
{
    match dest {
        Value::Object { class, members } => {
            let n = match find_slot(&env.classes[class].tbl, attr) {
                Some(n) => n,
                None => { return Err(RuntimeError::AttributeError(attr.to_owned())) },
            };
            let ghost e1 = *env;
            let slot = &mut env.objects[members];
            let elem = &mut slot[n];
            *elem = src;
            proof {
                assert(env.objects@[members as int]@ =~= e1.objects@[members as int]@.update(
                    n as int,
                    src,
                ));
                assert(env.objects@ =~= e1.objects@.update(
                    members as int,
                    env.objects@[members as int],
                ));
                assert(crate::value::env_shape_le(e1, *env));
                assert forall|i: int, j: int|
                    0 <= i < env.objects@.len() && 0 <= j < env.objects@[i]@.len() implies (
                #[trigger] env.objects@[i]@[j]).wf(e1) by {
                    if i == members as int && j == n as int {
                    } else {
                        assert(env.objects@[i]@[j] == e1.objects@[i]@[j]);
                    }
                }
                crate::value::lemma_env_wf_from(e1, *env);
            }
            Ok(())
        },
        _ => Err(RuntimeError::AttributeError(attr.to_owned())),
    }
}

/// Takes an object apart into named bindings: each requested member is
/// looked up in the object's schema and delivered under its alias, ready
/// to merge into a scope frame.
pub fn split_object(env: &Env, object: Value, membs: Option<Vec<(String, String)>>) -> (r:
    Result<Vec<(String, Value)>, RuntimeError>)
    requires
        env.wf(),
        object.wf(*env),
    ensures
        match r {
            Ok(map) => {
                &&& object is Object
                &&& membs is Some
                &&& map@.len() == membs->Some_0@.len()
                &&& (forall|j: int|
                    0 <= j < map@.len() ==> (#[trigger] map@[j]).0@ == membs->Some_0@[j].1@
                        && slot_of(
                        env.classes@[object->Object_class as int].tbl@,
                        membs->Some_0@[j].0@,
                    ) is Some && map@[j].1 == env.objects@[object->Object_members as int]@[
                        slot_of(
                            env.classes@[object->Object_class as int].tbl@,
                            membs->Some_0@[j].0@,
                        )->Some_0
                    ])
            },
            Err(e) => {
                &&& (!(object is Object) ==> e is TypeMismatch)
                &&& (object is Object && membs is None ==> e is TypeMismatch)
                &&& (object is Object && membs is Some ==> e is AttributeError && exists|j: int|
                    0 <= j < membs->Some_0@.len() && slot_of(
                        env.classes@[object->Object_class as int].tbl@,
                        (#[trigger] membs->Some_0@[j]).0@,
                    ) is None && e->AttributeError_0@ == membs->Some_0@[j].0@ && (forall|
                        k: int,
                    |
                        0 <= k < j ==> slot_of(
                            env.classes@[object->Object_class as int].tbl@,
                            (#[trigger] membs->Some_0@[k]).0@,
                        ) is Some))
            },
        },
        ((object is Object && membs is Some && forall|j: int|
            0 <= j < membs->Some_0@.len() ==> slot_of(
                env.classes@[object->Object_class as int].tbl@,
                (#[trigger] membs->Some_0@[j]).0@,
            ) is Some) <==> r is Ok),
{
    let (class, members) = match object {
        Value::Object { class, members } => (class, members),
        _ => { return Err(RuntimeError::TypeMismatch) },
    };
    let wanted: &Vec<(String, String)> = match &membs {
        Some(m) => m,
        None => { return Err(RuntimeError::TypeMismatch) },
    };
    proof {
        assert(membs is Some && membs->Some_0 == *wanted);
    }
    let mut map: Vec<(String, Value)> = Vec::new();
    let mut j: usize = 0;
    while j < wanted.len()
        invariant
            j <= wanted@.len(),
            env.wf(),
            membs is Some && membs->Some_0 == *wanted,
            object is Object && object->Object_class == class && object->Object_members
                == members,
            object.wf(*env),
            map@.len() == j,
            forall|k: int|
                0 <= k < j ==> (#[trigger] map@[k]).0@ == wanted@[k].1@ && slot_of(
                    env.classes@[class as int].tbl@,
                    wanted@[k].0@,
                ) is Some && map@[k].1 == env.objects@[members as int]@[
                    slot_of(env.classes@[class as int].tbl@, wanted@[k].0@)->Some_0
                ],
        decreases wanted@.len() - j,
    {
        let n = match find_slot(&env.classes[class].tbl, wanted[j].0.as_str()) {
            Some(n) => n,
            None => {
                proof {
                    assert forall|k: int| 0 <= k < j implies slot_of(
                        env.classes@[class as int].tbl@,
                        (#[trigger] membs->Some_0@[k]).0@,
                    ) is Some by {
                        assert(map@[k].0@ == wanted@[k].1@);
                        assert(membs->Some_0@[k] == wanted@[k]);
                    }
                    assert(membs->Some_0@[j as int] == wanted@[j as int]);
                    assert(slot_of(
                        env.classes@[class as int].tbl@,
                        membs->Some_0@[j as int].0@,
                    ) is None);
                }
                return Err(RuntimeError::AttributeError(wanted[j].0.clone()));
            },
        };
        map.push((wanted[j].1.clone(), env.objects[members][n].clone()));
        j = j + 1;
    }
    proof {
        assert forall|a: int| 0 <= a < membs->Some_0@.len() implies slot_of(
            env.classes@[class as int].tbl@,
            (#[trigger] membs->Some_0@[a]).0@,
        ) is Some by {
            assert(map@[a].0@ == wanted@[a].1@);
            assert(membs->Some_0@[a] == wanted@[a]);
        }
    }
    Ok(map)
}

/// The index of the first space, or the length when there is none.
pub open spec fn find_sp(t: Seq<char>) -> int
    decreases t.len(),
{
    if t.len() == 0 {
        0
    } else if t[0] == ' ' {
        0
    } else {
        1 + find_sp(t.skip(1))
    }
}

/// The pieces of a text split on every single space: consecutive spaces
/// yield empty pieces, and the empty text yields one empty piece.
pub open spec fn split_spaces(s: Seq<char>) -> Seq<Seq<char>>
    decreases s.len(),
{
    let p = find_sp(s);
    if 0 <= p < s.len() {
        seq![s.take(p)].add(split_spaces(s.skip(p + 1)))
    } else {
        seq![s]
    }
}

/// Splits a string on every single space.
fn split_spaces_exec(s: &str, from: usize) -> (r: Vec<String>)
    requires
        from <= s@.len(),
    ensures
        r@.len() == split_spaces(s@.skip(from as int)).len(),
        forall|i: int|
            0 <= i < r@.len() ==> (#[trigger] r@[i])@ == split_spaces(
                s@.skip(from as int),
            )[i],
    decreases s@.len() - from,
{
    let n = s.unicode_len();
    let ghost tail = s@.skip(from as int);
    let mut p: usize = from;
    proof {
        assert(tail.skip(0) =~= tail);
    }
    while p < n && s.get_char(p) != ' '
        invariant
            from <= p <= n,
            n == s@.len(),
            tail == s@.skip(from as int),
            find_sp(tail) == p - from + find_sp(tail.skip(p - from)),
        decreases n - p,
    {
        proof {
            assert(tail.skip(p - from)[0] == s@[p as int]);
            assert(tail.skip(p - from).skip(1) =~= tail.skip(p + 1 - from));
        }
        p = p + 1;
    }
    proof {
        if p < n {
            assert(tail.skip(p - from)[0] == s@[p as int]);
        }
        assert(find_sp(tail) == p - from);
    }
    let piece = s.substring_char(from, p).to_owned();
    proof {
        if p < n {
            assert(tail.take(p - from) =~= s@.subrange(from as int, p as int));
        } else {
            assert(tail =~= s@.subrange(from as int, p as int));
        }
    }
    if p < n {
        let mut rest = split_spaces_exec(s, p + 1);
        let ghost rest0 = rest@;
        let mut out: Vec<String> = Vec::new();
        out.push(piece);
        out.append(&mut rest);
        proof {
            assert(s@.skip(p + 1) =~= tail.skip(p + 1 - from));
            assert(out@ =~= seq![out@[0]].add(rest0));
        }
        out
    } else {
        let mut out: Vec<String> = Vec::new();
        out.push(piece);
        out
    }
}

/// Whether the object's schema marks it a module: a `__module__` slot
/// holding a true Bool.  A module-backed object takes no implicit
/// receiver on method calls.
pub open spec fn module_flag(env: Env, cid: int, oid: int) -> bool {
    match slot_of(env.classes@[cid].tbl@, "__module__"@) {
        Some(m) => env.objects@[oid]@[m] is Bool && env.objects@[oid]@[m]->Bool_0,
        None => false,
    }
}

/// What resolving `attr` on a Class or the schema of an Object produced.
pub open spec fn resolved_member(env: Env, cid: int, members: Seq<Value>, attr: Seq<char>) ->
    Value {
    members[slot_of(env.classes@[cid].tbl@, attr)->Some_0]
}

/// Aliasing: a copy of a list value is a second handle to the same
/// backing storage, so appending one element through the copy grows the
/// length observed through the original by one.  `e2` is the environment
/// after the append performed through `b`, a clone of `a`.
pub proof fn lemma_alias_append(e1: Env, e2: Env, a: Value, b: Value, x: Value)
    requires
        a is List,
        b == a,
        a.wf(e1),
        e2.lists@[b->List_0 as int].list@ == e1.lists@[b->List_0 as int].list@.push(x),
    ensures
        e2.lists@[a->List_0 as int].list@.len() == e1.lists@[a->List_0 as int].list@.len()
            + 1,
{
}

/// Calls a member of a value, polymorphic over the receiver's variant.
///
/// A Str has a fixed method set (whitespace split into a fresh List); a
/// List delegates to its own methods; a Class resolves the attribute in
/// its slot schema and hands the bound function over with the arguments
/// untouched, the module calling convention; an Object resolves through
/// its class's schema and, unless the schema marks a module, prepends the
/// receiver to the arguments, the bound-method convention; a stream
/// handle knows `close`.  Anything else is an attribute error naming the
/// receiver's attribute.
pub fn call_member(
    env: &mut Env,
    value: Value,
    attr: &str,
    args: Vec<Value>,
    kwargs: Vec<(String, Value)>,
) -> (r: Result<Outcome, RuntimeError>)
    requires
        old(env).wf(),
        value.wf(*old(env)),
        forall|i: int| 0 <= i < args@.len() ==> (#[trigger] args@[i]).wf(*old(env)),
    ensures
        final(env).wf(),
        match value {
            Value::Str(s) => {
                if attr@ == "split"@ {
                    match r {
                        Ok(o) => {
                            &&& o is Done && o->Done_0 is List
                            &&& (o->Done_0->List_0 as int) == old(env).lists@.len() as int
                            &&& final(env).lists@.len() == old(env).lists@.len() + 1
                            &&& ({
                                let out = final(env).lists@[old(env).lists@.len() as int].list@;
                                &&& out.len() == split_spaces(s@).len()
                                &&& (forall|j: int|
                                    0 <= j < out.len() ==> (#[trigger] out[j]) is Str
                                        && out[j]->Str_0@ == split_spaces(s@)[j])
                            })
                            &&& (forall|i: int|
                                0 <= i < old(env).lists@.len() ==> final(env).lists@[i] == old(env).lists@[i])
                            &&& final(env).tuples == old(env).tuples
                            &&& final(env).classes == old(env).classes
                            &&& final(env).objects == old(env).objects
                            &&& final(env).frames == old(env).frames
                            &&& final(env).files == old(env).files
                        },
                        Err(_) => false,
                    }
                } else {
                    r matches Err(e) && e is AttributeError && e->AttributeError_0@ == attr@
                        && *final(env) == *old(env)
                }
            },
            Value::List(id) => {
                if attr@ == "append"@ {
                    if args@.len() == 1 {
                        r == Ok::<Outcome, RuntimeError>(Outcome::Done(Value::PyNone))
                            && final(env).lists@ == old(env).lists@.update(
                            id as int,
                            final(env).lists@[id as int],
                        ) && final(env).lists@[id as int].list@ == old(env).lists@[id as int].list@.push(args@[0]) && final(env).tuples == old(env).tuples && final(env).classes == old(env).classes && final(env).objects
                            == old(env).objects && final(env).frames == old(env).frames
                            && final(env).files == old(env).files
                    } else {
                        r == Err::<Outcome, RuntimeError>(RuntimeError::ArityError)
                            && env_same(*old(env), *final(env))
                    }
                } else {
                    r matches Err(e) && e is AttributeError && e->AttributeError_0@ == attr@
                        && env_same(*old(env), *final(env))
                }
            },
            Value::Class(cid) => {
                &&& *final(env) == *old(env)
                &&& match slot_of(old(env).classes@[cid as int].tbl@, attr@) {
                    Some(n) => match old(env).classes@[cid as int].members@[n] {
                        Value::Function(f) => r matches Ok(o) && o matches Outcome::Invoke {
                            func,
                            args: a,
                            kwargs: k,
                        } && func == f && a@ == args@ && k@ == kwargs@,
                        _ => r == Err::<Outcome, RuntimeError>(RuntimeError::TypeMismatch),
                    },
                    None => r matches Err(e) && e is AttributeError && e->AttributeError_0@
                        == attr@,
                }
            },
            Value::Object { class, members } => {
                &&& *final(env) == *old(env)
                &&& match slot_of(old(env).classes@[class as int].tbl@, attr@) {
                    Some(n) => match old(env).objects@[members as int]@[n] {
                        Value::Function(f) => r matches Ok(o) && o matches Outcome::Invoke {
                            func,
                            args: a,
                            kwargs: k,
                        } && func == f && k@ == kwargs@ && (if module_flag(
                            *old(env),
                            class as int,
                            members as int,
                        ) {
                            a@ == args@
                        } else {
                            a@ == seq![value].add(args@)
                        }),
                        _ => r == Err::<Outcome, RuntimeError>(RuntimeError::TypeMismatch),
                    },
                    None => r matches Err(e) && e is AttributeError && e->AttributeError_0@
                        == attr@,
                }
            },
            Value::TextIOWrapper(w) => {
                if attr@ == "close"@ {
                    match w {
                        IOWrapper::File(id) => r matches Ok(o) && o matches Outcome::Effect(
                            v,
                            HostRequest::CloseFile { file },
                        ) && v is PyNone && file == id && final(env).files@ == old(env).files@.update(
                            id as int,
                            FileState { closed: true, ..old(env).files@[id as int] },
                        ) && final(env).lists == old(env).lists && final(env).tuples == old(env).tuples && final(env).classes == old(env).classes && final(env).objects
                            == old(env).objects && final(env).frames == old(env).frames,
                        _ => r == Ok::<Outcome, RuntimeError>(Outcome::Done(Value::PyNone))
                            && *final(env) == *old(env),
                    }
                } else {
                    r matches Err(e) && e is AttributeError && e->AttributeError_0@ == attr@
                        && *final(env) == *old(env)
                }
            },
            _ => r matches Err(e) && e is AttributeError && e->AttributeError_0@ == attr@
                && *final(env) == *old(env),
        },
{
    match &value {
        Value::Str(s) => {
            if str_eq(attr, "split") {
                let pieces = split_spaces_exec(s.as_str(), 0);
                let mut items: Vec<Value> = Vec::new();
                let mut i: usize = 0;
                proof {
                    assert(s@.skip(0) =~= s@);
                }
                while i < pieces.len()
                    invariant
                        *env == *old(env),
                        env.wf(),
                        i <= pieces@.len(),
                        items@.len() == i,
                        forall|j: int|
                            0 <= j < pieces@.len() ==> (#[trigger] pieces@[j])@ == split_spaces(
                                s@,
                            )[j],
                        pieces@.len() == split_spaces(s@).len(),
                        forall|j: int|
                            0 <= j < i ==> (#[trigger] items@[j]) is Str && items@[j]->Str_0@
                                == split_spaces(s@)[j],
                    decreases pieces@.len() - i,
                {
                    items.push(Value::Str(pieces[i].clone()));
                    i = i + 1;
                }
                proof {
                    assert forall|j: int|
                        0 <= j < items@.len() implies (#[trigger] items@[j]).wf(*env) by {}
                }
                Ok(Outcome::Done(env.alloc_list(items)))
            } else {
                Err(RuntimeError::AttributeError(attr.to_owned()))
            }
        },
        Value::List(id) => {
            let ghost e1 = *env;
            let lst = &mut env.lists[*id];
            let res = lst.call(attr, args);
            proof {
                assert(env.lists@ =~= e1.lists@.update(*id as int, env.lists@[*id as int]));
                if !(attr@ == "append"@) || args@.len() != 1 {
                    assert(env.lists@ =~= e1.lists@);
                }
                assert(crate::value::env_shape_le(e1, *env));
                assert forall|i: int, j: int|
                    0 <= i < env.lists@.len() && 0 <= j < env.lists@[i].list@.len() implies (
                #[trigger] env.lists@[i].list@[j]).wf(e1) by {
                    if i == *id as int {
                        if attr@ == "append"@ && args@.len() == 1 && j == env.lists@[
                            i
                        ].list@.len() - 1 {
                        } else {
                            assert(env.lists@[i].list@[j] == e1.lists@[i].list@[j]);
                        }
                    } else {
                        assert(env.lists@[i].list@[j] == e1.lists@[i].list@[j]);
                    }
                }
                crate::value::lemma_env_wf_from(e1, *env);
            }
            match res {
                Ok(v) => Ok(Outcome::Done(v)),
                Err(e) => Err(e),
            }
        },
        Value::Class(cid) => {
            let n = match find_slot(&env.classes[*cid].tbl, attr) {
                Some(n) => n,
                None => { return Err(RuntimeError::AttributeError(attr.to_owned())) },
            };
            match &env.classes[*cid].members[n] {
                Value::Function(f) => Ok(Outcome::Invoke { func: *f, args, kwargs }),
                _ => Err(RuntimeError::TypeMismatch),
            }
        },
        Value::Object { class, members } => {
            let n = match find_slot(&env.classes[*class].tbl, attr) {
                Some(n) => n,
                None => { return Err(RuntimeError::AttributeError(attr.to_owned())) },
            };
            let func = env.objects[*members][n].clone();
            let is_module: bool = match find_slot(&env.classes[*class].tbl, "__module__") {
                Some(m) => match &env.objects[*members][m] {
                    Value::Bool(b) => *b,
                    _ => false,
                },
                None => false,
            };
            match func {
                Value::Function(f) => {
                    if is_module {
                        Ok(Outcome::Invoke { func: f, args, kwargs })
                    } else {
                        let mut amended: Vec<Value> = Vec::new();
                        amended.push(value.clone());
                        let mut rest = args;
                        amended.append(&mut rest);
                        proof {
                            assert(amended@ =~= seq![value].add(args@));
                        }
                        Ok(Outcome::Invoke { func: f, args: amended, kwargs })
                    }
                },
                _ => Err(RuntimeError::TypeMismatch),
            }
        },
        Value::TextIOWrapper(w) => w.call(env, attr, args, kwargs),
        _ => Err(RuntimeError::AttributeError(attr.to_owned())),
    }
}

} // verus!
