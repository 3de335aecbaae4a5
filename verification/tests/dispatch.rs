//! Scope resolution, attribute assignment, object splitting and member
//! dispatch, including the module-vs-method calling convention.

use cannolib::attr_assign;
use cannolib::bind_value;
use cannolib::builtin;
use cannolib::call_member;
use cannolib::lookup_value;
use cannolib::split_object;
use cannolib::value::Builtin;
use cannolib::value::FuncRef;
use cannolib::value::Outcome;
use cannolib::Env;
use cannolib::NumericType;
use cannolib::RuntimeError;
use cannolib::Value;

fn integer(v: i32) -> Value {
    Value::Number(NumericType::Integer(v))
}

fn text(s: &str) -> Value {
    Value::Str(s.to_string())
}

fn push_frame(env: &mut Env) -> usize {
    let id = env.frames.len();
    env.frames.push(Vec::new());
    id
}

#[test]
fn lookup_finds_innermost_binding() {
    let mut env = Env::new();
    let outer = push_frame(&mut env);
    let inner = push_frame(&mut env);
    let scope = vec![outer, inner];

    bind_value(&mut env, &vec![outer], "x", integer(1));
    bind_value(&mut env, &scope, "x", integer(2));
    bind_value(&mut env, &vec![outer], "y", integer(3));

    assert!(lookup_value(&env, &scope, "x").unwrap().eq(&integer(2)).unwrap());
    assert!(lookup_value(&env, &scope, "y").unwrap().eq(&integer(3)).unwrap());
    match lookup_value(&env, &scope, "missing") {
        Err(RuntimeError::NameError(n)) => assert_eq!(n, "missing"),
        _ => panic!("an unbound name must raise a name error"),
    }
}

#[test]
fn rebinding_shadows_in_current_frame() {
    let mut env = Env::new();
    let f = push_frame(&mut env);
    let scope = vec![f];

    bind_value(&mut env, &scope, "n", integer(1));
    bind_value(&mut env, &scope, "n", integer(2));
    assert!(lookup_value(&env, &scope, "n").unwrap().eq(&integer(2)).unwrap());
}

fn make_counter(env: &mut Env) -> (usize, Value) {
    let tbl = vec!["__name__".to_string(), "count".to_string(), "bump".to_string()];
    let members = vec![
        text("counter"),
        Value::Undefined,
        Value::Function(FuncRef::External(11)),
    ];
    let class = env.alloc_class(tbl, members);
    let cid = match class {
        Value::Class(cid) => cid,
        _ => panic!("expected a class handle"),
    };
    let obj = env.alloc_object(
        cid,
        vec![text("counter"), integer(0), Value::Function(FuncRef::External(11))],
    );
    (cid, obj)
}

#[test]
fn attr_assign_overwrites_object_slot() {
    let mut env = Env::new();
    let (_, obj) = make_counter(&mut env);

    attr_assign(&mut env, obj.clone(), "count", integer(41)).unwrap();
    let members = match obj {
        Value::Object { members, .. } => members,
        _ => panic!("expected an object"),
    };
    assert!(env.objects[members][1].eq(&integer(41)).unwrap());

    match attr_assign(&mut env, obj.clone(), "total", integer(1)) {
        Err(RuntimeError::AttributeError(a)) => assert_eq!(a, "total"),
        _ => panic!("a missing attribute must raise an attribute error"),
    }
    assert!(matches!(
        attr_assign(&mut env, integer(3), "count", integer(1)),
        Err(RuntimeError::AttributeError(_))
    ));
}

#[test]
fn split_object_maps_members_to_aliases() {
    let mut env = Env::new();
    let (_, obj) = make_counter(&mut env);
    attr_assign(&mut env, obj.clone(), "count", integer(9)).unwrap();

    let picked = split_object(
        &env,
        obj,
        Some(vec![("count".to_string(), "c".to_string())]),
    )
    .unwrap();
    assert_eq!(picked.len(), 1);
    assert_eq!(picked[0].0, "c");
    assert!(picked[0].1.eq(&integer(9)).unwrap());

    assert!(matches!(
        split_object(&env, integer(1), Some(vec![])),
        Err(RuntimeError::TypeMismatch)
    ));
}

#[test]
fn str_split_makes_a_list() {
    let mut env = Env::new();
    let out = call_member(&mut env, text("a  b c"), "split", vec![], vec![]).unwrap();
    let v = match out {
        Outcome::Done(v) => v,
        _ => panic!("split must finish with a value"),
    };
    match builtin::py_str(&env, vec![v]).unwrap() {
        Value::Str(s) => assert_eq!(s, "['a', '', 'b', 'c']"),
        _ => panic!("str() must give a Str"),
    }
    assert!(matches!(
        call_member(&mut env, text("x"), "upper", vec![], vec![]),
        Err(RuntimeError::AttributeError(_))
    ));
}

#[test]
fn class_call_passes_no_receiver() {
    let mut env = Env::new();
    let tbl = vec!["sqrt".to_string()];
    let members = vec![Value::Function(FuncRef::Builtin(Builtin::Sqrt))];
    let class = env.alloc_class(tbl, members);

    match call_member(&mut env, class, "sqrt", vec![integer(4)], vec![]).unwrap() {
        Outcome::Invoke { func: FuncRef::Builtin(Builtin::Sqrt), args, .. } => {
            assert_eq!(args.len(), 1);
            assert!(args[0].eq(&integer(4)).unwrap());
        },
        _ => panic!("a class member call must resolve the bound function"),
    }

    let empty = env.alloc_class(vec![], vec![]);
    assert!(matches!(
        call_member(&mut env, empty, "nope", vec![], vec![]),
        Err(RuntimeError::AttributeError(_))
    ));
}

#[test]
fn object_call_prepends_receiver() {
    let mut env = Env::new();
    let (_, obj) = make_counter(&mut env);

    match call_member(&mut env, obj.clone(), "bump", vec![integer(1)], vec![]).unwrap() {
        Outcome::Invoke { func: FuncRef::External(11), args, .. } => {
            assert_eq!(args.len(), 2);
            assert!(matches!(args[0], Value::Object { .. }));
            assert!(args[1].eq(&integer(1)).unwrap());
        },
        _ => panic!("a bound method call must prepend the receiver"),
    }
}

#[test]
fn module_object_call_omits_receiver() {
    let mut env = Env::new();
    let tbl = vec!["__module__".to_string(), "f".to_string()];
    let class = env.alloc_class(
        tbl,
        vec![Value::Bool(true), Value::Function(FuncRef::External(3))],
    );
    let cid = match class {
        Value::Class(cid) => cid,
        _ => panic!("expected a class handle"),
    };
    let obj = env.alloc_object(
        cid,
        vec![Value::Bool(true), Value::Function(FuncRef::External(3))],
    );

    match call_member(&mut env, obj, "f", vec![integer(1)], vec![]).unwrap() {
        Outcome::Invoke { func: FuncRef::External(3), args, .. } => {
            assert_eq!(args.len(), 1);
            assert!(args[0].eq(&integer(1)).unwrap());
        },
        _ => panic!("a module member call must omit the receiver"),
    }
}

#[test]
fn math_module_exposes_sqrt() {
    let mut env = Env::new();
    let math = builtin::math::import_module(&mut env);
    match call_member(&mut env, math, "sqrt", vec![integer(9)], vec![]).unwrap() {
        Outcome::Invoke { func: FuncRef::Builtin(Builtin::Sqrt), .. } => {},
        _ => panic!("the math module must expose its square root"),
    }
}

#[test]
fn sys_module_exposes_argv_and_exit() {
    let mut env = Env::new();
    let sys = builtin::sys::import_module(
        &mut env,
        vec!["prog".to_string(), "arg".to_string()],
    );
    let cid = match sys {
        Value::Class(cid) => cid,
        _ => panic!("expected a class handle"),
    };
    assert_eq!(env.classes[cid].tbl.len(), 4);
    match &env.classes[cid].members[1] {
        Value::List(id) => {
            assert_eq!(env.lists[*id].list.len(), 2);
            assert!(env.lists[*id].list[0].eq(&text("prog")).unwrap());
        },
        _ => panic!("argv must be a list"),
    }
    match call_member(&mut env, sys, "exit", vec![integer(2)], vec![]).unwrap() {
        Outcome::Invoke { func: FuncRef::Builtin(Builtin::Exit), args, .. } => {
            assert!(args[0].eq(&integer(2)).unwrap());
        },
        _ => panic!("the sys module must expose exit"),
    }
}

#[test]
fn unsupported_receivers_fail() {
    let mut env = Env::new();
    assert!(matches!(
        call_member(&mut env, integer(1), "anything", vec![], vec![]),
        Err(RuntimeError::AttributeError(_))
    ));
    assert!(matches!(
        call_member(&mut env, Value::PyNone, "anything", vec![], vec![]),
        Err(RuntimeError::AttributeError(_))
    ));
}
