//! The builtin library: stringification, conversions, reductions,
//! enumeration, printing and the file model.

use cannolib::builtin;
use cannolib::builtin::call_builtin;
use cannolib::floatnum::FloatNum;
use cannolib::value::Builtin;
use cannolib::value::HostRequest;
use cannolib::value::Outcome;
use cannolib::Env;
use cannolib::NumericType;
use cannolib::RuntimeError;
use cannolib::Value;

fn integer(v: i32) -> Value {
    Value::Number(NumericType::Integer(v))
}

fn float(mant: i64, exp: i32) -> Value {
    Value::Number(NumericType::Float(FloatNum { mant, exp }))
}

fn text(s: &str) -> Value {
    Value::Str(s.to_string())
}

fn rendered(env: &Env, v: Value) -> String {
    match builtin::py_str(env, vec![v]).unwrap() {
        Value::Str(s) => s,
        _ => panic!("str() must give a Str"),
    }
}

#[test]
fn py_str_renders_scalars() {
    let env = Env::new();

    assert_eq!(rendered(&env, integer(42)), "42");
    assert_eq!(rendered(&env, integer(-5)), "-5");
    assert_eq!(rendered(&env, float(25, -1)), "2.5");
    assert_eq!(rendered(&env, float(2, 0)), "2");
    assert_eq!(rendered(&env, float(5, -1)), "0.5");
    assert_eq!(rendered(&env, float(25, -4)), "0.0025");
    assert_eq!(rendered(&env, float(25, 9)), "25000000000");
    assert_eq!(rendered(&env, float(-314, -2)), "-3.14");
    assert_eq!(rendered(&env, Value::Bool(true)), "true");
    assert_eq!(rendered(&env, Value::Bool(false)), "false");
    assert_eq!(rendered(&env, Value::PyNone), "None");
    assert_eq!(rendered(&env, text("plain")), "plain");

    match builtin::py_str(&env, vec![]).unwrap() {
        Value::Str(s) => assert_eq!(s, ""),
        _ => panic!("str() must give a Str"),
    }
}

#[test]
fn py_str_renders_containers_with_quoting() {
    let mut env = Env::new();
    let inner = env.alloc_list(vec![integer(1), text("a"), text("don't")]);
    assert_eq!(rendered(&env, inner.clone()), "[1, 'a', \"don't\"]");

    let single = env.alloc_tuple(vec![integer(7)]);
    assert_eq!(rendered(&env, single), "(7,)");

    let pair = env.alloc_tuple(vec![integer(1), integer(2)]);
    assert_eq!(rendered(&env, pair.clone()), "(1, 2)");

    let nested = env.alloc_list(vec![pair, inner]);
    assert_eq!(rendered(&env, nested), "[(1, 2), [1, 'a', \"don't\"]]");

    assert!(matches!(
        builtin::py_str(&env, vec![Value::Undefined]),
        Err(RuntimeError::TypeMismatch)
    ));
}

#[test]
fn len_counts_str_list_tuple() {
    let mut env = Env::new();
    let l = env.alloc_list(vec![integer(1), integer(2)]);
    let t = env.alloc_tuple(vec![integer(1)]);

    assert!(builtin::len(&env, vec![text("abcd")]).unwrap().eq(&integer(4)).unwrap());
    assert!(builtin::len(&env, vec![l]).unwrap().eq(&integer(2)).unwrap());
    assert!(builtin::len(&env, vec![t]).unwrap().eq(&integer(1)).unwrap());
    assert!(matches!(
        builtin::len(&env, vec![integer(3)]),
        Err(RuntimeError::TypeMismatch)
    ));
    assert!(matches!(builtin::len(&env, vec![]), Err(RuntimeError::ArityError)));
}

#[test]
fn min_of_arguments_and_iterables() {
    let mut env = Env::new();

    // min(3, 1, 2) == 1
    let r = builtin::min(&env, vec![integer(3), integer(1), integer(2)]).unwrap();
    assert!(r.eq(&integer(1)).unwrap());

    // min([3, 1, 2]) == 1
    let l = env.alloc_list(vec![integer(3), integer(1), integer(2)]);
    let r = builtin::min(&env, vec![l]).unwrap();
    assert!(r.eq(&integer(1)).unwrap());

    // min of a string takes the smallest character.
    let r = builtin::min(&env, vec![text("banana")]).unwrap();
    assert!(r.eq(&text("a")).unwrap());

    // min([]) fails with an empty-sequence error.
    let empty = env.alloc_list(vec![]);
    assert!(matches!(
        builtin::min(&env, vec![empty]),
        Err(RuntimeError::ValueError)
    ));
    assert!(matches!(
        builtin::min(&env, vec![text("")]),
        Err(RuntimeError::ValueError)
    ));
    assert!(matches!(builtin::min(&env, vec![]), Err(RuntimeError::ArityError)));
}

#[test]
fn int_parses_trimmed_literals() {
    // int("  42  ") == 42
    let r = builtin::py_int(vec![text("  42  ")]).unwrap();
    assert!(r.eq(&integer(42)).unwrap());

    let r = builtin::py_int(vec![text("-7")]).unwrap();
    assert!(r.eq(&integer(-7)).unwrap());

    // int("x", default) falls back to the default.
    let r = builtin::py_int(vec![text("x"), integer(-1)]).unwrap();
    assert!(r.eq(&integer(-1)).unwrap());
    assert!(matches!(
        builtin::py_int(vec![text("x")]),
        Err(RuntimeError::ValueError)
    ));

    // Numbers convert: pass-through and truncation toward zero.
    assert!(builtin::py_int(vec![integer(9)]).unwrap().eq(&integer(9)).unwrap());
    assert!(builtin::py_int(vec![float(25, -1)]).unwrap().eq(&integer(2)).unwrap());
    assert!(builtin::py_int(vec![float(-25, -1)]).unwrap().eq(&integer(-2)).unwrap());
    assert!(builtin::py_int(vec![float(25, 9)]).unwrap().eq(&integer(i32::MAX)).unwrap());
    assert!(builtin::py_int(vec![]).unwrap().eq(&integer(0)).unwrap());
    assert!(matches!(
        builtin::py_int(vec![Value::PyNone]),
        Err(RuntimeError::TypeMismatch)
    ));
}

#[test]
fn float_parses_decimal_literals() {
    // float(".5") == 0.5
    let r = builtin::float(vec![text(".5")]).unwrap();
    assert!(r.eq(&float(5, -1)).unwrap());

    let r = builtin::float(vec![text("3.14")]).unwrap();
    assert!(r.eq(&float(314, -2)).unwrap());

    let r = builtin::float(vec![text("-3.14")]).unwrap();
    assert!(r.eq(&float(-314, -2)).unwrap());

    let r = builtin::float(vec![text("2.5E10")]).unwrap();
    assert!(r.eq(&float(25, 9)).unwrap());

    let r = builtin::float(vec![text("2.5E-10")]).unwrap();
    assert!(r.eq(&float(25, -11)).unwrap());

    let r = builtin::float(vec![text("5.")]).unwrap();
    assert!(r.eq(&float(5, 0)).unwrap());

    let r = builtin::float(vec![text("  1e3  ")]).unwrap();
    assert!(r.eq(&integer(1000)).unwrap());

    // Fallback and failure.
    let r = builtin::float(vec![text("x"), float(1, 0)]).unwrap();
    assert!(r.eq(&float(1, 0)).unwrap());
    assert!(matches!(
        builtin::float(vec![text("x")]),
        Err(RuntimeError::ValueError)
    ));

    // Numbers convert exactly.
    assert!(builtin::float(vec![integer(5)]).unwrap().eq(&float(5, 0)).unwrap());
    assert!(builtin::float(vec![integer(120)]).unwrap().eq(&float(12, 1)).unwrap());
    assert!(builtin::float(vec![]).unwrap().eq(&float(0, 0)).unwrap());
}

#[test]
fn enumerate_str_by_character() {
    // enumerate("ab") == [(0, 'a'), (1, 'b')]
    let mut env = Env::new();
    let r = builtin::enumerate(&mut env, vec![text("ab")]).unwrap();
    assert_eq!(rendered(&env, r), "[(0, 'a'), (1, 'b')]");
}

#[test]
fn enumerate_list_with_start() {
    // enumerate([10, 20], start=5) == [(5, 10), (6, 20)]
    let mut env = Env::new();
    let l = env.alloc_list(vec![integer(10), integer(20)]);
    let r = builtin::enumerate(&mut env, vec![l, integer(5)]).unwrap();
    assert_eq!(rendered(&env, r), "[(5, 10), (6, 20)]");
}

#[test]
fn enumerate_tuple_and_errors() {
    let mut env = Env::new();
    let t = env.alloc_tuple(vec![text("x"), text("y")]);
    let r = builtin::enumerate(&mut env, vec![t]).unwrap();
    assert_eq!(rendered(&env, r), "[(0, 'x'), (1, 'y')]");

    assert!(matches!(
        builtin::enumerate(&mut env, vec![]),
        Err(RuntimeError::ArityError)
    ));
    assert!(matches!(
        builtin::enumerate(&mut env, vec![integer(1)]),
        Err(RuntimeError::TypeMismatch)
    ));
    let l = env.alloc_list(vec![integer(1)]);
    assert!(matches!(
        builtin::enumerate(&mut env, vec![l, text("0")]),
        Err(RuntimeError::TypeMismatch)
    ));
}

#[test]
fn print_targets_streams() {
    let mut env = Env::new();

    match builtin::print(&mut env, vec![integer(1), text("two")], vec![]).unwrap() {
        Outcome::Effect(v, HostRequest::WriteStdout { text: t }) => {
            assert!(v.eq(&Value::PyNone).unwrap());
            assert_eq!(t, "1 two\n");
        },
        _ => panic!("print must write to standard output by default"),
    }

    let kw = vec![(
        "file".to_string(),
        Value::TextIOWrapper(cannolib::IOWrapper::Stderr),
    )];
    match builtin::print(&mut env, vec![text("oops")], kw).unwrap() {
        Outcome::Effect(_, HostRequest::WriteStderr { text: t }) => assert_eq!(t, "oops\n"),
        _ => panic!("print must honour a stderr file keyword"),
    }

    let kw = vec![("file".to_string(), integer(3))];
    assert!(matches!(
        builtin::print(&mut env, vec![], kw),
        Err(RuntimeError::TypeMismatch)
    ));

    // A handle already closed at the value level refuses the write as an
    // input/output failure, like a closed file slot.
    let kw = vec![(
        "file".to_string(),
        Value::TextIOWrapper(cannolib::IOWrapper::Closed),
    )];
    assert!(matches!(
        builtin::print(&mut env, vec![text("x")], kw),
        Err(RuntimeError::IOError)
    ));
}

#[test]
fn open_scans_mode_flags() {
    match builtin::open(vec![text("notes.txt")]).unwrap() {
        Outcome::Pending(HostRequest::OpenFile { filename, read, write }) => {
            assert_eq!(filename, "notes.txt");
            assert!(read);
            assert!(!write);
        },
        _ => panic!("open must ask the host for the file"),
    }
    match builtin::open(vec![text("notes.txt"), text("w")]).unwrap() {
        Outcome::Pending(HostRequest::OpenFile { read, write, .. }) => {
            assert!(!read);
            assert!(write);
        },
        _ => panic!("open must ask the host for the file"),
    }
    assert!(matches!(builtin::open(vec![]), Err(RuntimeError::ArityError)));
    assert!(matches!(
        builtin::open(vec![integer(1)]),
        Err(RuntimeError::TypeMismatch)
    ));
    assert!(matches!(
        builtin::open(vec![text("f"), integer(1)]),
        Err(RuntimeError::TypeMismatch)
    ));
}

#[test]
fn file_write_then_read_round_trip() {
    // Writing via a write handle and reading the same bytes back through a
    // read handle reproduces the written lines exactly.
    let mut env = Env::new();
    let handle = builtin::finish_open(&mut env, false, true, String::new());
    let fid = match handle {
        Value::TextIOWrapper(cannolib::IOWrapper::File(fid)) => fid,
        _ => panic!("expected a file handle"),
    };

    let kw = vec![("file".to_string(), handle.clone())];
    builtin::print(&mut env, vec![text("alpha")], kw.clone()).unwrap();
    builtin::print(&mut env, vec![text("beta"), integer(2)], kw).unwrap();

    // Close through the dispatcher, as a client would.
    let closed = cannolib::call_member(&mut env, handle, "close", vec![], vec![]).unwrap();
    assert!(matches!(
        closed,
        Outcome::Effect(Value::PyNone, HostRequest::CloseFile { .. })
    ));
    assert!(env.files[fid].closed);

    // The host hands the stored text back for the read handle.
    let stored = env.files[fid].content.clone();
    assert_eq!(stored, "alpha\nbeta 2\n");
    let read_handle = builtin::finish_open(&mut env, true, false, stored);

    let r = builtin::enumerate(&mut env, vec![read_handle]).unwrap();
    assert_eq!(rendered(&env, r), "[(0, 'alpha\n'), (1, 'beta 2\n')]");
}

#[test]
fn print_to_closed_or_readonly_file_fails() {
    let mut env = Env::new();
    let w = builtin::finish_open(&mut env, false, true, String::new());
    cannolib::call_member(&mut env, w.clone(), "close", vec![], vec![]).unwrap();
    let kw = vec![("file".to_string(), w)];
    assert!(matches!(
        builtin::print(&mut env, vec![text("x")], kw),
        Err(RuntimeError::IOError)
    ));

    let r = builtin::finish_open(&mut env, true, false, String::new());
    let kw = vec![("file".to_string(), r.clone())];
    assert!(matches!(
        builtin::print(&mut env, vec![text("x")], kw),
        Err(RuntimeError::IOError)
    ));
    // A closed read handle also refuses further reading.
    cannolib::call_member(&mut env, r.clone(), "close", vec![], vec![]).unwrap();
    assert!(matches!(
        builtin::enumerate(&mut env, vec![r]),
        Err(RuntimeError::IOError)
    ));
}

#[test]
fn call_builtin_dispatches() {
    let mut env = Env::new();
    match call_builtin(&mut env, Builtin::Str, vec![integer(7)], vec![]).unwrap() {
        Outcome::Done(Value::Str(s)) => assert_eq!(s, "7"),
        _ => panic!("str must finish with a value"),
    }
    match call_builtin(&mut env, Builtin::Sqrt, vec![integer(2)], vec![]).unwrap() {
        Outcome::Pending(HostRequest::Sqrt { value: NumericType::Integer(v) }) => {
            assert_eq!(v, 2)
        },
        _ => panic!("sqrt must ask the host"),
    }
    match call_builtin(&mut env, Builtin::Exit, vec![], vec![]).unwrap() {
        Outcome::Pending(HostRequest::Exit { status }) => assert_eq!(status, 0),
        _ => panic!("exit must ask the host"),
    }
}

#[test]
fn builtin_tables_line_up() {
    let scope = builtin::get_scope();
    let mapping = builtin::get_mapping();
    assert_eq!(scope.len(), 8);
    assert_eq!(mapping.len(), 8);
    let names: Vec<&str> = mapping.iter().map(|p| p.0.as_str()).collect();
    assert_eq!(
        names,
        vec!["print", "str", "len", "min", "int", "float", "enumerate", "open"]
    );
    for (i, entry) in mapping.iter().enumerate() {
        assert_eq!(entry.1 .0, i);
        assert!(entry.1 .1.is_none());
    }
}
