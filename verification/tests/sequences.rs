//! The sequence engine: indexing, stepped slicing, reductions, mutation
//! and aliasing.

use cannolib::list_type::calculate_slice;
use cannolib::Env;
use cannolib::ListType;
use cannolib::NumericType;
use cannolib::RuntimeError;
use cannolib::TupleType;
use cannolib::Value;

fn integer(v: i32) -> Value {
    Value::Number(NumericType::Integer(v))
}

fn int_list(env: &mut Env, xs: &[i32]) -> (usize, Value) {
    let items: Vec<Value> = xs.iter().map(|v| integer(*v)).collect();
    let v = env.alloc_list(items);
    match v {
        Value::List(id) => (id, Value::List(id)),
        _ => panic!("expected a list handle"),
    }
}

fn list_ints(env: &Env, id: usize) -> Vec<i32> {
    env.lists[id]
        .list
        .iter()
        .map(|v| match v {
            Value::Number(NumericType::Integer(i)) => *i,
            _ => panic!("expected an integer element"),
        })
        .collect()
}

#[test]
fn calculate_slice_clamps() {
    assert_eq!(calculate_slice(3, 0, 5), 3);
    assert_eq!(calculate_slice(9, 0, 5), 5);
    assert_eq!(calculate_slice(-1, 0, 5), 4);
    assert_eq!(calculate_slice(-9, 0, 5), 0);
    assert_eq!(calculate_slice(-9, -1, 5), -1);
    assert_eq!(calculate_slice(i32::MIN, 0, 5), 0);
}

#[test]
fn list_index_both_ends() {
    let mut env = Env::new();
    let (id, _) = int_list(&mut env, &[10, 20, 30]);
    let body = &env.lists[id];

    assert!(body.index(integer(0)).unwrap().eq(&integer(10)).unwrap());
    assert!(body.index(integer(2)).unwrap().eq(&integer(30)).unwrap());
    assert!(body.index(integer(-1)).unwrap().eq(&integer(30)).unwrap());
    assert!(matches!(body.index(integer(3)), Err(RuntimeError::IndexError)));
    assert!(matches!(body.index(integer(-3)), Err(RuntimeError::IndexError)));
    assert!(matches!(body.index(Value::PyNone), Err(RuntimeError::TypeMismatch)));
}

#[test]
fn tuple_index_both_ends() {
    let tup = TupleType::new(vec![integer(1), integer(2)]);

    assert!(tup.index(integer(1)).unwrap().eq(&integer(2)).unwrap());
    assert!(tup.index(integer(-1)).unwrap().eq(&integer(2)).unwrap());
    assert!(matches!(tup.index(integer(2)), Err(RuntimeError::IndexError)));
}

#[test]
fn slice_forward_steps() {
    let mut env = Env::new();
    let (id, _) = int_list(&mut env, &[0, 1, 2, 3, 4]);
    let body = ListType::new(env.lists[id].clone_seq());

    let r = body.slice(&mut env, None, None, None).unwrap();
    let rid = match r {
        Value::List(rid) => rid,
        _ => panic!("expected a list"),
    };
    assert_eq!(list_ints(&env, rid), vec![0, 1, 2, 3, 4]);

    let r = body
        .slice(&mut env, Some(integer(1)), Some(integer(4)), None)
        .unwrap();
    let rid = match r {
        Value::List(rid) => rid,
        _ => panic!("expected a list"),
    };
    assert_eq!(list_ints(&env, rid), vec![1, 2, 3]);

    let r = body
        .slice(&mut env, None, None, Some(integer(2)))
        .unwrap();
    let rid = match r {
        Value::List(rid) => rid,
        _ => panic!("expected a list"),
    };
    assert_eq!(list_ints(&env, rid), vec![0, 2, 4]);

    let r = body
        .slice(&mut env, Some(integer(-2)), None, None)
        .unwrap();
    let rid = match r {
        Value::List(rid) => rid,
        _ => panic!("expected a list"),
    };
    assert_eq!(list_ints(&env, rid), vec![3, 4]);
}

#[test]
fn slice_negative_step_reverses() {
    let mut env = Env::new();
    let (id, _) = int_list(&mut env, &[0, 1, 2, 3, 4]);
    let body = ListType::new(env.lists[id].clone_seq());

    let r = body
        .slice(&mut env, None, None, Some(integer(-1)))
        .unwrap();
    let rid = match r {
        Value::List(rid) => rid,
        _ => panic!("expected a list"),
    };
    assert_eq!(list_ints(&env, rid), vec![4, 3, 2, 1, 0]);

    let r = body
        .slice(&mut env, Some(integer(4)), Some(integer(1)), Some(integer(-1)))
        .unwrap();
    let rid = match r {
        Value::List(rid) => rid,
        _ => panic!("expected a list"),
    };
    assert_eq!(list_ints(&env, rid), vec![4, 3, 2]);

    let r = body
        .slice(&mut env, None, None, Some(integer(-2)))
        .unwrap();
    let rid = match r {
        Value::List(rid) => rid,
        _ => panic!("expected a list"),
    };
    assert_eq!(list_ints(&env, rid), vec![4, 2, 0]);

    let r = body
        .slice(&mut env, Some(integer(1)), Some(integer(4)), Some(integer(-1)))
        .unwrap();
    let rid = match r {
        Value::List(rid) => rid,
        _ => panic!("expected a list"),
    };
    assert_eq!(list_ints(&env, rid), Vec::<i32>::new());
}

#[test]
fn slice_length_follows_clamped_stepped_range() {
    let mut env = Env::new();
    let (id, _) = int_list(&mut env, &[0, 1, 2, 3, 4, 5, 6]);
    let body = ListType::new(env.lists[id].clone_seq());

    // Clamped forward range of width five with step two keeps three.
    let r = body
        .slice(&mut env, Some(integer(2)), Some(integer(100)), Some(integer(2)))
        .unwrap();
    let rid = match r {
        Value::List(rid) => rid,
        _ => panic!("expected a list"),
    };
    assert_eq!(list_ints(&env, rid), vec![2, 4, 6]);
    assert_eq!(env.lists[rid].list.len(), (7 - 2 + 2 - 1) / 2);
}

#[test]
fn slice_step_zero_fails() {
    let mut env = Env::new();
    let (id, _) = int_list(&mut env, &[1, 2]);
    let body = ListType::new(env.lists[id].clone_seq());

    assert!(matches!(
        body.slice(&mut env, None, None, Some(integer(0))),
        Err(RuntimeError::ValueError)
    ));
    assert!(matches!(
        body.slice(&mut env, Some(Value::Bool(true)), None, None),
        Err(RuntimeError::TypeMismatch)
    ));
}

#[test]
fn tuple_slice_allocates_tuple() {
    let mut env = Env::new();
    let tup = TupleType::new(vec![integer(0), integer(1), integer(2)]);

    let r = tup
        .slice(&mut env, None, None, Some(integer(-1)))
        .unwrap();
    let rid = match r {
        Value::Tuple(rid) => rid,
        _ => panic!("expected a tuple"),
    };
    let got: Vec<i32> = env.tuples[rid]
        .list
        .iter()
        .map(|v| match v {
            Value::Number(NumericType::Integer(i)) => *i,
            _ => panic!("expected an integer element"),
        })
        .collect();
    assert_eq!(got, vec![2, 1, 0]);
}

#[test]
fn list_contains_and_len() {
    let mut env = Env::new();
    let (id, _) = int_list(&mut env, &[1, 2, 3]);
    let body = &env.lists[id];

    assert_eq!(body.contains(&integer(2)).unwrap(), true);
    assert_eq!(body.contains(&integer(9)).unwrap(), false);
    assert!(body.len().eq(&integer(3)).unwrap());
    assert_eq!(body.to_bool(), true);
    assert_eq!(ListType::new(Vec::new()).to_bool(), false);
}

#[test]
fn list_min_keeps_earliest() {
    let mut env = Env::new();
    let (id, _) = int_list(&mut env, &[3, 1, 2]);

    assert!(env.lists[id].min().unwrap().eq(&integer(1)).unwrap());
    assert!(matches!(
        ListType::new(Vec::new()).min(),
        Err(RuntimeError::ValueError)
    ));

    let mixed = ListType::new(vec![integer(1), Value::Str("a".to_string())]);
    assert!(matches!(mixed.min(), Err(RuntimeError::TypeMismatch)));
}

#[test]
fn list_append_checks_arity() {
    let mut body = ListType::new(vec![integer(1)]);

    let r = body.append(vec![integer(2)]).unwrap();
    assert!(r.eq(&Value::PyNone).unwrap());
    assert_eq!(body.list.len(), 2);

    assert!(matches!(
        body.append(vec![integer(3), integer(4)]),
        Err(RuntimeError::ArityError)
    ));
    assert_eq!(body.list.len(), 2);
}

#[test]
fn list_call_dispatches_append() {
    let mut body = ListType::new(Vec::new());

    assert!(body.call("append", vec![integer(7)]).is_ok());
    assert_eq!(body.list.len(), 1);
    assert!(matches!(
        body.call("pop", vec![]),
        Err(RuntimeError::AttributeError(_))
    ));
}

#[test]
fn clone_of_list_value_shares_storage() {
    // Aliasing: a clone of a list value is a second handle to the same
    // backing storage, so an append through the clone is visible through
    // the original.
    let mut env = Env::new();
    let (id, a) = int_list(&mut env, &[1, 2]);
    let b = a.clone();

    let outcome = cannolib::call_member(&mut env, b, "append", vec![integer(3)], vec![]);
    assert!(outcome.is_ok());

    assert!(env.lists[id].len().eq(&integer(3)).unwrap());
    match a {
        Value::List(aid) => assert_eq!(aid, id),
        _ => panic!("expected a list handle"),
    }
}
