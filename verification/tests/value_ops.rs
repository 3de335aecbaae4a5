//! The value model: truthiness, logical NOT, equality, ordering and the
//! arithmetic operators.

use cannolib::floatnum::FloatNum;
use cannolib::Env;
use cannolib::NumericType;
use cannolib::RuntimeError;
use cannolib::Value;

fn float(mant: i64, exp: i32) -> Value {
    Value::Number(NumericType::Float(FloatNum { mant, exp }))
}

fn integer(v: i32) -> Value {
    Value::Number(NumericType::Integer(v))
}

#[test]
fn self_to_bool_number() {
    let env = Env::new();
    let a = float(15, -1);
    let b = float(0, 0);
    let x = integer(15);
    let y = integer(0);
    let z = integer(-1);

    assert_eq!(a.to_bool(&env).unwrap(), true);
    assert_eq!(b.to_bool(&env).unwrap(), false);
    assert_eq!(x.to_bool(&env).unwrap(), true);
    assert_eq!(y.to_bool(&env).unwrap(), false);
    assert_eq!(z.to_bool(&env).unwrap(), true);
}

#[test]
fn self_to_bool_str() {
    let env = Env::new();
    let x = Value::Str("".to_string());
    let y = Value::Str("test".to_string());

    assert_eq!(x.to_bool(&env).unwrap(), false);
    assert_eq!(y.to_bool(&env).unwrap(), true);
}

#[test]
fn self_to_bool_bool() {
    let env = Env::new();
    let x = Value::Bool(true);
    let y = Value::Bool(false);

    assert_eq!(x.to_bool(&env).unwrap(), true);
    assert_eq!(y.to_bool(&env).unwrap(), false);
}

#[test]
fn self_to_bool_none() {
    let env = Env::new();
    let x = Value::PyNone;

    assert_eq!(x.to_bool(&env).unwrap(), false);
}

#[test]
fn self_logical_not_number() {
    let env = Env::new();
    let a = float(15, -1);
    let b = float(0, 0);
    let x = integer(15);
    let y = integer(0);
    let z = integer(-1);

    assert!(a.logical_not(&env).unwrap().eq(&Value::Bool(false)).unwrap());
    assert!(b.logical_not(&env).unwrap().eq(&Value::Bool(true)).unwrap());
    assert!(x.logical_not(&env).unwrap().eq(&Value::Bool(false)).unwrap());
    assert!(y.logical_not(&env).unwrap().eq(&Value::Bool(true)).unwrap());
    assert!(z.logical_not(&env).unwrap().eq(&Value::Bool(false)).unwrap());
}

#[test]
fn self_logical_not_str() {
    let env = Env::new();
    let x = Value::Str("".to_string());
    let y = Value::Str("test".to_string());

    assert!(x.logical_not(&env).unwrap().eq(&Value::Bool(true)).unwrap());
    assert!(y.logical_not(&env).unwrap().eq(&Value::Bool(false)).unwrap());
}

#[test]
fn self_logical_not_bool() {
    let env = Env::new();
    let x = Value::Bool(true);
    let y = Value::Bool(false);

    assert!(x.logical_not(&env).unwrap().eq(&Value::Bool(false)).unwrap());
    assert!(y.logical_not(&env).unwrap().eq(&Value::Bool(true)).unwrap());
}

#[test]
fn self_logical_not_none() {
    let env = Env::new();
    let x = Value::PyNone;

    assert!(x.logical_not(&env).unwrap().eq(&Value::Bool(true)).unwrap());
}

#[test]
fn partial_eq_value_number() {
    let x = integer(5);
    let y = integer(6);
    let z = integer(5);
    let none = Value::PyNone;

    assert_eq!(x.eq(&z).unwrap(), true);
    assert_eq!(x.eq(&y).unwrap(), false);
    assert_eq!(x.ne(&y).unwrap(), true);
    assert_eq!(x.eq(&none).unwrap(), false);
    assert_eq!(x.ne(&none).unwrap(), true);
}

#[test]
fn partial_eq_value_str() {
    let x = Value::Str("test".to_string());
    let y = Value::Str("word".to_string());

    assert_eq!(x.eq(&x).unwrap(), true);
    assert_eq!(x.eq(&y).unwrap(), false);
    assert_eq!(x.ne(&y).unwrap(), true);
}

#[test]
fn partial_eq_value_bool() {
    let x = Value::Bool(true);
    let y = Value::Bool(false);

    assert_eq!(x.eq(&x).unwrap(), true);
    assert_eq!(x.eq(&y).unwrap(), false);
    assert_eq!(x.ne(&y).unwrap(), true);
}

#[test]
fn partial_eq_value_none() {
    let x = Value::Bool(true);
    let none = Value::PyNone;

    assert_eq!(none.eq(&none).unwrap(), true);
    assert_eq!(x.eq(&none).unwrap(), false);
    assert_eq!(x.ne(&none).unwrap(), true);
}

#[test]
fn partial_ord_value_number() {
    let x = integer(5);
    let y = integer(6);

    assert_eq!(x.lt(&y).unwrap(), true);
    assert_eq!(y.gt(&x).unwrap(), true);
    assert_eq!(x.ge(&x).unwrap(), true);
    assert_eq!(x.le(&y).unwrap(), true);
}

#[test]
fn partial_ord_value_str() {
    let x = Value::Str("a".to_string());
    let y = Value::Str("z".to_string());

    assert_eq!(x.lt(&y).unwrap(), true);
    assert_eq!(x.gt(&y).unwrap(), false);
    assert_eq!(x.ge(&y).unwrap(), false);
    assert_eq!(x.le(&y).unwrap(), true);
}

#[test]
fn partial_ord_value_bool() {
    let x = Value::Bool(true);
    let y = Value::Bool(false);

    assert_eq!(x.lt(&y).unwrap(), false);
    assert_eq!(x.gt(&y).unwrap(), true);
    assert_eq!(x.ge(&y).unwrap(), true);
    assert_eq!(x.le(&y).unwrap(), false);
}

#[test]
fn op_add_value_number() {
    let x = integer(5);
    let y = integer(6);
    let z = float(2, 0);

    assert!(x.add(&y).unwrap().eq(&integer(11)).unwrap());
    assert!(x.add(&z).unwrap().eq(&float(7, 0)).unwrap());
}

#[test]
fn op_add_value_str() {
    let x = Value::Str("test".to_string());
    let y = Value::Str("concat".to_string());

    assert!(x.add(&y).unwrap().eq(&Value::Str("testconcat".to_string())).unwrap());
}

#[test]
fn op_bitand_value_number() {
    let x = integer(1);
    let y = integer(2);

    assert!(x.bitand(&y).unwrap().eq(&integer(0)).unwrap());
}

#[test]
fn op_bitor_value_number() {
    let x = integer(1);
    let y = integer(2);

    assert!(x.bitor(&y).unwrap().eq(&integer(3)).unwrap());
}

#[test]
fn op_bitxor_value_number() {
    let x = integer(1);
    let y = integer(2);

    assert!(x.bitxor(&y).unwrap().eq(&integer(3)).unwrap());
}

#[test]
fn op_div_value_number() {
    let x = integer(1);
    let y = integer(2);
    let z = float(2, 0);

    assert!(x.div(&y).unwrap().eq(&float(5, -1)).unwrap());
    assert!(x.div(&z).unwrap().eq(&float(5, -1)).unwrap());
    assert!(y.div(&x).unwrap().eq(&float(2, 0)).unwrap());
    assert!(z.div(&z).unwrap().eq(&float(1, 0)).unwrap());
}

#[test]
fn op_mul_value_number() {
    let x = integer(5);
    let y = integer(6);
    let z = float(2, 0);

    assert!(x.mul(&y).unwrap().eq(&integer(30)).unwrap());
    assert!(x.mul(&z).unwrap().eq(&float(1, 1)).unwrap());
}

#[test]
fn op_neg_value_number() {
    let x = integer(5);
    let y = integer(-2);
    let z = integer(0);

    assert!(x.neg().unwrap().eq(&integer(-5)).unwrap());
    assert!(y.neg().unwrap().eq(&integer(2)).unwrap());
    assert!(z.neg().unwrap().eq(&integer(0)).unwrap());
}

#[test]
fn op_neg_value_bool() {
    let x = Value::Bool(true);
    let y = Value::Bool(false);

    assert!(x.neg().unwrap().eq(&integer(-1)).unwrap());
    assert!(y.neg().unwrap().eq(&integer(0)).unwrap());
}

#[test]
fn op_not_value_number() {
    let x = integer(5);
    let y = integer(-2);
    let z = integer(0);

    assert!(x.not().unwrap().eq(&integer(-6)).unwrap());
    assert!(y.not().unwrap().eq(&integer(1)).unwrap());
    assert!(z.not().unwrap().eq(&integer(-1)).unwrap());
}

#[test]
fn op_not_value_bool() {
    let x = Value::Bool(true);
    let y = Value::Bool(false);

    assert!(x.not().unwrap().eq(&integer(-2)).unwrap());
    assert!(y.not().unwrap().eq(&integer(-1)).unwrap());
}

#[test]
fn op_rem_value_number() {
    let x = integer(10);
    let y = integer(3);

    assert!(x.rem(&y).unwrap().eq(&integer(1)).unwrap());
}

#[test]
fn op_shl_value_number() {
    let x = integer(128);
    let y = integer(4);

    assert!(x.shl(&y).unwrap().eq(&integer(2048)).unwrap());
}

#[test]
fn op_shr_value_number() {
    let x = integer(64);
    let y = integer(2);
    let a = integer(1);
    let b = integer(5);

    assert!(x.shr(&y).unwrap().eq(&integer(16)).unwrap());
    assert!(a.shr(&b).unwrap().eq(&integer(0)).unwrap());
}

#[test]
fn op_sub_value_number() {
    let x = integer(5);
    let y = integer(6);
    let z = float(2, 0);

    assert!(x.sub(&y).unwrap().eq(&integer(-1)).unwrap());
    assert!(x.sub(&z).unwrap().eq(&float(3, 0)).unwrap());
}

#[test]
fn cross_variant_comparisons_fail() {
    let n = integer(5);
    let s = Value::Str("5".to_string());

    assert!(matches!(n.eq(&s), Err(RuntimeError::TypeMismatch)));
    assert!(matches!(s.lt(&n), Err(RuntimeError::TypeMismatch)));
    assert!(matches!(Value::PyNone.lt(&n), Err(RuntimeError::TypeMismatch)));
    assert!(matches!(n.add(&s), Err(RuntimeError::TypeMismatch)));
}

#[test]
fn float_equality_is_numeric() {
    // An Integer equals the Float of the same value, and canonical decimal
    // floats compare by value.
    let two_int = integer(2);
    let two_float = float(2, 0);
    let twenty = float(2, 1);

    assert_eq!(two_int.eq(&two_float).unwrap(), true);
    assert_eq!(two_int.eq(&twenty).unwrap(), false);
    assert_eq!(two_float.lt(&twenty).unwrap(), true);
    assert_eq!(twenty.gt(&integer(19)).unwrap(), true);
    assert_eq!(float(-5, -1).lt(&float(5, -1)).unwrap(), true);
    assert_eq!(float(15, -1).lt(&integer(2)).unwrap(), true);
}
