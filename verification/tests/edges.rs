//! Edge cases: parsing limits, truncation clamps, exhausted file reads and
//! canonical float forms.

use cannolib::builtin;
use cannolib::floatnum::FloatNum;
use cannolib::strconv;
use cannolib::Env;
use cannolib::NumericType;
use cannolib::RuntimeError;
use cannolib::Value;

fn integer(v: i32) -> Value {
    Value::Number(NumericType::Integer(v))
}

fn float(mant: i64, exp: i32) -> Value {
    Value::Number(NumericType::Float(FloatNum { mant, exp }))
}

fn text(s: &str) -> Value {
    Value::Str(s.to_string())
}

#[test]
fn int_parse_rejects_overflow_and_junk() {
    assert!(builtin::py_int(vec![text("2147483647")])
        .unwrap()
        .eq(&integer(i32::MAX))
        .unwrap());
    assert!(builtin::py_int(vec![text("-2147483648")])
        .unwrap()
        .eq(&integer(i32::MIN))
        .unwrap());
    assert!(matches!(
        builtin::py_int(vec![text("2147483648")]),
        Err(RuntimeError::ValueError)
    ));
    assert!(matches!(
        builtin::py_int(vec![text("12 34")]),
        Err(RuntimeError::ValueError)
    ));
    assert!(matches!(
        builtin::py_int(vec![text("")]),
        Err(RuntimeError::ValueError)
    ));
    assert!(builtin::py_int(vec![text("+7")]).unwrap().eq(&integer(7)).unwrap());
}

#[test]
fn float_parse_rejects_malformed_literals() {
    for bad in ["", ".", "e5", "1.2.3", "1e", "--1", "1e+2-", "nonsense"] {
        assert!(
            matches!(builtin::float(vec![text(bad)]), Err(RuntimeError::ValueError)),
            "{:?} must not parse",
            bad
        );
    }
    assert!(builtin::float(vec![text("+0.50")]).unwrap().eq(&float(5, -1)).unwrap());
    assert!(builtin::float(vec![text("000")]).unwrap().eq(&float(0, 0)).unwrap());
}

#[test]
fn strconv_renders_round_trip_forms() {
    assert_eq!(strconv::int_string(0), "0");
    assert_eq!(strconv::int_string(-2147483648), "-2147483648");
    assert_eq!(strconv::digits_string(90210), "90210");
    assert_eq!(strconv::float_string(&FloatNum { mant: 0, exp: 0 }), "0");
    assert_eq!(strconv::float_string(&FloatNum { mant: 1, exp: 6 }), "1000000");
    assert_eq!(strconv::float_string(&FloatNum { mant: -1, exp: -6 }), "-0.000001");

    // Rendering and parsing are mutually inverse on canonical forms.
    for f in [
        FloatNum { mant: 25, exp: -1 },
        FloatNum { mant: 5, exp: -1 },
        FloatNum { mant: -314, exp: -2 },
        FloatNum { mant: 7, exp: 3 },
    ] {
        let shown = strconv::float_string(&f);
        let back = strconv::parse_float(&shown).unwrap();
        assert_eq!(back.mant, f.mant);
        assert_eq!(back.exp, f.exp);
    }
}

#[test]
fn int_of_float_clamps_to_width() {
    // Truncation toward zero, saturating at the integer width.
    assert!(builtin::py_int(vec![float(99, -1)]).unwrap().eq(&integer(9)).unwrap());
    assert!(builtin::py_int(vec![float(-99, -1)]).unwrap().eq(&integer(-9)).unwrap());
    assert!(builtin::py_int(vec![float(1, -30)]).unwrap().eq(&integer(0)).unwrap());
    assert!(builtin::py_int(vec![float(1, 20)]).unwrap().eq(&integer(i32::MAX)).unwrap());
    assert!(builtin::py_int(vec![float(-1, 20)]).unwrap().eq(&integer(i32::MIN)).unwrap());
}

#[test]
fn enumerate_consumes_the_read_position() {
    let mut env = Env::new();
    let handle = builtin::finish_open(&mut env, true, false, "a\nb\n".to_string());
    let first = builtin::enumerate(&mut env, vec![handle.clone()]).unwrap();
    let rendered = match builtin::py_str(&env, vec![first]).unwrap() {
        Value::Str(s) => s,
        _ => panic!("str() must give a Str"),
    };
    assert_eq!(rendered, "[(0, 'a\n'), (1, 'b\n')]");

    // The position has moved to the end: a second pass sees nothing.
    let second = builtin::enumerate(&mut env, vec![handle]).unwrap();
    let rendered = match builtin::py_str(&env, vec![second]).unwrap() {
        Value::Str(s) => s,
        _ => panic!("str() must give a Str"),
    };
    assert_eq!(rendered, "[]");
}

#[test]
fn carriage_returns_are_stripped_from_lines() {
    let mut env = Env::new();
    let handle = builtin::finish_open(&mut env, true, false, "a\r\nb".to_string());
    let r = builtin::enumerate(&mut env, vec![handle]).unwrap();
    let rendered = match builtin::py_str(&env, vec![r]).unwrap() {
        Value::Str(s) => s,
        _ => panic!("str() must give a Str"),
    };
    assert_eq!(rendered, "[(0, 'a\n'), (1, 'b\n')]");
}

#[test]
fn division_rounds_nonterminating_quotients() {
    // 1/3 has no finite decimal form; the quotient carries eighteen-plus
    // significant digits, rounded ties away from zero.
    let one = NumericType::Integer(1);
    let three = NumericType::Integer(3);
    match one.div(&three).unwrap() {
        NumericType::Float(f) => {
            assert_eq!(f.mant, 333_333_333_333_333_333);
            assert_eq!(f.exp, -18);
        },
        _ => panic!("true division must give a Float"),
    }
    match NumericType::Integer(2).div(&three).unwrap() {
        NumericType::Float(f) => {
            assert_eq!(f.mant, 666_666_666_666_666_667);
            assert_eq!(f.exp, -18);
        },
        _ => panic!("true division must give a Float"),
    }
}

#[test]
fn float_arithmetic_is_exact_decimal() {
    let a = NumericType::Float(FloatNum { mant: 15, exp: -1 });  // 1.5
    let b = NumericType::Float(FloatNum { mant: 25, exp: -2 });  // 0.25
    match a.add(&b).unwrap() {
        NumericType::Float(f) => {
            assert_eq!((f.mant, f.exp), (175, -2));  // 1.75
        },
        _ => panic!("a Float operand must promote"),
    }
    match a.sub(&b).unwrap() {
        NumericType::Float(f) => {
            assert_eq!((f.mant, f.exp), (125, -2));  // 1.25
        },
        _ => panic!("a Float operand must promote"),
    }
    match a.mul(&b).unwrap() {
        NumericType::Float(f) => {
            assert_eq!((f.mant, f.exp), (375, -3));  // 0.375
        },
        _ => panic!("a Float operand must promote"),
    }
    match a.div(&b).unwrap() {
        NumericType::Float(f) => {
            assert_eq!((f.mant, f.exp), (6, 0));  // 6
        },
        _ => panic!("a Float operand must promote"),
    }
}

#[test]
fn division_by_zero_is_a_value_error() {
    assert!(matches!(
        integer(5).div(&integer(0)),
        Err(RuntimeError::ValueError)
    ));
    assert!(matches!(
        float(1, 0).div(&float(0, 0)),
        Err(RuntimeError::ValueError)
    ));
}

#[test]
fn long_literals_parse_rounded() {
    // Nineteen-plus significant digits round at the model's eighteen,
    // ties away from zero.
    let r = builtin::float(vec![text("3.14159265358979311599796346854")]).unwrap();
    assert!(r.eq(&float(314_159_265_358_979_312, -17)).unwrap());
    // A written exponent beyond the model's range still fails over to the
    // default.
    let r = builtin::float(vec![text("1e25000"), float(1, 0)]).unwrap();
    assert!(r.eq(&float(1, 0)).unwrap());
    assert!(matches!(
        builtin::float(vec![text("1e25000")]),
        Err(RuntimeError::ValueError)
    ));
}

#[test]
fn remainder_follows_the_dividend_sign() {
    let a = integer(-7);
    let b = integer(3);
    assert!(a.rem(&b).unwrap().eq(&integer(-1)).unwrap());
    assert!(integer(7).rem(&integer(-3)).unwrap().eq(&integer(1)).unwrap());
}

#[test]
fn bitwise_on_floats_is_a_type_error() {
    let f = float(1, 0);
    let i = integer(1);
    assert!(matches!(f.bitand(&i), Err(RuntimeError::TypeMismatch)));
    assert!(matches!(i.bitor(&f), Err(RuntimeError::TypeMismatch)));
    assert!(matches!(f.not(), Err(RuntimeError::TypeMismatch)));
    assert!(matches!(f.rem(&f), Err(RuntimeError::TypeMismatch)));
    assert!(matches!(i.shl(&f), Err(RuntimeError::TypeMismatch)));
}
