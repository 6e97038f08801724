use scriptlang::error::ScriptError;
use scriptlang::eval::{
    eval_bool_binary_expr, eval_boolean_unary_expr, eval_int_binary, eval_numeric_binary_expr,
    eval_numeric_unary_expr, FloatReply, FloatRequest, Interrupt, RuntimeVal, RuntimeValType,
};
use scriptlang::parser::{BinOp, UnaryOp};

fn int_of(v: &RuntimeVal) -> i64 {
    v.runtime_val_type.extract_int_value().unwrap()
}

#[test]
fn integer_operators() {
    assert_eq!(int_of(&eval_int_binary(-7, 2, BinOp::Div).unwrap()), -3);
    assert_eq!(int_of(&eval_int_binary(-7, 2, BinOp::Rem).unwrap()), -1);
    assert_eq!(eval_int_binary(1, 0, BinOp::Div).unwrap_err(), ScriptError::Arithmetic);
    assert_eq!(eval_int_binary(i64::MIN, -1, BinOp::Div).unwrap_err(), ScriptError::Arithmetic);
    assert_eq!(eval_int_binary(i64::MIN, -1, BinOp::Rem).unwrap_err(), ScriptError::Arithmetic);
    assert_eq!(eval_int_binary(1, 1, BinOp::And).unwrap_err(), ScriptError::Type);
    let lt = eval_int_binary(1, 2, BinOp::Lt).unwrap();
    assert_eq!(lt.runtime_val_type.extract_bool_value(), Some(true));
}

#[test]
fn numeric_binary_on_integers_and_floats() {
    let a = RuntimeVal::integer(6);
    let b = RuntimeVal::integer(7);
    assert_eq!(int_of(&eval_numeric_binary_expr(&a, &b, BinOp::Mul, None).unwrap()), 42);
    let x = RuntimeVal::float_bits(1.5f64.to_bits());
    let y = RuntimeVal::float_bits(2.0f64.to_bits());
    match eval_numeric_binary_expr(&x, &y, BinOp::Add, None) {
        Err(Interrupt::Await(FloatRequest::Binary(BinOp::Add, p, q))) => {
            assert_eq!(f64::from_bits(p), 1.5);
            assert_eq!(f64::from_bits(q), 2.0);
        }
        other => panic!("{:?}", other),
    }
    let sum = eval_numeric_binary_expr(&x, &y, BinOp::Add, Some(FloatReply::Number(3.5f64.to_bits())))
        .unwrap();
    assert_eq!(sum.runtime_val_type.extract_float_value(), Some(3.5f64.to_bits()));
    let lt = eval_numeric_binary_expr(&x, &y, BinOp::Lt, Some(FloatReply::Truth(true))).unwrap();
    assert_eq!(lt.runtime_val_type.extract_bool_value(), Some(true));
    assert!(matches!(
        eval_numeric_binary_expr(&x, &y, BinOp::Lt, Some(FloatReply::Number(0))),
        Err(Interrupt::Fail(ScriptError::BadReply))
    ));
    assert!(matches!(
        eval_numeric_binary_expr(&a, &x, BinOp::Add, None),
        Err(Interrupt::Fail(ScriptError::Type))
    ));
    assert!(matches!(
        eval_numeric_binary_expr(&x, &y, BinOp::Or, None),
        Err(Interrupt::Fail(ScriptError::Type))
    ));
}

#[test]
fn boolean_binary() {
    let t = RuntimeVal::boolean(true);
    let f = RuntimeVal::boolean(false);
    let r = eval_bool_binary_expr(&t, &f, BinOp::Or).unwrap();
    assert_eq!(r.runtime_val_type.extract_bool_value(), Some(true));
    let r = eval_bool_binary_expr(&t, &f, BinOp::And).unwrap();
    assert_eq!(r.runtime_val_type.extract_bool_value(), Some(false));
    assert_eq!(eval_bool_binary_expr(&t, &f, BinOp::Lt).unwrap_err(), ScriptError::Type);
}

#[test]
fn unary_operators() {
    let r = eval_numeric_unary_expr(&RuntimeVal::integer(5), UnaryOp::Not).unwrap();
    assert_eq!(int_of(&r), -6);
    let r = eval_boolean_unary_expr(&RuntimeVal::boolean(true), UnaryOp::Not).unwrap();
    assert_eq!(r.runtime_val_type.extract_bool_value(), Some(false));
    assert_eq!(
        eval_numeric_unary_expr(&RuntimeVal::boolean(true), UnaryOp::Not).unwrap_err(),
        ScriptError::Type
    );
    let s = RuntimeVal { runtime_val_type: RuntimeValType::StringLiteral(vec!['a']) };
    assert_eq!(s.runtime_val_type.extract_string_value(), Some(&vec!['a']));
    assert_eq!(eval_boolean_unary_expr(&s, UnaryOp::Not).unwrap_err(), ScriptError::Type);
}
