use scriptlang::error::ScriptError;
use scriptlang::eval::{FloatReply, FloatRequest, Interrupt, RuntimeVal, RuntimeValType};
use scriptlang::parser::BinOp;
use scriptlang::run::{run_script, Execution};

const FUEL: u64 = 10_000;

fn answer(req: &FloatRequest) -> FloatReply {
    match req {
        FloatRequest::Parse(text) => {
            let s: String = text.iter().collect();
            FloatReply::Number(s.parse::<f64>().unwrap().to_bits())
        }
        FloatRequest::Binary(op, a, b) => {
            let x = f64::from_bits(*a);
            let y = f64::from_bits(*b);
            match op {
                BinOp::Add => FloatReply::Number((x + y).to_bits()),
                BinOp::Sub => FloatReply::Number((x - y).to_bits()),
                BinOp::Mul => FloatReply::Number((x * y).to_bits()),
                BinOp::Div => FloatReply::Number((x / y).to_bits()),
                BinOp::Rem => FloatReply::Number((x % y).to_bits()),
                BinOp::Eq => FloatReply::Truth(x == y),
                BinOp::Ne => FloatReply::Truth(x != y),
                BinOp::Gt => FloatReply::Truth(x > y),
                BinOp::Lt => FloatReply::Truth(x < y),
                BinOp::Ge => FloatReply::Truth(x >= y),
                BinOp::Le => FloatReply::Truth(x <= y),
                BinOp::And | BinOp::Or => panic!("no float request for a logical operator"),
            }
        }
    }
}

fn run_with_fuel(src: &str, fuel: u64) -> Execution {
    let mut replies: Vec<FloatReply> = Vec::new();
    loop {
        let e = run_script(src.to_string(), &replies, fuel);
        match &e.result {
            Err(Interrupt::Await(req)) => replies.push(answer(req)),
            _ => return e,
        }
    }
}

fn run(src: &str) -> Execution {
    run_with_fuel(src, FUEL)
}

fn int_result(src: &str) -> i64 {
    match run(src).result {
        Ok(RuntimeVal { runtime_val_type: RuntimeValType::NumericInteger(v) }) => v,
        other => panic!("expected an integer, got {:?}", other),
    }
}

fn bool_result(src: &str) -> bool {
    match run(src).result {
        Ok(RuntimeVal { runtime_val_type: RuntimeValType::Boolean(b) }) => b,
        other => panic!("expected a boolean, got {:?}", other),
    }
}

fn error_of(src: &str) -> ScriptError {
    match run(src).result {
        Err(Interrupt::Fail(e)) => e,
        other => panic!("expected an error, got {:?}", other),
    }
}

fn printed_ints(e: &Execution) -> Vec<i64> {
    e.output
        .iter()
        .map(|v| match v.runtime_val_type {
            RuntimeValType::NumericInteger(x) => x,
            _ => panic!("printed a non-integer"),
        })
        .collect()
}

#[test]
fn integer_addition_subtraction_multiplication() {
    assert_eq!(int_result("3 + 4"), 7);
    assert_eq!(int_result("3 - 4"), -1);
    assert_eq!(int_result("3-4"), -1);
    assert_eq!(int_result("6 * 7"), 42);
}

#[test]
fn integer_division_truncates_toward_zero() {
    assert_eq!(int_result("7 / 2"), 3);
    assert_eq!(int_result("-7 / 2"), -3);
    assert_eq!(int_result("7 / -2"), -3);
    assert_eq!(int_result("-7 / -2"), 3);
}

#[test]
fn integer_remainder_has_sign_of_dividend() {
    assert_eq!(int_result("7 % 2"), 1);
    assert_eq!(int_result("-7 % 2"), -1);
    assert_eq!(int_result("7 % -2"), 1);
}

#[test]
fn division_and_remainder_by_zero_fail() {
    assert_eq!(error_of("1 / 0"), ScriptError::Arithmetic);
    assert_eq!(error_of("5 % 0"), ScriptError::Arithmetic);
}

#[test]
fn integer_overflow_is_an_arithmetic_error() {
    assert_eq!(error_of("9223372036854775807 + 1"), ScriptError::Arithmetic);
    assert_eq!(error_of("-9223372036854775807 - 2"), ScriptError::Arithmetic);
}

#[test]
fn precedence_and_parentheses() {
    assert_eq!(int_result("1+2*(3+4)"), 15);
    assert_eq!(int_result("(1+2)*(3+4)"), 21);
    assert_eq!(int_result("10 - 2 - 3"), 5);
    assert_eq!(int_result("2 * 3 + 4 * 5"), 26);
}

#[test]
fn float_product_matches_native() {
    let e = run("30.34*2.1*(1.2+3.4)");
    match e.result {
        Ok(RuntimeVal { runtime_val_type: RuntimeValType::NumericFloat(bits) }) => {
            assert_eq!(f64::from_bits(bits), 30.34 * 2.1 * (1.2 + 3.4));
        }
        other => panic!("expected a float, got {:?}", other),
    }
}

#[test]
fn float_comparison_drives_a_condition() {
    let e = run("if (1.5 < 2.5) { print(1) } else { print(2) }");
    assert_eq!(printed_ints(&e), vec![1]);
}

#[test]
fn unary_not() {
    assert!(!bool_result("!true"));
    assert!(bool_result("!false"));
    assert_eq!(int_result("!5"), -6);
    assert_eq!(int_result("!0"), -1);
}

#[test]
fn not_on_a_string_is_a_type_error() {
    assert_eq!(error_of("!\"a\""), ScriptError::Type);
}

#[test]
fn mixed_integer_and_float_is_a_type_error() {
    assert_eq!(error_of("1 + 2.5"), ScriptError::Type);
    assert_eq!(error_of("2.5 * 3"), ScriptError::Type);
    assert_eq!(error_of("1.5 < 2"), ScriptError::Type);
    assert_eq!(error_of("2 == 2.0"), ScriptError::Type);
}

#[test]
fn mixed_integer_and_boolean_is_a_type_error() {
    assert_eq!(error_of("1 + true"), ScriptError::Type);
    assert_eq!(error_of("true + false"), ScriptError::Type);
    assert_eq!(error_of("1 && 2"), ScriptError::Type);
}

#[test]
fn boolean_operators() {
    assert!(bool_result("true && true"));
    assert!(!bool_result("true && false"));
    assert!(bool_result("false || true"));
    assert!(bool_result("true == true"));
    assert!(bool_result("true != false"));
    assert!(bool_result("(1 < 2) && (3 >= 3)"));
}

#[test]
fn comparison_and_logic_share_one_left_associative_tier() {
    assert_eq!(error_of("1 < 2 && 3 >= 3"), ScriptError::Type);
    assert!(bool_result("1 < 2 == true"));
}

#[test]
fn redeclaration_in_one_block_is_a_name_error() {
    assert_eq!(error_of("let x = 1;\nlet x = 2;"), ScriptError::Name);
}

#[test]
fn redeclaration_in_a_nested_block_shadows() {
    let e = run("let x = 1;\n{ let x = 2; print(x); };\nx");
    assert_eq!(printed_ints(&e), vec![2]);
    match e.result {
        Ok(RuntimeVal { runtime_val_type: RuntimeValType::NumericInteger(v) }) => assert_eq!(v, 1),
        other => panic!("{:?}", other),
    }
}

#[test]
fn assignment_to_undeclared_is_a_name_error() {
    assert_eq!(error_of("y = 1"), ScriptError::Name);
    assert_eq!(error_of("y"), ScriptError::Name);
}

#[test]
fn assignment_reaches_enclosing_frame() {
    assert_eq!(int_result("let x = 1;\n{ x = 5; };\nx"), 5);
    assert_eq!(int_result("let x = 1;\nif (true) { x = 7; }\nx"), 7);
}

#[test]
fn declaration_in_block_is_gone_after_it() {
    assert_eq!(error_of("{ let z = 1; };\nz"), ScriptError::Name);
}

#[test]
fn if_elseif_else_runs_one_branch() {
    let e = run("if (false) { print(1) } elseif (true) { print(2) } else { print(3) }");
    assert_eq!(printed_ints(&e), vec![2]);
}

#[test]
fn if_true_skips_elseif_and_else() {
    let e = run("if (true) { print(1) } elseif (true) { print(2) } else { print(3) }");
    assert_eq!(printed_ints(&e), vec![1]);
}

#[test]
fn all_conditions_false_runs_else() {
    let e = run("if (false) { print(1) } elseif (false) { print(2) } else { print(3) }");
    assert_eq!(printed_ints(&e), vec![3]);
}

#[test]
fn non_boolean_condition_is_a_type_error() {
    assert_eq!(error_of("if (1) { print(1) }"), ScriptError::Type);
}

#[test]
fn counting_loop_stops_at_three() {
    assert_eq!(int_result("let i = 0; loop (i<3) { i = i+1; }\ni"), 3);
}

#[test]
fn loop_body_runs_once_per_true_test() {
    let e = run("let i = 0; loop (i<3) { i = i+1; print(i); }");
    assert_eq!(printed_ints(&e), vec![1, 2, 3]);
}

#[test]
fn endless_loop_runs_out_of_steps() {
    match run_with_fuel("loop (true) { }", 50).result {
        Err(Interrupt::Fail(e)) => assert_eq!(e, ScriptError::StepLimit),
        other => panic!("{:?}", other),
    }
}

#[test]
fn printing_null_is_a_type_error() {
    assert_eq!(error_of("print({})"), ScriptError::Type);
}

#[test]
fn printing_collects_values_in_order() {
    let e = run("print(1);\nprint(\"hi\");\nprint(true)");
    assert_eq!(e.output.len(), 3);
    assert!(matches!(e.output[0].runtime_val_type, RuntimeValType::NumericInteger(1)));
    match &e.output[1].runtime_val_type {
        RuntimeValType::StringLiteral(s) => assert_eq!(s.iter().collect::<String>(), "hi"),
        other => panic!("{:?}", other),
    }
    assert!(matches!(e.output[2].runtime_val_type, RuntimeValType::Boolean(true)));
}

#[test]
fn empty_program_yields_null() {
    assert!(matches!(run("").result, Ok(RuntimeVal { runtime_val_type: RuntimeValType::Null })));
}

#[test]
fn lexical_errors_abort() {
    assert_eq!(error_of("\"abc"), ScriptError::Lexical(0));
    assert_eq!(error_of("1.2.3"), ScriptError::Lexical(0));
    assert_eq!(error_of("1 @ 2"), ScriptError::Lexical(2));
    assert_eq!(error_of("99999999999999999999"), ScriptError::Lexical(0));
}

#[test]
fn syntax_errors_abort() {
    assert!(matches!(error_of("(1 + 2"), ScriptError::Syntax(_)));
    assert!(matches!(error_of("print 1"), ScriptError::Syntax(1)));
    assert!(matches!(error_of("let 5"), ScriptError::Syntax(1)));
    assert!(matches!(error_of("let x;"), ScriptError::Syntax(_)));
    assert!(matches!(error_of(")"), ScriptError::Syntax(0)));
}

#[test]
fn float_without_reply_is_requested() {
    let e = run_script("1.5".to_string(), &Vec::new(), FUEL);
    match e.result {
        Err(Interrupt::Await(FloatRequest::Parse(t))) => {
            assert_eq!(t.iter().collect::<String>(), "1.5")
        }
        other => panic!("{:?}", other),
    }
}

#[test]
fn wrong_reply_kind_is_rejected() {
    let e = run_script("1.5".to_string(), &vec![FloatReply::Truth(true)], FUEL);
    assert!(matches!(e.result, Err(Interrupt::Fail(ScriptError::BadReply))));
}

#[test]
fn negative_literal_after_non_digit() {
    assert_eq!(int_result("let x = -4;\nx"), -4);
    assert_eq!(int_result("5 - -3"), 8);
}

#[test]
fn only_first_right_hand_side_is_used() {
    assert_eq!(int_result("let x = 5\nx"), 5);
}

#[test]
fn break_in_an_expression_is_unsupported() {
    assert_eq!(error_of("print(break)"), ScriptError::Unsupported);
    assert_eq!(error_of("let x = if (true) { 1 }"), ScriptError::Unsupported);
}

#[test]
fn execute_runs_a_parsed_program() {
    let program = scriptlang::parser::generate_ast("let a = 2;\nprint(a * 3);\na + 1".to_string()).unwrap();
    let e = scriptlang::run::execute(&program, &Vec::new(), FUEL);
    assert_eq!(printed_ints(&e), vec![6]);
    assert!(matches!(
        e.result,
        Ok(RuntimeVal { runtime_val_type: RuntimeValType::NumericInteger(3) })
    ));
}

#[test]
fn machine_starts_with_one_empty_frame() {
    let m = scriptlang::eval::Machine::new(7);
    assert_eq!(m.env.frames.len(), 1);
    assert!(m.env.frames[0].parent.is_none());
    assert!(m.output.is_empty());
    assert_eq!(m.fuel, 7);
    assert_eq!(m.cursor, 0);
}
