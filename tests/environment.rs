use scriptlang::environment::{
    assign_variable, declare_variable, lookup_variable, resolve_env, same_name, Environment, Frame,
};
use scriptlang::error::ScriptError;
use scriptlang::eval::{RuntimeVal, RuntimeValType};

fn name(s: &str) -> Vec<char> {
    s.chars().collect()
}

fn two_frames() -> Environment {
    Environment {
        frames: vec![
            Frame { parent: None, variables: Vec::new() },
            Frame { parent: Some(0), variables: Vec::new() },
        ],
    }
}

fn int_of(r: Result<RuntimeVal, ScriptError>) -> i64 {
    match r {
        Ok(RuntimeVal { runtime_val_type: RuntimeValType::NumericInteger(v) }) => v,
        other => panic!("{:?}", other),
    }
}

#[test]
fn declare_then_lookup() {
    let mut env = two_frames();
    let v = declare_variable(&mut env, 0, &name("a"), &RuntimeVal::integer(3));
    assert_eq!(int_of(v), 3);
    assert_eq!(int_of(lookup_variable(&env, 0, &name("a"))), 3);
    assert_eq!(int_of(lookup_variable(&env, 1, &name("a"))), 3);
}

#[test]
fn declare_twice_in_one_frame_fails() {
    let mut env = two_frames();
    declare_variable(&mut env, 0, &name("a"), &RuntimeVal::integer(1)).unwrap();
    declare_variable(&mut env, 0, &name("b"), &RuntimeVal::integer(2)).unwrap();
    assert!(matches!(
        declare_variable(&mut env, 0, &name("b"), &RuntimeVal::integer(3)),
        Err(ScriptError::Name)
    ));
}

#[test]
fn inner_declaration_shadows() {
    let mut env = two_frames();
    declare_variable(&mut env, 0, &name("a"), &RuntimeVal::integer(1)).unwrap();
    declare_variable(&mut env, 1, &name("a"), &RuntimeVal::integer(2)).unwrap();
    assert_eq!(int_of(lookup_variable(&env, 1, &name("a"))), 2);
    assert_eq!(int_of(lookup_variable(&env, 0, &name("a"))), 1);
    assert_eq!(resolve_env(&env, 1, &name("a")), Some(1));
}

#[test]
fn assignment_from_inner_frame_changes_outer_binding() {
    let mut env = two_frames();
    declare_variable(&mut env, 0, &name("a"), &RuntimeVal::integer(1)).unwrap();
    let r = assign_variable(&mut env, 1, &name("a"), &RuntimeVal::integer(9));
    assert!(matches!(r, Ok(RuntimeVal { runtime_val_type: RuntimeValType::Null })));
    assert_eq!(int_of(lookup_variable(&env, 0, &name("a"))), 9);
    assert_eq!(resolve_env(&env, 1, &name("a")), Some(0));
}

#[test]
fn unknown_names_fail() {
    let mut env = two_frames();
    assert!(matches!(lookup_variable(&env, 1, &name("q")), Err(ScriptError::Name)));
    assert!(matches!(
        assign_variable(&mut env, 1, &name("q"), &RuntimeVal::integer(1)),
        Err(ScriptError::Name)
    ));
    assert_eq!(resolve_env(&env, 1, &name("q")), None);
}

#[test]
fn names_compare_by_characters() {
    assert!(same_name(&name("abc"), &name("abc")));
    assert!(!same_name(&name("abc"), &name("abd")));
    assert!(!same_name(&name("ab"), &name("abc")));
}
