use wlwl_eval::control::{
    after_body, block_continues, call_target, enter_closure, for_items, frame_name, if_step, leave_closure,
    method_arguments, not_callable_message, set_form_error, set_result, short_circuits, strict_type_mismatch, while_step,
    CallTarget,
    IfStep, LoopNext, Outcome, Signal, WhileStep,
};
use wlwl_eval::env::{Cells, Env};
use wlwl_eval::registry::Builtin;
use wlwl_eval::value::{ErrorCode, Value};

fn iv(n: i64) -> Value {
    Value::Integer(n)
}
fn s(x: &str) -> Value {
    Value::String(x.to_string())
}

#[test]
fn signals_steer_blocks_and_branches() {
    assert!(block_continues(&Outcome::normal(iv(1))));
    let brk = Outcome { value: Value::Null, signal: Signal::Break };
    assert!(!block_continues(&brk));
    assert_eq!(if_step(&Outcome::normal(Value::Boolean(true)), false), IfStep::Then);
    assert_eq!(if_step(&Outcome::normal(Value::Null), true), IfStep::Else);
    assert_eq!(if_step(&Outcome::normal(Value::Boolean(false)), false), IfStep::Null);
    assert_eq!(if_step(&Outcome::normal(iv(0)), false), IfStep::Then);
    assert_eq!(if_step(&brk, true), IfStep::Propagate);
    assert_eq!(while_step(&Outcome::normal(iv(1))), WhileStep::Run);
    assert_eq!(while_step(&Outcome::normal(Value::Null)), WhileStep::Stop);
    assert_eq!(after_body(&Outcome { value: Value::Null, signal: Signal::Continue }), LoopNext::Next);
    assert_eq!(after_body(&brk), LoopNext::Break);
    assert_eq!(after_body(&Outcome { value: Value::Null, signal: Signal::Return(iv(3)) }), LoopNext::Return);
}

#[test]
fn for_goes_through_items_keys_and_characters() {
    assert_eq!(for_items(Value::Array(vec![iv(1), iv(2)])).unwrap(), vec![iv(1), iv(2)]);
    assert_eq!(for_items(Value::Dict(vec![(s("a"), iv(1)), (s("b"), iv(2))])).unwrap(), vec![s("a"), s("b")]);
    assert_eq!(for_items(s("hé")).unwrap(), vec![s("h"), s("é")]);
    assert_eq!(
        for_items(iv(3)).unwrap_err(),
        "FOR expects an iterable (array/dict/string), got integer".to_string()
    );
}

#[test]
fn calls_reach_their_targets() {
    assert_eq!(call_target("SET", 2, None), CallTarget::SetForm);
    assert_eq!(call_target("ARRAY", 0, None), CallTarget::Empty(Value::Array(vec![])));
    assert_eq!(call_target("DICT", 0, Some(&iv(1))), CallTarget::Empty(Value::Dict(vec![])));
    let f = Value::Closure { params: vec!["x".to_string()], handle: 1 };
    assert_eq!(call_target("PUSH", 2, Some(&f)), CallTarget::Closure);
    assert_eq!(call_target("f", 1, Some(&iv(1))), CallTarget::NotCallable);
    assert_eq!(call_target("PUSH", 2, None), CallTarget::Builtin(Builtin::Push));
    assert_eq!(call_target("nope", 0, None), CallTarget::Undefined);
    assert_eq!(not_callable_message("f"), "'f' is not a function");
    assert!(short_circuits("PUSH", &Value::ErrValue(Box::new(iv(1)))));
    assert!(!short_circuits("UNWRAP_OR", &Value::ErrValue(Box::new(iv(1)))));
    assert!(!short_circuits("PUSH", &iv(1)));
}

#[test]
fn method_calls_pass_the_receiver_to_self() {
    let with_self = vec!["self".to_string(), "x".to_string()];
    assert_eq!(method_arguments(&with_self, Some(s("obj")), vec![iv(1)]), vec![s("obj"), iv(1)]);
    let without = vec!["x".to_string()];
    assert_eq!(method_arguments(&without, Some(s("obj")), vec![iv(1)]), vec![iv(1)]);
    assert_eq!(method_arguments(&with_self, None, vec![iv(1)]), vec![iv(1)]);
}

#[test]
fn closure_frames() {
    let mut cells = Cells::new();
    let mut captured = Env::new();
    captured.set_local(&mut cells, "n".to_string(), iv(10));
    let mut caller = Env::new();
    caller.set_local(&mut cells, "g".to_string(), iv(0));
    let params = vec!["a".to_string(), "b".to_string()];
    let e = enter_closure(&captured, &caller, &params, vec![iv(1)], &mut cells).unwrap_err();
    assert_eq!(e, "function expects 2 argument(s), got 1");
    let env = enter_closure(&captured, &caller, &params, vec![iv(1), iv(2)], &mut cells).unwrap();
    assert_eq!(env.get(&cells, "a"), Some(&iv(1)));
    assert_eq!(env.get(&cells, "b"), Some(&iv(2)));
    assert_eq!(env.get(&cells, "n"), Some(&iv(10)));
    assert_eq!(env.get(&cells, "g"), Some(&iv(0)));
    // The captured cell became mutable; the caller's did not.
    assert_eq!(env.set_cell_value(&mut cells, "n", iv(11)), Ok(true));
    assert_eq!(captured.get(&cells, "n"), Some(&iv(11)));
    assert_eq!(env.set_cell_value(&mut cells, "g", iv(5)), Ok(false));
    assert_eq!(frame_name(""), "<anonymous>");
    assert_eq!(frame_name("f"), "f");
}

#[test]
fn leaving_closures_and_set() {
    assert_eq!(
        leave_closure(Outcome { value: Value::Null, signal: Signal::Return(iv(4)) }),
        Ok(Outcome::normal(iv(4)))
    );
    assert_eq!(leave_closure(Outcome::normal(iv(1))), Ok(Outcome::normal(iv(1))));
    assert_eq!(
        leave_closure(Outcome { value: Value::Null, signal: Signal::Break }),
        Err("BREAK or CONTINUE used outside a loop".to_string())
    );
    assert_eq!(set_form_error(1, true), Some((ErrorCode::E0022, "SET expects 2 arguments, got 1".to_string())));
    assert_eq!(
        set_form_error(2, false),
        Some((ErrorCode::E0030, "SET target must be a variable name (not an expression)".to_string()))
    );
    assert_eq!(set_form_error(2, true), None);
    assert_eq!(set_result(Ok(true), "x"), Ok(Value::Null));
    assert_eq!(set_result(Err(()), "x"), Err((ErrorCode::E0020, "x".to_string())));
    let (code, _) = set_result(Ok(false), "x").unwrap_err();
    assert_eq!(code, ErrorCode::E0024);
}

#[test]
fn strict_types_compare_upper_cased_annotations() {
    let anns = vec![Some("integer".to_string()), None, Some("String".to_string())];
    assert_eq!(strict_type_mismatch(&anns, &vec![iv(1), s("x"), s("y")]), None);
    assert_eq!(
        strict_type_mismatch(&anns, &vec![iv(1), iv(2), iv(3)]),
        Some((2, "STRING".to_string(), "INTEGER"))
    );
}
