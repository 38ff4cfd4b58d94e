use wlwl_eval::collection::{
    arity, builtin_drop, builtin_enumerate, builtin_flat, builtin_range, builtin_take, builtin_zip,
    names, short_circuit_err,
};
use wlwl_eval::value::{value_kind, ErrorCode, Value};

fn v_int(n: i64) -> Value {
    Value::Integer(n)
}
fn v_str(s: &str) -> Value {
    Value::String(s.into())
}
fn v_arr(xs: Vec<Value>) -> Value {
    Value::Array(xs)
}
fn v_bool(b: bool) -> Value {
    Value::Boolean(b)
}
fn v_null() -> Value {
    Value::Null
}
fn v_err(s: &str) -> Value {
    Value::ErrValue(Box::new(Value::String(s.into())))
}

#[test]
fn arity_message_includes_function_name() {
    let _ = arity;
    let e = arity("MAP", 1, 2);
    assert_eq!(e.code, ErrorCode::E0022);
    assert_eq!(e.message, "MAP: function expects 2 argument(s), got 1");
}

#[test]
fn short_circuit_picks_first_err_leftmost_wins() {
    let args = vec![v_int(1), v_err("e2"), v_err("e3"), v_int(4)];
    let i = short_circuit_err(&args).expect("ERR precheck fires");
    match &args[i] {
        Value::ErrValue(inner) => assert_eq!(**inner, v_str("e2")),
        _ => panic!("expected Err"),
    }
}

#[test]
fn short_circuit_returns_none_when_no_err() {
    let args = vec![v_int(1), v_str("x"), v_null(), v_bool(false)];
    assert!(short_circuit_err(&args).is_none());
}

#[test]
fn value_kind_all_variants() {
    assert_eq!(value_kind(&v_int(1)), "integer");
    assert_eq!(value_kind(&Value::Float(1.5f64.to_bits())), "float");
    assert_eq!(value_kind(&v_str("x")), "string");
    assert_eq!(value_kind(&v_bool(true)), "boolean");
    assert_eq!(value_kind(&v_null()), "null");
    assert_eq!(value_kind(&v_arr(vec![])), "array");
    assert_eq!(value_kind(&Value::Dict(vec![])), "dict");
    assert_eq!(value_kind(&Value::Closure { params: vec![], handle: 0 }), "function closure");
    assert_eq!(value_kind(&v_err("e")), "RESULT err");
}

#[test]
fn names_lists_the_seventeen_collection_functions() {
    let n = names();
    assert_eq!(n.len(), 17);
    assert_eq!(n[0], "MAP");
    assert_eq!(n[16], "JOIN");
}

#[test]
fn enumerate_pairs_index_and_value() {
    let r = builtin_enumerate(vec![v_arr(vec![v_str("a"), v_str("b")])]).unwrap();
    assert_eq!(
        r,
        v_arr(vec![v_arr(vec![v_int(0), v_str("a")]), v_arr(vec![v_int(1), v_str("b")])])
    );
    // A non-array argument is reported as an arity mismatch.
    let e = builtin_enumerate(vec![v_int(3)]).unwrap_err();
    assert_eq!(e.code, ErrorCode::E0022);
}

#[test]
fn take_and_drop_bounds() {
    let arr = || v_arr(vec![v_int(1), v_int(2), v_int(3)]);
    assert_eq!(builtin_take(vec![arr(), v_int(2)]).unwrap(), v_arr(vec![v_int(1), v_int(2)]));
    assert_eq!(builtin_take(vec![arr(), v_int(9)]).unwrap(), arr());
    assert_eq!(builtin_take(vec![arr(), v_int(-1)]).unwrap(), v_arr(vec![]));
    assert_eq!(builtin_drop(vec![arr(), v_int(2)]).unwrap(), v_arr(vec![v_int(3)]));
    assert_eq!(builtin_drop(vec![arr(), v_int(-4)]).unwrap(), arr());
    assert_eq!(builtin_drop(vec![arr(), v_int(9)]).unwrap(), v_arr(vec![]));
    assert_eq!(builtin_take(vec![arr(), v_str("x")]).unwrap_err().code, ErrorCode::E0030);
    assert_eq!(builtin_take(vec![arr()]).unwrap_err().code, ErrorCode::E0022);
}

#[test]
fn flat_flattens_one_level() {
    let r = builtin_flat(vec![v_arr(vec![
        v_arr(vec![v_int(1), v_arr(vec![v_int(2)])]),
        v_int(3),
    ])])
    .unwrap();
    assert_eq!(r, v_arr(vec![v_int(1), v_arr(vec![v_int(2)]), v_int(3)]));
}

#[test]
fn range_forms() {
    assert_eq!(builtin_range(vec![v_int(3)]).unwrap(), v_arr(vec![v_int(0), v_int(1), v_int(2)]));
    assert_eq!(
        builtin_range(vec![v_int(5), v_int(0), v_int(-2)]).unwrap(),
        v_arr(vec![v_int(5), v_int(3), v_int(1)])
    );
    assert_eq!(builtin_range(vec![v_int(0), v_int(3), v_int(0)]).unwrap_err().code, ErrorCode::E0038);
    assert_eq!(builtin_range(vec![v_str("x")]).unwrap_err().code, ErrorCode::E0030);
    assert_eq!(builtin_range(vec![v_int(-2)]).unwrap(), v_arr(vec![]));
    assert_eq!(
        builtin_range(vec![v_int(i64::MAX - 1), v_int(i64::MAX), v_int(5)]).unwrap(),
        v_arr(vec![v_int(i64::MAX - 1)])
    );
}

#[test]
fn range_passes_err_through() {
    assert_eq!(builtin_range(vec![v_err("bad")]).unwrap(), v_err("bad"));
}

#[test]
fn zip_uses_shortest_column() {
    let r = builtin_zip(vec![v_arr(vec![v_int(1), v_int(2), v_int(3)]), v_arr(vec![v_str("a"), v_str("b")])])
        .unwrap();
    assert_eq!(
        r,
        v_arr(vec![v_arr(vec![v_int(1), v_str("a")]), v_arr(vec![v_int(2), v_str("b")])])
    );
    let single = builtin_zip(vec![v_int(7), v_arr(vec![v_int(1), v_int(2)])]).unwrap();
    assert_eq!(single, v_arr(vec![v_arr(vec![v_int(7), v_int(1)])]));
    assert_eq!(builtin_zip(vec![]).unwrap_err().code, ErrorCode::E0022);
    assert_eq!(builtin_zip(vec![v_int(1), v_err("z")]).unwrap(), v_err("z"));
}

#[test]
fn range_with_two_arguments_steps_by_one() {
    assert_eq!(
        builtin_range(vec![v_int(0), v_int(3)]).unwrap(),
        Value::Array(vec![v_int(0), v_int(1), v_int(2)])
    );
}
