use wlwl_eval::callbacks::{
    resume_all, resume_any, resume_filter, resume_find, resume_group_by, resume_map, resume_reduce,
    resume_sort_by, sort_values, start_all, start_any, start_filter, start_find, start_group_by,
    start_map, start_reduce, start_sort, start_sort_by, SortStart, Step, Walk,
};
use wlwl_eval::value::{BuiltinError, ErrorCode, Value};

fn iv(n: i64) -> Value {
    Value::Integer(n)
}
fn s(x: &str) -> Value {
    Value::String(x.to_string())
}
fn f() -> Value {
    Value::Closure { params: vec!["x".into()], handle: 1 }
}
fn arr(xs: Vec<Value>) -> Value {
    Value::Array(xs)
}

/// Drives a collection machine with a host function standing in for the
/// program's callback.
fn run(
    first: Step<Walk>,
    resume: impl Fn(Walk, Value) -> Step<Walk>,
    callback: impl Fn(Vec<Value>) -> Value,
) -> Result<Value, BuiltinError> {
    let mut step = first;
    loop {
        match step {
            Step::Done(r) => return r,
            Step::Call(w, args) => {
                let out = callback(args);
                step = resume(w, out);
            }
        }
    }
}

fn double(args: Vec<Value>) -> Value {
    match &args[0] {
        Value::Integer(n) => iv(n * 2),
        other => panic!("unexpected {:?}", other),
    }
}

fn is_even(args: Vec<Value>) -> Value {
    match &args[0] {
        Value::Integer(n) => Value::Boolean(n % 2 == 0),
        other => panic!("unexpected {:?}", other),
    }
}

#[test]
fn map_applies_callback_in_order() {
    let r = run(start_map(vec![arr(vec![iv(1), iv(2), iv(3)]), f()]), resume_map, double);
    assert_eq!(r.unwrap(), arr(vec![iv(2), iv(4), iv(6)]));
    let r = run(start_map(vec![arr(vec![]), f()]), resume_map, double);
    assert_eq!(r.unwrap(), arr(vec![]));
}

#[test]
fn map_callback_err_is_transparent() {
    let r = run(start_map(vec![arr(vec![iv(1), iv(2)]), f()]), resume_map, |_| {
        Value::ErrValue(Box::new(s("bad")))
    });
    assert_eq!(r.unwrap(), Value::ErrValue(Box::new(s("bad"))));
}

#[test]
fn map_checks_arguments() {
    let r = run(start_map(vec![iv(1), f()]), resume_map, double);
    assert_eq!(r.unwrap_err().message, "MAP: expected array, got integer");
    let r = run(start_map(vec![arr(vec![]), iv(1)]), resume_map, double);
    let e = r.unwrap_err();
    assert_eq!(e.code, ErrorCode::E0020);
    assert_eq!(e.message, "MAP: callback is not callable (got integer)");
    let r = run(start_map(vec![arr(vec![])]), resume_map, double);
    assert_eq!(r.unwrap_err().code, ErrorCode::E0022);
    let r = run(start_map(vec![Value::ErrValue(Box::new(iv(0))), f()]), resume_map, double);
    assert_eq!(r.unwrap(), Value::ErrValue(Box::new(iv(0))));
}

#[test]
fn filter_keeps_matching_elements() {
    let r = run(start_filter(vec![arr(vec![iv(1), iv(2), iv(3), iv(4)]), f()]), resume_filter, is_even);
    assert_eq!(r.unwrap(), arr(vec![iv(2), iv(4)]));
    let r = run(start_filter(vec![arr(vec![iv(1)]), f()]), resume_filter, |_| iv(1));
    let e = r.unwrap_err();
    assert_eq!(e.code, ErrorCode::E0030);
    assert_eq!(e.message, "FILTER: predicate must return BOOLEAN, got integer");
}

#[test]
fn find_returns_first_match_or_null() {
    let r = run(start_find(vec![arr(vec![iv(3), iv(4), iv(6)]), f()]), resume_find, is_even);
    assert_eq!(r.unwrap(), iv(4));
    let r = run(start_find(vec![arr(vec![iv(3), iv(5)]), f()]), resume_find, is_even);
    assert_eq!(r.unwrap(), Value::Null);
}

#[test]
fn reduce_folds_left() {
    let sum = |args: Vec<Value>| match (&args[0], &args[1]) {
        (Value::Integer(a), Value::Integer(b)) => iv(a * 10 + b),
        _ => panic!(),
    };
    let r = run(start_reduce(vec![arr(vec![iv(1), iv(2), iv(3)]), f(), iv(0)]), resume_reduce, sum);
    assert_eq!(r.unwrap(), iv(123));
    let r = run(start_reduce(vec![arr(vec![]), f(), s("init")]), resume_reduce, sum);
    assert_eq!(r.unwrap(), s("init"));
}

#[test]
fn any_and_all() {
    let r = run(start_any(vec![arr(vec![Value::Null, Value::Boolean(false), iv(1)])]), resume_any, double);
    assert_eq!(r.unwrap(), Value::Boolean(true));
    let r = run(start_all(vec![arr(vec![iv(1), Value::Null])]), resume_all, double);
    assert_eq!(r.unwrap(), Value::Boolean(false));
    let r = run(start_any(vec![arr(vec![iv(1), iv(3)]), f()]), resume_any, is_even);
    assert_eq!(r.unwrap(), Value::Boolean(false));
    let r = run(start_all(vec![arr(vec![iv(2), iv(4)]), f()]), resume_all, is_even);
    assert_eq!(r.unwrap(), Value::Boolean(true));
    let r = run(start_all(vec![arr(vec![])]), resume_all, is_even);
    assert_eq!(r.unwrap(), Value::Boolean(true));
    let r = run(start_any(vec![arr(vec![]), f(), f()]), resume_any, is_even);
    assert_eq!(r.unwrap_err().code, ErrorCode::E0022);
}

#[test]
fn group_by_buckets_by_key_text() {
    let texts: Vec<(u64, String)> = Vec::new();
    let r = run(
        start_group_by(vec![arr(vec![iv(1), iv(2), iv(3), iv(4)]), f()]),
        |w, out| resume_group_by(w, out, &texts),
        |args| match &args[0] {
            Value::Integer(n) => iv(n % 2),
            _ => panic!(),
        },
    );
    assert_eq!(
        r.unwrap(),
        Value::Dict(vec![(s("1"), arr(vec![iv(1), iv(3)])), (s("0"), arr(vec![iv(2), iv(4)]))])
    );
}

#[test]
fn sort_by_orders_by_key_stably() {
    let r = run(
        start_sort_by(vec![arr(vec![s("ccc"), s("a"), s("bb"), s("d")]), f()]),
        resume_sort_by,
        |args| match &args[0] {
            Value::String(t) => iv(t.len() as i64),
            _ => panic!(),
        },
    );
    assert_eq!(r.unwrap(), arr(vec![s("a"), s("d"), s("bb"), s("ccc")]));
}

#[test]
fn sort_without_comparator() {
    match start_sort(vec![arr(vec![iv(3), iv(1), iv(2)])]) {
        SortStart::Done(r) => assert_eq!(r.unwrap(), arr(vec![iv(1), iv(2), iv(3)])),
        SortStart::Compare(..) => panic!("no comparator was given"),
    }
    match start_sort(vec![arr(vec![iv(1)]), f()]) {
        SortStart::Compare(items, cmp) => {
            assert_eq!(items, vec![iv(1)]);
            assert_eq!(cmp, f());
        }
        SortStart::Done(_) => panic!("a comparator was given"),
    }
    assert_eq!(sort_values(vec![s("b"), s("a"), s("c")]), vec![s("a"), s("b"), s("c")]);
}
