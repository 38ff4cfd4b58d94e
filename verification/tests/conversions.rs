use wlwl_eval::compare::{
    builtin_eq, builtin_ge, builtin_gt, builtin_le, builtin_lt, builtin_ne, compare_values, copy_value,
    default_less, text_compare, Order,
};
use wlwl_eval::convert::{builtin_int, truncate_double};
use wlwl_eval::json::{value_to_error_cause, value_to_json_value, ErrorCause, JsonValue};
use wlwl_eval::value::{ErrorCode, Value};

fn iv(n: i64) -> Value {
    Value::Integer(n)
}
fn s(x: &str) -> Value {
    Value::String(x.to_string())
}
fn fl(x: f64) -> Value {
    Value::Float(x.to_bits())
}

#[test]
fn default_less_integer_total_order() {
    assert!(default_less(&iv(1), &iv(2)));
    assert!(!default_less(&iv(2), &iv(1)));
    assert!(!default_less(&iv(2), &iv(2)));
}

#[test]
fn default_less_cross_type_numeric() {
    assert!(default_less(&iv(1), &fl(1.5)));
    assert!(!default_less(&iv(2), &fl(1.5)));
}

#[test]
fn default_less_string_lexicographic() {
    assert!(default_less(&s("a"), &s("b")));
    assert!(!default_less(&s("b"), &s("a")));
}

#[test]
fn default_less_incomparable_returns_false() {
    assert!(!default_less(&iv(1), &s("1")));
    assert!(!default_less(&Value::Null, &iv(0)));
}

#[test]
fn default_less_booleans_and_nan() {
    assert!(default_less(&Value::Boolean(false), &Value::Boolean(true)));
    assert!(!default_less(&fl(f64::NAN), &fl(1.0)));
    assert!(!default_less(&fl(1.0), &fl(f64::NAN)));
}

#[test]
fn text_compare_by_code_point() {
    assert_eq!(text_compare("abc", "abd"), Order::Less);
    assert_eq!(text_compare("ab", "abc"), Order::Less);
    assert_eq!(text_compare("b", "abc"), Order::Greater);
    assert_eq!(text_compare("é", "z"), Order::Greater);
    assert_eq!(text_compare("", ""), Order::Equal);
}

#[test]
fn comparison_operators() {
    assert_eq!(builtin_lt(vec![iv(1), fl(1.5)]).unwrap(), Value::Boolean(true));
    assert_eq!(builtin_gt(vec![s("b"), s("a")]).unwrap(), Value::Boolean(true));
    assert_eq!(builtin_le(vec![iv(2), iv(2)]).unwrap(), Value::Boolean(true));
    assert_eq!(builtin_ge(vec![fl(f64::NAN), iv(3)]).unwrap(), Value::Boolean(true));
    assert_eq!(builtin_lt(vec![fl(f64::NAN), iv(3)]).unwrap(), Value::Boolean(false));
    let e = builtin_lt(vec![iv(1), s("x")]).unwrap_err();
    assert_eq!(e.code, ErrorCode::E0030);
    assert_eq!(e.message, "<cmp>: cannot compute less than for integer and string");
    assert_eq!(builtin_lt(vec![iv(1)]).unwrap_err().code, ErrorCode::E0022);
    assert_eq!(compare_values(&Value::Null, &iv(1)), None);
}

#[test]
fn equality_operators() {
    assert_eq!(builtin_eq(vec![iv(2), fl(2.0)]).unwrap(), Value::Boolean(true));
    assert_eq!(builtin_ne(vec![iv(2), s("2")]).unwrap(), Value::Boolean(true));
    assert_eq!(builtin_eq(vec![iv(2)]).unwrap_err().code, ErrorCode::E0022);
}

#[test]
fn int_conversion() {
    assert_eq!(builtin_int(vec![iv(5)], "").unwrap(), iv(5));
    assert_eq!(builtin_int(vec![fl(-2.7)], "-2.7").unwrap(), iv(-2));
    assert_eq!(builtin_int(vec![fl(9.0e18)], "").unwrap(), iv(9.0e18 as i64));
    assert_eq!(builtin_int(vec![fl(9223372036854775808.0)], "").unwrap(), iv(i64::MAX));
    assert_eq!(builtin_int(vec![fl(-9223372036854775808.0)], "").unwrap(), iv(i64::MIN));
    let e = builtin_int(vec![fl(1e19)], "10000000000000000000").unwrap_err();
    assert_eq!(e.code, ErrorCode::E0035);
    assert_eq!(e.message, "INT: FLOAT value 10000000000000000000 out of INTEGER range");
    assert_eq!(builtin_int(vec![fl(f64::NAN)], "NaN").unwrap_err().code, ErrorCode::E0035);
    assert_eq!(builtin_int(vec![s("-42")], "").unwrap(), iv(-42));
    assert_eq!(builtin_int(vec![s("+7")], "").unwrap(), iv(7));
    match builtin_int(vec![s("4x")], "").unwrap() {
        Value::ErrValue(p) => match *p {
            Value::Dict(entries) => {
                assert_eq!(entries[0], (s("kind"), s("ParseError")));
                assert_eq!(entries[1], (s("input"), s("4x")));
            }
            other => panic!("expected a dict, got {:?}", other),
        },
        other => panic!("expected an ERR, got {:?}", other),
    }
    assert_eq!(builtin_int(vec![Value::Null], "").unwrap_err().message, "INT: cannot convert null to INTEGER");
}

#[test]
fn truncation_matches_the_cast() {
    for x in [0.0f64, 0.5, -0.5, 1.0, 123.999, -77.25, 4503599627370497.5, 1e15 + 0.5, -1e18, 5e-324] {
        assert_eq!(truncate_double(x.to_bits()), x as i64, "x = {}", x);
    }
}

#[test]
fn json_forms() {
    assert_eq!(value_to_json_value(&iv(3)), Some(JsonValue::Int(3)));
    assert_eq!(value_to_json_value(&fl(f64::INFINITY)), None);
    assert_eq!(
        value_to_json_value(&Value::Array(vec![s("a"), Value::Null])),
        Some(JsonValue::List(vec![JsonValue::Text("a".into()), JsonValue::Null]))
    );
    assert_eq!(value_to_json_value(&Value::Dict(vec![(iv(1), iv(2))])), None);
    assert_eq!(
        value_to_json_value(&Value::OkValue(Box::new(Value::Boolean(true)))),
        Some(JsonValue::Bool(true))
    );
    assert_eq!(value_to_json_value(&Value::ErrValue(Box::new(iv(1)))), None);
    assert_eq!(
        value_to_error_cause(&Value::ErrValue(Box::new(s("boom")))),
        Some(ErrorCause::Text("boom".into()))
    );
    assert_eq!(
        value_to_error_cause(&Value::Dict(vec![(s("k"), fl(1.5))])),
        Some(ErrorCause::Fields(vec![("k".into(), JsonValue::Double(1.5f64.to_bits()))]))
    );
    assert_eq!(value_to_error_cause(&iv(1)), None);
}

#[test]
fn copies_are_equal() {
    let v = Value::Dict(vec![(s("a"), Value::Array(vec![iv(1), fl(2.5)]))]);
    assert_eq!(copy_value(&v), v);
    let c = Value::Closure { params: vec!["x".into()], handle: 9 };
    assert_eq!(copy_value(&c), c);
}
