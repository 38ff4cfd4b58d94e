use wlwl_eval::strings::{
    builtin_codepoints, builtin_from_codepoints, builtin_lower, builtin_pad_end, builtin_pad_start,
    builtin_repeat, builtin_replace, builtin_split, builtin_starts_with, builtin_substr, builtin_trim,
    builtin_upper, string_contains, string_index,
};
use wlwl_eval::collection::builtin_join;
use wlwl_eval::compare::builtin_eq;
use wlwl_eval::suggest::{levenshtein, similar_names};
use wlwl_eval::text::{int_text, u64_text};
use wlwl_eval::value::{ErrorCode, Value};

fn s(x: &str) -> Value {
    Value::String(x.to_string())
}
fn iv(n: i64) -> Value {
    Value::Integer(n)
}

#[test]
fn levenshtein_distances() {
    assert_eq!(levenshtein("", ""), 0);
    assert_eq!(levenshtein("", "abc"), 3);
    assert_eq!(levenshtein("abc", ""), 3);
    assert_eq!(levenshtein("kitten", "sitting"), 3);
    assert_eq!(levenshtein("PUSH", "PUSH"), 0);
    assert_eq!(levenshtein("PSUH", "PUSH"), 2);
    assert_eq!(levenshtein("naïve", "naive"), 1);
}

#[test]
fn similar_names_keeps_close_names_nearest_first() {
    let pool: Vec<String> = vec!["LENGTH".into(), "LEN".into(), "PUSH".into(), "MAP".into()];
    let got = similar_names("LENN", &pool, 5);
    assert_eq!(got, vec!["LEN".to_string(), "LENGTH".to_string()]);
    assert_eq!(similar_names("LEN", &pool, 5), vec!["LENGTH".to_string(), "MAP".to_string()]);
    assert_eq!(similar_names("LENN", &pool, 1), vec!["LEN".to_string()]);
    assert!(similar_names("ZZZZZZZZ", &pool, 5).is_empty());
}

#[test]
fn number_texts() {
    assert_eq!(u64_text(0), "0");
    assert_eq!(u64_text(18446744073709551615), "18446744073709551615");
    assert_eq!(int_text(-42), "-42");
    assert_eq!(int_text(i64::MIN), "-9223372036854775808");
}

#[test]
fn trim_and_case() {
    assert_eq!(builtin_trim(vec![s("  hi \t\n")]).unwrap(), s("hi"));
    assert_eq!(builtin_upper(vec![s("abc")]).unwrap(), s("ABC"));
    assert_eq!(builtin_lower(vec![s("ÀB")]).unwrap(), s("Àb"));
    assert_eq!(builtin_starts_with(vec![s("hello"), s("he")]).unwrap(), Value::Boolean(true));
    assert_eq!(builtin_starts_with(vec![s("hello"), s("lo")]).unwrap(), Value::Boolean(false));
    let e = builtin_trim(vec![iv(1)]).unwrap_err();
    assert_eq!(e.code, ErrorCode::E0030);
}

#[test]
fn codepoints_round_trip() {
    let cps = builtin_codepoints(vec![s("aé")]).unwrap();
    assert_eq!(cps, Value::Array(vec![iv(97), iv(233)]));
    assert_eq!(builtin_from_codepoints(vec![cps]).unwrap(), s("aé"));
}

#[test]
fn from_codepoints_errors() {
    let e = builtin_from_codepoints(vec![Value::Array(vec![iv(0xD800)])]).unwrap_err();
    assert_eq!(e.code, ErrorCode::E0031);
    assert_eq!(e.message, "FROM_CODEPOINTS: codepoint U+D800 not a valid Unicode scalar");
    let e = builtin_from_codepoints(vec![Value::Array(vec![iv(-1)])]).unwrap_err();
    assert_eq!(e.code, ErrorCode::E0031);
    assert_eq!(e.message, "FROM_CODEPOINTS: codepoint -1 outside Unicode range 0..=0x10FFFF");
    let e = builtin_from_codepoints(vec![Value::Array(vec![s("a")])]).unwrap_err();
    assert_eq!(e.code, ErrorCode::E0030);
    assert_eq!(e.message, "FROM_CODEPOINTS: array element must be INTEGER, got string");
}

#[test]
fn pad_and_repeat() {
    assert_eq!(builtin_pad_start(vec![s("7"), iv(3), s("0")]).unwrap(), s("007"));
    assert_eq!(builtin_pad_end(vec![s("ab"), iv(4), s("xy")]).unwrap(), s("abxx"));
    assert_eq!(builtin_pad_end(vec![s("abc"), iv(-5), s("x")]).unwrap(), s("abc"));
    let e = builtin_pad_start(vec![s("a"), iv(3), s("")]).unwrap_err();
    assert_eq!(e.message, "PAD_START: pad character STRING must be non-empty");
    assert_eq!(builtin_repeat(vec![s("ab"), iv(3)]).unwrap(), s("ababab"));
    assert_eq!(builtin_repeat(vec![s("ab"), iv(0)]).unwrap(), s(""));
    let e = builtin_repeat(vec![s("ab"), iv(-1)]).unwrap_err();
    assert_eq!(e.message, "REPEAT: second arg must be non-negative INTEGER");
}

#[test]
fn substr_bounds() {
    assert_eq!(builtin_substr(vec![s("hello"), iv(1), iv(3)]).unwrap(), s("el"));
    assert_eq!(builtin_substr(vec![s("hello"), iv(-3)]).unwrap(), s("llo"));
    assert_eq!(builtin_substr(vec![s("hello"), iv(4), iv(2)]).unwrap(), s(""));
    assert_eq!(builtin_substr(vec![s("héllo"), iv(0), iv(100)]).unwrap(), s("héllo"));
    let e = builtin_substr(vec![s("x")]).unwrap_err();
    assert_eq!(e.code, ErrorCode::E0022);
}

#[test]
fn replace_and_split() {
    assert_eq!(builtin_replace(vec![s("aaa"), s("aa"), s("b")]).unwrap(), s("ba"));
    assert_eq!(builtin_replace(vec![s("abc"), s("x"), s("y")]).unwrap(), s("abc"));
    let e = builtin_replace(vec![s("abc"), s(""), s("y")]).unwrap_err();
    assert_eq!(e.message, "REPLACE: old pattern must be non-empty (empty would cause infinite loop)");
    assert_eq!(
        builtin_split(vec![s("a,b,,c"), s(",")]).unwrap(),
        Value::Array(vec![s("a"), s("b"), s(""), s("c")])
    );
    assert_eq!(builtin_split(vec![s(""), s(",")]).unwrap(), Value::Array(vec![s("")]));
    let e = builtin_split(vec![s("a"), s("")]).unwrap_err();
    assert_eq!(e.message, "SPLIT: separator must be non-empty");
}

#[test]
fn string_contains_and_index() {
    assert!(string_contains("hello", "ll"));
    assert!(string_contains("hello", ""));
    assert!(!string_contains("hello", "lo!"));
    assert_eq!(string_index("héllo", "llo"), 4);
    assert_eq!(string_index("hello", "z"), -1);
}

#[test]
fn join_undoes_split_on_samples() {
    for (text, sep) in [("a,b,,c", ","), ("", ","), ("abc", "abc"), ("x--y--", "--"), ("héé", "é")] {
        let pieces = builtin_split(vec![s(text), s(sep)]).unwrap();
        let joined = builtin_join(vec![pieces, s(sep)], &Vec::new()).unwrap();
        assert_eq!(joined, s(text));
    }
}

#[test]
fn equality_is_reflexive_except_nan_and_functions() {
    let plain = Value::Array(vec![iv(1), s("a"), Value::Dict(vec![(s("k"), Value::Null)])]);
    let same = Value::Array(vec![iv(1), s("a"), Value::Dict(vec![(s("k"), Value::Null)])]);
    assert_eq!(builtin_eq(vec![plain, same]).unwrap(), Value::Boolean(true));
    let nan = Value::Array(vec![Value::Float(f64::NAN.to_bits())]);
    let nan2 = Value::Array(vec![Value::Float(f64::NAN.to_bits())]);
    assert_eq!(builtin_eq(vec![nan, nan2]).unwrap(), Value::Boolean(false));
    let f = Value::NativeFn { name: "F".to_string(), handle: 1 };
    let g = Value::NativeFn { name: "F".to_string(), handle: 1 };
    assert_eq!(builtin_eq(vec![f, g]).unwrap(), Value::Boolean(false));
}
