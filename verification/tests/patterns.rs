use wlwl_eval::diagnostics::{pattern_diagnostic, Location};
use wlwl_eval::env::{Cells, Env};
use wlwl_eval::patterns::{destructure, try_match, Pattern, PatternError, PatternKey};
use wlwl_eval::value::{ErrorCode, Value};

fn iv(n: i64) -> Value {
    Value::Integer(n)
}
fn s(x: &str) -> Value {
    Value::String(x.to_string())
}
fn id(n: &str) -> Pattern {
    Pattern::Ident(n.to_string())
}
fn lit_int(n: i64) -> Pattern {
    Pattern::Literal(iv(n), n.to_string())
}

#[test]
fn match_binds_in_declaration_order() {
    let cells = Cells::new();
    let env = Env::new();
    let p = Pattern::Array(vec![id("a"), Pattern::Wildcard, id("b")], Some(Box::new(id("rest"))));
    let v = Value::Array(vec![iv(1), iv(2), iv(3), iv(4), iv(5)]);
    let mut bindings = Vec::new();
    assert_eq!(try_match(&p, &v, &env, &cells, &mut bindings), Ok(true));
    assert_eq!(
        bindings,
        vec![
            ("a".to_string(), iv(1)),
            ("b".to_string(), iv(3)),
            ("rest".to_string(), Value::Array(vec![iv(4), iv(5)])),
        ]
    );
}

#[test]
fn failed_match_leaves_bindings() {
    let cells = Cells::new();
    let env = Env::new();
    let p = Pattern::Array(vec![id("a"), lit_int(9)], None);
    let v = Value::Array(vec![iv(1), iv(2)]);
    let mut bindings = vec![("x".to_string(), iv(0))];
    assert_eq!(try_match(&p, &v, &env, &cells, &mut bindings), Ok(false));
    assert_eq!(bindings, vec![("x".to_string(), iv(0))]);
    // Too long without a rest pattern.
    let p = Pattern::Array(vec![id("a")], None);
    assert_eq!(try_match(&p, &v, &env, &cells, &mut bindings), Ok(false));
    assert_eq!(bindings.len(), 1);
}

#[test]
fn match_dicts_and_constructors() {
    let mut cells = Cells::new();
    let mut env = Env::new();
    env.set_local(&mut cells, "k".to_string(), s("name"));
    let p = Pattern::Dict(vec![(PatternKey::Name("k".to_string()), id("n")), (PatternKey::Literal(s("age")), id("a"))]);
    let v = Value::Dict(vec![(s("age"), iv(7)), (s("name"), s("bo"))]);
    let mut bindings = Vec::new();
    assert_eq!(try_match(&p, &v, &env, &cells, &mut bindings), Ok(true));
    assert_eq!(bindings, vec![("n".to_string(), s("bo")), ("a".to_string(), iv(7))]);

    let ok = Pattern::Constructor("OK".to_string(), Box::new(id("x")));
    let mut b2 = Vec::new();
    assert_eq!(try_match(&ok, &Value::OkValue(Box::new(iv(3))), &env, &cells, &mut b2), Ok(true));
    assert_eq!(b2, vec![("x".to_string(), iv(3))]);
    assert_eq!(try_match(&ok, &Value::ErrValue(Box::new(iv(3))), &env, &cells, &mut b2), Ok(false));

    let bad = Pattern::Constructor("SOME".to_string(), Box::new(id("x")));
    assert_eq!(
        try_match(&bad, &iv(1), &env, &cells, &mut b2),
        Err(PatternError::Failed(
            ErrorCode::E0026,
            "unsupported constructor pattern `SOME` (only OK / ERR are valid in v0.4)".to_string()
        ))
    );
    let undefined = Pattern::Dict(vec![(PatternKey::Name("nope".to_string()), id("x"))]);
    assert_eq!(
        try_match(&undefined, &Value::Dict(vec![]), &env, &cells, &mut b2),
        Err(PatternError::Undefined("nope".to_string()))
    );
    assert_eq!(
        try_match(&Pattern::Array(vec![], None), &iv(1), &env, &cells, &mut b2),
        Err(PatternError::Failed(ErrorCode::E0030, "destructure pattern expected ARRAY, got integer".to_string()))
    );
}

#[test]
fn destructure_binds_cells() {
    let mut cells = Cells::new();
    let mut env = Env::new();
    let p = Pattern::Array(vec![id("a"), id("b")], Some(Box::new(id("more"))));
    let v = Value::Array(vec![iv(1), iv(2), iv(3)]);
    assert_eq!(destructure(&p, &v, &mut env, &mut cells, &Vec::new()), Ok(()));
    assert_eq!(env.get(&cells, "a"), Some(&iv(1)));
    assert_eq!(env.get(&cells, "b"), Some(&iv(2)));
    assert_eq!(env.get(&cells, "more"), Some(&Value::Array(vec![iv(3)])));
    assert_eq!(cells.len(), 3);
}

#[test]
fn destructure_keys_see_earlier_bindings() {
    let mut cells = Cells::new();
    let mut env = Env::new();
    let p = Pattern::Array(
        vec![id("k"), Pattern::Dict(vec![(PatternKey::Name("k".to_string()), id("v"))])],
        None,
    );
    let v = Value::Array(vec![s("x"), Value::Dict(vec![(s("x"), iv(42))])]);
    assert_eq!(destructure(&p, &v, &mut env, &mut cells, &Vec::new()), Ok(()));
    assert_eq!(env.get(&cells, "v"), Some(&iv(42)));
}

#[test]
fn destructure_errors() {
    let mut cells = Cells::new();
    let mut env = Env::new();
    let texts = Vec::new();
    let p = Pattern::Array(vec![id("a"), id("b")], None);
    assert_eq!(
        destructure(&p, &Value::Array(vec![iv(1)]), &mut env, &mut cells, &texts),
        Err(PatternError::Failed(
            ErrorCode::E0026,
            "destructure pattern mismatch: array of length 1 does not match pattern with 2 element(s)".to_string()
        ))
    );
    assert_eq!(
        destructure(&p, &Value::Array(vec![iv(1), iv(2), iv(3)]), &mut env, &mut cells, &texts),
        Err(PatternError::Failed(
            ErrorCode::E0026,
            "destructure pattern mismatch: array of length 3 is too long for pattern with 2 element(s) (no *rest)"
                .to_string()
        ))
    );
    let d = Pattern::Dict(vec![(PatternKey::Literal(s("k")), id("v"))]);
    assert_eq!(
        destructure(&d, &Value::Dict(vec![]), &mut env, &mut cells, &texts),
        Err(PatternError::Failed(ErrorCode::E0026, "destructure pattern mismatch: dict missing key `k`".to_string()))
    );
    assert_eq!(
        destructure(&lit_int(1), &iv(2), &mut env, &mut cells, &texts),
        Err(PatternError::Failed(
            ErrorCode::E0026,
            "destructure pattern mismatch: literal `1` does not match value".to_string()
        ))
    );
    let ok = Pattern::Constructor("OK".to_string(), Box::new(id("x")));
    assert_eq!(
        destructure(&ok, &iv(2), &mut env, &mut cells, &texts),
        Err(PatternError::Failed(ErrorCode::E0026, "destructure pattern mismatch: value is not OK".to_string()))
    );
    let other = Pattern::Dict(vec![(PatternKey::Other, id("x"))]);
    let e = destructure(&other, &Value::Dict(vec![]), &mut env, &mut cells, &texts).unwrap_err();
    assert_eq!(
        e,
        PatternError::Failed(ErrorCode::E0026, "destructure pattern keys must be literals (Sec. 7.5)".to_string())
    );
    let at = Location { file: "m.wl".to_string(), line: 2, col: 1, line_end: 2, col_end: 9 };
    let diag = pattern_diagnostic(e, at, &vec![], None, &vec![]);
    assert_eq!(diag.code, ErrorCode::E0026);
    assert!(diag.notes.is_empty());
    let at = Location { file: "m.wl".to_string(), line: 2, col: 1, line_end: 2, col_end: 9 };
    let diag = pattern_diagnostic(PatternError::Undefined("kk".to_string()), at, &vec![], None, &vec!["k".to_string()]);
    assert_eq!(diag.code, ErrorCode::E0020);
    assert_eq!(diag.message, "undefined name `kk`");
    assert_eq!(diag.notes.len(), 2);
}
