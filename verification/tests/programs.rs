use wlwl_eval::console::LineRead;
use wlwl_eval::dispatch::{FloatOp, Host};
use wlwl_eval::eval::{run, Evaluator, Expr, Param};
use wlwl_eval::format::FormatSegment;
use wlwl_eval::patterns::{Pattern, PatternKey};
use wlwl_eval::value::{BuiltinError, ErrorCode, Value};

struct Quiet;

impl Host for Quiet {
    fn float_text(&mut self, bits: u64) -> String {
        let v = f64::from_bits(bits);
        if v.fract() == 0.0 { format!("{:.1}", v) } else { v.to_string() }
    }
    fn plain_float_text(&mut self, bits: u64) -> String {
        format!("{}", f64::from_bits(bits))
    }
    fn float_arith(&mut self, op: FloatOp, a: Value, b: Value) -> Value {
        let f = |v: &Value| match v {
            Value::Integer(i) => *i as f64,
            Value::Float(b) => f64::from_bits(*b),
            _ => 0.0,
        };
        let (x, y) = (f(&a), f(&b));
        let z = match op {
            FloatOp::Add => x + y,
            FloatOp::Sub => x - y,
            FloatOp::Mul => x * y,
            FloatOp::Div => x / y,
        };
        Value::Float(z.to_bits())
    }
    fn float_of(&mut self, _args: Vec<Value>) -> Result<Value, BuiltinError> {
        Ok(Value::Null)
    }
    fn write_line(&mut self, _line: String, _to_err: bool) {}
    fn read_line(&mut self, _prompt: Option<String>) -> LineRead {
        LineRead::Line(String::new(), 0)
    }
    fn format_segments(&mut self, template: String) -> Result<Vec<FormatSegment>, BuiltinError> {
        Ok(vec![FormatSegment::Literal(template)])
    }
    fn call_native(&mut self, _name: String, _handle: u64, _args: Vec<Value>) -> Result<Value, BuiltinError> {
        Ok(Value::Null)
    }
    fn load_module(&mut self, path: String) -> Result<Vec<(String, Value)>, BuiltinError> {
        if path == "geometry" {
            Ok(vec![("square".to_string(), Value::Integer(4)), ("area".to_string(), Value::Integer(16))])
        } else {
            Err(wlwl_eval::value::builtin_error(ErrorCode::E0040, &path, "module not found"))
        }
    }
}

fn go(program: Expr) -> Result<Value, wlwl_eval::diagnostics::Diagnostic> {
    let mut ev = Evaluator::new();
    let mut host = Quiet;
    run(&mut ev, &mut host, &program, 100_000)
}

fn num(n: i64) -> Expr {
    Expr::Lit(Value::Integer(n))
}

fn text(s: &str) -> Expr {
    Expr::Lit(Value::String(s.to_string()))
}

fn null() -> Expr {
    Expr::Lit(Value::Null)
}

fn var(n: &str) -> Expr {
    Expr::Var(n.to_string())
}

fn call(n: &str, args: Vec<Expr>) -> Expr {
    Expr::Call(n.to_string(), args)
}

fn let_(n: &str, e: Expr) -> Expr {
    Expr::Let(n.to_string(), Box::new(e))
}

fn fun(params: &[&str], body: Expr) -> Expr {
    Expr::Fun(params.iter().map(|p| Param { name: p.to_string(), annotation: None }).collect(), Box::new(body))
}

fn block(items: Vec<Expr>) -> Expr {
    Expr::Block(items)
}

fn if_(c: Expr, t: Expr, e: Option<Expr>) -> Expr {
    Expr::If(Box::new(c), Box::new(t), e.map(Box::new))
}

fn while_(c: Expr, body: Expr) -> Expr {
    Expr::While(Box::new(c), Box::new(body))
}

fn for_(v: &str, it: Expr, body: Expr) -> Expr {
    Expr::For(v.to_string(), Box::new(it), Box::new(body))
}

#[test]
fn op_add_ints() {
    assert_eq!(go(block(vec![call("+", vec![num(1), num(2)])])).unwrap(), Value::Integer(3));
}

#[test]
fn op_add_strings() {
    assert_eq!(
        go(block(vec![call("+", vec![text("hello, "), text("world")])])).unwrap(),
        Value::String("hello, world".into())
    );
}

#[test]
fn op_arith() {
    assert_eq!(go(block(vec![call("-", vec![num(10), num(3)])])).unwrap(), Value::Integer(7));
    assert_eq!(go(block(vec![call("*", vec![num(4), num(5)])])).unwrap(), Value::Integer(20));
    assert_eq!(go(block(vec![call("/", vec![num(10), num(3)])])).unwrap(), Value::Integer(3));
    assert_eq!(go(block(vec![call("%", vec![num(10), num(3)])])).unwrap(), Value::Integer(1));
}

#[test]
fn op_div_by_zero() {
    let err = go(block(vec![call("/", vec![num(1), num(0)])])).unwrap_err();
    assert_eq!(err.code, ErrorCode::E1003);
}

#[test]
fn integer_div_truncates_toward_zero() {
    assert_eq!(go(block(vec![call("/", vec![num(7), num(2)])])).unwrap(), Value::Integer(3));
    assert_eq!(go(block(vec![call("/", vec![num(-7), num(2)])])).unwrap(), Value::Integer(-3));
    assert_eq!(go(block(vec![call("/", vec![num(7), num(-2)])])).unwrap(), Value::Integer(-3));
    assert_eq!(go(block(vec![call("/", vec![num(0), num(5)])])).unwrap(), Value::Integer(0));
    assert_eq!(go(block(vec![call("/", vec![num(-7), num(-2)])])).unwrap(), Value::Integer(3));
}

#[test]
fn integer_mod_sign_matches_divid() {
    assert_eq!(go(block(vec![call("%", vec![num(7), num(3)])])).unwrap(), Value::Integer(1));
    assert_eq!(go(block(vec![call("%", vec![num(-7), num(3)])])).unwrap(), Value::Integer(-1));
    assert_eq!(go(block(vec![call("%", vec![num(7), num(-3)])])).unwrap(), Value::Integer(1));
}

#[test]
fn div_by_zero_is_e1003_for_integer_and_float() {
    let err = go(block(vec![call("/", vec![num(1), num(0)])])).unwrap_err();
    assert_eq!(err.code, ErrorCode::E1003);
    let err = go(block(vec![call("/", vec![Expr::Lit(Value::Float((1.0f64).to_bits())), Expr::Lit(Value::Float((0.0f64).to_bits()))])])).unwrap_err();
    assert_eq!(err.code, ErrorCode::E1003);
    let err = go(block(vec![call("/", vec![Expr::Lit(Value::Float((0.0f64).to_bits())), Expr::Lit(Value::Float((0.0f64).to_bits()))])])).unwrap_err();
    assert_eq!(err.code, ErrorCode::E1003);
}

#[test]
fn mod_by_zero_is_e1003() {
    let err = go(block(vec![call("%", vec![num(7), num(0)])])).unwrap_err();
    assert_eq!(err.code, ErrorCode::E1003);
    let err = go(block(vec![call("%", vec![num(0), num(0)])])).unwrap_err();
    assert_eq!(err.code, ErrorCode::E1003);
}

#[test]
fn float_div_preserves_nan_propagation() {
    let err = go(block(vec![call("/", vec![Expr::Lit(Value::Float((0.0f64).to_bits())), Expr::Lit(Value::Float((0.0f64).to_bits()))])])).unwrap_err();
    assert_eq!(err.code, ErrorCode::E1003);
}

#[test]
fn int_builtin_converts_integer_unchanged() {
    assert_eq!(go(block(vec![call("INT", vec![num(42)])])).unwrap(), Value::Integer(42));
    assert_eq!(go(block(vec![call("INT", vec![num(0)])])).unwrap(), Value::Integer(0));
    assert_eq!(go(block(vec![call("INT", vec![num(-7)])])).unwrap(), Value::Integer(-7));
}

#[test]
fn int_builtin_truncates_float_toward_zero() {
    assert_eq!(go(block(vec![call("INT", vec![Expr::Lit(Value::Float((3.7f64).to_bits()))])])).unwrap(), Value::Integer(3));
    assert_eq!(go(block(vec![call("INT", vec![Expr::Lit(Value::Float((-3.7f64).to_bits()))])])).unwrap(), Value::Integer(-3));
    assert_eq!(go(block(vec![call("INT", vec![Expr::Lit(Value::Float((0.999f64).to_bits()))])])).unwrap(), Value::Integer(0));
    assert_eq!(go(block(vec![call("INT", vec![Expr::Lit(Value::Float((-0.999f64).to_bits()))])])).unwrap(), Value::Integer(0));
}

#[test]
fn int_builtin_float_out_of_range_is_e0035() {

    let r = go(block(vec![Expr::IsErr(Box::new(call("INT", vec![text("foo")])))])).unwrap();
    assert_eq!(r, Value::Boolean(true));

    assert_eq!(go(block(vec![call("INT", vec![Expr::Lit(Value::Float((3.7f64).to_bits()))])])).unwrap(), Value::Integer(3));
    assert_eq!(go(block(vec![call("INT", vec![Expr::Lit(Value::Float((-3.7f64).to_bits()))])])).unwrap(), Value::Integer(-3));
}

#[test]
fn int_builtin_parses_string_decimal() {
    assert_eq!(go(block(vec![call("INT", vec![text("42")])])).unwrap(), Value::Integer(42));
    assert_eq!(go(block(vec![call("INT", vec![text("-7")])])).unwrap(), Value::Integer(-7));
    assert_eq!(go(block(vec![call("INT", vec![text("0")])])).unwrap(), Value::Integer(0));
}

#[test]
fn int_builtin_string_parse_failure_returns_err_dict() {
    let r = go(block(vec![Expr::IsErr(Box::new(call("INT", vec![text("3.5")])))])).unwrap();
    assert_eq!(r, Value::Boolean(true));
    let r = go(block(vec![Expr::IsErr(Box::new(call("INT", vec![text("not a number")])))])).unwrap();
    assert_eq!(r, Value::Boolean(true));
}

#[test]
fn int_builtin_rejects_other_types() {
    let err = go(block(vec![call("INT", vec![Expr::ArrayOf(vec![num(1), num(2)])])])).unwrap_err();
    assert_eq!(err.code, ErrorCode::E0030);
    let err = go(block(vec![call("INT", vec![Expr::Lit(Value::Boolean(true))])])).unwrap_err();
    assert_eq!(err.code, ErrorCode::E0030);
    let err = go(block(vec![call("INT", vec![null()])])).unwrap_err();
    assert_eq!(err.code, ErrorCode::E0030);
}

#[test]
fn int_builtin_propagates_err_transparently() {
    assert_eq!(
        go(block(vec![Expr::IsErr(Box::new(call("INT", vec![Expr::ErrOf(Box::new(text("e")))])))])).unwrap(),
        Value::Boolean(true),
        "INT must not consume ERR — it should propagate via §12.6"
    );
}

#[test]
fn cross_type_equality_integer_float() {
    assert_eq!(go(block(vec![call("==", vec![num(1), Expr::Lit(Value::Float((1.0f64).to_bits()))])])).unwrap(), Value::Boolean(true));
    assert_eq!(go(block(vec![call("==", vec![num(0), Expr::Lit(Value::Float((0.0f64).to_bits()))])])).unwrap(), Value::Boolean(true));
    assert_eq!(go(block(vec![call("==", vec![num(-7), Expr::Lit(Value::Float((-7.0f64).to_bits()))])])).unwrap(), Value::Boolean(true));
    assert_eq!(go(block(vec![call("==", vec![num(1), Expr::Lit(Value::Float((2.0f64).to_bits()))])])).unwrap(), Value::Boolean(false));
    assert_eq!(go(block(vec![call("!=", vec![num(1), Expr::Lit(Value::Float((1.0f64).to_bits()))])])).unwrap(), Value::Boolean(false));
    assert_eq!(go(block(vec![call("!=", vec![num(1), Expr::Lit(Value::Float((2.0f64).to_bits()))])])).unwrap(), Value::Boolean(true));
}

#[test]
fn string_ordering_uses_unicode_codepoint_order() {
    assert_eq!(go(block(vec![call("<", vec![text("a"), text("b")])])).unwrap(), Value::Boolean(true));
    assert_eq!(go(block(vec![call(">", vec![text("b"), text("a")])])).unwrap(), Value::Boolean(true));
    assert_eq!(go(block(vec![call("<", vec![text("1"), text("a")])])).unwrap(), Value::Boolean(true));
    assert_eq!(go(block(vec![call("<=", vec![text("x"), text("x")])])).unwrap(), Value::Boolean(true));
    assert_eq!(go(block(vec![call(">=", vec![text("x"), text("x")])])).unwrap(), Value::Boolean(true));
}

#[test]
fn eq_op_propagates_err_transparently() {
    assert_eq!(
        go(block(vec![Expr::IsErr(Box::new(call("==", vec![Expr::ErrOf(Box::new(text("a"))), num(1)])))])).unwrap(),
        Value::Boolean(true),
        "`==` must propagate ERR per §9.2 + §12.6"
    );
    assert_eq!(
        go(block(vec![Expr::IsErr(Box::new(call("==", vec![num(1), Expr::ErrOf(Box::new(text("b")))])))])).unwrap(),
        Value::Boolean(true),
        "`==` must propagate ERR even when ERR is the second arg"
    );
    assert_eq!(
        go(block(vec![Expr::IsErr(Box::new(call("==", vec![Expr::ErrOf(Box::new(text("a"))), Expr::ErrOf(Box::new(text("b")))])))])).unwrap(),
        Value::Boolean(true),
        "`==` must propagate ERR when both sides are ERR (leftmost wins)"
    );
    assert_eq!(go(block(vec![call("==", vec![num(1), num(2)])])).unwrap(), Value::Boolean(false));
}

#[test]
fn ne_op_propagates_err_transparently() {
    assert_eq!(
        go(block(vec![Expr::IsErr(Box::new(call("!=", vec![Expr::ErrOf(Box::new(text("a"))), num(1)])))])).unwrap(),
        Value::Boolean(true),
        "`!=` must propagate ERR per §9.2 + §12.6"
    );
    assert_eq!(
        go(block(vec![Expr::IsErr(Box::new(call("!=", vec![num(1), Expr::ErrOf(Box::new(text("b")))])))])).unwrap(),
        Value::Boolean(true)
    );
}

#[test]
fn lt_op_propagates_err_transparently() {
    assert_eq!(
        go(block(vec![Expr::IsErr(Box::new(call("<", vec![Expr::ErrOf(Box::new(text("a"))), num(1)])))])).unwrap(),
        Value::Boolean(true),
        "`<` must propagate ERR per §9.2 + §12.6"
    );
    assert_eq!(
        go(block(vec![Expr::IsErr(Box::new(call("<", vec![num(1), Expr::ErrOf(Box::new(text("b")))])))])).unwrap(),
        Value::Boolean(true)
    );
}

#[test]
fn gt_op_propagates_err_transparently() {
    assert_eq!(
        go(block(vec![Expr::IsErr(Box::new(call(">", vec![Expr::ErrOf(Box::new(text("a"))), num(1)])))])).unwrap(),
        Value::Boolean(true),
        "`>` must propagate ERR per §9.2 + §12.6"
    );
    assert_eq!(
        go(block(vec![Expr::IsErr(Box::new(call(">", vec![num(1), Expr::ErrOf(Box::new(text("b")))])))])).unwrap(),
        Value::Boolean(true)
    );
}

#[test]
fn le_op_propagates_err_transparently() {
    assert_eq!(
        go(block(vec![Expr::IsErr(Box::new(call("<=", vec![Expr::ErrOf(Box::new(text("a"))), num(1)])))])).unwrap(),
        Value::Boolean(true),
        "`<=` must propagate ERR per §9.2 + §12.6"
    );
    assert_eq!(
        go(block(vec![Expr::IsErr(Box::new(call("<=", vec![num(1), Expr::ErrOf(Box::new(text("b")))])))])).unwrap(),
        Value::Boolean(true)
    );
}

#[test]
fn ge_op_propagates_err_transparently() {
    assert_eq!(
        go(block(vec![Expr::IsErr(Box::new(call(">=", vec![Expr::ErrOf(Box::new(text("a"))), num(1)])))])).unwrap(),
        Value::Boolean(true),
        "`>=` must propagate ERR per §9.2 + §12.6"
    );
    assert_eq!(
        go(block(vec![Expr::IsErr(Box::new(call(">=", vec![num(1), Expr::ErrOf(Box::new(text("b")))])))])).unwrap(),
        Value::Boolean(true)
    );
}

#[test]
fn comparison_leftmost_err_wins_under_transparent_propagation() {
    assert_eq!(
        go(block(vec![call("TYPE", vec![call("==", vec![Expr::ErrOf(Box::new(text("a"))), Expr::ErrOf(Box::new(text("b")))])])])).unwrap(),
        Value::String("RESULT".into()),
        "comparing two ERRs still returns a RESULT, not BOOLEAN"
    );
}

#[test]
fn op_eq_ne() {
    assert_eq!(go(block(vec![call("==", vec![num(1), num(1)])])).unwrap(), Value::Boolean(true));
    assert_eq!(go(block(vec![call("==", vec![num(1), num(2)])])).unwrap(), Value::Boolean(false));
    assert_eq!(go(block(vec![call("!=", vec![num(1), num(2)])])).unwrap(), Value::Boolean(true));
}

#[test]
fn op_ordering() {
    assert_eq!(go(block(vec![call("<", vec![num(1), num(2)])])).unwrap(), Value::Boolean(true));
    assert_eq!(go(block(vec![call(">", vec![num(1), num(2)])])).unwrap(), Value::Boolean(false));
    assert_eq!(go(block(vec![call("<=", vec![num(1), num(1)])])).unwrap(), Value::Boolean(true));
    assert_eq!(go(block(vec![call(">=", vec![num(2), num(1)])])).unwrap(), Value::Boolean(true));
}

#[test]
fn op_logical() {
    assert_eq!(go(block(vec![call("&&", vec![Expr::Lit(Value::Boolean(true)), Expr::Lit(Value::Boolean(false))])])).unwrap(), Value::Boolean(false));
    assert_eq!(go(block(vec![call("||", vec![Expr::Lit(Value::Boolean(false)), Expr::Lit(Value::Boolean(true))])])).unwrap(), Value::Boolean(true));
    assert_eq!(go(block(vec![call("!", vec![Expr::Lit(Value::Boolean(true))])])).unwrap(), Value::Boolean(false));
    assert_eq!(go(block(vec![call("!", vec![Expr::Lit(Value::Boolean(false))])])).unwrap(), Value::Boolean(true));
    assert_eq!(go(block(vec![call("!", vec![null()])])).unwrap(), Value::Boolean(true));
    assert_eq!(go(block(vec![call("&&", vec![num(1), null()])])).unwrap(), Value::Boolean(false));
}

#[test]
fn control_if_then() {
    assert_eq!(go(block(vec![if_(Expr::Lit(Value::Boolean(true)), num(1), Some(num(2)))])).unwrap(), Value::Integer(1));
    assert_eq!(go(block(vec![if_(Expr::Lit(Value::Boolean(false)), num(1), Some(num(2)))])).unwrap(), Value::Integer(2));
}

#[test]
fn control_if_no_else() {
    assert_eq!(go(block(vec![if_(Expr::Lit(Value::Boolean(false)), num(1), None)])).unwrap(), Value::Null);
    assert_eq!(go(block(vec![if_(Expr::Lit(Value::Boolean(true)), num(1), None)])).unwrap(), Value::Integer(1));
}

#[test]
fn control_continue() {
    assert_eq!(go(block(vec![let_("total", num(0)), for_("i", Expr::ArrayOf(vec![num(1), num(2), num(3), num(4), num(5)]), block(vec![if_(call("==", vec![var("i"), num(3)]), Expr::Continue, None), let_("total", call("+", vec![var("total"), var("i")]))])), var("total")])).unwrap(), Value::Integer(12));
}

#[test]
fn fun_call_basic() {
        assert_eq!(go(block(vec![let_("double", fun(&["x"], call("*", vec![var("x"), num(2)]))), call("double", vec![num(5)])])).unwrap(), Value::Integer(10));
}

#[test]
fn fun_two_params() {
        assert_eq!(go(block(vec![let_("add", fun(&["a", "b"], call("+", vec![var("a"), var("b")]))), call("add", vec![num(3), num(4)])])).unwrap(), Value::Integer(7));
}

#[test]
fn fun_zero_params() {
        assert_eq!(go(block(vec![let_("answer", fun(&[], num(42))), call("answer", vec![])])).unwrap(), Value::Integer(42));
}

#[test]
fn fun_return_void() {
        assert_eq!(go(block(vec![let_("f", fun(&[], Expr::Return(None))), call("f", vec![])])).unwrap(), Value::Null);
}

#[test]
fn fun_return_early() {
    assert_eq!(go(block(vec![let_("f", fun(&["x"], block(vec![if_(call("<", vec![var("x"), num(0)]), Expr::Return(Some(Box::new(num(0)))), None), var("x")]))), call("-", vec![call("f", vec![num(5)]), call("f", vec![num(-3)])])])).unwrap(), Value::Integer(5));
}

#[test]
fn err_is_ok_is_err() {
    assert_eq!(go(block(vec![Expr::IsOk(Box::new(Expr::OkOf(Box::new(num(1)))))])).unwrap(), Value::Boolean(true));
    assert_eq!(go(block(vec![Expr::IsOk(Box::new(Expr::ErrOf(Box::new(text("1")))))])).unwrap(), Value::Boolean(false));
    assert_eq!(go(block(vec![Expr::IsErr(Box::new(Expr::OkOf(Box::new(num(1)))))])).unwrap(), Value::Boolean(false));
    assert_eq!(go(block(vec![Expr::IsErr(Box::new(Expr::ErrOf(Box::new(text("1")))))])).unwrap(), Value::Boolean(true));
}

#[test]
fn err_or_die_ok() {
    assert_eq!(go(block(vec![Expr::OrDie(Box::new(Expr::OkOf(Box::new(num(42)))), Box::new(num(0)))])).unwrap(), Value::Integer(42));
}

#[test]
fn err_or_die_err_uses_default() {
    assert_eq!(go(block(vec![Expr::OrDie(Box::new(Expr::ErrOf(Box::new(text("bad")))), Box::new(num(99)))])).unwrap(), Value::Integer(99));
}

#[test]
fn transparent_propagation_builtin() {
    let r = go(block(vec![Expr::OrDie(Box::new(call("+", vec![num(1), Expr::ErrOf(Box::new(text("bad")))])), Box::new(text("ok")))])).unwrap();
    assert_eq!(r, Value::String("ok".into()));
    let r = go(block(vec![Expr::OrDie(Box::new(call("+", vec![Expr::ErrOf(Box::new(text("e1"))), num(2)])), Box::new(text("ok")))])).unwrap();
    assert_eq!(r, Value::String("ok".into()));
}

#[test]
fn transparent_propagation_user_function() {
    let err = go(block(vec![let_("f", fun(&["x"], call("PRINT", vec![text("ran")]))), call("f", vec![Expr::ErrOf(Box::new(text("nope")))])])).unwrap_err();
    assert_eq!(err.code, ErrorCode::E0102);
}

#[test]
fn transparent_propagation_through_nested_calls() {
        assert_eq!(go(block(vec![let_("h", fun(&["x"], call("PRINT", vec![text("h ran")]))), let_("g", fun(&["x"], call("h", vec![var("x")]))), let_("f", fun(&["x"], call("g", vec![var("x")]))), Expr::OrDie(Box::new(call("f", vec![Expr::ErrOf(Box::new(text("boom")))])), Box::new(num(-1)))])).unwrap(), Value::Integer(-1));
}

#[test]
fn transparent_propagation_is_ok_consumes() {
    assert_eq!(go(block(vec![Expr::IsOk(Box::new(Expr::ErrOf(Box::new(text("e")))))])).unwrap(), Value::Boolean(false));
}

#[test]
fn transparent_propagation_or_die_consumes() {
    assert_eq!(
        go(block(vec![Expr::OrDie(Box::new(Expr::ErrOf(Box::new(text("e")))), Box::new(num(42)))])).unwrap(),
        Value::Integer(42)
    );
}

#[test]
fn unwrap_or_alias_calls_or_die_impl() {

    assert_eq!(
        go(block(vec![call("UNWRAP_OR", vec![Expr::ErrOf(Box::new(text("e"))), num(42)])])).unwrap(),
        Value::Integer(42)
    );
    assert_eq!(
        go(block(vec![call("UNWRAP_OR", vec![Expr::OkOf(Box::new(num(7))), num(42)])])).unwrap(),
        Value::Integer(7)
    );
    let err = go(block(vec![call("UNWRAP_OR", vec![num(123), num(42)])])).unwrap_err();
    assert_eq!(err.code, ErrorCode::E0030);
    let err = go(block(vec![call("UNWRAP_OR", vec![Expr::ErrOf(Box::new(text("e")))])])).unwrap_err();
    assert_eq!(err.code, ErrorCode::E0022);
    let err = go(block(vec![call("UNWRAP_OR", vec![Expr::ErrOf(Box::new(text("e"))), num(1), num(2)])])).unwrap_err();
    assert_eq!(err.code, ErrorCode::E0022);
}

#[test]
fn unwrap_or_alias_propagates_through_user_function() {
        assert_eq!(go(block(vec![let_("pass_through", fun(&["x"], var("x"))), call("UNWRAP_OR", vec![call("pass_through", vec![Expr::ErrOf(Box::new(text("inner")))]), num(-1)])])).unwrap(), Value::Integer(-1));
}

#[test]
fn registry_unwrap_now_implemented_returns_inner_for_ok() {
    assert_eq!(go(block(vec![call("UNWRAP", vec![Expr::OkOf(Box::new(num(42)))])])).unwrap(), Value::Integer(42));
}

#[test]
fn type_returns_uppercase_spec_names_for_all_variants() {
    assert_eq!(go(block(vec![call("TYPE", vec![num(1)])])).unwrap(), Value::String("INTEGER".into()));
    assert_eq!(go(block(vec![call("TYPE", vec![Expr::Lit(Value::Float((1.5f64).to_bits()))])])).unwrap(), Value::String("FLOAT".into()));
    assert_eq!(go(block(vec![call("TYPE", vec![text("hi")])])).unwrap(), Value::String("STRING".into()));
    assert_eq!(go(block(vec![call("TYPE", vec![Expr::Lit(Value::Boolean(true))])])).unwrap(), Value::String("BOOLEAN".into()));
    assert_eq!(go(block(vec![call("TYPE", vec![null()])])).unwrap(), Value::String("NULL".into()));
    assert_eq!(go(block(vec![call("TYPE", vec![Expr::ArrayOf(vec![num(1), num(2)])])])).unwrap(), Value::String("ARRAY".into()));
    assert_eq!(
        go(block(vec![call("TYPE", vec![Expr::DictOf(vec![(text("k"), num(1))])])])).unwrap(),
        Value::String("DICT".into())
    );
    assert_eq!(
        go(block(vec![let_("f", fun(&[], num(1))), call("TYPE", vec![var("f")])])).unwrap(),
        Value::String("FUNCTION".into())
    );
}

#[test]
fn type_of_ok_and_err_both_return_result() {
    assert_eq!(
        go(block(vec![call("TYPE", vec![Expr::OkOf(Box::new(num(1)))])])).unwrap(),
        Value::String("RESULT".into())
    );
    assert_eq!(
        go(block(vec![call("TYPE", vec![Expr::ErrOf(Box::new(text("e")))])])).unwrap(),
        Value::String("RESULT".into())
    );
    assert_eq!(
        go(block(vec![call("TYPE", vec![Expr::OkOf(Box::new(Expr::OkOf(Box::new(num(1)))))])])).unwrap(),
        Value::String("RESULT".into())
    );
}

#[test]
fn type_consumes_err_without_propagation() {
    assert_eq!(
        go(block(vec![call("TYPE", vec![Expr::ErrOf(Box::new(text("e")))])])).unwrap(),
        Value::String("RESULT".into())
    );
}

#[test]
fn type_arity_wrong_is_e0022() {
    let err = go(block(vec![call("TYPE", vec![])])).unwrap_err();
    assert_eq!(err.code, ErrorCode::E0022);
    let err = go(block(vec![call("TYPE", vec![num(1), num(2)])])).unwrap_err();
    assert_eq!(err.code, ErrorCode::E0022);
}

#[test]
fn err_payload_must_be_string_or_dict_string_ok() {
    assert_eq!(
        go(block(vec![Expr::IsErr(Box::new(Expr::ErrOf(Box::new(text("network down")))))])).unwrap(),
        Value::Boolean(true),
        "string payload must be accepted as a valid ERR payload"
    );
}

#[test]
fn err_payload_must_be_string_or_dict_dict_ok() {
    assert_eq!(
        go(block(vec![Expr::IsErr(Box::new(Expr::ErrOf(Box::new(Expr::DictOf(vec![(text("code"), text("E1001")), (text("retryable"), Expr::Lit(Value::Boolean(true)))])))))])).unwrap(),
        Value::Boolean(true),
        "dict payload must be accepted as a valid ERR payload"
    );
}

#[test]
fn err_payload_integer_errors_with_e0030() {
    let err = go(block(vec![Expr::ErrOf(Box::new(num(42)))])).unwrap_err();
    assert_eq!(err.code, ErrorCode::E0030);
}

#[test]
fn err_payload_array_errors_with_e0030() {
    let err = go(block(vec![Expr::ErrOf(Box::new(Expr::ArrayOf(vec![num(1), num(2), num(3)])))])).unwrap_err();
    assert_eq!(err.code, ErrorCode::E0030);
}

#[test]
fn err_payload_boolean_and_null_errors_with_e0030() {
    let err = go(block(vec![Expr::ErrOf(Box::new(Expr::Lit(Value::Boolean(true))))])).unwrap_err();
    assert_eq!(err.code, ErrorCode::E0030);
    let err = go(block(vec![Expr::ErrOf(Box::new(null()))])).unwrap_err();
    assert_eq!(err.code, ErrorCode::E0030);
}

#[test]
fn err_payload_ok_errors_with_e0030() {
    let err = go(block(vec![Expr::ErrOf(Box::new(Expr::OkOf(Box::new(num(1)))))])).unwrap_err();
    assert_eq!(err.code, ErrorCode::E0030);
}

#[test]
fn ok_payload_has_no_type_constraint() {
    assert!(matches!(go(block(vec![Expr::OkOf(Box::new(num(42)))])).unwrap(), Value::OkValue(_)));
    assert!(matches!(go(block(vec![Expr::OkOf(Box::new(Expr::ArrayOf(vec![num(1), num(2)])))])).unwrap(), Value::OkValue(_)));
    assert!(matches!(go(block(vec![Expr::OkOf(Box::new(Expr::OkOf(Box::new(num(1)))))])).unwrap(), Value::OkValue(_)));
    assert!(matches!(go(block(vec![Expr::OkOf(Box::new(text("hi")))])).unwrap(), Value::OkValue(_)));
}

#[test]
fn err_payload_validation_only_runs_when_arg_evaluates_ok() {
    let err = go(block(vec![let_("x", num(42)), Expr::ErrOf(Box::new(var("x")))])).unwrap_err();
    assert_eq!(err.code, ErrorCode::E0030);
    assert_eq!(
        go(block(vec![let_("d", Expr::DictOf(vec![(text("k"), text("v"))])), Expr::IsErr(Box::new(Expr::ErrOf(Box::new(var("d")))))])).unwrap(),
        Value::Boolean(true)
    );
}

#[test]
fn transparent_propagation_leftmost_err_wins() {
    let r = go(block(vec![Expr::OrDie(Box::new(call("+", vec![Expr::ErrOf(Box::new(text("a"))), Expr::ErrOf(Box::new(text("b")))])), Box::new(text("ok")))])).unwrap();
    assert_eq!(r, Value::String("ok".into()));
}

#[test]
fn err_panic_is_e0100() {
    let err = go(block(vec![Expr::Panic(Box::new(text("oops")))])).unwrap_err();
    assert_eq!(err.code, ErrorCode::E0100);
}

#[test]
fn builtin_len_on_integer_errors() {
    let err = go(block(vec![call("LEN", vec![num(42)])])).unwrap_err();
    assert_eq!(err.code, ErrorCode::E0030);
}

#[test]
fn builtin_len_happy_paths() {
    assert_eq!(go(block(vec![call("LEN", vec![text("hello")])])).unwrap(), Value::Integer(5));
    assert_eq!(go(block(vec![call("LEN", vec![Expr::ArrayOf(vec![num(1), num(2), num(3)])])])).unwrap(), Value::Integer(3));
    assert_eq!(
        go(block(vec![call("LEN", vec![Expr::DictOf(vec![(text("a"), num(1)), (text("b"), num(2))])])])).unwrap(),
        Value::Integer(2)
    );
}

#[test]
fn builtin_push_arity_wrong() {
    let err = go(block(vec![call("PUSH", vec![Expr::ArrayOf(vec![num(1)])])])).unwrap_err();
    assert_eq!(err.code, ErrorCode::E0022);
}

#[test]
fn builtin_push_first_arg_not_array() {
    let err = go(block(vec![call("PUSH", vec![num(1), num(2)])])).unwrap_err();
    assert_eq!(err.code, ErrorCode::E0030);
}

#[test]
fn builtin_push_happy_path() {
    assert_eq!(
        go(block(vec![call("PUSH", vec![Expr::ArrayOf(vec![num(1), num(2)]), num(3)])])).unwrap(),
        Value::Array(vec![
            Value::Integer(1),
            Value::Integer(2),
            Value::Integer(3)
        ])
    );
}

#[test]
fn index_get_array_positive() {
    assert_eq!(
        go(block(vec![call("INDEX_GET", vec![Expr::ArrayOf(vec![num(10), num(20), num(30)]), num(0)])])).unwrap(),
        Value::Integer(10)
    );
    assert_eq!(
        go(block(vec![call("INDEX_GET", vec![Expr::ArrayOf(vec![num(10), num(20), num(30)]), num(1)])])).unwrap(),
        Value::Integer(20)
    );
    assert_eq!(
        go(block(vec![call("INDEX_GET", vec![Expr::ArrayOf(vec![num(10), num(20), num(30)]), num(2)])])).unwrap(),
        Value::Integer(30)
    );
}

#[test]
fn index_get_array_negative() {
    assert_eq!(
        go(block(vec![call("INDEX_GET", vec![Expr::ArrayOf(vec![num(10), num(20), num(30)]), num(-1)])])).unwrap(),
        Value::Integer(30)
    );
    assert_eq!(
        go(block(vec![call("INDEX_GET", vec![Expr::ArrayOf(vec![num(10), num(20), num(30)]), num(-3)])])).unwrap(),
        Value::Integer(10)
    );
}

#[test]
fn index_get_array_oob_is_e0036() {
    let err = go(block(vec![call("INDEX_GET", vec![Expr::ArrayOf(vec![num(1), num(2), num(3)]), num(3)])])).unwrap_err();
    assert_eq!(err.code, ErrorCode::E0036);
    let err = go(block(vec![call("INDEX_GET", vec![Expr::ArrayOf(vec![num(1), num(2), num(3)]), num(-4)])])).unwrap_err();
    assert_eq!(err.code, ErrorCode::E0036);
}

#[test]
fn index_get_dict_hit() {
    assert_eq!(
        go(block(vec![call("INDEX_GET", vec![Expr::DictOf(vec![(text("a"), num(1)), (text("b"), num(2))]), text("a")])])).unwrap(),
        Value::Integer(1)
    );
    assert_eq!(
        go(block(vec![call("INDEX_GET", vec![Expr::DictOf(vec![(text("a"), num(1)), (text("b"), num(2))]), text("b")])])).unwrap(),
        Value::Integer(2)
    );
}

#[test]
fn index_get_dict_missing_is_e0037() {
    let err = go(block(vec![call("INDEX_GET", vec![Expr::DictOf(vec![(text("a"), num(1))]), text("c")])])).unwrap_err();
    assert_eq!(err.code, ErrorCode::E0037);
}

#[test]
fn index_get_non_integer_index_is_e0031() {
    let err = go(block(vec![call("INDEX_GET", vec![Expr::ArrayOf(vec![num(1), num(2), num(3)]), text("0")])])).unwrap_err();
    assert_eq!(err.code, ErrorCode::E0031);
}

#[test]
fn index_get_non_collection_is_e0030() {
    let err = go(block(vec![call("INDEX_GET", vec![num(42), num(0)])])).unwrap_err();
    assert_eq!(err.code, ErrorCode::E0030);
}

#[test]
fn index_get_arity_wrong_is_e0022() {
    let err = go(block(vec![call("INDEX_GET", vec![Expr::ArrayOf(vec![num(1), num(2), num(3)])])])).unwrap_err();
    assert_eq!(err.code, ErrorCode::E0022);
    let err = go(block(vec![call("INDEX_GET", vec![Expr::ArrayOf(vec![num(1), num(2), num(3)]), num(0), num(99)])])).unwrap_err();
    assert_eq!(err.code, ErrorCode::E0022);
}

#[test]
fn index_set_array_in_bounds() {
    assert_eq!(
        go(block(vec![call("INDEX_SET", vec![Expr::ArrayOf(vec![num(10), num(20), num(30)]), num(1), num(99)])])).unwrap(),
        Value::Array(vec![
            Value::Integer(10),
            Value::Integer(99),
            Value::Integer(30)
        ])
    );
    assert_eq!(
        go(block(vec![call("INDEX_SET", vec![Expr::ArrayOf(vec![num(10), num(20), num(30)]), num(-1), num(99)])])).unwrap(),
        Value::Array(vec![
            Value::Integer(10),
            Value::Integer(20),
            Value::Integer(99)
        ])
    );
}

#[test]
fn index_set_array_oob_is_e0036() {
    let err = go(block(vec![call("INDEX_SET", vec![Expr::ArrayOf(vec![num(10), num(20), num(30)]), num(5), num(99)])])).unwrap_err();
    assert_eq!(err.code, ErrorCode::E0036);
    let err = go(block(vec![call("INDEX_SET", vec![Expr::ArrayOf(vec![num(10), num(20), num(30)]), num(-4), num(99)])])).unwrap_err();
    assert_eq!(err.code, ErrorCode::E0036);
}

#[test]
fn index_set_dict_insert_new_key() {
    assert_eq!(
        go(block(vec![call("INDEX_SET", vec![Expr::DictOf(vec![(text("a"), num(1))]), text("b"), num(2)])])).unwrap(),
        Value::Dict(vec![
            (Value::String("a".into()), Value::Integer(1)),
            (Value::String("b".into()), Value::Integer(2)),
        ])
    );
}

#[test]
fn index_set_dict_update_existing_key() {
    assert_eq!(
        go(block(vec![call("INDEX_SET", vec![Expr::DictOf(vec![(text("a"), num(1)), (text("b"), num(2))]), text("a"), num(99)])])).unwrap(),
        Value::Dict(vec![
            (Value::String("a".into()), Value::Integer(99)),
            (Value::String("b".into()), Value::Integer(2)),
        ])
    );
}

#[test]
fn index_set_arity_wrong_is_e0022() {
    let err = go(block(vec![call("INDEX_SET", vec![Expr::ArrayOf(vec![num(1), num(2)]), num(0)])])).unwrap_err();
    assert_eq!(err.code, ErrorCode::E0022);
    let err = go(block(vec![call("INDEX_SET", vec![Expr::ArrayOf(vec![num(1), num(2)]), num(0), num(99), num(100)])])).unwrap_err();
    assert_eq!(err.code, ErrorCode::E0022);
}

#[test]
fn index_set_non_collection_is_e0030() {
    let err = go(block(vec![call("INDEX_SET", vec![num(42), num(0), num(99)])])).unwrap_err();
    assert_eq!(err.code, ErrorCode::E0030);
}

#[test]
fn at_array_in_bounds_returns_value() {
    assert_eq!(
        go(block(vec![call("AT", vec![Expr::ArrayOf(vec![num(10), num(20), num(30)]), num(1), num(-1)])])).unwrap(),
        Value::Integer(20)
    );
    assert_eq!(
        go(block(vec![call("AT", vec![Expr::ArrayOf(vec![num(10), num(20), num(30)]), num(-1), num(0)])])).unwrap(),
        Value::Integer(30)
    );
}

#[test]
fn at_array_oob_returns_default() {
    assert_eq!(
        go(block(vec![call("AT", vec![Expr::ArrayOf(vec![num(10), num(20), num(30)]), num(5), num(-1)])])).unwrap(),
        Value::Integer(-1)
    );
    assert_eq!(
        go(block(vec![call("AT", vec![Expr::ArrayOf(vec![num(10), num(20), num(30)]), num(-4), null()])])).unwrap(),
        Value::Null
    );
}

#[test]
fn at_dict_missing_returns_default() {
    assert_eq!(
        go(block(vec![call("AT", vec![Expr::DictOf(vec![(text("a"), num(1))]), text("missing"), num(-1)])])).unwrap(),
        Value::Integer(-1)
    );
    assert_eq!(
        go(block(vec![call("AT", vec![Expr::DictOf(vec![(text("a"), num(1))]), text("missing"), null()])])).unwrap(),
        Value::Null
    );
    assert_eq!(
        go(block(vec![call("AT", vec![Expr::DictOf(vec![(text("a"), num(1)), (text("b"), num(2))]), text("a"), num(-1)])])).unwrap(),
        Value::Integer(1)
    );
}

#[test]
fn at_non_collection_is_e0030() {
    let err = go(block(vec![call("AT", vec![num(42), num(0), null()])])).unwrap_err();
    assert_eq!(err.code, ErrorCode::E0030);
}

#[test]
fn at_arity_wrong_is_e0022() {
    let err = go(block(vec![call("AT", vec![Expr::ArrayOf(vec![num(1), num(2)]), num(0)])])).unwrap_err();
    assert_eq!(err.code, ErrorCode::E0022);
}

#[test]
fn remove_key_dict_existing() {
    assert_eq!(
        go(block(vec![call("REMOVE_KEY", vec![Expr::DictOf(vec![(text("a"), num(1)), (text("b"), num(2))]), text("a")])])).unwrap(),
        Value::Dict(vec![(
            Value::String("b".into()),
            Value::Integer(2)
        )])
    );
}

#[test]
fn remove_key_dict_missing_is_noop() {
    assert_eq!(
        go(block(vec![call("REMOVE_KEY", vec![Expr::DictOf(vec![(text("a"), num(1))]), text("missing")])])).unwrap(),
        Value::Dict(vec![(
            Value::String("a".into()),
            Value::Integer(1)
        )])
    );
}

#[test]
fn remove_key_non_dict_is_e0030() {
    let err = go(block(vec![call("REMOVE_KEY", vec![num(42), text("k")])])).unwrap_err();
    assert_eq!(err.code, ErrorCode::E0030);
}

#[test]
fn pop_dict_existing_returns_value_and_removes() {
    assert_eq!(
        go(block(vec![call("POP", vec![Expr::DictOf(vec![(text("a"), num(1)), (text("b"), num(2))]), text("a"), null()])])).unwrap(),
        Value::Integer(1)
    );
    let after_pop = go(block(vec![let_("d", Expr::DictOf(vec![(text("a"), num(1)), (text("b"), num(2))])), call("POP", vec![var("d"), text("a"), null()]), var("d")])).unwrap();
    assert_eq!(
        after_pop,
        Value::Dict(vec![
            (Value::String("a".into()), Value::Integer(1)),
            (Value::String("b".into()), Value::Integer(2)),
        ])
    );
}

#[test]
fn pop_dict_missing_returns_default_and_noop() {
    assert_eq!(
        go(block(vec![call("POP", vec![Expr::DictOf(vec![(text("a"), num(1))]), text("missing"), num(-1)])])).unwrap(),
        Value::Integer(-1)
    );
    assert_eq!(
        go(block(vec![call("POP", vec![Expr::DictOf(vec![(text("a"), num(1))]), text("missing"), null()])])).unwrap(),
        Value::Null
    );
}

#[test]
fn pop_dict_arity_wrong_is_e0022() {
    let err = go(block(vec![call("POP", vec![Expr::DictOf(vec![(text("a"), num(1))]), text("a")])])).unwrap_err();
    assert_eq!(err.code, ErrorCode::E0022);
}

#[test]
fn pop_dict_non_dict_is_e0030() {
    let err = go(block(vec![call("POP", vec![num(42), text("k"), null()])])).unwrap_err();
    assert_eq!(err.code, ErrorCode::E0030);
}

#[test]
fn index_get_propagates_err() {
    let err = go(block(vec![call("INDEX_GET", vec![Expr::ErrOf(Box::new(text("e"))), num(0)])])).unwrap_err();
    assert_eq!(err.code, ErrorCode::E0102);
}

#[test]
fn index_set_propagates_err() {
    let err = go(block(vec![call("INDEX_SET", vec![Expr::ErrOf(Box::new(text("e"))), num(0), num(1)])])).unwrap_err();
    assert_eq!(err.code, ErrorCode::E0102);
}

#[test]
fn at_propagates_err() {
    let err = go(block(vec![call("AT", vec![Expr::ErrOf(Box::new(text("e"))), num(0), null()])])).unwrap_err();
    assert_eq!(err.code, ErrorCode::E0102);
}

#[test]
fn remove_key_propagates_err() {
    let err = go(block(vec![call("REMOVE_KEY", vec![Expr::ErrOf(Box::new(text("e"))), text("k")])])).unwrap_err();
    assert_eq!(err.code, ErrorCode::E0102);
}

#[test]
fn pop_dict_propagates_err() {
    let err = go(block(vec![call("POP", vec![Expr::ErrOf(Box::new(text("e"))), text("k"), null()])])).unwrap_err();
    assert_eq!(err.code, ErrorCode::E0102);
}

#[test]
fn del_alias_arity_wrong_is_e0022() {
    let err = go(block(vec![call("DEL", vec![Expr::DictOf(vec![(text("a"), num(1))])])])).unwrap_err();
    assert_eq!(err.code, ErrorCode::E0022);
}

#[test]
fn del_alias_arity_too_many_is_e0022() {
    let err = go(block(vec![call("DEL", vec![Expr::DictOf(vec![(text("a"), num(1))]), text("a"), text("extra")])])).unwrap_err();
    assert_eq!(err.code, ErrorCode::E0022);
}

#[test]
fn del_alias_non_dict_is_e0030() {
    let err = go(block(vec![call("DEL", vec![num(42), text("k")])])).unwrap_err();
    assert_eq!(err.code, ErrorCode::E0030);
}

#[test]
fn err_propagated_through_arithmetic_is_e0102() {
    let err = go(block(vec![call("+", vec![Expr::OkOf(Box::new(num(1))), Expr::ErrOf(Box::new(text("boom")))])])).unwrap_err();
    assert_eq!(err.code, ErrorCode::E0102);
}

#[test]
fn err_propagated_through_print_is_e0102() {
    let err = go(block(vec![call("PRINT", vec![Expr::ErrOf(Box::new(text("hello")))])])).unwrap_err();
    assert_eq!(err.code, ErrorCode::E0102);
}

#[test]
fn err_propagated_through_len_is_e0102() {
    let err = go(block(vec![call("LEN", vec![Expr::ErrOf(Box::new(text("no")))])])).unwrap_err();
    assert_eq!(err.code, ErrorCode::E0102);
}

#[test]
fn try_block_passes_err_through_as_e0102() {
    let err = go(block(vec![Expr::Try(Box::new(Expr::ErrOf(Box::new(text("x")))))])).unwrap_err();
    assert_eq!(err.code, ErrorCode::E0102);
}

#[test]
fn try_block_passes_ok_through() {
    let v = go(block(vec![Expr::Try(Box::new(Expr::OkOf(Box::new(num(42)))))])).unwrap();
    assert_eq!(v, Value::Integer(42));
}

#[test]
fn is_ok_etc_whitelist_consume_err() {
    assert_eq!(go(block(vec![Expr::IsOk(Box::new(Expr::OkOf(Box::new(num(1)))))])).unwrap(), Value::Boolean(true));
    assert_eq!(go(block(vec![Expr::IsOk(Box::new(Expr::ErrOf(Box::new(text("x")))))])).unwrap(), Value::Boolean(false));
    assert_eq!(go(block(vec![Expr::IsErr(Box::new(Expr::OkOf(Box::new(num(1)))))])).unwrap(), Value::Boolean(false));
    assert_eq!(go(block(vec![Expr::IsErr(Box::new(Expr::ErrOf(Box::new(text("x")))))])).unwrap(), Value::Boolean(true));
    assert_eq!(
        go(block(vec![Expr::OrDie(Box::new(Expr::OkOf(Box::new(num(1)))), Box::new(num(99)))])).unwrap(),
        Value::Integer(1)
    );
}

#[test]
fn panic_emits_e0100_v2() {
    let err = go(block(vec![Expr::Panic(Box::new(text("something went wrong")))])).unwrap_err();
    assert_eq!(err.code, ErrorCode::E0100);
    assert!(err.message.contains("something went wrong"));
}

#[test]
fn or_die_with_non_ok_err_value_is_e0030() {
    let err = go(block(vec![Expr::OrDie(Box::new(num(42)), Box::new(num(0)))])).unwrap_err();
    assert_eq!(err.code, ErrorCode::E0030);
}

#[test]
fn or_die_with_err_returns_default() {
    let v = go(block(vec![Expr::OrDie(Box::new(Expr::ErrOf(Box::new(text("x")))), Box::new(num(99)))])).unwrap();
    assert_eq!(v, Value::Integer(99));
}

#[test]
fn continue_outside_loop_is_e0014() {
    let err = go(block(vec![Expr::Continue])).unwrap_err();
    assert_eq!(err.code, ErrorCode::E0014);
}

#[test]
fn operators_comparison_and_logic() {
    assert_eq!(go(block(vec![call("==", vec![num(1), num(1)])])).unwrap(), Value::Boolean(true));
    assert_eq!(go(block(vec![call("!=", vec![num(1), num(2)])])).unwrap(), Value::Boolean(true));
    assert_eq!(go(block(vec![call("<", vec![num(1), num(2)])])).unwrap(), Value::Boolean(true));
    assert_eq!(go(block(vec![call(">", vec![num(2), num(1)])])).unwrap(), Value::Boolean(true));
    assert_eq!(go(block(vec![call("<=", vec![num(1), num(1)])])).unwrap(), Value::Boolean(true));
    assert_eq!(go(block(vec![call(">=", vec![num(1), num(1)])])).unwrap(), Value::Boolean(true));
    assert_eq!(go(block(vec![call("&&", vec![Expr::Lit(Value::Boolean(true)), Expr::Lit(Value::Boolean(false))])])).unwrap(), Value::Boolean(false));
    assert_eq!(go(block(vec![call("||", vec![Expr::Lit(Value::Boolean(true)), Expr::Lit(Value::Boolean(false))])])).unwrap(), Value::Boolean(true));
    assert_eq!(go(block(vec![call("!", vec![Expr::Lit(Value::Boolean(false))])])).unwrap(), Value::Boolean(true));
}

#[test]
fn operators_arithmetic_all() {
    assert_eq!(go(block(vec![call("+", vec![num(1), num(2)])])).unwrap(), Value::Integer(3));
    assert_eq!(go(block(vec![call("-", vec![num(5), num(2)])])).unwrap(), Value::Integer(3));
    assert_eq!(go(block(vec![call("*", vec![num(3), num(4)])])).unwrap(), Value::Integer(12));
    assert_eq!(go(block(vec![call("/", vec![num(10), num(3)])])).unwrap(), Value::Integer(3));
    assert_eq!(go(block(vec![call("%", vec![num(10), num(3)])])).unwrap(), Value::Integer(1));
    assert_eq!(go(block(vec![call("+", vec![text("a"), text("b")])])).unwrap(), Value::String("ab".into()));
}

#[test]
fn block_with_let_does_not_leak() {
    let v = go(block(vec![let_("x", num(1)), let_("x", num(2)), var("x")])).unwrap();
    assert_eq!(v, Value::Integer(2));
}

#[test]
fn function_call_with_3_args() {
    let v = go(block(vec![let_("f", fun(&["a", "b", "c"], call("+", vec![call("+", vec![var("a"), var("b")]), var("c")]))), call("f", vec![num(1), num(2), num(3)])])).unwrap();
    assert_eq!(v, Value::Integer(6));
}

#[test]
fn function_call_with_4_args() {
    let v = go(block(vec![let_("f", fun(&["a", "b", "c", "d"], call("+", vec![call("+", vec![call("+", vec![var("a"), var("b")]), var("c")]), var("d")]))), call("f", vec![num(1), num(2), num(3), num(4)])])).unwrap();
    assert_eq!(v, Value::Integer(10));
}

#[test]
fn dict_key_value_evaluation_order() {
    let v = go(block(vec![Expr::DictOf(vec![(text("a"), call("+", vec![num(1), num(2)])), (text("b"), call("*", vec![num(3), num(4)]))])])).unwrap();
    match v {
        Value::Dict(entries) => {
            assert_eq!(entries.len(), 2);
        }
        _ => panic!("expected Dict"),
    }
}

#[test]
fn err_in_block_propagates_to_top_level() {
    let err = go(block(vec![Expr::ErrOf(Box::new(text("x")))])).unwrap_err();
    assert_eq!(err.code, ErrorCode::E0102);
}

#[test]
fn return_evaluates_at_function_call_site() {
    let v = go(block(vec![Expr::Return(Some(Box::new(num(42))))])).unwrap();
    assert!(v == Value::Integer(42) || v == Value::Null);
}

#[test]
fn call_to_builtin_liken_returns_value() {
    assert_eq!(go(block(vec![call("LEN", vec![text("abc")])])).unwrap(), Value::Integer(3));
}

#[test]
fn trace_top_level_error_has_synthetic_toplevel_frame() {
    let err = go(block(vec![call("PRINT", vec![var("zzz")])])).unwrap_err();
    let d = &err;
    assert_eq!(d.trace.len(), 1, "got: {:?}", d.trace);
    assert_eq!(d.trace[0].frame, "<toplevel>");
}

#[test]
fn trace_nested_call_has_two_frames_innermost_first() {
        let err = go(block(vec![let_("outer", fun(&["x"], call("inner", vec![var("x")]))), let_("inner", fun(&["y"], call("zzz", vec![var("y")]))), call("outer", vec![num(1)])])).unwrap_err();
    let d = &err;
    assert_eq!(d.trace.len(), 2, "got: {:?}", d.trace);
    assert_eq!(d.trace[0].frame, "inner");
    assert_eq!(d.trace[1].frame, "outer");
}

#[test]
fn p4_a3_destructure_array_basic() {
        assert_eq!(go(block(vec![Expr::LetPattern(Pattern::Array(vec![Pattern::Ident("a".to_string()), Pattern::Ident("b".to_string())], None), Box::new(Expr::ArrayOf(vec![num(1), num(2)]))), call("+", vec![var("a"), var("b")])])).unwrap(), Value::Integer(3));
}

#[test]
fn p4_a3_destructure_array_with_rest() {
        assert_eq!(go(block(vec![Expr::LetPattern(Pattern::Array(vec![Pattern::Ident("head".to_string())], Some(Box::new(Pattern::Ident("rest".to_string())))), Box::new(Expr::ArrayOf(vec![num(10), num(20), num(30), num(40)]))), var("head")])).unwrap(), Value::Integer(10));
}

#[test]
fn p4_a3_destructure_rest_is_value_array() {
        let v = go(block(vec![Expr::LetPattern(Pattern::Array(vec![Pattern::Ident("head".to_string())], Some(Box::new(Pattern::Ident("rest".to_string())))), Box::new(Expr::ArrayOf(vec![num(10), num(20), num(30), num(40)]))), var("rest")])).unwrap();
    assert_eq!(
        v,
        Value::Array(vec![
            Value::Integer(20),
            Value::Integer(30),
            Value::Integer(40),
        ])
    );
}

#[test]
fn p4_a3_destructure_wildcard() {
        assert_eq!(go(block(vec![Expr::LetPattern(Pattern::Array(vec![Pattern::Wildcard, Pattern::Ident("mid".to_string()), Pattern::Wildcard], None), Box::new(Expr::ArrayOf(vec![num(1), num(2), num(3)]))), var("mid")])).unwrap(), Value::Integer(2));
}

#[test]
fn p4_a3_destructure_dict_basic() {
        assert_eq!(go(block(vec![Expr::LetPattern(Pattern::Dict(vec![(PatternKey::Literal(Value::String("x".to_string())), Pattern::Ident("x".to_string())), (PatternKey::Literal(Value::String("y".to_string())), Pattern::Ident("y".to_string()))]), Box::new(Expr::DictOf(vec![(text("x"), num(100)), (text("y"), num(200))]))), call("+", vec![var("x"), var("y")])])).unwrap(), Value::Integer(300));
}

#[test]
fn p4_a3_destructure_dict_partial() {
        assert_eq!(
        go(block(vec![Expr::LetPattern(Pattern::Dict(vec![(PatternKey::Literal(Value::String("name".to_string())), Pattern::Ident("n".to_string()))]), Box::new(Expr::DictOf(vec![(text("name"), text("alice")), (text("age"), num(30))]))), var("n")])).unwrap(),
        Value::String("alice".to_string())
    );
}

#[test]
fn p4_a3_destructure_nested_array() {
        assert_eq!(go(block(vec![Expr::LetPattern(Pattern::Array(vec![Pattern::Array(vec![Pattern::Ident("a".to_string()), Pattern::Ident("b".to_string())], None), Pattern::Array(vec![Pattern::Ident("c".to_string()), Pattern::Ident("d".to_string())], None)], None), Box::new(Expr::ArrayOf(vec![Expr::ArrayOf(vec![num(1), num(2)]), Expr::ArrayOf(vec![num(3), num(4)])]))), call("+", vec![call("+", vec![var("a"), var("b")]), call("+", vec![var("c"), var("d")])])])).unwrap(), Value::Integer(10));
}

#[test]
fn p4_a3_destructure_nested_dict_in_array() {
        assert_eq!(
        go(block(vec![Expr::LetPattern(Pattern::Dict(vec![(PatternKey::Literal(Value::String("user".to_string())), Pattern::Dict(vec![(PatternKey::Literal(Value::String("name".to_string())), Pattern::Ident("n".to_string()))]))]), Box::new(Expr::DictOf(vec![(text("user"), Expr::DictOf(vec![(text("name"), text("bob")), (text("age"), num(25))]))]))), var("n")])).unwrap(),
        Value::String("bob".to_string())
    );
}

#[test]
fn p4_a3_destructure_array_too_short_is_e0026() {
        let err = go(block(vec![Expr::LetPattern(Pattern::Array(vec![Pattern::Ident("a".to_string()), Pattern::Ident("b".to_string())], None), Box::new(Expr::ArrayOf(vec![num(1)]))), var("a")])).unwrap_err();
    assert_eq!(err.code, ErrorCode::E0026, "got: {:?}", err);
}

#[test]
fn p4_a3_destructure_array_too_long_no_rest_is_e0026() {
        let err = go(block(vec![Expr::LetPattern(Pattern::Array(vec![Pattern::Ident("a".to_string()), Pattern::Ident("b".to_string())], None), Box::new(Expr::ArrayOf(vec![num(1), num(2), num(3)]))), var("a")])).unwrap_err();
    assert_eq!(err.code, ErrorCode::E0026, "got: {:?}", err);
}

#[test]
fn p4_a3_destructure_dict_missing_key_is_e0026() {
        let err = go(block(vec![Expr::LetPattern(Pattern::Dict(vec![(PatternKey::Literal(Value::String("x".to_string())), Pattern::Ident("x".to_string()))]), Box::new(Expr::DictOf(vec![(text("y"), num(1))]))), var("x")])).unwrap_err();
    assert_eq!(err.code, ErrorCode::E0026, "got: {:?}", err);
}

#[test]
fn p4_a3_destructure_integer_with_array_pattern_is_e0030() {
        let err = go(block(vec![Expr::LetPattern(Pattern::Array(vec![Pattern::Ident("a".to_string()), Pattern::Ident("b".to_string())], None), Box::new(num(42))), var("a")])).unwrap_err();
    assert_eq!(err.code, ErrorCode::E0030, "got: {:?}", err);
}

#[test]
fn p4_a3_destructure_dict_with_integer_value_is_e0030() {
        let err = go(block(vec![Expr::LetPattern(Pattern::Dict(vec![(PatternKey::Literal(Value::String("k".to_string())), Pattern::Ident("v".to_string()))]), Box::new(num(42))), var("v")])).unwrap_err();
    assert_eq!(err.code, ErrorCode::E0030, "got: {:?}", err);
}

#[test]
fn p4_a3_destructure_dict_key_mismatch_is_e0026() {
        let err = go(block(vec![Expr::LetPattern(Pattern::Dict(vec![(PatternKey::Literal(Value::String("missing".to_string())), Pattern::Ident("v".to_string()))]), Box::new(Expr::DictOf(vec![(text("k"), num(1))]))), var("v")])).unwrap_err();
    assert_eq!(err.code, ErrorCode::E0026, "got: {:?}", err);
}

#[test]
fn p4_a3_let_legacy_form_still_works() {
        assert_eq!(go(block(vec![let_("x", num(42)), var("x")])).unwrap(), Value::Integer(42));
}

#[test]
fn p4_a4_match_bindings_dont_leak_outside_clause_body() {
        assert_eq!(go(block(vec![let_("n", num(100)), Expr::Match(Box::new(num(2)), vec![(Pattern::Wildcard, call("+", vec![var("n"), num(1)]))], Box::new(null())), var("n")])).unwrap(), Value::Integer(101));
        assert_eq!(go(block(vec![let_("n", num(100)), Expr::Match(Box::new(num(2)), vec![(Pattern::Wildcard, call("+", vec![var("n"), num(1)]))], Box::new(null())), var("n")])).unwrap(), Value::Integer(100));
}

#[test]
fn p4_a4_destructure_constructor_ok_binds_inner() {
        assert_eq!(go(block(vec![Expr::LetPattern(Pattern::Array(vec![Pattern::Constructor("OK".to_string(), Box::new(Pattern::Ident("x".to_string()))), Pattern::Ident("v".to_string())], None), Box::new(Expr::ArrayOf(vec![Expr::OkOf(Box::new(num(5))), num(10)]))), call("+", vec![var("x"), var("v")])])).unwrap(), Value::Integer(15));
}

#[test]
fn p4_a4_destructure_constructor_err_binds_inner() {
        assert_eq!(go(block(vec![Expr::LetPattern(Pattern::Array(vec![Pattern::Constructor("ERR".to_string(), Box::new(Pattern::Ident("e".to_string()))), Pattern::Ident("v".to_string())], None), Box::new(Expr::ArrayOf(vec![Expr::ErrOf(Box::new(text("bad"))), num(7)]))), call("+", vec![call("LEN", vec![var("e")]), var("v")])])).unwrap(), Value::Integer(10));
}

#[test]
fn p4_a4_destructure_constructor_mismatch_is_e0026() {
    let err = go(block(vec![Expr::LetPattern(Pattern::Array(vec![Pattern::Constructor("OK".to_string(), Box::new(Pattern::Ident("x".to_string()))), Pattern::Ident("v".to_string())], None), Box::new(Expr::ArrayOf(vec![Expr::ErrOf(Box::new(text("5"))), num(10)]))), call("+", vec![var("x"), var("v")])])).unwrap_err();
    let d = &err;
    assert_eq!(d.code, ErrorCode::E0026);
}

#[test]
fn p4_a4_match_soft_fall_through_gauntlet() {
        assert_eq!(
        go(block(vec![Expr::Match(Box::new(Expr::ArrayOf(vec![num(1), num(2), num(3), num(4)])), vec![(Pattern::Literal(Value::Integer(42), "42".to_string()), text("lit-mismatch-1")), (Pattern::Literal(Value::Integer(99), "99".to_string()), text("lit-mismatch-2")), (Pattern::Array(vec![Pattern::Literal(Value::Integer(1), "1".to_string()), Pattern::Literal(Value::Integer(2), "2".to_string())], None), text("arr-too-long-no-rest")), (Pattern::Constructor("OK".to_string(), Box::new(Pattern::Ident("x".to_string()))), text("ctor-ok-mismatch")), (Pattern::Constructor("ERR".to_string(), Box::new(Pattern::Ident("x".to_string()))), text("ctor-err-mismatch")), (Pattern::Wildcard, text("wildcard-wins"))], Box::new(text("default-not-used")))])).unwrap(),
        Value::String("wildcard-wins".to_string())
    );
}

#[test]
fn p4_a4_match_array_pattern_against_non_array_is_e0030() {
        let err = go(block(vec![Expr::Match(Box::new(num(42)), vec![(Pattern::Array(vec![Pattern::Literal(Value::Integer(1), "1".to_string()), Pattern::Literal(Value::Integer(2), "2".to_string())], None), text("unreachable"))], Box::new(text("default")))])).unwrap_err();
    let d = &err;
    assert_eq!(d.code, ErrorCode::E0030);
}

#[test]
fn p4_a4_match_dict_pattern_against_non_dict_is_e0030() {
        let err = go(block(vec![Expr::Match(Box::new(num(42)), vec![(Pattern::Dict(vec![(PatternKey::Literal(Value::String("x".to_string())), Pattern::Literal(Value::Integer(1), "1".to_string()))]), text("unreachable"))], Box::new(text("default")))])).unwrap_err();
    let d = &err;
    assert_eq!(d.code, ErrorCode::E0030);
}

#[test]
fn p4_a4_destructure_literal_pattern_success_binds_value() {
        assert_eq!(go(block(vec![Expr::LetPattern(Pattern::Array(vec![Pattern::Literal(Value::Integer(1), "1".to_string()), Pattern::Ident("x".to_string())], None), Box::new(Expr::ArrayOf(vec![num(1), num(99)]))), var("x")])).unwrap(), Value::Integer(99));
}

#[test]
fn b3_or_die_outer_wraps_inner_returns_e0030() {
    let err = go(block(vec![Expr::OrDie(Box::new(Expr::OrDie(Box::new(Expr::OkOf(Box::new(num(1)))), Box::new(num(0)))), Box::new(num(0)))])).unwrap_err();
    assert_eq!(err.code, ErrorCode::E0030);
    let msg = &err.message;
    assert!(
        msg.contains("UNWRAP_OR"),
        "E0030 message should name UNWRAP_OR: {}",
        msg
    );
}

#[test]
fn b3_unwrap_or_non_result_is_e0030_with_unwrap_or_message() {
    let err = go(block(vec![call("UNWRAP_OR", vec![num(42), num(0)])])).unwrap_err();
    let msg = &err.message;
    assert!(
        msg.contains("UNWRAP_OR"),
        "should mention UNWRAP_OR: {}",
        msg
    );
    assert!(
        !msg.contains("`OR_DIE`"),
        "should NOT mention OR_DIE: {}",
        msg
    );
    assert_eq!(err.code, ErrorCode::E0030);
}

#[test]
fn b3_unwrap_or_arity_too_few_is_e0022_saying_unwrap_or() {
    let err = go(block(vec![call("UNWRAP_OR", vec![Expr::OkOf(Box::new(num(1)))])])).unwrap_err();
    let msg = &err.message;
    assert!(
        msg.contains("UNWRAP_OR"),
        "should mention UNWRAP_OR: {}",
        msg
    );
    assert_eq!(err.code, ErrorCode::E0022);
}

#[test]
fn b3_unwrap_or_arity_too_many_is_e0022_saying_unwrap_or() {
    let err = go(block(vec![call("UNWRAP_OR", vec![Expr::OkOf(Box::new(num(1))), num(0), num(0)])])).unwrap_err();
    let msg = &err.message;
    assert!(
        msg.contains("UNWRAP_OR"),
        "should mention UNWRAP_OR: {}",
        msg
    );
    assert_eq!(err.code, ErrorCode::E0022);
}

#[test]
fn b3_unwrap_or_propagates_through_user_function() {
        assert_eq!(go(block(vec![let_("pass_through", fun(&["x"], var("x"))), call("UNWRAP_OR", vec![call("pass_through", vec![Expr::ErrOf(Box::new(text("inner")))]), num(-1)])])).unwrap(), Value::Integer(-1));
}

#[test]
fn b3_or_die_preserves_v04_section_122_semantics() {
    assert_eq!(go(block(vec![Expr::OrDie(Box::new(Expr::OkOf(Box::new(num(42)))), Box::new(num(0)))])).unwrap(), Value::Integer(42));
    assert_eq!(
        go(block(vec![Expr::OrDie(Box::new(Expr::ErrOf(Box::new(text("e")))), Box::new(num(99)))])).unwrap(),
        Value::Integer(99)
    );
    let err = go(block(vec![Expr::OrDie(Box::new(num(42)), Box::new(num(0)))])).unwrap_err();
    assert_eq!(err.code, ErrorCode::E0030);
    let msg = &err.message;
    assert!(
        msg.contains("UNWRAP_OR"),
        "E0030 message should name UNWRAP_OR: {}",
        msg
    );
}

#[test]
fn b4_unwrap_ok_returns_inner() {
    assert_eq!(go(block(vec![call("UNWRAP", vec![Expr::OkOf(Box::new(num(42)))])])).unwrap(), Value::Integer(42));
    assert_eq!(
        go(block(vec![call("UNWRAP", vec![Expr::OkOf(Box::new(text("hello")))])])).unwrap(),
        Value::String("hello".into())
    );
    assert_eq!(
        go(block(vec![call("UNWRAP", vec![Expr::OkOf(Box::new(Expr::ArrayOf(vec![num(1), num(2), num(3)])))])])).unwrap(),
        Value::Array(vec![
            Value::Integer(1),
            Value::Integer(2),
            Value::Integer(3)
        ])
    );
}

#[test]
fn b4_unwrap_arity_too_few_is_e0022() {
    let err = go(block(vec![call("UNWRAP", vec![])])).unwrap_err();
    assert_eq!(err.code, ErrorCode::E0022);
}

#[test]
fn b4_unwrap_arity_too_many_is_e0022() {
    let err = go(block(vec![call("UNWRAP", vec![Expr::OkOf(Box::new(num(1))), num(0)])])).unwrap_err();
    assert_eq!(err.code, ErrorCode::E0022);
}

#[test]
fn b4_err_payload_err_returns_string_payload() {
    assert_eq!(
        go(block(vec![call("ERR_PAYLOAD", vec![Expr::ErrOf(Box::new(text("net down")))])])).unwrap(),
        Value::String("net down".into())
    );
}

#[test]
fn b4_err_payload_err_returns_dict_payload() {
    let v = go(block(vec![call("ERR_PAYLOAD", vec![Expr::ErrOf(Box::new(Expr::DictOf(vec![(text("code"), text("E1001")), (text("msg"), text("bad"))])))])]))
        .unwrap();
    let expected = Value::Dict(vec![
        (
            Value::String("code".into()),
            Value::String("E1001".into()),
        ),
        (
            Value::String("msg".into()),
            Value::String("bad".into()),
        ),
    ]);
    assert_eq!(v, expected);
}

#[test]
fn b4_err_payload_ok_is_e0030_saying_expected_err() {
    let err = go(block(vec![call("ERR_PAYLOAD", vec![Expr::OkOf(Box::new(num(42)))])])).unwrap_err();
    assert_eq!(err.code, ErrorCode::E0030);
    let msg = &err.message;
    assert!(
        msg.contains("ERR_PAYLOAD"),
        "should name ERR_PAYLOAD: {}",
        msg
    );
    assert!(
        msg.contains("OK"),
        "should mention OK (the wrong type): {}",
        msg
    );
}

#[test]
fn b4_err_payload_non_result_is_e0030() {
    let err = go(block(vec![call("ERR_PAYLOAD", vec![num(42)])])).unwrap_err();
    assert_eq!(err.code, ErrorCode::E0030);
    let err = go(block(vec![call("ERR_PAYLOAD", vec![text("string")])])).unwrap_err();
    assert_eq!(err.code, ErrorCode::E0030);
}

#[test]
fn b4_err_payload_arity_wrong_is_e0022() {
    assert_eq!(
        go(block(vec![call("ERR_PAYLOAD", vec![])])).unwrap_err().code,
        ErrorCode::E0022
    );
    assert_eq!(
        go(block(vec![call("ERR_PAYLOAD", vec![Expr::ErrOf(Box::new(text("e"))), num(0)])]))
            .unwrap_err()
            
            .code,
        ErrorCode::E0022
    );
}

#[test]
fn b4_wrap_err_creates_wrapped_dict() {
    let v = go(block(vec![call("ERR_PAYLOAD", vec![call("WRAP", vec![Expr::ErrOf(Box::new(text("e"))), text("ctx")])])])).unwrap();
    let expected = Value::Dict(vec![
        (Value::String("original".into()), Value::String("e".into())),
        (
            Value::String("context".into()),
            Value::String("ctx".into()),
        ),
    ]);
    assert_eq!(v, expected);
}

#[test]
fn b4_wrap_err_with_dict_payload_creates_nested_dict() {
    let v = go(block(vec![call("ERR_PAYLOAD", vec![call("WRAP", vec![Expr::ErrOf(Box::new(Expr::DictOf(vec![(text("code"), text("E1001"))]))), text("ctx")])])]))
        .unwrap();
    let expected = Value::Dict(vec![
        (
            Value::String("original".into()),
            Value::Dict(vec![(
                Value::String("code".into()),
                Value::String("E1001".into()),
            )]),
        ),
        (
            Value::String("context".into()),
            Value::String("ctx".into()),
        ),
    ]);
    assert_eq!(v, expected);
}

#[test]
fn b4_wrap_ok_passes_through_unchanged() {
    assert_eq!(
        go(block(vec![call("WRAP", vec![Expr::OkOf(Box::new(num(42))), text("ignored")])])).unwrap(),
        Value::OkValue(Box::new(Value::Integer(42)))
    );
    assert_eq!(
        go(block(vec![call("WRAP", vec![Expr::OkOf(Box::new(Expr::ArrayOf(vec![num(1), num(2)]))), null()])])).unwrap(),
        Value::OkValue(Box::new(Value::Array(vec![
            Value::Integer(1),
            Value::Integer(2)
        ])))
    );
}

#[test]
fn b4_wrap_nested_chain_builds_deeper_dict() {
    let v = go(block(vec![call("ERR_PAYLOAD", vec![call("WRAP", vec![call("WRAP", vec![Expr::ErrOf(Box::new(text("e"))), text("c1")]), text("c2")])])]))
        .unwrap();
    let outer_dict = match v {
        Value::Dict(d) => d,
        _ => panic!("outer should be dict"),
    };
    assert_eq!(
        outer_dict[1],
        (Value::String("context".into()), Value::String("c2".into()))
    );
    let inner_dict = match &outer_dict[0].1 {
        Value::Dict(d) => d.clone(),
        _ => panic!("original should be dict"),
    };
    assert_eq!(
        inner_dict[1],
        (Value::String("context".into()), Value::String("c1".into()))
    );
    assert_eq!(
        inner_dict[0],
        (
            Value::String("original".into()),
            Value::String("e".into())
        )
    );
}

#[test]
fn b4_wrap_non_result_is_e0030() {
    let err = go(block(vec![call("WRAP", vec![num(42), text("ctx")])])).unwrap_err();
    assert_eq!(err.code, ErrorCode::E0030);
    let err = go(block(vec![call("WRAP", vec![Expr::ArrayOf(vec![num(1), num(2)]), text("ctx")])])).unwrap_err();
    assert_eq!(err.code, ErrorCode::E0030);
}

#[test]
fn b4_wrap_arity_wrong_is_e0022() {
    assert_eq!(
        go(block(vec![call("WRAP", vec![Expr::ErrOf(Box::new(text("e")))])])).unwrap_err().code,
        ErrorCode::E0022
    );
    assert_eq!(
        go(block(vec![call("WRAP", vec![Expr::ErrOf(Box::new(text("e"))), text("ctx"), text("extra")])]))
            .unwrap_err()
            
            .code,
        ErrorCode::E0022
    );
}

#[test]
fn b4_is_ok_is_err_on_wrap_result() {
    assert_eq!(
        go(block(vec![Expr::IsOk(Box::new(call("WRAP", vec![Expr::OkOf(Box::new(num(42))), text("ctx")])))])).unwrap(),
        Value::Boolean(true)
    );
    assert_eq!(
        go(block(vec![Expr::IsOk(Box::new(call("WRAP", vec![Expr::ErrOf(Box::new(text("e"))), text("ctx")])))])).unwrap(),
        Value::Boolean(false)
    );
    assert_eq!(
        go(block(vec![Expr::IsErr(Box::new(call("WRAP", vec![Expr::ErrOf(Box::new(text("e"))), text("ctx")])))])).unwrap(),
        Value::Boolean(true)
    );
}

#[test]
fn b4_unwrap_or_does_not_consume_wrap_result() {
    assert_eq!(
        go(block(vec![call("UNWRAP_OR", vec![call("WRAP", vec![Expr::ErrOf(Box::new(text("e"))), text("ctx")]), num(-1)])])).unwrap(),
        Value::Integer(-1)
    );
}

#[test]
fn b4_err_payload_of_wrapped_err_returns_dict() {
    let v = go(block(vec![call("ERR_PAYLOAD", vec![call("WRAP", vec![Expr::ErrOf(Box::new(text("e"))), text("ctx")])])])).unwrap();
    let expected = Value::Dict(vec![
        (Value::String("original".into()), Value::String("e".into())),
        (
            Value::String("context".into()),
            Value::String("ctx".into()),
        ),
    ]);
    assert_eq!(v, expected);
}

#[test]
fn b5_str_primitives() {
    assert_eq!(go(block(vec![call("STR", vec![num(42)])])).unwrap(), Value::String("42".into()));
    assert_eq!(go(block(vec![call("STR", vec![Expr::Lit(Value::Float((3.5f64).to_bits()))])])).unwrap(), Value::String("3.5".into()));
    assert_eq!(go(block(vec![call("STR", vec![Expr::Lit(Value::Float((30.0f64).to_bits()))])])).unwrap(), Value::String("30.0".into()));
    assert_eq!(go(block(vec![call("STR", vec![Expr::Lit(Value::Boolean(true))])])).unwrap(), Value::String("TRUE".into()));
    assert_eq!(go(block(vec![call("STR", vec![Expr::Lit(Value::Boolean(false))])])).unwrap(), Value::String("FALSE".into()));
    assert_eq!(go(block(vec![call("STR", vec![null()])])).unwrap(), Value::String("NULL".into()));
    assert_eq!(go(block(vec![call("STR", vec![text("x")])])).unwrap(), Value::String("x".into()));
}

#[test]
fn b5_str_containers_render_structurally() {
    assert_eq!(
        go(block(vec![call("STR", vec![Expr::ArrayOf(vec![num(1), num(2)])])])).unwrap(),
        Value::String("[1, 2]".into())
    );
    assert_eq!(
        go(block(vec![call("STR", vec![Expr::DictOf(vec![(text("a"), num(1))])])])).unwrap(),
        Value::String("[a: 1]".into())
    );
}

#[test]
fn b5_str_ok_result_renders() {
    assert_eq!(
        go(block(vec![call("STR", vec![Expr::OkOf(Box::new(num(42)))])])).unwrap(),
        Value::String("OK(42)".into())
    );
}

#[test]
fn b5_str_err_arg_propagates_per_s126() {
    let err = go(block(vec![call("STR", vec![Expr::ErrOf(Box::new(text("e")))])])).unwrap_err();
    assert_eq!(err.code, ErrorCode::E0102);
}

#[test]
fn b5_str_arity_wrong_is_e0022() {
    assert_eq!(go(block(vec![call("STR", vec![])])).unwrap_err().code, ErrorCode::E0022);
    assert_eq!(
        go(block(vec![call("STR", vec![text("a"), text("b")])])).unwrap_err().code,
        ErrorCode::E0022
    );
}

#[test]
fn b8_trim_basics() {
    assert_eq!(go(block(vec![call("TRIM", vec![text("  hello  ")])])).unwrap(), Value::String("hello".into()));
    assert_eq!(go(block(vec![call("TRIM", vec![text("hello")])])).unwrap(), Value::String("hello".into()));
    assert_eq!(go(block(vec![call("TRIM", vec![text("   ")])])).unwrap(), Value::String("".into()));
}

#[test]
fn b8_trim_start_and_end() {
    assert_eq!(go(block(vec![call("TRIM_START", vec![text("  hello  ")])])).unwrap(), Value::String("hello  ".into()));
    assert_eq!(go(block(vec![call("TRIM_END", vec![text("  hello  ")])])).unwrap(), Value::String("  hello".into()));
    assert_eq!(
        go(block(vec![call("TRIM_END", vec![call("TRIM_START", vec![text("  hi  ")])])])).unwrap(),
        Value::String("hi".into())
    );
}

#[test]
fn b8_starts_with_ends_with() {
    assert_eq!(go(block(vec![call("STARTS_WITH", vec![text("hello world"), text("hello")])])).unwrap(), Value::Boolean(true));
    assert_eq!(go(block(vec![call("STARTS_WITH", vec![text("hello world"), text("world")])])).unwrap(), Value::Boolean(false));
    assert_eq!(go(block(vec![call("ENDS_WITH", vec![text("hello world"), text("world")])])).unwrap(), Value::Boolean(true));
    assert_eq!(go(block(vec![call("ENDS_WITH", vec![text("hello world"), text("hello")])])).unwrap(), Value::Boolean(false));
    assert_eq!(go(block(vec![call("ENDS_WITH", vec![text("anything"), text("")])])).unwrap(), Value::Boolean(true));
}

#[test]
fn b8_repeat_basics() {
    assert_eq!(go(block(vec![call("REPEAT", vec![text("ab"), num(3)])])).unwrap(), Value::String("ababab".into()));
    assert_eq!(go(block(vec![call("REPEAT", vec![text("x"), num(0)])])).unwrap(), Value::String("".into()));
    assert_eq!(go(block(vec![call("REPEAT", vec![text("foo"), num(1)])])).unwrap(), Value::String("foo".into()));
}

#[test]
fn b8_repeat_negative_is_e0030() {
    let err = go(block(vec![call("REPEAT", vec![text("ab"), num(-1)])])).unwrap_err();
    assert_eq!(err.code, ErrorCode::E0030);
}

#[test]
fn b8_pad_start_and_end() {
    assert_eq!(
        go(block(vec![call("PAD_START", vec![text("hi"), num(5), text("*")])])).unwrap(),
        Value::String("***hi".into())
    );
    assert_eq!(
        go(block(vec![call("PAD_END", vec![text("hi"), num(5), text("*")])])).unwrap(),
        Value::String("hi***".into())
    );
    assert_eq!(
        go(block(vec![call("PAD_START", vec![text("hello"), num(3), text("*")])])).unwrap(),
        Value::String("hello".into())
    );
    assert_eq!(
        go(block(vec![call("PAD_END", vec![text("hi"), num(0), text("*")])])).unwrap(),
        Value::String("hi".into())
    );
}

#[test]
fn b8_codepoints_and_from_codepoints_roundtrip() {
    assert_eq!(
        go(block(vec![call("CODEPOINTS", vec![text("hello")])])).unwrap(),
        Value::Array(vec![
            Value::Integer(104), Value::Integer(101), Value::Integer(108),
            Value::Integer(108), Value::Integer(111),
        ])
    );
    assert_eq!(
        go(block(vec![call("FROM_CODEPOINTS", vec![Expr::ArrayOf(vec![num(72), num(105)])])])).unwrap(),
        Value::String("Hi".into())
    );
}

#[test]
fn b8_codepoints_unicode_basic_multilingual_plane() {
    let v = go(block(vec![call("CODEPOINTS", vec![text("é")])])).unwrap();
    assert_eq!(v, Value::Array(vec![Value::Integer(233)]));
    let v = go(block(vec![call("FROM_CODEPOINTS", vec![Expr::ArrayOf(vec![num(233)])])])).unwrap();
    assert_eq!(v, Value::String("é".into()));
}

#[test]
fn b8_codepoints_unicode_supplementary_plane() {
    let v = go(block(vec![call("CODEPOINTS", vec![text("𝄞")])])).unwrap();
    assert_eq!(v, Value::Array(vec![Value::Integer(119070)]));
    let v = go(block(vec![call("FROM_CODEPOINTS", vec![Expr::ArrayOf(vec![num(119070)])])])).unwrap();
    assert_eq!(v, Value::String("𝄞".into()));
}

#[test]
fn b8_from_codepoints_surrogate_half_is_e0031() {
    let err = go(block(vec![call("FROM_CODEPOINTS", vec![Expr::ArrayOf(vec![num(55296)])])])).unwrap_err();
    assert_eq!(err.code, ErrorCode::E0031);
    let err = go(block(vec![call("FROM_CODEPOINTS", vec![Expr::ArrayOf(vec![num(57343)])])])).unwrap_err();
    assert_eq!(err.code, ErrorCode::E0031);
}

#[test]
fn b8_from_codepoints_above_max_is_e0031() {
    let err = go(block(vec![call("FROM_CODEPOINTS", vec![Expr::ArrayOf(vec![num(1114112)])])])).unwrap_err();
    assert_eq!(err.code, ErrorCode::E0031);
}

#[test]
fn b8_from_codepoints_negative_is_e0031() {
    let err = go(block(vec![call("FROM_CODEPOINTS", vec![Expr::ArrayOf(vec![num(-1)])])])).unwrap_err();
    assert_eq!(err.code, ErrorCode::E0031);
}

#[test]
fn b8_from_codepoints_non_integer_element_is_e0030() {
    let err = go(block(vec![call("FROM_CODEPOINTS", vec![Expr::ArrayOf(vec![num(1), text("not-a-codepoint")])])])).unwrap_err();
    assert_eq!(err.code, ErrorCode::E0030);
}

#[test]
fn b8_string_builtins_chained() {
    let v = go(block(vec![call("LEN", vec![call("CODEPOINTS", vec![call("REPEAT", vec![call("TRIM", vec![text("  abc  ")]), num(2)])])])])).unwrap();
    assert_eq!(v, Value::Integer(6));
}

#[test]
fn b9_not_truthiness_matches_negation_table() {
    assert_eq!(go(block(vec![call("NOT", vec![Expr::Lit(Value::Boolean(true))])])).unwrap(), Value::Boolean(false));
    assert_eq!(go(block(vec![call("NOT", vec![Expr::Lit(Value::Boolean(false))])])).unwrap(), Value::Boolean(true));
    assert_eq!(go(block(vec![call("NOT", vec![null()])])).unwrap(), Value::Boolean(true));
    assert_eq!(go(block(vec![call("NOT", vec![num(0)])])).unwrap(), Value::Boolean(false));
    assert_eq!(go(block(vec![call("NOT", vec![num(1)])])).unwrap(), Value::Boolean(false));
    assert_eq!(go(block(vec![call("NOT", vec![num(42)])])).unwrap(), Value::Boolean(false));
    assert_eq!(go(block(vec![call("NOT", vec![num(-7)])])).unwrap(), Value::Boolean(false));
    assert_eq!(go(block(vec![call("NOT", vec![text("")])])).unwrap(), Value::Boolean(false));
    assert_eq!(go(block(vec![call("NOT", vec![text("non-empty")])])).unwrap(), Value::Boolean(false));
    assert_eq!(go(block(vec![call("NOT", vec![Expr::ArrayOf(vec![])])])).unwrap(), Value::Boolean(false));
    assert_eq!(go(block(vec![call("NOT", vec![Expr::DictOf(vec![(text("a"), num(1))])])])).unwrap(), Value::Boolean(false));
}

#[test]
fn b9_not_with_err_arg_is_e0102() {
    let err = go(block(vec![call("NOT", vec![Expr::ErrOf(Box::new(text("e")))])])).unwrap_err();
    assert_eq!(err.code, ErrorCode::E0102);
    let err = go(block(vec![call("!", vec![Expr::ErrOf(Box::new(text("e")))])])).unwrap_err();
    assert_eq!(err.code, ErrorCode::E0102);
}

#[test]
fn b10_print_err_returns_null() {
    let v = go(block(vec![call("PRINT_ERR", vec![text("oops")])])).unwrap();
    assert_eq!(v, Value::Null);
}

#[test]
fn b10_print_err_with_multiple_args() {
    let v = go(block(vec![call("PRINT_ERR", vec![text("error:"), num(42), text("is"), Expr::Lit(Value::Boolean(true))])])).unwrap();
    assert_eq!(v, Value::Null);
}

#[test]
fn b10_print_err_input_err_is_e0102() {
    let err = go(block(vec![call("PRINT_ERR", vec![Expr::ErrOf(Box::new(text("e")))])])).unwrap_err();
    assert_eq!(err.code, ErrorCode::E0102);
}

#[test]
fn b12_shift_basic_and_empty() {
    assert_eq!(go(block(vec![call("SHIFT", vec![Expr::ArrayOf(vec![num(1), num(2), num(3)])])])).unwrap(), Value::Array(vec![Value::Integer(2), Value::Integer(3)]));
    assert_eq!(go(block(vec![call("SHIFT", vec![Expr::ArrayOf(vec![])])])).unwrap(), Value::Array(vec![]));
    assert_eq!(go(block(vec![call("SHIFT", vec![Expr::ArrayOf(vec![num(42)])])])).unwrap(), Value::Array(vec![]));
}

#[test]
fn b12_unshift_prepends_element() {
    let v = go(block(vec![call("UNSHIFT", vec![Expr::ArrayOf(vec![num(2), num(3)]), num(1)])])).unwrap();
    assert_eq!(v, Value::Array(vec![Value::Integer(1), Value::Integer(2), Value::Integer(3)]));
    let err = go(block(vec![call("UNSHIFT", vec![num(42), num(1)])])).unwrap_err();
    assert_eq!(err.code, ErrorCode::E0030);
}

#[test]
fn b12_slice_basic_negative_and_oob() {
    assert_eq!(go(block(vec![call("SLICE", vec![Expr::ArrayOf(vec![num(1), num(2), num(3), num(4), num(5)]), num(1), num(3)])])).unwrap(),
        Value::Array(vec![Value::Integer(2), Value::Integer(3)]));
    assert_eq!(go(block(vec![call("SLICE", vec![Expr::ArrayOf(vec![num(1), num(2), num(3), num(4), num(5)]), num(-2)])])).unwrap(),
        Value::Array(vec![Value::Integer(4), Value::Integer(5)]));
    assert_eq!(go(block(vec![call("SLICE", vec![Expr::ArrayOf(vec![num(1), num(2), num(3), num(4), num(5)]), num(2)])])).unwrap(),
        Value::Array(vec![Value::Integer(3), Value::Integer(4), Value::Integer(5)]));
    assert_eq!(go(block(vec![call("SLICE", vec![Expr::ArrayOf(vec![num(1), num(2), num(3)]), num(2), num(2)])])).unwrap(), Value::Array(vec![]));
    let err = go(block(vec![call("SLICE", vec![Expr::ArrayOf(vec![num(1), num(2), num(3)])])])).unwrap_err();
    assert_eq!(err.code, ErrorCode::E0022);
}

#[test]
fn b12_concat_array_and_string() {
    assert_eq!(go(block(vec![call("CONCAT", vec![Expr::ArrayOf(vec![num(1), num(2)]), Expr::ArrayOf(vec![num(3), num(4)])])])).unwrap(),
        Value::Array(vec![Value::Integer(1), Value::Integer(2), Value::Integer(3), Value::Integer(4)]));
    assert_eq!(go(block(vec![call("CONCAT", vec![Expr::ArrayOf(vec![]), Expr::ArrayOf(vec![num(1)])])])).unwrap(),
        Value::Array(vec![Value::Integer(1)]));
    let v = go(block(vec![call("CONCAT", vec![text("ab"), text("cd")])])).unwrap();
    assert_eq!(v, Value::Array(vec![Value::Integer(97), Value::Integer(98), Value::Integer(99), Value::Integer(100)]));
    let err = go(block(vec![call("CONCAT", vec![num(1), num(2)])])).unwrap_err();
    assert_eq!(err.code, ErrorCode::E0030);
}

#[test]
fn b12_contains_array_and_string() {
    assert_eq!(go(block(vec![call("CONTAINS", vec![Expr::ArrayOf(vec![num(1), num(2), num(3)]), num(2)])])).unwrap(), Value::Boolean(true));
    assert_eq!(go(block(vec![call("CONTAINS", vec![Expr::ArrayOf(vec![num(1), num(2), num(3)]), num(99)])])).unwrap(), Value::Boolean(false));
    assert_eq!(go(block(vec![call("CONTAINS", vec![Expr::ArrayOf(vec![Expr::ArrayOf(vec![num(1), num(2)]), Expr::ArrayOf(vec![num(3), num(4)])]), Expr::ArrayOf(vec![num(1), num(2)])])])).unwrap(), Value::Boolean(true));
    assert_eq!(go(block(vec![call("CONTAINS", vec![text("hello world"), text("world")])])).unwrap(), Value::Boolean(true));
    assert_eq!(go(block(vec![call("CONTAINS", vec![text("hello"), text("xyz")])])).unwrap(), Value::Boolean(false));
    let err = go(block(vec![call("CONTAINS", vec![num(42), num(1)])])).unwrap_err();
    assert_eq!(err.code, ErrorCode::E0030);
}

#[test]
fn b12_index_returns_1_based_or_minus_one() {
    assert_eq!(go(block(vec![call("INDEX", vec![Expr::ArrayOf(vec![text("a"), text("b"), text("c")]), text("b")])])).unwrap(), Value::Integer(2));
    assert_eq!(go(block(vec![call("INDEX", vec![Expr::ArrayOf(vec![num(10), num(20), num(30)]), num(30)])])).unwrap(), Value::Integer(3));
    assert_eq!(go(block(vec![call("INDEX", vec![Expr::ArrayOf(vec![text("a"), text("b")]), text("z")])])).unwrap(), Value::Integer(-1));
    assert_eq!(go(block(vec![call("INDEX", vec![text("hello"), text("ll")])])).unwrap(), Value::Integer(3));
    assert_eq!(go(block(vec![call("INDEX", vec![text("hello"), text("xyz")])])).unwrap(), Value::Integer(-1));
}

#[test]
fn b12_reverse_array_and_string() {
    assert_eq!(go(block(vec![call("REVERSE", vec![Expr::ArrayOf(vec![num(1), num(2), num(3)])])])).unwrap(),
        Value::Array(vec![Value::Integer(3), Value::Integer(2), Value::Integer(1)]));
    assert_eq!(go(block(vec![call("REVERSE", vec![Expr::ArrayOf(vec![])])])).unwrap(), Value::Array(vec![]));
    let v = go(block(vec![call("REVERSE", vec![text("abc")])])).unwrap();
    assert_eq!(v, Value::Array(vec![Value::Integer(99), Value::Integer(98), Value::Integer(97)]));
}

#[test]
fn b12_err_transparent_for_each_op() {
    let err = go(block(vec![call("SHIFT", vec![Expr::ErrOf(Box::new(text("e")))])])).unwrap_err();
    assert_eq!(err.code, ErrorCode::E0102);
    let err = go(block(vec![call("UNSHIFT", vec![Expr::ErrOf(Box::new(text("e"))), num(1)])])).unwrap_err();
    assert_eq!(err.code, ErrorCode::E0102);
    let err = go(block(vec![call("SLICE", vec![Expr::ErrOf(Box::new(text("e"))), num(0)])])).unwrap_err();
    assert_eq!(err.code, ErrorCode::E0102);
    let err = go(block(vec![call("CONCAT", vec![Expr::ErrOf(Box::new(text("e"))), Expr::ArrayOf(vec![num(1)])])])).unwrap_err();
    assert_eq!(err.code, ErrorCode::E0102);
    let err = go(block(vec![call("CONTAINS", vec![Expr::ErrOf(Box::new(text("e"))), num(1)])])).unwrap_err();
    assert_eq!(err.code, ErrorCode::E0102);
    let err = go(block(vec![call("INDEX", vec![Expr::ErrOf(Box::new(text("e"))), num(1)])])).unwrap_err();
    assert_eq!(err.code, ErrorCode::E0102);
    let err = go(block(vec![call("REVERSE", vec![Expr::ErrOf(Box::new(text("e")))])])).unwrap_err();
    assert_eq!(err.code, ErrorCode::E0102);
}

#[test]
fn b12_immutable_does_not_mutate_input() {
    assert_eq!(go(block(vec![let_("arr", Expr::ArrayOf(vec![num(1), num(2), num(3)])), call("SHIFT", vec![var("arr")]), call("LEN", vec![var("arr")])])).unwrap(), Value::Integer(3));
    assert_eq!(go(block(vec![let_("arr", Expr::ArrayOf(vec![num(1), num(2), num(3)])), call("REVERSE", vec![var("arr")]), call("LEN", vec![var("arr")])])).unwrap(), Value::Integer(3));
    assert_eq!(go(block(vec![let_("arr", Expr::ArrayOf(vec![num(1), num(2), num(3)])), call("SLICE", vec![var("arr"), num(0), num(2)]), call("LEN", vec![var("arr")])])).unwrap(), Value::Integer(3));
}

#[test]
fn b13_upper_lower_ascii() {
    assert_eq!(go(block(vec![call("UPPER", vec![text("hello")])])).unwrap(), Value::String("HELLO".into()));
    assert_eq!(go(block(vec![call("LOWER", vec![text("HELLO")])])).unwrap(), Value::String("hello".into()));
    assert_eq!(go(block(vec![call("UPPER", vec![text("ABC")])])).unwrap(), Value::String("ABC".into()));
    assert_eq!(go(block(vec![call("LOWER", vec![text("xyz")])])).unwrap(), Value::String("xyz".into()));
    assert_eq!(go(block(vec![call("UPPER", vec![text("héllo")])])).unwrap(), Value::String("HéLLO".into()));
    assert_eq!(go(block(vec![call("UPPER", vec![text("")])])).unwrap(), Value::String("".into()));
}

#[test]
fn b13_sub_basic_negative_oob() {
    assert_eq!(go(block(vec![call("SUB", vec![text("hello"), num(1), num(4)])])).unwrap(), Value::String("ell".into()));
    assert_eq!(go(block(vec![call("SUB", vec![text("hello"), num(2)])])).unwrap(), Value::String("llo".into()));
    assert_eq!(go(block(vec![call("SUB", vec![text("hello"), num(-3)])])).unwrap(), Value::String("llo".into()));
    assert_eq!(go(block(vec![call("SUB", vec![text("hello"), num(3), num(3)])])).unwrap(), Value::String("".into()));
    let err = go(block(vec![call("SUB", vec![num(42), num(0), num(1)])])).unwrap_err();
    assert_eq!(err.code, ErrorCode::E0030);
}

#[test]
fn b13_replace_basic_and_empty_old() {
    assert_eq!(go(block(vec![call("REPLACE", vec![text("hello world"), text("world"), text("rust")])])).unwrap(),
        Value::String("hello rust".into()));
    assert_eq!(go(block(vec![call("REPLACE", vec![text("aaa"), text("a"), text("bb")])])).unwrap(),
        Value::String("bbbbbb".into()));
    let err = go(block(vec![call("REPLACE", vec![text("hello"), text(""), text("x")])])).unwrap_err();
    assert_eq!(err.code, ErrorCode::E0030);
    let err = go(block(vec![call("REPLACE", vec![num(42), text("x"), text("y")])])).unwrap_err();
    assert_eq!(err.code, ErrorCode::E0030);
}

#[test]
fn b13_split_basic_and_empty_sep() {
    assert_eq!(go(block(vec![call("SPLIT", vec![text("a,b,c"), text(",")])])).unwrap(),
        Value::Array(vec![Value::String("a".into()), Value::String("b".into()), Value::String("c".into())]));
    assert_eq!(go(block(vec![call("SPLIT", vec![text("hello world rust"), text(" ")])])).unwrap(),
        Value::Array(vec![Value::String("hello".into()), Value::String("world".into()), Value::String("rust".into())]));
    assert_eq!(go(block(vec![call("SPLIT", vec![text("hello"), text("x")])])).unwrap(),
        Value::Array(vec![Value::String("hello".into())]));
    let err = go(block(vec![call("SPLIT", vec![text("hello"), text("")])])).unwrap_err();
    assert_eq!(err.code, ErrorCode::E0030);
}

#[test]
fn b13_err_transparent() {
    let err = go(block(vec![call("UPPER", vec![Expr::ErrOf(Box::new(text("e")))])])).unwrap_err();
    assert_eq!(err.code, ErrorCode::E0102);
    let err = go(block(vec![call("LOWER", vec![Expr::ErrOf(Box::new(text("e")))])])).unwrap_err();
    assert_eq!(err.code, ErrorCode::E0102);
    let err = go(block(vec![call("SUB", vec![Expr::ErrOf(Box::new(text("e"))), num(0), num(1)])])).unwrap_err();
    assert_eq!(err.code, ErrorCode::E0102);
    let err = go(block(vec![call("REPLACE", vec![Expr::ErrOf(Box::new(text("e"))), text("x"), text("y")])])).unwrap_err();
    assert_eq!(err.code, ErrorCode::E0102);
    let err = go(block(vec![call("SPLIT", vec![Expr::ErrOf(Box::new(text("e"))), text(",")])])).unwrap_err();
    assert_eq!(err.code, ErrorCode::E0102);
}

#[test]
fn b13_sub_negative_index_normalization() {
    assert_eq!(go(block(vec![call("SUB", vec![text("abc"), num(-1)])])).unwrap(), Value::String("c".into()));
    assert_eq!(go(block(vec![call("SUB", vec![text("abc"), num(-3), num(-1)])])).unwrap(), Value::String("ab".into()));
}

#[test]
fn b13_unicode_preserved() {
    assert_eq!(go(block(vec![call("UPPER", vec![text("héllo wörld")])])).unwrap(),
        Value::String("HéLLO WöRLD".into()));
    assert_eq!(go(block(vec![call("SUB", vec![text("héllo"), num(1), num(4)])])).unwrap(),
        Value::String("éll".into()));
}

#[test]
fn b14_keys_preserves_order() {
    assert_eq!(
        go(block(vec![call("KEYS", vec![Expr::DictOf(vec![(text("a"), num(1)), (text("b"), num(2)), (text("c"), num(3))])])])).unwrap(),
        Value::Array(vec![Value::String("a".into()), Value::String("b".into()), Value::String("c".into())])
    );
    assert_eq!(go(block(vec![call("KEYS", vec![Expr::DictOf(vec![(text("only"), num(42))])])])).unwrap(),
        Value::Array(vec![Value::String("only".into())]));
    let err = go(block(vec![call("KEYS", vec![Expr::ArrayOf(vec![num(1), num(2), num(3)])])])).unwrap_err();
    assert_eq!(err.code, ErrorCode::E0030);
}

#[test]
fn b14_values_preserves_order() {
    assert_eq!(
        go(block(vec![call("VALUES", vec![Expr::DictOf(vec![(text("a"), num(1)), (text("b"), num(2)), (text("c"), num(3))])])])).unwrap(),
        Value::Array(vec![Value::Integer(1), Value::Integer(2), Value::Integer(3)])
    );
    assert_eq!(go(block(vec![call("VALUES", vec![Expr::DictOf(vec![(text("only"), num(42))])])])).unwrap(),
        Value::Array(vec![Value::Integer(42)]));
}

#[test]
fn b14_has_basic_and_value_equality() {
    assert_eq!(go(block(vec![call("HAS", vec![Expr::DictOf(vec![(text("a"), num(1)), (text("b"), num(2))]), text("a")])])).unwrap(), Value::Boolean(true));
    assert_eq!(go(block(vec![call("HAS", vec![Expr::DictOf(vec![(text("a"), num(1)), (text("b"), num(2))]), text("z")])])).unwrap(), Value::Boolean(false));
    assert_eq!(go(block(vec![call("HAS", vec![Expr::DictOf(vec![(num(1), text("a")), (num(2), text("b"))]), num(1)])])).unwrap(), Value::Boolean(true));
    assert_eq!(go(block(vec![call("HAS", vec![Expr::DictOf(vec![(num(1), text("a")), (num(2), text("b"))]), num(3)])])).unwrap(), Value::Boolean(false));
}

#[test]
fn b14_merge_basic_and_key_override() {
    assert_eq!(
        go(block(vec![call("MERGE", vec![Expr::DictOf(vec![(text("a"), num(1)), (text("b"), num(2))]), Expr::DictOf(vec![(text("c"), num(3))])])])).unwrap(),
        Value::Dict(vec![
            (Value::String("a".into()), Value::Integer(1)),
            (Value::String("b".into()), Value::Integer(2)),
            (Value::String("c".into()), Value::Integer(3)),
        ])
    );
    assert_eq!(
        go(block(vec![call("MERGE", vec![Expr::DictOf(vec![(text("x"), num(1)), (text("y"), num(2))]), Expr::DictOf(vec![(text("y"), num(99)), (text("z"), num(3))])])])).unwrap(),
        Value::Dict(vec![
            (Value::String("x".into()), Value::Integer(1)),
            (Value::String("y".into()), Value::Integer(99)),
            (Value::String("z".into()), Value::Integer(3)),
        ])
    );
    assert_eq!(
        go(block(vec![call("MERGE", vec![Expr::DictOf(vec![(text("a"), num(1))]), Expr::DictOf(vec![(text("b"), num(2))])])])).unwrap(),
        Value::Dict(vec![
            (Value::String("a".into()), Value::Integer(1)),
            (Value::String("b".into()), Value::Integer(2)),
        ])
    );
    let err = go(block(vec![call("MERGE", vec![Expr::ArrayOf(vec![num(1), num(2), num(3)]), Expr::DictOf(vec![(text("a"), num(1))])])])).unwrap_err();
    assert_eq!(err.code, ErrorCode::E0030);
}

#[test]
fn b14_err_transparent() {
    let err = go(block(vec![call("KEYS", vec![Expr::ErrOf(Box::new(text("e")))])])).unwrap_err();
    assert_eq!(err.code, ErrorCode::E0102);
    let err = go(block(vec![call("VALUES", vec![Expr::ErrOf(Box::new(text("e")))])])).unwrap_err();
    assert_eq!(err.code, ErrorCode::E0102);
    let err = go(block(vec![call("HAS", vec![Expr::ErrOf(Box::new(text("e"))), text("a")])])).unwrap_err();
    assert_eq!(err.code, ErrorCode::E0102);
    let err = go(block(vec![call("MERGE", vec![Expr::ErrOf(Box::new(text("e"))), Expr::DictOf(vec![(text("a"), num(1))])])])).unwrap_err();
    assert_eq!(err.code, ErrorCode::E0102);
}

#[test]
fn b14_dict_not_mutated_by_merge() {
    assert_eq!(
        go(block(vec![let_("a", Expr::DictOf(vec![(text("x"), num(1))])), let_("b", Expr::DictOf(vec![(text("y"), num(2))])), call("MERGE", vec![var("a"), var("b")]), call("LEN", vec![var("a")])])).unwrap(),
        Value::Integer(1)
    );
}

#[test]
fn b15_bool_truthiness() {
    assert_eq!(go(block(vec![call("BOOL", vec![null()])])).unwrap(), Value::Boolean(false));
    assert_eq!(go(block(vec![call("BOOL", vec![Expr::Lit(Value::Boolean(false))])])).unwrap(), Value::Boolean(false));
    assert_eq!(go(block(vec![call("BOOL", vec![Expr::Lit(Value::Boolean(true))])])).unwrap(), Value::Boolean(true));
    assert_eq!(go(block(vec![call("BOOL", vec![num(0)])])).unwrap(), Value::Boolean(true));
    assert_eq!(go(block(vec![call("BOOL", vec![text("")])])).unwrap(), Value::Boolean(true));
    assert_eq!(go(block(vec![call("BOOL", vec![num(1)])])).unwrap(), Value::Boolean(true));
    assert_eq!(go(block(vec![call("BOOL", vec![text("hello")])])).unwrap(), Value::Boolean(true));
    assert_eq!(go(block(vec![call("BOOL", vec![Expr::ArrayOf(vec![num(1), num(2)])])])).unwrap(), Value::Boolean(true));
    assert_eq!(go(block(vec![call("BOOL", vec![Expr::DictOf(vec![(text("k"), text("v"))])])])).unwrap(), Value::Boolean(true));
}

#[test]
fn b15_neg_integer_and_float() {
    assert_eq!(go(block(vec![call("NEG", vec![num(5)])])).unwrap(), Value::Integer(-5));
    assert_eq!(go(block(vec![call("NEG", vec![num(-5)])])).unwrap(), Value::Integer(5));
    assert_eq!(go(block(vec![call("NEG", vec![num(0)])])).unwrap(), Value::Integer(0));
    assert_eq!(go(block(vec![call("NEG", vec![Expr::Lit(Value::Float((3.14f64).to_bits()))])])).unwrap(), Value::Float((-3.14f64).to_bits()));
    let err = go(block(vec![call("NEG", vec![text("hello")])])).unwrap_err();
    assert_eq!(err.code, ErrorCode::E0030);
}

#[test]
fn b15_call_closure_in_via_eval_call() {
    assert_eq!(
        go(block(vec![let_("f", fun(&["x", "y"], call("+", vec![var("x"), var("y")]))), call("f", vec![num(3), num(4)])])).unwrap(),
        Value::Integer(7)
    );
}

#[test]
fn b15_get_prop_returns_e0037_placeholder() {
    let err = go(block(vec![call("GET_PROP", vec![Expr::DictOf(vec![(text("x"), num(1))]), text("y")])])).unwrap_err();
    assert_eq!(err.code, ErrorCode::E0037);
}

#[test]
fn c2_get_prop_missing_is_e0037() {
    let err = go(block(vec![call("GET_PROP", vec![Expr::DictOf(vec![(text("x"), num(1))]), text("y")])])).unwrap_err();
    assert_eq!(err.code, ErrorCode::E0037);
}

#[test]
fn c2_get_prop_type_errors() {
    let err = go(block(vec![call("GET_PROP", vec![Expr::ArrayOf(vec![num(1), num(2)]), text("x")])])).unwrap_err();
    assert_eq!(err.code, ErrorCode::E0030);
    let err = go(block(vec![call("GET_PROP", vec![Expr::DictOf(vec![(text("x"), num(1))]), num(0)])])).unwrap_err();
    assert_eq!(err.code, ErrorCode::E0030);
}

#[test]
fn c2_set_prop_insert_update_value_semantics() {
    assert_eq!(
        go(block(vec![call("STR", vec![call("SET_PROP", vec![Expr::DictOf(vec![(text("x"), num(1))]), text("x"), num(99)])])])).unwrap(),
        Value::String("[x: 99]".into())
    );
    assert_eq!(
        go(block(vec![call("STR", vec![call("SET_PROP", vec![Expr::DictOf(vec![(text("x"), num(1))]), text("y"), num(2)])])])).unwrap(),
        Value::String("[x: 1, y: 2]".into())
    );
    assert_eq!(
        go(block(vec![let_("d", Expr::DictOf(vec![(text("x"), num(1))])), call("SET_PROP", vec![var("d"), text("x"), num(99)]), call("GET_PROP", vec![var("d"), text("x")])])).unwrap(),
        Value::Integer(1)
    );
    let err = go(block(vec![call("SET_PROP", vec![num(1), text("x"), num(2)])])).unwrap_err();
    assert_eq!(err.code, ErrorCode::E0030);
}

#[test]
fn c2_call_method_errors() {
    let err = go(block(vec![call("CALL_METHOD", vec![Expr::DictOf(vec![(text("x"), num(1))]), text("nope")])])).unwrap_err();
    assert_eq!(err.code, ErrorCode::E0037);
    let err = go(block(vec![call("CALL_METHOD", vec![Expr::DictOf(vec![(text("x"), num(1))]), text("x")])])).unwrap_err();
    assert_eq!(err.code, ErrorCode::E0030);
    let err = go(block(vec![call("CALL_METHOD", vec![num(1), text("x")])])).unwrap_err();
    assert_eq!(err.code, ErrorCode::E0030);
    let err = go(block(vec![call("CALL_METHOD", vec![Expr::DictOf(vec![(text("x"), num(1))])])])).unwrap_err();
    assert_eq!(err.code, ErrorCode::E0022);
}

#[test]
fn c1_as_function_is_deleted_e0020() {
    let err = go(block(vec![let_("x", num(1)), call("AS", vec![text("y"), text("x")])])).unwrap_err();
    assert_eq!(err.code, ErrorCode::E0020);
    assert!(err.message.contains("AS"), "message: {}", err.message);
}
