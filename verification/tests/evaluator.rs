use wlwl_eval::console::LineRead;
use wlwl_eval::control::{Outcome, Signal};
use wlwl_eval::dispatch::{FloatOp, Host};
use wlwl_eval::eval::{err_of, eval_expr, invoke_closure, run, top_level_result, try_outcome, Evaluator, Expr, Param};
use wlwl_eval::format::FormatSegment;
use wlwl_eval::patterns::{Pattern, PatternKey};
use wlwl_eval::value::{BuiltinError, ErrorCode, Value};

const FUEL: u64 = 10_000;

struct Recorder {
    out: Vec<String>,
    err: Vec<String>,
}

impl Recorder {
    fn new() -> Recorder {
        Recorder { out: Vec::new(), err: Vec::new() }
    }
}

impl Host for Recorder {
    fn float_text(&mut self, bits: u64) -> String {
        format!("{:?}", f64::from_bits(bits))
    }
    fn plain_float_text(&mut self, bits: u64) -> String {
        format!("{}", f64::from_bits(bits))
    }
    fn float_arith(&mut self, op: FloatOp, a: Value, b: Value) -> Value {
        let f = |v: &Value| match v {
            Value::Integer(i) => *i as f64,
            Value::Float(b) => f64::from_bits(*b),
            _ => 0.0,
        };
        let (x, y) = (f(&a), f(&b));
        let z = match op {
            FloatOp::Add => x + y,
            FloatOp::Sub => x - y,
            FloatOp::Mul => x * y,
            FloatOp::Div => x / y,
        };
        Value::Float(z.to_bits())
    }
    fn float_of(&mut self, _args: Vec<Value>) -> Result<Value, BuiltinError> {
        Ok(Value::Null)
    }
    fn write_line(&mut self, line: String, to_err: bool) {
        if to_err {
            self.err.push(line);
        } else {
            self.out.push(line);
        }
    }
    fn read_line(&mut self, _prompt: Option<String>) -> LineRead {
        LineRead::Line(String::new(), 0)
    }
    fn format_segments(&mut self, template: String) -> Result<Vec<FormatSegment>, BuiltinError> {
        let mut out = Vec::new();
        let mut text = String::new();
        let mut chars = template.chars();
        while let Some(c) = chars.next() {
            if c != '{' {
                text.push(c);
                continue;
            }
            let inner: String = chars.by_ref().take_while(|&d| d != '}').collect();
            if !text.is_empty() {
                out.push(FormatSegment::Literal(std::mem::take(&mut text)));
            }
            match inner.parse::<usize>() {
                Ok(n) => out.push(FormatSegment::Positional(n)),
                Err(_) => out.push(FormatSegment::Named(inner)),
            }
        }
        if !text.is_empty() {
            out.push(FormatSegment::Literal(text));
        }
        Ok(out)
    }
    fn call_native(&mut self, _name: String, _handle: u64, _args: Vec<Value>) -> Result<Value, BuiltinError> {
        Ok(Value::Null)
    }
    fn load_module(&mut self, path: String) -> Result<Vec<(String, Value)>, BuiltinError> {
        if path == "geometry" {
            Ok(vec![("square".to_string(), Value::Integer(4)), ("area".to_string(), Value::Integer(16))])
        } else {
            Err(wlwl_eval::value::builtin_error(ErrorCode::E0040, &path, "module not found"))
        }
    }
}

fn num(n: i64) -> Expr {
    Expr::Lit(Value::Integer(n))
}

fn text(s: &str) -> Expr {
    Expr::Lit(Value::String(s.to_string()))
}

fn var(n: &str) -> Expr {
    Expr::Var(n.to_string())
}

fn call(n: &str, args: Vec<Expr>) -> Expr {
    Expr::Call(n.to_string(), args)
}

fn let_(n: &str, e: Expr) -> Expr {
    Expr::Let(n.to_string(), Box::new(e))
}

fn fun(params: &[&str], body: Expr) -> Expr {
    Expr::Fun(params.iter().map(|p| Param { name: p.to_string(), annotation: None }).collect(), Box::new(body))
}

fn typed_fun(params: &[(&str, Option<&str>)], body: Expr) -> Expr {
    Expr::Fun(
        params.iter().map(|(n, a)| Param { name: n.to_string(), annotation: a.map(|t| t.to_string()) }).collect(),
        Box::new(body),
    )
}

#[test]
fn closure_shares_counter_cell() {
    let program = Expr::Block(vec![
        let_("counter", num(0)),
        let_(
            "step",
            fun(&[], Expr::Block(vec![call("SET", vec![var("counter"), call("+", vec![var("counter"), num(1)])]), var("counter")])),
        ),
        call("PRINT", vec![call("step", vec![])]),
        call("PRINT", vec![call("step", vec![])]),
    ]);
    let mut st = Evaluator::new();
    let mut host = Recorder::new();
    let r = run(&mut st, &mut host, &program, FUEL);
    assert_eq!(r, Ok(Value::Null));
    assert_eq!(host.out, vec!["1".to_string(), "2".to_string()]);
}

#[test]
fn set_without_capture_is_refused() {
    let program = Expr::Block(vec![
        let_("x", num(0)),
        Expr::Block(vec![call("SET", vec![var("x"), num(5)])]),
    ]);
    let mut st = Evaluator::new();
    let mut host = Recorder::new();
    let d = run(&mut st, &mut host, &program, FUEL).unwrap_err();
    assert_eq!(d.code, ErrorCode::E0024);
}

#[test]
fn let_in_loop_accumulates() {
    let program = Expr::Block(vec![
        let_("sum", num(0)),
        Expr::For(
            "i".to_string(),
            Box::new(call("RANGE_OF", vec![])),
            Box::new(let_("sum", call("+", vec![var("sum"), var("i")]))),
        ),
    ]);
    let mut st = Evaluator::new();
    let mut host = Recorder::new();
    let d = run(&mut st, &mut host, &program, FUEL).unwrap_err();
    assert_eq!(d.code, ErrorCode::E0020);

    let program = Expr::Block(vec![
        let_("sum", num(0)),
        Expr::For(
            "i".to_string(),
            Box::new(Expr::ArrayOf(vec![num(1), num(2), num(3)])),
            Box::new(let_("sum", call("+", vec![var("sum"), var("i")]))),
        ),
        var("sum"),
    ]);
    let mut st = Evaluator::new();
    let r = run(&mut st, &mut host, &program, FUEL);
    assert_eq!(r, Ok(Value::Integer(6)));
}

#[test]
fn try_in_function_then_top_level_err_is_e0102() {
    let program = Expr::Block(vec![
        let_("f", fun(&[], Expr::Try(Box::new(Expr::ErrOf(Box::new(text("bad"))))))),
        call("f", vec![]),
    ]);
    let mut st = Evaluator::new();
    let mut host = Recorder::new();
    let d = run(&mut st, &mut host, &program, FUEL).unwrap_err();
    assert_eq!(d.code, ErrorCode::E0102);
    assert_eq!(d.message, "unhandled ERR escaped to top level: bad");
    assert_eq!(d.trace.len(), 1);
    assert_eq!(d.trace[0].frame, "<toplevel>");
}

#[test]
fn try_unwraps_ok() {
    let program = Expr::Try(Box::new(Expr::OkOf(Box::new(num(7)))));
    let mut st = Evaluator::new();
    let mut host = Recorder::new();
    assert_eq!(run(&mut st, &mut host, &program, FUEL), Ok(Value::Integer(7)));
}

#[test]
fn stray_break_is_e0014() {
    let mut st = Evaluator::new();
    let mut host = Recorder::new();
    let d = run(&mut st, &mut host, &Expr::Break, FUEL).unwrap_err();
    assert_eq!(d.code, ErrorCode::E0014);
    assert_eq!(d.message, "BREAK or CONTINUE used outside a loop");

    let program = Expr::Block(vec![let_("f", fun(&[], Expr::Continue)), call("f", vec![])]);
    let mut st = Evaluator::new();
    let d = run(&mut st, &mut host, &program, FUEL).unwrap_err();
    assert_eq!(d.code, ErrorCode::E0014);
}

#[test]
fn leftmost_err_short_circuits_arguments() {
    let program = Expr::Block(vec![
        let_("x", call("+", vec![Expr::ErrOf(Box::new(text("first"))), call("PRINT", vec![text("never")])])),
        Expr::IsErr(Box::new(var("x"))),
    ]);
    let mut st = Evaluator::new();
    let mut host = Recorder::new();
    assert_eq!(run(&mut st, &mut host, &program, FUEL), Ok(Value::Boolean(true)));
    assert!(host.out.is_empty());
}

#[test]
fn err_consumer_sees_err_argument() {
    let program = call("UNWRAP_OR", vec![Expr::ErrOf(Box::new(text("e"))), num(3)]);
    let mut st = Evaluator::new();
    let mut host = Recorder::new();
    assert_eq!(run(&mut st, &mut host, &program, FUEL), Ok(Value::Integer(3)));
}

#[test]
fn while_loop_with_break() {
    let program = Expr::Block(vec![
        let_("n", num(0)),
        Expr::While(
            Box::new(Expr::Lit(Value::Boolean(true))),
            Box::new(Expr::Block(vec![
                let_("n", call("+", vec![var("n"), num(1)])),
                Expr::If(Box::new(call("==", vec![var("n"), num(4)])), Box::new(Expr::Break), None),
            ])),
        ),
        var("n"),
    ]);
    let mut st = Evaluator::new();
    let mut host = Recorder::new();
    assert_eq!(run(&mut st, &mut host, &program, FUEL), Ok(Value::Integer(4)));
}

#[test]
fn recursion_and_return() {
    // fact(n) = IF(<=(n, 1), RETURN(1), *(n, fact(-(n, 1))))
    let body = Expr::Block(vec![
        Expr::If(
            Box::new(call("<=", vec![var("n"), num(1)])),
            Box::new(Expr::Return(Some(Box::new(num(1))))),
            None,
        ),
        call("*", vec![var("n"), call("fact", vec![call("-", vec![var("n"), num(1)])])]),
    ]);
    let program = Expr::Block(vec![let_("fact", fun(&["n"], body)), call("fact", vec![num(5)])]);
    let mut st = Evaluator::new();
    let mut host = Recorder::new();
    assert_eq!(run(&mut st, &mut host, &program, FUEL), Ok(Value::Integer(120)));
}

#[test]
fn wrong_argument_count_is_e0022() {
    let program = Expr::Block(vec![let_("f", fun(&["a"], var("a"))), call("f", vec![])]);
    let mut st = Evaluator::new();
    let mut host = Recorder::new();
    let d = run(&mut st, &mut host, &program, FUEL).unwrap_err();
    assert_eq!(d.code, ErrorCode::E0022);
    assert_eq!(d.message, "function expects 1 argument(s), got 0");
}

#[test]
fn undefined_name_is_e0020_with_suggestion() {
    let program = Expr::Block(vec![let_("counter", num(1)), var("countr")]);
    let mut st = Evaluator::new();
    let mut host = Recorder::new();
    let d = run(&mut st, &mut host, &program, FUEL).unwrap_err();
    assert_eq!(d.code, ErrorCode::E0020);
    assert_eq!(d.message, "undefined name `countr`");
    assert!(d.notes.iter().any(|n| n == "did you mean one of: counter?"));
}

#[test]
fn err_payload_must_be_string_or_dict() {
    let mut st = Evaluator::new();
    let mut host = Recorder::new();
    let d = run(&mut st, &mut host, &Expr::ErrOf(Box::new(num(1))), FUEL).unwrap_err();
    assert_eq!(d.code, ErrorCode::E0030);
    assert_eq!(d.message, "ERR payload must be STRING or DICT, got integer");
    assert!(err_of(Value::String("x".to_string())).is_ok());
}

#[test]
fn match_binds_and_falls_back() {
    let program = Expr::Match(
        Box::new(Expr::OkOf(Box::new(num(9)))),
        vec![(
            Pattern::Constructor("OK".to_string(), Box::new(Pattern::Ident("v".to_string()))),
            call("+", vec![var("v"), num(1)]),
        )],
        Box::new(num(0)),
    );
    let mut st = Evaluator::new();
    let mut host = Recorder::new();
    assert_eq!(run(&mut st, &mut host, &program, FUEL), Ok(Value::Integer(10)));

    let program = Expr::Match(
        Box::new(num(2)),
        vec![(Pattern::Literal(Value::Integer(1), "1".to_string()), text("one"))],
        Box::new(text("other")),
    );
    let mut st = Evaluator::new();
    assert_eq!(run(&mut st, &mut host, &program, FUEL), Ok(Value::String("other".to_string())));
}

#[test]
fn out_of_fuel_is_e0100() {
    let program = Expr::While(Box::new(Expr::Lit(Value::Boolean(true))), Box::new(Expr::Lit(Value::Null)));
    let mut st = Evaluator::new();
    let mut host = Recorder::new();
    let d = run(&mut st, &mut host, &program, 50).unwrap_err();
    assert_eq!(d.code, ErrorCode::E0100);
}

#[test]
fn invoke_closure_restores_environment() {
    let f = fun(&["a"], call("+", vec![var("a"), num(1)]));
    let mut st = Evaluator::new();
    let mut host = Recorder::new();
    let o = eval_expr(&mut st, &mut host, &f, FUEL).unwrap();
    let handle = match o.value {
        Value::Closure { handle, .. } => handle,
        _ => panic!("not a closure"),
    };
    let before = st.env.names();
    let r = invoke_closure(&mut st, &mut host, "f", handle, vec![Value::Integer(41)], FUEL).unwrap();
    assert_eq!(r.value, Value::Integer(42));
    assert_eq!(st.env.names(), before);
    assert!(st.call_stack.is_empty());
}

#[test]
fn top_level_and_try_rules() {
    let texts: Vec<(u64, String)> = Vec::new();
    let o = Outcome { value: Value::Null, signal: Signal::Return(Value::Integer(1)) };
    assert_eq!(top_level_result(o, &texts), Ok(Value::Integer(1)));
    let o = Outcome { value: Value::Null, signal: Signal::Break };
    assert_eq!(top_level_result(o, &texts).unwrap_err().0, ErrorCode::E0014);
    let t = try_outcome(Value::ErrValue(Box::new(Value::String("e".to_string())))).unwrap();
    assert_eq!(t.signal, Signal::Return(Value::ErrValue(Box::new(Value::String("e".to_string())))));
    assert_eq!(try_outcome(Value::Integer(1)).unwrap_err(), "TRY expects OK/ERR, got integer");
}

#[test]
fn saturating_add_warns_and_or_die_warns() {
    let program = Expr::Block(vec![
        call("+", vec![num(i64::MAX), num(1)]),
        Expr::OrDie(Box::new(Expr::ErrOf(Box::new(text("e")))), Box::new(num(2))),
    ]);
    let mut st = Evaluator::new();
    let mut host = Recorder::new();
    assert_eq!(run(&mut st, &mut host, &program, FUEL), Ok(Value::Integer(2)));
    assert_eq!(st.take_warnings().len(), 2);
    assert!(st.take_warnings().is_empty());
}

#[test]
fn map_runs_closure_callback() {
    let program = Expr::Block(vec![
        let_("map", Expr::Lit(Value::NativeFn { name: "MAP".to_string(), handle: 0 })),
        call(
            "map",
            vec![Expr::ArrayOf(vec![num(1), num(2), num(3)]), fun(&["x"], call("*", vec![var("x"), num(2)]))],
        ),
    ]);
    let mut st = Evaluator::new();
    let mut host = Recorder::new();
    assert_eq!(
        run(&mut st, &mut host, &program, FUEL),
        Ok(Value::Array(vec![Value::Integer(2), Value::Integer(4), Value::Integer(6)]))
    );
}

#[test]
fn filter_and_range_through_native_values() {
    let program = Expr::Block(vec![
        let_("filter", Expr::Lit(Value::NativeFn { name: "FILTER".to_string(), handle: 0 })),
        let_("range", Expr::Lit(Value::NativeFn { name: "RANGE".to_string(), handle: 1 })),
        call(
            "filter",
            vec![call("range", vec![num(0), num(6)]), fun(&["x"], call("==", vec![call("%", vec![var("x"), num(2)]), num(0)]))],
        ),
    ]);
    let mut st = Evaluator::new();
    let mut host = Recorder::new();
    assert_eq!(
        run(&mut st, &mut host, &program, FUEL),
        Ok(Value::Array(vec![Value::Integer(0), Value::Integer(2), Value::Integer(4)]))
    );
}

#[test]
fn sort_with_comparator_and_default() {
    let program = Expr::Block(vec![
        let_("sort", Expr::Lit(Value::NativeFn { name: "SORT".to_string(), handle: 0 })),
        call(
            "sort",
            vec![
                Expr::ArrayOf(vec![num(3), num(1), num(2)]),
                fun(&["a", "b"], call(">", vec![var("a"), var("b")])),
            ],
        ),
    ]);
    let mut st = Evaluator::new();
    let mut host = Recorder::new();
    assert_eq!(
        run(&mut st, &mut host, &program, FUEL),
        Ok(Value::Array(vec![Value::Integer(3), Value::Integer(2), Value::Integer(1)]))
    );

    let program = Expr::Block(vec![
        let_("sort", Expr::Lit(Value::NativeFn { name: "SORT".to_string(), handle: 0 })),
        call("sort", vec![Expr::ArrayOf(vec![num(3), num(1), num(2)])]),
    ]);
    let mut st = Evaluator::new();
    assert_eq!(
        run(&mut st, &mut host, &program, FUEL),
        Ok(Value::Array(vec![Value::Integer(1), Value::Integer(2), Value::Integer(3)]))
    );
}

fn block(items: Vec<Expr>) -> Expr {
    Expr::Block(items)
}

fn if_(c: Expr, t: Expr, e: Option<Expr>) -> Expr {
    Expr::If(Box::new(c), Box::new(t), e.map(Box::new))
}

fn for_(v: &str, it: Expr, body: Expr) -> Expr {
    Expr::For(v.to_string(), Box::new(it), Box::new(body))
}

fn while_(c: Expr, body: Expr) -> Expr {
    Expr::While(Box::new(c), Box::new(body))
}

fn go(program: Expr) -> Result<Value, wlwl_eval::diagnostics::Diagnostic> {
    let mut st = Evaluator::new();
    let mut host = Recorder::new();
    run(&mut st, &mut host, &program, FUEL)
}

fn code_of(program: Expr) -> ErrorCode {
    go(program).unwrap_err().code
}

#[test]
fn eval_integer() {
    assert_eq!(go(block(vec![num(42)])).unwrap(), Value::Integer(42));
}

#[test]
fn eval_let_var_lookup() {
    let v = go(block(vec![let_("x", num(1)), let_("y", var("x")), call("PRINT", vec![var("y")])])).unwrap();
    assert_eq!(v, Value::Null);
}

#[test]
fn eval_array() {
    assert_eq!(
        go(block(vec![Expr::ArrayOf(vec![num(1), num(2), num(3)])])).unwrap(),
        Value::Array(vec![Value::Integer(1), Value::Integer(2), Value::Integer(3)])
    );
}

#[test]
fn eval_dict() {
    assert_eq!(
        go(block(vec![Expr::DictOf(vec![(text("a"), num(1)), (text("b"), num(2))])])).unwrap(),
        Value::Dict(vec![
            (Value::String("a".into()), Value::Integer(1)),
            (Value::String("b".into()), Value::Integer(2)),
        ])
    );
}

#[test]
fn eval_undefined_name() {
    assert_eq!(code_of(block(vec![call("PRINT", vec![var("x")])])), ErrorCode::E0020);
}

#[test]
fn eval_call_unknown_builtin() {
    assert_eq!(code_of(block(vec![call("NOSUCH", vec![])])), ErrorCode::E0020);
}

#[test]
fn eval_block_returns_last() {
    assert_eq!(go(block(vec![let_("x", num(1)), let_("y", num(2)), var("y")])).unwrap(), Value::Integer(2));
}

#[test]
fn control_while_sum() {
    let program = block(vec![
        let_("total", num(0)),
        let_("i", num(1)),
        while_(
            call("<", vec![var("i"), num(11)]),
            block(vec![let_("total", call("+", vec![var("total"), var("i")])), let_("i", call("+", vec![var("i"), num(1)]))]),
        ),
        var("total"),
    ]);
    assert_eq!(go(program).unwrap(), Value::Integer(55));
}

#[test]
fn control_for_array() {
    let program = block(vec![
        let_("total", num(0)),
        for_("i", Expr::ArrayOf(vec![num(1), num(2), num(3), num(4), num(5)]), let_("total", call("+", vec![var("total"), var("i")]))),
        var("total"),
    ]);
    assert_eq!(go(program).unwrap(), Value::Integer(15));
}

fn for_with_jump(jump: Expr) -> Expr {
    block(vec![
        let_("total", num(0)),
        for_(
            "i",
            Expr::ArrayOf(vec![num(1), num(2), num(3), num(4), num(5)]),
            block(vec![
                if_(call("==", vec![var("i"), num(3)]), jump, None),
                let_("total", call("+", vec![var("total"), var("i")])),
            ]),
        ),
        var("total"),
    ])
}

#[test]
fn control_for_break() {
    assert_eq!(go(for_with_jump(Expr::Break)).unwrap(), Value::Integer(1 + 2));
}

#[test]
fn control_break_continue_outside_loop_is_e0014() {
    assert_eq!(code_of(block(vec![Expr::Break])), ErrorCode::E0014);
    assert_eq!(code_of(block(vec![Expr::Continue])), ErrorCode::E0014);
}

#[test]
fn fun_arity_mismatch_e0022() {
    let f = || let_("f", fun(&["a", "b"], call("+", vec![var("a"), var("b")])));
    assert_eq!(code_of(block(vec![f(), call("f", vec![num(1)])])), ErrorCode::E0022);
    assert_eq!(code_of(block(vec![f(), call("f", vec![num(1), num(2), num(3)])])), ErrorCode::E0022);
}

#[test]
fn fun_recursion_factorial() {
    let program = block(vec![
        let_(
            "fact",
            fun(
                &["n"],
                if_(
                    call("<=", vec![var("n"), num(1)]),
                    num(1),
                    Some(call("*", vec![var("n"), call("fact", vec![call("-", vec![var("n"), num(1)])])])),
                ),
            ),
        ),
        call("fact", vec![num(5)]),
    ]);
    assert_eq!(go(program).unwrap(), Value::Integer(120));
}

#[test]
fn fun_closure_captures_var() {
    let program = block(vec![let_("x", num(10)), let_("get_x", fun(&[], var("x"))), call("get_x", vec![])]);
    assert_eq!(go(program).unwrap(), Value::Integer(10));
}

#[test]
fn fun_closure_param_scope_fresh_per_call() {
    let program = block(vec![
        let_("mk", fun(&["v"], fun(&[], var("v")))),
        let_("a", call("mk", vec![num(1)])),
        let_("b", call("mk", vec![num(2)])),
        call("+", vec![call("a", vec![]), call("b", vec![])]),
    ]);
    assert_eq!(go(program).unwrap(), Value::Integer(3));
}

#[test]
fn p4_a2_closure_counter() {
    let program = block(vec![
        let_(
            "make_counter",
            fun(
                &[],
                block(vec![
                    let_("count", num(0)),
                    fun(&[], block(vec![call("SET", vec![var("count"), call("+", vec![var("count"), num(1)])]), var("count")])),
                ]),
            ),
        ),
        let_("c", call("make_counter", vec![])),
        call("+", vec![call("c", vec![]), call("+", vec![call("c", vec![]), call("c", vec![])])]),
    ]);
    assert_eq!(go(program).unwrap(), Value::Integer(6));
}

#[test]
fn p4_a2_closure_shared_cell() {
    let program = block(vec![
        let_("s", text("init")),
        let_("get", fun(&[], var("s"))),
        let_("set", fun(&["x"], call("SET", vec![var("s"), var("x")]))),
        call("set", vec![text("updated")]),
        call("get", vec![]),
    ]);
    assert_eq!(go(program).unwrap(), Value::String("updated".into()));
}

#[test]
fn p4_a2_closure_shared_cell_increment() {
    let program = block(vec![
        let_("s", num(0)),
        let_("add", fun(&["x"], call("SET", vec![var("s"), call("+", vec![var("s"), var("x")])]))),
        call("add", vec![num(10)]),
        call("add", vec![num(32)]),
        var("s"),
    ]);
    assert_eq!(go(program).unwrap(), Value::Integer(42));
}

#[test]
fn p4_a2_set_non_captured_is_e0024() {
    let program = block(vec![
        let_("x", num(1)),
        if_(call("==", vec![num(1), num(1)]), call("SET", vec![var("x"), num(2)]), None),
        var("x"),
    ]);
    assert_eq!(code_of(program), ErrorCode::E0024);
}

#[test]
fn p4_a2_set_undefined_name_is_e0020() {
    assert_eq!(code_of(block(vec![call("SET", vec![var("nonexistent"), num(1)])])), ErrorCode::E0020);
}

#[test]
fn p4_a2_set_wrong_arity_is_e0022() {
    assert_eq!(code_of(block(vec![let_("x", num(0)), call("SET", vec![var("x")])])), ErrorCode::E0022);
    assert_eq!(
        code_of(block(vec![let_("x", num(0)), call("SET", vec![var("x"), num(1), num(2)])])),
        ErrorCode::E0022
    );
}

#[test]
fn p4_a2_set_non_var_target_is_e0030() {
    let program = block(vec![let_("x", num(0)), call("SET", vec![call("+", vec![num(1), num(2)]), num(0)])]);
    assert_eq!(code_of(program), ErrorCode::E0030);
}

#[test]
fn p4_a2_let_set_read_roundtrip() {
    let program = block(vec![
        let_(
            "accum",
            fun(
                &["n"],
                block(vec![
                    let_("s", num(0)),
                    let_("step", fun(&["x"], call("SET", vec![var("s"), call("+", vec![var("s"), var("x")])]))),
                    let_("i", num(1)),
                    let_(
                        "loop",
                        fun(
                            &[],
                            if_(
                                call("<=", vec![var("i"), var("n")]),
                                block(vec![
                                    call("step", vec![var("i")]),
                                    call("SET", vec![var("i"), call("+", vec![var("i"), num(1)])]),
                                    call("loop", vec![]),
                                ]),
                                None,
                            ),
                        ),
                    ),
                    call("loop", vec![]),
                    var("s"),
                ]),
            ),
        ),
        call("accum", vec![num(10)]),
    ]);
    assert_eq!(go(program).unwrap(), Value::Integer(55));
}

#[test]
fn p4_a2_mutable_upgrade_persists_after_closure_returns() {
    let program = block(vec![
        let_(
            "outer",
            fun(
                &[],
                block(vec![
                    let_("s", num(0)),
                    let_("inner", fun(&[], call("SET", vec![var("s"), num(100)]))),
                    call("inner", vec![]),
                    call("SET", vec![var("s"), num(200)]),
                    var("s"),
                ]),
            ),
        ),
        call("outer", vec![]),
    ]);
    assert_eq!(go(program).unwrap(), Value::Integer(200));
}

#[test]
fn err_try_ok_propagates_value() {
    let program = block(vec![
        let_("f", fun(&[], block(vec![let_("x", Expr::Try(Box::new(Expr::OkOf(Box::new(num(7)))))), var("x")]))),
        call("f", vec![]),
    ]);
    assert_eq!(go(program).unwrap(), Value::Integer(7));
}

#[test]
fn err_try_err_returns_from_enclosing_function() {
    let program = block(vec![
        let_(
            "f",
            fun(
                &[],
                block(vec![Expr::Try(Box::new(Expr::ErrOf(Box::new(text("inner"))))), call("PRINT", vec![text("after try")])]),
            ),
        ),
        call("f", vec![]),
    ]);
    let mut st = Evaluator::new();
    let mut host = Recorder::new();
    let err = run(&mut st, &mut host, &program, FUEL).unwrap_err();
    assert_eq!(err.code, ErrorCode::E0102);
    assert!(host.out.is_empty());
}

#[test]
fn transparent_propagation_short_circuits_eval_order() {
    let program = block(vec![
        let_("boom", fun(&[], Expr::Panic(Box::new(text("should not run"))))),
        Expr::OrDie(Box::new(call("+", vec![Expr::ErrOf(Box::new(text("e"))), call("boom", vec![])])), Box::new(num(-1))),
    ]);
    assert_eq!(go(program).unwrap(), Value::Integer(-1));
}

#[test]
fn unhandled_err_at_top_level_is_e0102() {
    assert_eq!(code_of(block(vec![Expr::ErrOf(Box::new(text("top")))])), ErrorCode::E0102);
}

#[test]
fn try_with_non_ok_err_value_is_e0030() {
    assert_eq!(code_of(block(vec![Expr::Try(Box::new(num(42)))])), ErrorCode::E0030);
}

#[test]
fn while_with_break_exits_loop() {
    let program = block(vec![
        let_("i", num(0)),
        while_(
            call("<", vec![var("i"), num(10)]),
            if_(call("==", vec![var("i"), num(3)]), Expr::Break, Some(let_("i", call("+", vec![var("i"), num(1)])))),
        ),
        var("i"),
    ]);
    assert_eq!(go(program).unwrap(), Value::Integer(3));
}

#[test]
fn for_over_array() {
    let program = block(vec![
        let_("s", num(0)),
        for_("x", Expr::ArrayOf(vec![num(1), num(2), num(3)]), let_("s", call("+", vec![var("s"), var("x")]))),
        var("s"),
    ]);
    assert_eq!(go(program).unwrap(), Value::Integer(6));
}

#[test]
fn for_over_dict() {
    let program = block(vec![
        let_("s", num(0)),
        for_("k", Expr::DictOf(vec![(text("a"), num(1)), (text("b"), num(2))]), let_("s", call("+", vec![var("s"), num(1)]))),
        var("s"),
    ]);
    assert_eq!(go(program).unwrap(), Value::Integer(2));
}

#[test]
fn for_over_string() {
    let program = block(vec![
        let_("s", num(0)),
        for_("c", text("abc"), let_("s", call("+", vec![var("s"), num(1)]))),
        var("s"),
    ]);
    assert_eq!(go(program).unwrap(), Value::Integer(3));
}

#[test]
fn for_over_non_iterable_is_e0030() {
    assert_eq!(code_of(block(vec![for_("x", num(42), call("PRINT", vec![var("x")]))])), ErrorCode::E0030);
}

fn for_jump_inline(jump: Expr) -> Expr {
    block(vec![
        let_("s", num(0)),
        for_(
            "i",
            Expr::ArrayOf(vec![num(1), num(2), num(3), num(4), num(5)]),
            if_(call("==", vec![var("i"), num(3)]), jump, Some(let_("s", call("+", vec![var("s"), var("i")])))),
        ),
        var("s"),
    ])
}

#[test]
fn for_with_break_exits_loop() {
    assert_eq!(go(for_jump_inline(Expr::Break)).unwrap(), Value::Integer(3));
}

#[test]
fn for_with_continue_skips_rest_of_body() {
    assert_eq!(go(for_jump_inline(Expr::Continue)).unwrap(), Value::Integer(12));
}

#[test]
fn break_outside_loop_is_e0014() {
    assert_eq!(code_of(block(vec![Expr::Break])), ErrorCode::E0014);
}

#[test]
fn while_zero_iterations() {
    let program = block(vec![
        let_("i", num(0)),
        while_(Expr::Lit(Value::Boolean(false)), let_("i", call("+", vec![var("i"), num(1)]))),
        var("i"),
    ]);
    assert_eq!(go(program).unwrap(), Value::Integer(0));
}

#[test]
fn for_over_empty_array() {
    let program = block(vec![
        let_("s", num(0)),
        for_("x", Expr::ArrayOf(vec![]), let_("s", call("+", vec![var("s"), num(1)]))),
        var("s"),
    ]);
    assert_eq!(go(program).unwrap(), Value::Integer(0));
}

fn lit_pat(n: i64) -> Pattern {
    Pattern::Literal(Value::Integer(n), n.to_string())
}

fn ident(n: &str) -> Pattern {
    Pattern::Ident(n.to_string())
}

fn match_(v: Expr, clauses: Vec<(Pattern, Expr)>, default: Expr) -> Expr {
    Expr::Match(Box::new(v), clauses, Box::new(default))
}

fn null() -> Expr {
    Expr::Lit(Value::Null)
}

#[test]
fn trace_recursion_has_repeated_frames() {
    let program = block(vec![
        let_(
            "fact",
            fun(
                &["n"],
                if_(
                    call("==", vec![var("n"), num(0)]),
                    call("zzz", vec![num(1)]),
                    Some(call("*", vec![var("n"), call("fact", vec![call("-", vec![var("n"), num(1)])])])),
                ),
            ),
        ),
        call("fact", vec![num(2)]),
    ]);
    let d = go(program).unwrap_err();
    assert!(d.trace.len() >= 2, "got: {:?}", d.trace);
    assert!(d.trace.iter().filter(|f| f.frame == "fact").count() >= 2);
}

#[test]
fn trace_empty_for_successful_evaluation() {
    let mut st = Evaluator::new();
    let mut host = Recorder::new();
    let ok = block(vec![let_("x", num(1)), var("x")]);
    assert_eq!(run(&mut st, &mut host, &ok, FUEL).unwrap(), Value::Integer(1));
    let bad = block(vec![call("PRINT", vec![var("yyy")])]);
    let d = run(&mut st, &mut host, &bad, FUEL).unwrap_err();
    assert_eq!(d.trace.len(), 1, "got: {:?}", d.trace);
    assert_eq!(d.trace[0].frame, "<toplevel>");
}

#[test]
fn p4_a4_match_literal_basic() {
    let program = match_(num(2), vec![(lit_pat(1), text("one")), (lit_pat(2), text("two")), (Pattern::Wildcard, text("other"))], null());
    assert_eq!(go(program).unwrap(), Value::String("two".to_string()));
}

#[test]
fn p4_a4_match_ident_binding() {
    let program = match_(
        Expr::ArrayOf(vec![num(1), num(2)]),
        vec![(Pattern::Array(vec![ident("a"), ident("b")], None), call("+", vec![var("a"), var("b")]))],
        null(),
    );
    assert_eq!(go(program).unwrap(), Value::Integer(3));
}

#[test]
fn p4_a4_match_wildcard() {
    let program = match_(num(99), vec![(lit_pat(1), text("one")), (Pattern::Wildcard, text("other"))], null());
    assert_eq!(go(program).unwrap(), Value::String("other".to_string()));
}

#[test]
fn p4_a4_match_first_clause_wins() {
    let program = match_(num(1), vec![(lit_pat(1), text("first")), (Pattern::Wildcard, text("second"))], null());
    assert_eq!(go(program).unwrap(), Value::String("first".to_string()));
}

#[test]
fn p4_a4_match_array_pattern_with_rest() {
    let program = match_(
        Expr::ArrayOf(vec![num(1), num(2), num(3), num(4)]),
        vec![(
            Pattern::Array(vec![ident("head")], Some(Box::new(ident("rest")))),
            call("+", vec![var("head"), call("LEN", vec![var("rest")])]),
        )],
        null(),
    );
    assert_eq!(go(program).unwrap(), Value::Integer(4));
}

#[test]
fn p4_a4_match_dict_pattern() {
    let program = match_(
        Expr::DictOf(vec![(text("x"), num(1)), (text("y"), num(2))]),
        vec![(
            Pattern::Dict(vec![
                (PatternKey::Literal(Value::String("x".to_string())), ident("x")),
                (PatternKey::Literal(Value::String("y".to_string())), ident("y")),
            ]),
            call("+", vec![var("x"), var("y")]),
        )],
        null(),
    );
    assert_eq!(go(program).unwrap(), Value::Integer(3));
}

#[test]
fn p4_a4_match_constructor_ok_binds_inner() {
    let program = match_(
        Expr::OkOf(Box::new(num(7))),
        vec![
            (Pattern::Constructor("OK".to_string(), Box::new(ident("x"))), var("x")),
            (Pattern::Constructor("ERR".to_string(), Box::new(Pattern::Wildcard)), num(0)),
        ],
        null(),
    );
    assert_eq!(go(program).unwrap(), Value::Integer(7));
}

#[test]
fn p4_a4_match_constructor_err_binds_inner() {
    let program = match_(
        Expr::ErrOf(Box::new(text("oops"))),
        vec![
            (Pattern::Constructor("OK".to_string(), Box::new(Pattern::Wildcard)), num(0)),
            (Pattern::Constructor("ERR".to_string(), Box::new(ident("e"))), call("LEN", vec![var("e")])),
        ],
        null(),
    );
    assert_eq!(go(program).unwrap(), Value::Integer(4));
}

#[test]
fn p4_a4_match_constructor_mismatch_falls_through() {
    let program = match_(
        Expr::OkOf(Box::new(num(1))),
        vec![
            (Pattern::Constructor("ERR".to_string(), Box::new(Pattern::Wildcard)), num(0)),
            (Pattern::Wildcard, num(99)),
        ],
        null(),
    );
    assert_eq!(go(program).unwrap(), Value::Integer(99));
}

#[test]
fn p4_a4_match_fallthrough_default() {
    let program = match_(num(99), vec![(lit_pat(1), text("one"))], text("fallback"));
    assert_eq!(go(program).unwrap(), Value::String("fallback".to_string()));
}

#[test]
fn p4_a4_match_omitted_default_is_null_literal() {
    let program = match_(num(99), vec![(lit_pat(1), text("one"))], null());
    assert_eq!(go(program).unwrap(), Value::Null);
}

fn eval_with_warnings(program: Expr, allow_shadow: bool) -> (Result<Value, wlwl_eval::diagnostics::Diagnostic>, Vec<wlwl_eval::value::Warning>) {
    let mut ev = Evaluator::new().with_builtin_shadow(allow_shadow);
    let mut host = Recorder::new();
    let r = ev.eval(&mut host, &program, FUEL);
    (r, ev.take_warnings())
}

#[test]
fn c5_shadow_builtin_default_is_e0025() {
    let (r, _) = eval_with_warnings(block(vec![let_("PRINT", num(1)), var("PRINT")]), false);
    let d = r.unwrap_err();
    assert_eq!(d.code, ErrorCode::E0025);
    assert!(d.message.contains("cannot shadow built-in 'PRINT'"), "message: {}", d.message);
}

#[test]
fn c5_shadow_builtin_allowed_with_flag_emits_w0030() {
    let (r, warnings) = eval_with_warnings(block(vec![let_("PRINT", num(1)), var("PRINT")]), true);
    assert_eq!(r.unwrap(), Value::Integer(1));
    assert!(warnings.iter().any(|w| w.code == wlwl_eval::value::WarningCode::W0030));
}

#[test]
fn shadowing_a_macro_name_warns() {
    let (r, warnings) = eval_with_warnings(block(vec![let_("IS_OK", num(1)), var("IS_OK")]), false);
    assert_eq!(r.unwrap(), Value::Integer(1));
    assert!(warnings.iter().any(|w| w.code == wlwl_eval::value::WarningCode::W0030));
}

#[test]
fn c5_let_inside_function_updating_existing_binding_not_shadow() {
    let program = block(vec![
        let_("x", num(1)),
        let_("f", fun(&[], let_("x", num(2)))),
        call("f", vec![]),
        var("x"),
    ]);
    assert_eq!(go(program).unwrap(), Value::Integer(2));
}

#[test]
fn emit_warning_is_recorded_in_order() {
    let mut ev = Evaluator::new();
    ev.emit_warning(wlwl_eval::value::WarningCode::W0015, "first".to_string());
    ev.emit_warning(wlwl_eval::value::WarningCode::W0051, "second".to_string());
    let ws = ev.take_warnings();
    assert_eq!(ws.len(), 2);
    assert_eq!(ws[0].message, "first");
    assert_eq!(ws[1].code, wlwl_eval::value::WarningCode::W0051);
    assert!(ev.take_warnings().is_empty());
}

#[test]
fn export_checks_names_are_bound() {
    use_export();
}

fn use_export() {
    let name = |n: &str| wlwl_eval::imports::ImportName { name: n.to_string(), alias: None };
    let program = block(vec![let_("f", num(1)), Expr::Export(vec![name("f")])]);
    assert_eq!(go(program).unwrap(), Value::Null);
    let d = go(block(vec![Expr::Export(vec![name("g")])])).unwrap_err();
    assert_eq!(d.code, ErrorCode::E0020);
    assert_eq!(d.message, "EXPORT: name 'g' is not bound in this module");
}

fn run_strict(program: Expr, strict: bool) -> Result<Value, wlwl_eval::diagnostics::Diagnostic> {
    let mut ev = Evaluator::new().with_strict_types(strict);
    assert_eq!(ev.strict_types(), strict);
    let mut host = Recorder::new();
    ev.eval(&mut host, &program, FUEL)
}

#[test]
fn e1_strict_types_on_integer_param_accepts_integer() {
    let program = block(vec![let_("f", typed_fun(&[("x", Some("INTEGER"))], var("x"))), call("f", vec![num(42)])]);
    assert_eq!(run_strict(program, true).unwrap(), Value::Integer(42));
}

#[test]
fn e1_strict_types_on_string_for_integer_param_is_e0033() {
    let program = block(vec![let_("f", typed_fun(&[("x", Some("INTEGER"))], var("x"))), call("f", vec![text("hi")])]);
    let err = run_strict(program, true).expect_err("expected E0033");
    assert_eq!(err.code, ErrorCode::E0033);
    assert!(err.message.contains("type annotation mismatch"), "wrong message: {}", err.message);
    assert!(err.message.contains("INTEGER") && err.message.contains("STRING"), "{}", err.message);
    assert!(err.notes.iter().any(|m| m.contains("INTEGER") && m.contains("annotation")));
    assert!(err.notes.iter().any(|m| m.contains("STRING") && m.contains("actual")));
}

#[test]
fn e1_strict_types_unannotated_param_passes_through() {
    let program = block(vec![let_("f", fun(&["x"], var("x"))), call("f", vec![text("hi")])]);
    assert_eq!(run_strict(program, true).unwrap(), Value::String("hi".into()));
}

#[test]
fn e1_strict_types_mixed_params_only_annotated_checked() {
    let program = block(vec![
        let_("f", typed_fun(&[("x", Some("INTEGER")), ("y", None)], call("+", vec![var("x"), num(0)]))),
        call("f", vec![text("hi"), text("world")]),
    ]);
    let err = run_strict(program, true).expect_err("expected E0033");
    assert!(err.message.contains("INTEGER"), "got: {}", err.message);
}

#[test]
fn e1_strict_types_recursion_checks_each_call() {
    let lp = || {
        let_(
            "loop",
            typed_fun(
                &[("n", Some("INTEGER"))],
                if_(
                    call("==", vec![var("n"), num(0)]),
                    num(0),
                    Some(call("loop", vec![call("-", vec![var("n"), num(1)])])),
                ),
            ),
        )
    };
    assert!(run_strict(block(vec![lp(), call("loop", vec![num(3)])]), true).is_ok());
    let bad = run_strict(block(vec![lp(), call("loop", vec![text("oops")])]), true);
    assert!(bad.unwrap_err().message.contains("INTEGER"));
}

#[test]
fn strict_types_off_accepts_any_argument() {
    let program = block(vec![let_("f", typed_fun(&[("x", Some("INTEGER"))], var("x"))), call("f", vec![text("hi")])]);
    assert_eq!(run_strict(program, false).unwrap(), Value::String("hi".into()));
}

#[test]
fn format_positional_and_named_through_evaluator() {
    let program = block(vec![call(
        "FORMAT",
        vec![
            text("hi {0}, age {age}"),
            text("alice"),
            Expr::DictOf(vec![(text("age"), num(30))]),
        ],
    )]);
    assert_eq!(go(program).unwrap(), Value::String("hi alice, age 30".into()));
    let program = block(vec![call("FORMAT", vec![text("{0} + {5}"), text("a")])]);
    assert_eq!(go(program).unwrap(), Value::String("a + {5}".into()));
}

#[test]
fn module_ref_checks_and_sorts_exports() {
    let program = block(vec![call("MODULE_REF", vec![text("geometry")])]);
    assert_eq!(
        go(program).unwrap(),
        Value::Dict(vec![
            (Value::String("area".into()), Value::Integer(16)),
            (Value::String("square".into()), Value::Integer(4)),
        ])
    );
    let d = go(block(vec![call("MODULE_REF", vec![])])).unwrap_err();
    assert_eq!(d.code, ErrorCode::E0022);
    let d = go(block(vec![call("MODULE_REF", vec![num(1)])])).unwrap_err();
    assert_eq!(d.code, ErrorCode::E0030);
    assert_eq!(d.message, "MODULE_REF: expected STRING module path, got integer");
    let d = go(block(vec![call("MODULE_REF", vec![text("nowhere")])])).unwrap_err();
    assert_eq!(d.code, ErrorCode::E0040);
}

#[test]
fn import_binds_exported_names() {
    let imp = |n: &str, a: Option<&str>| wlwl_eval::imports::ImportName { name: n.to_string(), alias: a.map(|x| x.to_string()) };
    let program = block(vec![
        Expr::Import("geometry".to_string(), vec![imp("square", None), imp("area", Some("a"))]),
        call("+", vec![var("square"), var("a")]),
    ]);
    assert_eq!(go(program).unwrap(), Value::Integer(20));
    let d = go(block(vec![Expr::Import("geometry".to_string(), vec![imp("volume", None)])])).unwrap_err();
    assert_eq!(d.code, ErrorCode::E0023);
    let d = go(block(vec![Expr::Import("nowhere".to_string(), vec![imp("x", None)])])).unwrap_err();
    assert_eq!(d.code, ErrorCode::E0040);
}

#[test]
fn upper_and_lower_dispatch_to_their_builtins() {
    assert_eq!(go(block(vec![call("UPPER", vec![text("abc")])])).unwrap(), Value::String("ABC".into()));
    assert_eq!(go(block(vec![call("LOWER", vec![text("ABC")])])).unwrap(), Value::String("abc".into()));
}

#[test]
fn division_overflow_is_e0034() {
    let d = go(block(vec![call("/", vec![num(i64::MIN), num(-1)])])).unwrap_err();
    assert_eq!(d.code, ErrorCode::E0034);
    let d = go(block(vec![call("%", vec![num(i64::MIN), num(-1)])])).unwrap_err();
    assert_eq!(d.code, ErrorCode::E0034);
}

#[test]
fn call_method_passes_receiver_to_self_method() {
    let obj = Expr::DictOf(vec![
        (text("n"), num(5)),
        (text("get"), fun(&["self"], call("INDEX_GET", vec![var("self"), text("n")]))),
        (text("add"), fun(&["a", "b"], call("+", vec![var("a"), var("b")]))),
        (text("k"), num(1)),
    ]);
    let program = block(vec![
        let_("o", obj),
        call("+", vec![
            call("CALL_METHOD", vec![var("o"), text("get")]),
            call("CALL_METHOD", vec![var("o"), text("add"), num(2), num(3)]),
        ]),
    ]);
    assert_eq!(go(program).unwrap(), Value::Integer(10));
    let program = block(vec![
        let_("o", Expr::DictOf(vec![(text("k"), num(1))])),
        call("CALL_METHOD", vec![var("o"), text("k")]),
    ]);
    assert_eq!(go(program).unwrap_err().code, ErrorCode::E0030);
}
