//! The decisions of the evaluator between the evaluation of its
//! sub-expressions: how control signals travel through blocks,
//! conditionals, loops and calls; what a `FOR` loop goes through; which
//! callee a call reaches; how a closure call's frame is set up and left;
//! and what `SET` may change.
use vstd::prelude::*;

use crate::builtins::split_entries;
use crate::env::{cells_below, upgraded, value_of, Binding, Cells, Env};
use crate::patterns::bind_all;
use crate::registry::{builtin_table, is_err_consumer, lookup_first, resolve_builtin, err_consumer_names, Builtin};
use crate::text::{chars_of, concat2, count_text, decimal, str_eq, string_from_chars};
use crate::strings::{ascii_upper, map_ascii_case};
use crate::value::{type_label, type_label_spec, value_type_name, value_type_name_spec, ErrorCode, Value};

verus! {

/// A control signal that an expression's evaluation carries out.
#[derive(Debug, PartialEq)]
pub enum Signal {
    /// No signal: evaluation goes on.
    Normal,
    Break,
    Continue,
    Return(Value),
}

/// What evaluating an expression gave: a value and a signal.
#[derive(Debug, PartialEq)]
pub struct Outcome {
    pub value: Value,
    pub signal: Signal,
}

impl Outcome {
    /// The outcome `v` without a signal.
    pub fn normal(v: Value) -> (o: Outcome)
        ensures
            o.value == v && o.signal == Signal::Normal,
    {
        Outcome { value: v, signal: Signal::Normal }
    }
}

/// Whether a block goes on after a statement whose outcome is `o`: only
/// when it carries no signal.
pub fn block_continues(o: &Outcome) -> (b: bool)
    ensures
        b == (o.signal is Normal),
{
    match o.signal {
        Signal::Normal => true,
        _ => false,
    }
}

/// Where an `IF` goes after its condition.
#[derive(Debug, PartialEq)]
pub enum IfStep {
    /// The condition carried a signal: it is the result.
    Propagate,
    Then,
    Else,
    /// A false condition without an else branch: `NULL`.
    Null,
}

/// Where an `IF` goes after its condition's outcome `c`.
pub fn if_step(c: &Outcome, has_else: bool) -> (r: IfStep)
    ensures
        !(c.signal is Normal) ==> r == IfStep::Propagate,
        c.signal is Normal && crate::value::truthy(c.value) ==> r == IfStep::Then,
        c.signal is Normal && !crate::value::truthy(c.value) ==> r == (if has_else {
            IfStep::Else
        } else {
            IfStep::Null
        }),
{
    if !block_continues(c) {
        IfStep::Propagate
    } else if crate::value::is_truthy(&c.value) {
        IfStep::Then
    } else if has_else {
        IfStep::Else
    } else {
        IfStep::Null
    }
}

/// Where a `WHILE` goes after its condition.
#[derive(Debug, PartialEq)]
pub enum WhileStep {
    /// The condition carried a signal: it is the loop's result.
    Propagate,
    /// A false condition: the loop ends with `NULL`.
    Stop,
    /// Run the body (in a fresh scope).
    Run,
}

/// Where a `WHILE` goes after its condition's outcome `c`.
pub fn while_step(c: &Outcome) -> (r: WhileStep)
    ensures
        !(c.signal is Normal) ==> r == WhileStep::Propagate,
        c.signal is Normal ==> r == (if crate::value::truthy(c.value) {
            WhileStep::Run
        } else {
            WhileStep::Stop
        }),
{
    if !block_continues(c) {
        WhileStep::Propagate
    } else if crate::value::is_truthy(&c.value) {
        WhileStep::Run
    } else {
        WhileStep::Stop
    }
}

/// What a loop does after its body.
#[derive(Debug, PartialEq)]
pub enum LoopNext {
    /// Go on with the next round.
    Next,
    /// `BREAK`: the loop ends with `NULL`.
    Break,
    /// `RETURN`: the body's outcome is the loop's result.
    Return,
}

/// What a loop does after a body whose outcome is `o`: no signal and
/// `CONTINUE` go on, `BREAK` ends the loop, `RETURN` leaves it.
pub fn after_body(o: &Outcome) -> (r: LoopNext)
    ensures
        r == match o.signal {
            Signal::Normal => LoopNext::Next,
            Signal::Continue => LoopNext::Next,
            Signal::Break => LoopNext::Break,
            Signal::Return(_) => LoopNext::Return,
        },
{
    match o.signal {
        Signal::Normal => LoopNext::Next,
        Signal::Continue => LoopNext::Next,
        Signal::Break => LoopNext::Break,
        Signal::Return(_) => LoopNext::Return,
    }
}

/// The one-character strings of `s`, in order.
pub open spec fn char_strings(vs: Seq<Value>, s: Seq<char>) -> bool {
    &&& vs.len() == s.len()
    &&& forall|i: int| 0 <= i < s.len() ==> (#[trigger] vs[i] matches Value::String(c) && c@ == seq![s[i]])
}

/// The values that a `FOR` loop binds in turn: the items of an array, the
/// keys of a dict, the characters of a string (as one-character strings);
/// anything else is refused (`E0030`) with this message.
pub fn for_items(v: Value) -> (r: Result<Vec<Value>, String>)
    ensures
        match v {
            Value::Array(a) => r matches Ok(out) && out@ == a@,
            Value::Dict(d) => r matches Ok(out) && out@ == d@.map_values(|e: (Value, Value)| e.0),
            Value::String(s) => r matches Ok(out) && char_strings(out@, s@),
            other => r matches Err(m) && m@ == "FOR expects an iterable (array/dict/string), got "@
                + type_label_spec(&other)@,
        },
{
    match v {
        Value::Array(a) => Ok(a),
        Value::Dict(d) => Ok(split_entries(d).0),
        Value::String(s) => {
            let cs = chars_of(s.as_str());
            let mut out: Vec<Value> = Vec::new();
            let mut i: usize = 0;
            while i < cs.len()
                invariant
                    i <= cs@.len(),
                    cs@ == s@,
                    char_strings(out@, cs@.take(i as int)),
                decreases cs@.len() - i,
            {
                let one = vec![cs[i]];
                let ghost before = out@;
                out.push(Value::String(string_from_chars(one.as_slice())));
                proof {
                    assert forall|j: int| 0 <= j < i + 1 implies (#[trigger] out@[j] matches Value::String(c) && c@
                        == seq![cs@.take(i + 1)[j]]) by {
                        if j < i {
                            assert(out@[j] == before[j]);
                            assert(cs@.take(i + 1)[j] == cs@.take(i as int)[j]);
                        } else {
                            assert(one@ =~= seq![cs@[i as int]]);
                        }
                    }
                }
                i = i + 1;
            }
            assert(cs@.take(cs@.len() as int) =~= cs@);
            Ok(out)
        },
        other => Err(concat2("FOR expects an iterable (array/dict/string), got ", type_label(&other))),
    }
}

/// Whether an argument with value `v` ends the evaluation of the
/// arguments of a call to `name`: an `ERR` does, and is the call's
/// result, unless `name` consumes `ERR` arguments.
pub fn short_circuits(name: &str, v: &Value) -> (b: bool)
    ensures
        b == (!err_consumer_names().contains(name@) && v is ErrValue),
{
    let consumer = is_err_consumer(name);
    match v {
        Value::ErrValue(_) => !consumer,
        _ => false,
    }
}

/// The callee that a call of `name` with `arg_count` arguments reaches.
#[derive(Debug, PartialEq)]
pub enum CallTarget {
    /// `SET(target, value)`: its target is a name, not evaluated.
    SetForm,
    /// `ARRAY()` / `DICT()`: the empty collection.
    Empty(Value),
    /// The closure bound to the name.
    Closure,
    /// The native function bound to the name.
    Native,
    /// The name is bound to a value that is not a function (`E0020`).
    NotCallable,
    /// A built-in function.
    Builtin(Builtin),
    /// Nothing of that name (`E0020`).
    Undefined,
}

/// The callee of a call of `name` with `arg_count` arguments, where
/// `bound` is the value bound to `name` in the environment, if any: `SET`
/// first, then the empty `ARRAY()` / `DICT()`, then the bound value, then
/// the built-in functions.
pub fn call_target(name: &str, arg_count: usize, bound: Option<&Value>) -> (r: CallTarget)
    ensures
        name@ == "SET"@ ==> r == CallTarget::SetForm,
        name@ != "SET"@ && name@ == "ARRAY"@ && arg_count == 0 ==> (r matches CallTarget::Empty(Value::Array(a))
            && a@.len() == 0),
        name@ != "SET"@ && name@ == "DICT"@ && arg_count == 0 ==> (r matches CallTarget::Empty(Value::Dict(d))
            && d@.len() == 0),
        name@ != "SET"@ && !((name@ == "ARRAY"@ || name@ == "DICT"@) && arg_count == 0) ==> r == match bound {
            Some(Value::Closure { .. }) => CallTarget::Closure,
            Some(Value::NativeFn { .. }) => CallTarget::Native,
            Some(_) => CallTarget::NotCallable,
            None => match lookup_first(builtin_table(), name@) {
                Some(b) => CallTarget::Builtin(b),
                None => CallTarget::Undefined,
            },
        },
{
    proof {
        reveal_strlit("SET");
        reveal_strlit("ARRAY");
        reveal_strlit("DICT");
        assert("ARRAY"@ != "DICT"@) by {
            assert("ARRAY"@[0] != "DICT"@[0]);
        }
    }
    if str_eq(name, "SET") {
        return CallTarget::SetForm;
    }
    if arg_count == 0 {
        if str_eq(name, "ARRAY") {
            return CallTarget::Empty(Value::Array(Vec::new()));
        }
        if str_eq(name, "DICT") {
            return CallTarget::Empty(Value::Dict(Vec::new()));
        }
    }
    match bound {
        Some(Value::Closure { .. }) => CallTarget::Closure,
        Some(Value::NativeFn { .. }) => CallTarget::Native,
        Some(_) => CallTarget::NotCallable,
        None => match resolve_builtin(name) {
            Some(b) => CallTarget::Builtin(b),
            None => CallTarget::Undefined,
        },
    }
}

/// The message of `E0020` for calling `name`, bound to a value that is not
/// a function.
pub fn not_callable_message(name: &str) -> (m: String)
    ensures
        m@ == "'"@ + name@ + "' is not a function"@,
{
    let mut m = concat2("'", name);
    m.append("' is not a function");
    m
}

/// The arguments of a method call: the receiver goes in front when the
/// method's first parameter is `self`.
pub fn method_arguments(params: &Vec<String>, receiver: Option<Value>, args: Vec<Value>) -> (r: Vec<Value>)
    ensures
        match receiver {
            Some(x) => if params@.len() > 0 && params@[0]@ == "self"@ {
                r@ == seq![x] + args@
            } else {
                r@ == args@
            },
            None => r@ == args@,
        },
{
    match receiver {
        Some(x) => {
            if params.len() > 0 && str_eq(params[0].as_str(), "self") {
                let mut r = args;
                r.insert(0, x);
                assert(r@ =~= seq![x] + args@);
                r
            } else {
                args
            }
        },
        None => args,
    }
}

/// The names of `ps` are pairwise different.
pub open spec fn distinct_names(ps: Seq<String>) -> bool {
    forall|i: int, j: int| 0 <= i < j < ps.len() ==> ps[i]@ != ps[j]@
}

/// The cells that binding `args` one by one adds.
pub open spec fn fresh_cells(args: Seq<Value>) -> Seq<Binding> {
    args.map_values(|v: Value| Binding { value: v, mutable: false })
}

/// Sets up a closure call: with as many arguments as parameters, the
/// captured cells become mutable, and each parameter is bound, in order,
/// to its argument in a fresh scope over the captured scopes and the
/// caller's. Otherwise the call is refused (`E0022`) with this message.
pub fn enter_closure(
    captured: &Env,
    caller: &Env,
    params: &Vec<String>,
    args: Vec<Value>,
    cells: &mut Cells,
) -> (r: Result<Env, String>)
    requires
        cells_below(captured.scopes(), old(cells)@.len()),
        cells_below(caller.scopes(), old(cells)@.len()),
    ensures
        params@.len() != args@.len() ==> (r matches Err(m) && m@ == "function expects "@ + decimal(
            params@.len() as int,
        ) + " argument(s), got "@ + decimal(args@.len() as int) && final(cells)@ == old(cells)@),
        params@.len() == args@.len() ==> (r matches Ok(e) && {
            let up = upgraded(old(cells)@, captured.scopes());
            &&& e.scopes() == bind_all(
                captured.scopes() + caller.scopes() + seq![Seq::<(String, usize)>::empty()],
                params@,
                up.len(),
            )
            &&& final(cells)@ == up + fresh_cells(args@)
            &&& cells_below(e.scopes(), final(cells)@.len())
            &&& distinct_names(params@) ==> forall|i: int|
                0 <= i < params@.len() ==> #[trigger] value_of(e.scopes(), final(cells)@, params@[i]@) == Some(
                    args@[i],
                )
        }),
{
    if params.len() != args.len() {
        let mut m = concat2("function expects ", count_text(params.len()).as_str());
        m.append(" argument(s), got ");
        m.append(count_text(args.len()).as_str());
        return Err(m);
    }
    captured.upgrade_all_to_mutable(cells);
    let ghost up = cells@;
    let mut env = Env::call_frame(captured, caller);
    let ghost frame = env.scopes();
    proof {
        assert(cells_below(frame, cells@.len())) by {
            assert forall|k: int, i: int| 0 <= k < frame.len() && 0 <= i < frame[k].len() implies #[trigger] frame[k][i].1
                < cells@.len() by {
                let a = captured.scopes();
                let b = caller.scopes();
                if k < a.len() {
                    assert(frame[k] == a[k]);
                } else if k < a.len() + b.len() {
                    assert(frame[k] == b[k - a.len()]);
                } else {
                    assert(frame[k].len() == 0);
                }
            }
        }
    }
    let ghost all_args = args@;
    let mut rest = args;
    let mut i: usize = 0;
    assert(params@.take(0) =~= Seq::<String>::empty());
    while i < params.len()
        invariant
            i <= params@.len(),
            params@.len() == all_args.len(),
            rest@ == all_args.skip(i as int),
            frame.len() > 0,
            env.scopes().len() == frame.len(),
            env.scopes() == bind_all(frame, params@.take(i as int), up.len()),
            cells@ == up + fresh_cells(all_args.take(i as int)),
            cells_below(env.scopes(), cells@.len()),
            distinct_names(params@) ==> forall|j: int|
                0 <= j < i ==> #[trigger] value_of(env.scopes(), cells@, params@[j]@) == Some(all_args[j]),
        decreases params@.len() - i,
    {
        let v = rest.remove(0);
        assert(v == all_args[i as int]);
        let ghost s_before = env.scopes();
        let ghost c_before = cells@;
        env.set_local(cells, params[i].clone(), v);
        proof {
            assert(rest@ =~= all_args.skip(i + 1));
            assert(fresh_cells(all_args.take(i + 1)) =~= fresh_cells(all_args.take(i as int)).push(
                Binding { value: all_args[i as int], mutable: false },
            ));
            assert(cells@ =~= up + fresh_cells(all_args.take(i + 1)));
            lemma_bind_all_push(frame, params@.take(i as int), params@[i as int], up.len());
            assert(params@.take(i + 1) =~= params@.take(i as int).push(params@[i as int]));
            assert(c_before.len() == up.len() + i);
            if distinct_names(params@) {
                assert forall|j: int| 0 <= j < i + 1 implies #[trigger] value_of(env.scopes(), cells@, params@[j]@)
                    == Some(all_args[j]) by {
                    if j < i {
                        assert(params@[j]@ != params@[i as int]@);
                        assert(value_of(s_before, c_before, params@[j]@) == Some(all_args[j]));
                    }
                }
            }
        }
        i = i + 1;
    }
    assert(params@.take(params@.len() as int) =~= params@);
    assert(all_args.take(all_args.len() as int) =~= all_args);
    Ok(env)
}

proof fn lemma_bind_all_push(s: Seq<Seq<(String, usize)>>, a: Seq<String>, n: String, id: nat)
    ensures
        bind_all(s, a.push(n), id) == set_scopes_at(bind_all(s, a, id), n, id + a.len()),
    decreases a.len(),
{
    if a.len() == 0 {
        assert(a.push(n).drop_first() =~= Seq::<String>::empty());
        assert(a.push(n)[0] == n);
        let s1 = crate::env::set_scopes(s, n, id as usize);
        assert(bind_all(s1, Seq::<String>::empty(), id + 1) == s1);
        assert(bind_all(s, a, id) == s);
    } else {
        let s1 = crate::env::set_scopes(s, a[0], id as usize);
        assert(a.push(n).drop_first() =~= a.drop_first().push(n));
        assert(a.push(n)[0] == a[0]);
        lemma_bind_all_push(s1, a.drop_first(), n, id + 1);
        assert(bind_all(s, a.push(n), id) == bind_all(s1, a.drop_first().push(n), id + 1));
        assert(bind_all(s, a, id) == bind_all(s1, a.drop_first(), id + 1));
        assert(id + 1 + a.drop_first().len() == id + a.len());
    }
}

/// The scopes after binding `n` to the cell `id`.
pub open spec fn set_scopes_at(s: Seq<Seq<(String, usize)>>, n: String, id: nat) -> Seq<Seq<(String, usize)>> {
    crate::env::set_scopes(s, n, id as usize)
}

/// How a closure call ends, from its body's outcome `o`: `RETURN(v)`
/// gives `v`, no signal gives the outcome; `BREAK` or `CONTINUE` outside
/// a loop is an error (`E0014`) with this message.
pub fn leave_closure(o: Outcome) -> (r: Result<Outcome, String>)
    ensures
        match o.signal {
            Signal::Normal => r == Ok::<Outcome, String>(o),
            Signal::Return(v) => r == Ok::<Outcome, String>(Outcome { value: v, signal: Signal::Normal }),
            _ => r matches Err(m) && m@ == "BREAK or CONTINUE used outside a loop"@,
        },
{
    match o.signal {
        Signal::Normal => Ok(o),
        Signal::Return(v) => Ok(Outcome::normal(v)),
        _ => Err(String::from_str("BREAK or CONTINUE used outside a loop")),
    }
}

/// The name a call frame of the closure called `name` gets in a trace.
pub fn frame_name(name: &str) -> (r: &str)
    ensures
        name@.len() == 0 ==> r@ == "<anonymous>"@,
        name@.len() > 0 ==> r@ == name@,
{
    proof {
        reveal_strlit("");
        reveal_strlit("<anonymous>");
        assert(""@.len() == 0);
        if name@.len() == 0 {
            assert(name@ =~= ""@);
        }
    }
    if str_eq(name, "") {
        "<anonymous>"
    } else {
        name
    }
}

/// Why `SET(target, value)` is refused before its value is evaluated: a
/// wrong number of arguments (`E0022`) or a target that is not a name
/// (`E0030`).
pub fn set_form_error(arg_count: usize, target_is_name: bool) -> (r: Option<(ErrorCode, String)>)
    ensures
        arg_count != 2 ==> (r matches Some((c, m)) && c == ErrorCode::E0022 && m@ == "SET expects 2 arguments, got "@
            + decimal(arg_count as int)),
        arg_count == 2 && !target_is_name ==> (r matches Some((c, m)) && c == ErrorCode::E0030 && m@
            == "SET target must be a variable name (not an expression)"@),
        arg_count == 2 && target_is_name ==> r is None,
{
    if arg_count != 2 {
        return Some((ErrorCode::E0022, concat2("SET expects 2 arguments, got ", count_text(arg_count).as_str())));
    }
    if !target_is_name {
        return Some((ErrorCode::E0030, String::from_str("SET target must be a variable name (not an expression)")));
    }
    None
}

/// What `SET(target, value)` gives after storing into the target's cell
/// (see `Env::set_cell_value`): `NULL`; `E0024` for an immutable cell; an
/// undefined name (`E0020`, carrying the name) when nothing is bound.
pub fn set_result(stored: Result<bool, ()>, target: &str) -> (r: Result<Value, (ErrorCode, String)>)
    ensures
        match stored {
            Ok(true) => r == Ok::<Value, (ErrorCode, String)>(Value::Null),
            Ok(false) => r matches Err((c, m)) && c == ErrorCode::E0024 && m@ == "cannot SET non-captured binding `"@
                + target@ + "` from child scope (v0.4 Sec. 6.4: cells are IMMUTABLE until captured by a closure)"@,
            Err(()) => r matches Err((c, m)) && c == ErrorCode::E0020 && m@ == target@,
        },
{
    match stored {
        Ok(true) => Ok(Value::Null),
        Ok(false) => {
            let mut m = concat2("cannot SET non-captured binding `", target);
            m.append("` from child scope (v0.4 Sec. 6.4: cells are IMMUTABLE until captured by a closure)");
            Err((ErrorCode::E0024, m))
        },
        Err(()) => Err((ErrorCode::E0020, String::from_str(target))),
    }
}

/// The first argument that breaks its parameter's type annotation, in
/// strict mode: its position, the annotation upper-cased (ASCII), and the
/// argument's type name (see `TYPE`). Parameters without an annotation
/// accept anything.
pub open spec fn first_type_mismatch(anns: Seq<Option<String>>, args: Seq<Value>) -> Option<int>
    decreases anns.len(),
{
    if anns.len() == 0 || args.len() == 0 {
        None
    } else {
        match anns[0] {
            Some(a) if a@.map_values(|c: char| ascii_upper(c)) != value_type_name_spec(&args[0])@ => Some(0),
            _ => match first_type_mismatch(anns.drop_first(), args.drop_first()) {
                Some(i) => Some(i + 1),
                None => None,
            },
        }
    }
}

/// In strict mode, the first argument whose type name differs from its
/// parameter's annotation (compared upper-cased), with the expected and
/// the actual name (`E0033`); `None` when all fit.
pub fn strict_type_mismatch(anns: &Vec<Option<String>>, args: &Vec<Value>) -> (r: Option<(usize, String, &'static str)>)
    ensures
        match first_type_mismatch(anns@, args@) {
            None => r is None,
            Some(i) => r matches Some((k, expected, actual)) && k == i && expected@ == anns@[i]->Some_0@.map_values(
                |c: char| ascii_upper(c),
            ) && actual@ == value_type_name_spec(&args@[i])@,
        },
{
    let mut i: usize = 0;
    assert(anns@.skip(0) =~= anns@);
    assert(args@.skip(0) =~= args@);
    while i < anns.len() && i < args.len()
        invariant
            i <= anns@.len(),
            i <= args@.len(),
            first_type_mismatch(anns@, args@) == match first_type_mismatch(anns@.skip(i as int), args@.skip(i as int)) {
                Some(j) => Some(j + i),
                None => None,
            },
        decreases anns@.len() - i,
    {
        assert(anns@.skip(i as int)[0] == anns@[i as int]);
        assert(args@.skip(i as int)[0] == args@[i as int]);
        assert(anns@.skip(i as int).drop_first() =~= anns@.skip(i + 1));
        assert(args@.skip(i as int).drop_first() =~= args@.skip(i + 1));
        if let Some(a) = &anns[i] {
            let expected = map_ascii_case(a.as_str(), true);
            assert(expected@ =~= a@.map_values(|c: char| ascii_upper(c)));
            let actual = value_type_name(&args[i]);
            if !str_eq(expected.as_str(), actual) {
                return Some((i, expected, actual));
            }
        }
        i = i + 1;
    }
    None
}

} // verus!
