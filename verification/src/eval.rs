//! The evaluator: expressions, calls, closure calls and the top level.
//!
//! Evaluation is bounded by `fuel`: each nested evaluation, and each round
//! of a `WHILE` loop, spends one unit, and an evaluation that runs out of
//! fuel stops with `E0100`.
//!
//! The contracts speak of what an expression gives through `effect`: for
//! expressions that read the state but change nothing (literals, names,
//! jumps, `RETURN`, `OK`, `ERR`, `TRY`, `IS_OK`, `IS_ERR`, `IF`), the value,
//! signal or error they give. Blocks, loops, calls, closure calls and the
//! top level state their results over the effects of their parts.
use vstd::prelude::*;

use crate::callbacks::{
    comparator_answer, comparator_order, groups_are_arrays, resume_all, resume_any, resume_filter, resume_find, resume_group_by, resume_map,
    resume_reduce, resume_sort_by, start_all, start_any, start_filter, start_find, start_group_by, start_map,
    start_reduce, start_sort, start_sort_by, SortStart, Step, Walk,
    start_sort_post, start_map_post, start_filter_post, start_find_post, start_reduce_post, start_any_post, start_all_post, start_group_by_post, start_sort_by_post, resume_map_post, resume_filter_post, resume_find_post, resume_reduce_post, resume_any_post, resume_all_post, resume_group_by_post, resume_sort_by_post,
};
use crate::collection::{
    builtin_drop, builtin_enumerate, builtin_flat, builtin_join, builtin_range, builtin_take, builtin_uniq, builtin_zip,
    builtin_drop_post, builtin_enumerate_post, builtin_flat_post, builtin_join_post, builtin_range_post, builtin_take_post,
    builtin_uniq_post, builtin_zip_post,
};
use crate::compare::{copy_value, same_value, Order};
use crate::console::call_method_target;
use crate::builtins::{first_key, has_key, key_is};
use crate::control::{
    after_body, method_arguments, block_continues, call_target, enter_closure, for_items, frame_name, if_step, leave_closure,
    not_callable_message, set_form_error, set_result, short_circuits, while_step, CallTarget, IfStep, LoopNext,
    Outcome, Signal, WhileStep, strict_type_mismatch, first_type_mismatch, fresh_cells, distinct_names,
};
use crate::patterns::bind_all;
use crate::diagnostics::{check_let_shadowing, diag, enrich_with_trace, runtime_location, undefined_name, Diagnostic, ShadowCheck, TraceFrame};
use crate::dispatch::{builtin_outcome, call_builtin, float_texts, Host};
use crate::display::{display, shown};
use crate::env::{cell_of, cells_below, upgraded, lemma_cell_of_bound, popped, value_of, Binding, Cells, Env};
use crate::patterns::{destructure, try_match, Pattern, PatternError};
use crate::imports::{check_exports, import_names, ImportName};
use crate::registry::{builtin_table, err_consumer_names, lookup_first, Builtin};
use crate::suggest::utf8_len;
use crate::text::{chars_of, concat2, decimal, str_eq};
use crate::value::{truthy, type_error, type_label_spec, type_label, BuiltinError, ErrorCode, Value, Warning, WarningCode};

verus! {

/// An expression of a program.
#[derive(Debug)]
pub enum Expr {
    /// A literal value.
    Lit(Value),
    /// A name.
    Var(String),
    /// A call of the function or built-in `name` (also `SET(name, value)`).
    Call(String, Vec<Expr>),
    /// `LET(name, value)`.
    Let(String, Box<Expr>),
    /// `LET(pattern, value)`.
    LetPattern(Pattern, Box<Expr>),
    /// A block, with a scope of its own.
    Block(Vec<Expr>),
    /// `[a, b, ...]`.
    ArrayOf(Vec<Expr>),
    /// `[k: v, ...]`.
    DictOf(Vec<(Expr, Expr)>),
    /// `IF(cond, then, else?)`.
    If(Box<Expr>, Box<Expr>, Option<Box<Expr>>),
    /// `WHILE(cond, body)`.
    While(Box<Expr>, Box<Expr>),
    /// `FOR(name, iterable, body)`.
    For(String, Box<Expr>, Box<Expr>),
    /// `RETURN(value?)`.
    Return(Option<Box<Expr>>),
    Break,
    Continue,
    /// `FUN((params...), body)`.
    Fun(Vec<Param>, Box<Expr>),
    /// `OK(value)`.
    OkOf(Box<Expr>),
    /// `ERR(payload)`.
    ErrOf(Box<Expr>),
    /// `PANIC(message)`.
    Panic(Box<Expr>),
    /// `TRY(value)`.
    Try(Box<Expr>),
    /// `IS_OK(value)`.
    IsOk(Box<Expr>),
    /// `IS_ERR(value)`.
    IsErr(Box<Expr>),
    /// `OR_DIE(value, default)`.
    OrDie(Box<Expr>, Box<Expr>),
    /// `MATCH(value, (pattern, body)..., default)`.
    Match(Box<Expr>, Vec<(Pattern, Expr)>, Box<Expr>),
    /// `IMPORT(path, [names...])`.
    Import(String, Vec<ImportName>),
    /// `EXPORT([names...])`.
    Export(Vec<ImportName>),
}

/// A parameter of `FUN`: its name and, when it has one, its type
/// annotation (`x: INTEGER`).
#[derive(Debug)]
pub struct Param {
    pub name: String,
    pub annotation: Option<String>,
}

/// A closure made by `FUN`: its parameters' names and annotations, its
/// body, and the environment it captured (sharing its cells).
pub struct ClosureDef<'a> {
    pub params: Vec<String>,
    pub annotations: Vec<Option<String>>,
    pub body: &'a Expr,
    pub env: Env,
}

/// Every closure's captured environment refers to cells of a store of `n`.
pub open spec fn closures_below<'a>(cls: Seq<ClosureDef<'a>>, n: nat) -> bool {
    forall|i: int| 0 <= i < cls.len() ==> cells_below(#[trigger] cls[i].env.scopes(), n)
}

proof fn lemma_below_grows(s: Seq<Seq<(String, usize)>>, n: nat, m: nat)
    requires
        cells_below(s, n),
        n <= m,
    ensures
        cells_below(s, m),
{
}

proof fn lemma_scope_ops(s: Seq<Seq<(String, usize)>>, n: nat)
    requires
        cells_below(s, n),
    ensures
        cells_below(s.push(Seq::empty()), n),
        cells_below(popped(s), n),
{
    let p = s.push(Seq::<(String, usize)>::empty());
    assert forall|k: int, i: int| 0 <= k < p.len() && 0 <= i < p[k].len() implies #[trigger] p[k][i].1 < n by {
        assert(k < s.len());
        assert(p[k] == s[k]);
    }
    if s.len() > 1 {
        let q = s.drop_last();
        assert forall|k: int, i: int| 0 <= k < q.len() && 0 <= i < q[k].len() implies #[trigger] q[k][i].1 < n by {
            assert(q[k] == s[k]);
        }
    }
}

proof fn lemma_push_closure<'a>(cls: Seq<ClosureDef<'a>>, def: ClosureDef<'a>, n: nat)
    requires
        closures_below(cls, n),
        cells_below(def.env.scopes(), n),
    ensures
        closures_below(cls.push(def), n),
{
    let p = cls.push(def);
    assert forall|i: int| 0 <= i < p.len() implies cells_below(#[trigger] p[i].env.scopes(), n) by {
        if i < cls.len() {
            assert(p[i] == cls[i]);
        } else {
            assert(p[i] == def);
        }
    }
}

proof fn lemma_closures_grow<'a>(cls: Seq<ClosureDef<'a>>, n: nat, m: nat)
    requires
        closures_below(cls, n),
        n <= m,
    ensures
        closures_below(cls, m),
{
    assert forall|i: int| 0 <= i < cls.len() implies cells_below(#[trigger] cls[i].env.scopes(), m) by {
        lemma_below_grows(cls[i].env.scopes(), n, m);
    }
}

/// The evaluator's state: the current environment, the store of cells,
/// the closures made so far (a closure value names one by its handle),
/// the call stack, the warnings raised, and whether a `LET` may shadow a
/// global built-in.
pub struct Evaluator<'a> {
    pub env: Env,
    pub cells: Cells,
    pub closures: Vec<ClosureDef<'a>>,
    pub call_stack: Vec<TraceFrame>,
    pub warnings: Vec<Warning>,
    pub allow_builtin_shadow: bool,
    pub strict_types: bool,
}

/// What every step of evaluation keeps: a well-formed state, a store that
/// only grows, and the call stack as it was.
pub open spec fn kept<'a>(a: Evaluator<'a>, b: Evaluator<'a>) -> bool {
    &&& b.wf()
    &&& a.cells@.len() <= b.cells@.len()
    &&& b.call_stack@ == a.call_stack@
}

impl<'a> Evaluator<'a> {
    /// Every environment of the state refers only to cells of its store.
    pub open spec fn wf(&self) -> bool {
        &&& cells_below(self.env.scopes(), self.cells@.len())
        &&& closures_below(self.closures@, self.cells@.len())
    }

    /// A fresh evaluator: one empty global scope, and nothing else; a
    /// `LET` may not shadow a global built-in.
    pub fn new() -> (st: Evaluator<'a>)
        ensures
            st.wf(),
            st.env.scopes() == seq![Seq::<(String, usize)>::empty()],
            st.cells@.len() == 0,
            st.closures@.len() == 0,
            st.call_stack@.len() == 0,
            st.warnings@.len() == 0,
            !st.allow_builtin_shadow,
            !st.strict_types,
    {
        Evaluator {
            env: Env::new(),
            cells: Cells::new(),
            closures: Vec::new(),
            call_stack: Vec::new(),
            warnings: Vec::new(),
            allow_builtin_shadow: false,
            strict_types: false,
        }
    }

    /// The evaluator with `LET` allowed, or not, to shadow a global
    /// built-in (the project's `allow_builtin_shadow` feature).
    pub fn with_builtin_shadow(self, on: bool) -> (st: Evaluator<'a>)
        ensures
            st.allow_builtin_shadow == on,
            st.strict_types == self.strict_types,
            st.env == self.env,
            st.cells == self.cells,
            st.closures == self.closures,
            st.call_stack == self.call_stack,
            st.warnings == self.warnings,
    {
        let mut st = self;
        st.allow_builtin_shadow = on;
        st
    }

    /// The evaluator with strict mode on or off: in strict mode a closure
    /// call checks each annotated parameter against its argument's type.
    pub fn with_strict_types(self, on: bool) -> (st: Evaluator<'a>)
        ensures
            st.strict_types == on,
            st.allow_builtin_shadow == self.allow_builtin_shadow,
            st.env == self.env,
            st.cells == self.cells,
            st.closures == self.closures,
            st.call_stack == self.call_stack,
            st.warnings == self.warnings,
    {
        let mut st = self;
        st.strict_types = on;
        st
    }

    /// Whether strict mode is on.
    pub fn strict_types(&self) -> (b: bool)
        ensures
            b == self.strict_types,
    {
        self.strict_types
    }

    /// Runs a program (see `run`).
    pub fn eval<H: Host>(&mut self, host: &mut H, program: &'a Expr, fuel: u64) -> (r: Result<Value, Diagnostic>)
        requires
            old(self).wf(),
        ensures
            kept(*old(self), *final(self)),
            fuel == 0 ==> (r matches Err(d) && d.code == ErrorCode::E0100),
            fuel > 1 && (*program is Break || *program is Continue) ==> (r matches Err(d) && d.code
                == ErrorCode::E0014),
            fuel > 1 ==> match *program {
                Expr::Lit(v) => if v is ErrValue {
                    r matches Err(d) && d.code == ErrorCode::E0102
                } else {
                    r matches Ok(x) && same_value(v, x)
                },
                _ => true,
            },
            fuel > 0 && program_ready(*program, old(self).env.scopes(), old(self).cells@, (fuel - 1) as nat)
                ==> top_level_ends(program_effect(*program, old(self).env.scopes(), old(self).cells@), r),
    {
        run(self, host, program, fuel)
    }

    /// Records a warning.
    pub fn emit_warning(&mut self, code: WarningCode, message: String)
        ensures
            final(self).warnings@ == old(self).warnings@.push(Warning { code, message }),
            final(self).env == old(self).env,
            final(self).cells == old(self).cells,
            final(self).closures == old(self).closures,
            final(self).call_stack == old(self).call_stack,
    {
        self.warnings.push(Warning { code, message });
    }

    /// The warnings raised so far, in order; the record is emptied.
    pub fn take_warnings(&mut self) -> (r: Vec<Warning>)
        ensures
            r@ == old(self).warnings@,
            final(self).warnings@.len() == 0,
            final(self).env == old(self).env,
            final(self).cells == old(self).cells,
            final(self).closures == old(self).closures,
            final(self).call_stack == old(self).call_stack,
    {
        let mut r: Vec<Warning> = Vec::new();
        std::mem::swap(&mut r, &mut self.warnings);
        r
    }
}

/// Opens a new innermost scope.
fn open_scope<'a>(st: &mut Evaluator<'a>)
    requires
        old(st).wf(),
    ensures
        final(st).wf(),
        final(st).env.scopes() == old(st).env.scopes().push(Seq::empty()),
        final(st).cells == old(st).cells,
        final(st).closures == old(st).closures,
        final(st).call_stack == old(st).call_stack,
{
    proof {
        lemma_scope_ops(st.env.scopes(), st.cells@.len());
    }
    st.env.push_scope();
}

/// Closes the innermost scope (never the global one).
fn close_scope<'a>(st: &mut Evaluator<'a>)
    requires
        old(st).wf(),
    ensures
        final(st).wf(),
        final(st).env.scopes() == popped(old(st).env.scopes()),
        final(st).cells == old(st).cells,
        final(st).closures == old(st).closures,
        final(st).call_stack == old(st).call_stack,
{
    proof {
        lemma_scope_ops(st.env.scopes(), st.cells@.len());
    }
    st.env.pop_scope();
}

/// Puts back the scopes `saved` from before a loop opened its own scope.
fn restore_scopes<'a>(st: &mut Evaluator<'a>, saved: &mut Env)
    requires
        old(st).wf(),
        cells_below(old(saved).scopes(), old(st).cells@.len()),
    ensures
        final(st).wf(),
        final(st).env.scopes() == old(saved).scopes(),
        final(st).cells == old(st).cells,
        final(st).closures == old(st).closures,
        final(st).call_stack == old(st).call_stack,
{
    std::mem::swap(&mut st.env, saved);
}

/// A diagnostic of `code` at the current call stack.
fn fail<'a>(st: &Evaluator<'a>, code: ErrorCode, message: String) -> (d: Diagnostic)
    ensures
        d.code == code && d.message == message,
{
    diag(code, message, runtime_location(), &st.call_stack, None)
}

/// The diagnostic for an error that a built-in raised, with its note.
fn builtin_failure<'a>(st: &Evaluator<'a>, e: BuiltinError) -> (d: Diagnostic)
    ensures
        d.code == e.code && d.message == e.message,
{
    let mut d = diag(e.code, e.message, runtime_location(), &st.call_stack, None);
    if let Some(n) = e.note {
        d.notes.push(n);
    }
    d
}

/// `E0033` for an argument of type `actual` where the parameter is
/// annotated `expected`, with a note for each of the two.
fn strict_failure<'a>(st: &Evaluator<'a>, expected: &str, actual: &str) -> (d: Diagnostic)
    ensures
        d.code == ErrorCode::E0033,
        d.message@ == "type annotation mismatch: parameter annotated "@ + expected@ + ", got "@ + actual@,
{
    let mut m = concat2("type annotation mismatch: parameter annotated ", expected);
    m.append(", got ");
    m.append(actual);
    let mut d = fail(st, ErrorCode::E0033, m);
    d.notes.push(concat2("function parameter type annotation: ", expected));
    d.notes.push(concat2("actual argument type: ", actual));
    d
}

/// `E0100` for an evaluation that ran out of fuel.
fn exhausted<'a>(st: &Evaluator<'a>) -> (d: Diagnostic)
    ensures
        d.code == ErrorCode::E0100,
{
    fail(st, ErrorCode::E0100, String::from_str("evaluation ran out of fuel"))
}

/// Whether the name `s` can be measured: fewer chars than `usize::MAX`.
fn measurable(s: &str) -> (b: bool)
    ensures
        b ==> s@.len() < usize::MAX && utf8_len(s@) <= usize::MAX,
{
    let n = chars_of(s).len();
    let bytes = s.as_bytes().len();
    assert(bytes == utf8_len(s@));
    n < usize::MAX
}

/// `E0020` for the undefined `name`, with the bound names close to it.
fn undefined<'a>(st: &Evaluator<'a>, name: &str) -> (d: Diagnostic)
    ensures
        d.code == ErrorCode::E0020,
{
    let names = st.env.names();
    let mut pool: Vec<String> = Vec::new();
    let mut i: usize = 0;
    while i < names.len()
        invariant
            forall|k: int|
                0 <= k < pool@.len() ==> #[trigger] pool@[k]@.len() < usize::MAX && utf8_len(pool@[k]@)
                    <= usize::MAX,
        decreases names@.len() - i,
    {
        if measurable(names[i].as_str()) {
            pool.push(String::from_str(names[i].as_str()));
        }
        i = i + 1;
    }
    if measurable(name) {
        undefined_name(name, runtime_location(), &st.call_stack, None, &pool)
    } else {
        fail(st, ErrorCode::E0020, concat2("undefined name ", name))
    }
}

/// The diagnostic for a pattern error.
fn pattern_failure<'a>(st: &Evaluator<'a>, e: PatternError) -> (d: Diagnostic) {
    match e {
        PatternError::Undefined(n) => undefined(st, n.as_str()),
        PatternError::Failed(c, m) => fail(st, c, m),
    }
}

/// The names of the parameters `ps`.
fn param_names(ps: &Vec<Param>) -> (r: Vec<String>)
    ensures
        r@.len() == ps@.len(),
        forall|i: int| 0 <= i < ps@.len() ==> #[trigger] r@[i]@ == ps@[i].name@,
{
    let mut r: Vec<String> = Vec::new();
    let mut i: usize = 0;
    while i < ps.len()
        invariant
            i <= ps@.len(),
            r@.len() == i,
            forall|k: int| 0 <= k < i ==> #[trigger] r@[k]@ == ps@[k].name@,
        decreases ps@.len() - i,
    {
        r.push(String::from_str(ps[i].name.as_str()));
        i = i + 1;
    }
    r
}

/// The annotations of the parameters `ps`.
fn param_annotations(ps: &Vec<Param>) -> (r: Vec<Option<String>>)
    ensures
        r@.len() == ps@.len(),
{
    let mut r: Vec<Option<String>> = Vec::new();
    let mut i: usize = 0;
    while i < ps.len()
        invariant
            i <= ps@.len(),
            r@.len() == i,
        decreases ps@.len() - i,
    {
        let a = match &ps[i].annotation {
            Some(t) => Some(String::from_str(t.as_str())),
            None => None,
        };
        r.push(a);
        i = i + 1;
    }
    r
}

/// What `TRY` gives for its operand's value `v`: the content of an `OK`;
/// `RETURN(ERR(e))` for an `ERR(e)`, which leaves the enclosing function;
/// anything else is refused (`E0030`) with this message.
pub fn try_outcome(v: Value) -> (r: Result<Outcome, String>)
    ensures
        match v {
            Value::OkValue(x) => r == Ok::<Outcome, String>(Outcome { value: *x, signal: Signal::Normal }),
            Value::ErrValue(x) => r == Ok::<Outcome, String>(
                Outcome { value: Value::Null, signal: Signal::Return(Value::ErrValue(x)) },
            ),
            other => r matches Err(m) && m@ == "TRY expects OK/ERR, got "@ + crate::value::type_label_spec(&other)@,
        },
{
    match v {
        Value::OkValue(x) => Ok(Outcome::normal(*x)),
        Value::ErrValue(x) => Ok(Outcome { value: Value::Null, signal: Signal::Return(Value::ErrValue(x)) }),
        other => Err(concat2("TRY expects OK/ERR, got ", type_label(&other))),
    }
}

/// What `ERR(payload)` gives: `ERR(payload)` for a STRING or DICT payload;
/// anything else is refused (`E0030`) with this message.
pub fn err_of(v: Value) -> (r: Result<Value, String>)
    ensures
        match v {
            Value::String(_) | Value::Dict(_) => r == Ok::<Value, String>(Value::ErrValue(Box::new(v))),
            other => r matches Err(m) && m@ == "ERR payload must be STRING or DICT, got "@
                + crate::value::type_label_spec(&other)@,
        },
{
    match v {
        Value::String(_) | Value::Dict(_) => Ok(Value::ErrValue(Box::new(v))),
        other => Err(concat2("ERR payload must be STRING or DICT, got ", type_label(&other))),
    }
}

/// What an expression that reads the state but changes nothing gives: a
/// value, a control signal, or an error of this code.
pub enum Effect {
    Gives(Value),
    Jumps(Signal),
    Fails(ErrorCode),
}

/// How deep the forms of `e` nest.
pub open spec fn depth(e: Expr) -> nat
    decreases e,
{
    match e {
        Expr::Return(Some(x)) => 1 + depth(*x),
        Expr::OkOf(x) => 1 + depth(*x),
        Expr::ErrOf(x) => 1 + depth(*x),
        Expr::Try(x) => 1 + depth(*x),
        Expr::IsOk(x) => 1 + depth(*x),
        Expr::IsErr(x) => 1 + depth(*x),
        Expr::If(c, t, None) => 1 + max_nat(depth(*c), depth(*t)),
        Expr::If(c, t, Some(x)) => 1 + max_nat(depth(*c), max_nat(depth(*t), depth(*x))),
        _ => 1,
    }
}

pub open spec fn max_nat(a: nat, b: nat) -> nat {
    if a >= b { a } else { b }
}

/// The effect of the expression `e`, when it is made of literals, names,
/// jumps, `RETURN`, `OK`, `ERR`, `TRY`, `IS_OK`, `IS_ERR` and `IF`, in a
/// state whose environment is `s` and whose store is `c`; such an
/// expression changes nothing. Other expressions have no effect here.
pub open spec fn effect(e: Expr, s: Seq<Seq<(String, usize)>>, c: Seq<Binding>) -> Option<Effect>
    decreases e,
{
    match e {
        Expr::Lit(v) => Some(Effect::Gives(v)),
        Expr::Var(n) => match value_of(s, c, n@) {
            Some(v) => Some(Effect::Gives(v)),
            None => Some(Effect::Fails(ErrorCode::E0020)),
        },
        Expr::Break => Some(Effect::Jumps(Signal::Break)),
        Expr::Continue => Some(Effect::Jumps(Signal::Continue)),
        Expr::Return(None) => Some(Effect::Jumps(Signal::Return(Value::Null))),
        Expr::Return(Some(x)) => match effect(*x, s, c) {
            Some(Effect::Gives(v)) => Some(Effect::Jumps(Signal::Return(v))),
            other => other,
        },
        Expr::OkOf(x) => match effect(*x, s, c) {
            Some(Effect::Gives(v)) => Some(Effect::Gives(Value::OkValue(Box::new(v)))),
            other => other,
        },
        Expr::ErrOf(x) => match effect(*x, s, c) {
            Some(Effect::Gives(v)) => if v is String || v is Dict {
                Some(Effect::Gives(Value::ErrValue(Box::new(v))))
            } else {
                Some(Effect::Fails(ErrorCode::E0030))
            },
            other => other,
        },
        Expr::Try(x) => match effect(*x, s, c) {
            Some(Effect::Gives(Value::OkValue(v))) => Some(Effect::Gives(*v)),
            Some(Effect::Gives(Value::ErrValue(v))) => Some(Effect::Jumps(Signal::Return(Value::ErrValue(v)))),
            Some(Effect::Gives(_)) => Some(Effect::Fails(ErrorCode::E0030)),
            Some(Effect::Jumps(_)) => Some(Effect::Fails(ErrorCode::E0030)),
            other => other,
        },
        Expr::IsOk(x) => match effect(*x, s, c) {
            Some(Effect::Gives(v)) => Some(Effect::Gives(Value::Boolean(v is OkValue))),
            other => other,
        },
        Expr::IsErr(x) => match effect(*x, s, c) {
            Some(Effect::Gives(v)) => Some(Effect::Gives(Value::Boolean(v is ErrValue))),
            other => other,
        },
        Expr::If(cond, t, x) => match effect(*cond, s, c) {
            Some(Effect::Gives(v)) => if truthy(v) {
                effect(*t, s, c)
            } else {
                match x {
                    Some(y) => effect(*y, s, c),
                    None => Some(Effect::Gives(Value::Null)),
                }
            },
            other => other,
        },
        _ => None,
    }
}

/// The two signals are the same, up to copies of a returned value.
pub open spec fn same_signal(a: Signal, b: Signal) -> bool {
    match (a, b) {
        (Signal::Return(v), Signal::Return(w)) => same_value(v, w),
        _ => a == b,
    }
}

proof fn lemma_same_kind(a: Value, b: Value)
    requires
        same_value(a, b),
    ensures
        truthy(a) == truthy(b),
        a is OkValue == b is OkValue,
        a is ErrValue == b is ErrValue,
        a is String == b is String,
        a is Dict == b is Dict,
        a is Array == b is Array,
        a is Null == b is Null,
{
}

proof fn lemma_value_of_push(s: Seq<Seq<(String, usize)>>, c: Seq<Binding>)
    ensures
        forall|n: Seq<char>| #[trigger] value_of(s.push(Seq::<(String, usize)>::empty()), c, n) == value_of(s, c, n),
{
    assert forall|n: Seq<char>| #[trigger] value_of(s.push(Seq::<(String, usize)>::empty()), c, n) == value_of(s, c, n) by {
        let t = s.push(Seq::<(String, usize)>::empty());
        assert(t.drop_last() =~= s);
        assert(t.last() =~= Seq::<(String, usize)>::empty());
    }
}

proof fn lemma_effect_same(e: Expr, s1: Seq<Seq<(String, usize)>>, s2: Seq<Seq<(String, usize)>>, c: Seq<Binding>)
    requires
        forall|n: Seq<char>| #[trigger] value_of(s1, c, n) == value_of(s2, c, n),
    ensures
        effect(e, s1, c) == effect(e, s2, c),
    decreases e,
{
    match e {
        Expr::Var(n) => {
            assert(value_of(s1, c, n@) == value_of(s2, c, n@));
        },
        Expr::Return(Some(x)) => lemma_effect_same(*x, s1, s2, c),
        Expr::OkOf(x) => lemma_effect_same(*x, s1, s2, c),
        Expr::ErrOf(x) => lemma_effect_same(*x, s1, s2, c),
        Expr::Try(x) => lemma_effect_same(*x, s1, s2, c),
        Expr::IsOk(x) => lemma_effect_same(*x, s1, s2, c),
        Expr::IsErr(x) => lemma_effect_same(*x, s1, s2, c),
        Expr::If(cond, t, x) => {
            lemma_effect_same(*cond, s1, s2, c);
            lemma_effect_same(*t, s1, s2, c);
            if let Some(y) = x {
                lemma_effect_same(*y, s1, s2, c);
            }
        },
        _ => {},
    }
}

proof fn lemma_effect_jumps(e: Expr, s: Seq<Seq<(String, usize)>>, c: Seq<Binding>)
    ensures
        effect(e, s, c) matches Some(Effect::Jumps(g)) ==> !(g is Normal),
    decreases e,
{
    match e {
        Expr::Return(Some(x)) => lemma_effect_jumps(*x, s, c),
        Expr::OkOf(x) => lemma_effect_jumps(*x, s, c),
        Expr::ErrOf(x) => lemma_effect_jumps(*x, s, c),
        Expr::IsOk(x) => lemma_effect_jumps(*x, s, c),
        Expr::IsErr(x) => lemma_effect_jumps(*x, s, c),
        Expr::If(cond, t, x) => {
            lemma_effect_jumps(*cond, s, c);
            lemma_effect_jumps(*t, s, c);
            if let Some(y) = x {
                lemma_effect_jumps(*y, s, c);
            }
        },
        _ => {},
    }
}

/// `r` is what the effect `x` makes an evaluation give.
pub open spec fn gives_effect(x: Effect, r: Result<Outcome, Diagnostic>) -> bool {
    match x {
        Effect::Gives(v) => r matches Ok(o) && o.signal == Signal::Normal && same_value(v, o.value),
        Effect::Jumps(g) => r matches Ok(o) && o.value == Value::Null && same_signal(g, o.signal),
        Effect::Fails(code) => r matches Err(d) && d.code == code,
    }
}

/// `r` is what the effect `x` makes an evaluation that wants a value
/// give: the value, the outcome that carries a signal, or the error.
pub open spec fn value_effect(x: Effect, r: Result<Result<Value, Outcome>, Diagnostic>) -> bool {
    match x {
        Effect::Gives(v) => r matches Ok(Ok(w)) && same_value(v, w),
        Effect::Jumps(g) => r matches Ok(Err(o)) && o.value == Value::Null && same_signal(g, o.signal),
        Effect::Fails(code) => r matches Err(d) && d.code == code,
    }
}

/// Evaluates `e`.
pub fn eval_expr<'a, H: Host>(st: &mut Evaluator<'a>, host: &mut H, e: &'a Expr, fuel: u64) -> (r: Result<
    Outcome,
    Diagnostic,
>)
    requires
        old(st).wf(),
    ensures
        kept(*old(st), *final(st)),
        fuel == 0 ==> (r matches Err(d) && d.code == ErrorCode::E0100),
        fuel > 0 ==> match *e {
            Expr::Lit(v) => r matches Ok(o) && o.signal == Signal::Normal && same_value(v, o.value) && *final(st)
                == *old(st),
            Expr::Var(n) => match value_of(old(st).env.scopes(), old(st).cells@, n@) {
                Some(v) => r matches Ok(o) && o.signal == Signal::Normal && same_value(v, o.value),
                None => r matches Err(d) && d.code == ErrorCode::E0020,
            },
            Expr::Break => r == Ok::<Outcome, Diagnostic>(Outcome { value: Value::Null, signal: Signal::Break }),
            Expr::Continue => r == Ok::<Outcome, Diagnostic>(
                Outcome { value: Value::Null, signal: Signal::Continue },
            ),
            Expr::Fun(ps, _) => old(st).closures@.len() < u64::MAX ==> (r matches Ok(o) && o.signal == Signal::Normal && (o.value matches Value::Closure {
                params,
                handle,
            } && params@.len() == ps@.len() && (forall|i: int|
                0 <= i < ps@.len() ==> #[trigger] params@[i]@ == ps@[i].name@) && handle == old(st).closures@.len())),
            _ => true,
        },
        old(st).env.scopes().len() > 0 ==> match *e {
            Expr::Let(n, x) => match effect(*x, old(st).env.scopes(), old(st).cells@) {
                Some(Effect::Gives(v)) => fuel >= 3 * depth(*x) + 3 ==> let_outcome(n@, v, r, *final(st)),
                _ => true,
            },
            _ => true,
        },
        match effect(*e, old(st).env.scopes(), old(st).cells@) {
            Some(x) => fuel >= 3 * depth(*e) ==> gives_effect(x, r) && *final(st) == *old(st),
            None => true,
        },
        match *e {
            Expr::Block(items) => old(st).env.scopes().len() > 0 && statements_ready(
                items@,
                old(st).env.scopes(),
                old(st).cells@,
                (fuel - 3) as nat,
            ) && fuel > 2 ==> gives_effect(seq_effect(items@, Value::Null, old(st).env.scopes(), old(st).cells@), r)
                && final(st).cells@ == old(st).cells@ && (r is Ok ==> final(st).env.scopes() == old(st).env.scopes()),
            _ => true,
        },
        match *e {
            Expr::While(c, _) => match effect(*c, old(st).env.scopes(), old(st).cells@) {
                Some(x) => fuel >= 3 * depth(*c) + 3 ==> while_ends_at_once(x, r),
                None => true,
            },
            _ => true,
        },
    decreases fuel,
{
    if fuel == 0 {
        return Err(exhausted(st));
    }
    match e {
        Expr::Lit(v) => Ok(Outcome::normal(copy_value(v))),
        Expr::Var(n) => {
            match st.env.get(&st.cells, n.as_str()) {
                Some(v) => Ok(Outcome::normal(copy_value(v))),
                None => Err(undefined(st, n.as_str())),
            }
        },
        Expr::Break => Ok(Outcome { value: Value::Null, signal: Signal::Break }),
        Expr::Continue => Ok(Outcome { value: Value::Null, signal: Signal::Continue }),
        Expr::Fun(ps, body) => {
            let handle = st.closures.len();
            if handle as u64 == u64::MAX {
                return Err(fail(st, ErrorCode::E0100, String::from_str("too many closures")));
            }
            let def = ClosureDef {
                params: param_names(ps),
                annotations: param_annotations(ps),
                body: &**body,
                env: st.env.copy(),
            };
            proof {
                lemma_push_closure(st.closures@, def, st.cells@.len());
            }
            st.closures.push(def);
            Ok(Outcome::normal(Value::Closure { params: param_names(ps), handle: handle as u64 }))
        },
        Expr::Call(name, args) => eval_call(st, host, name, args, fuel - 1),
        _ => eval_form(st, host, e, fuel - 1),
    }
}

/// Evaluates `e` and, when it carries no signal, gives its value.
fn eval_value<'a, H: Host>(st: &mut Evaluator<'a>, host: &mut H, e: &'a Expr, fuel: u64) -> (r: Result<
    Result<Value, Outcome>,
    Diagnostic,
>)
    requires
        old(st).wf(),
    ensures
        kept(*old(st), *final(st)),
        r matches Ok(Err(o)) ==> !(o.signal is Normal),
        fuel > 1 ==> match *e {
            Expr::Lit(v) => r matches Ok(Ok(x)) && same_value(v, x) && *final(st) == *old(st),
            _ => true,
        },
        match effect(*e, old(st).env.scopes(), old(st).cells@) {
            Some(x) => fuel >= 3 * depth(*e) + 1 ==> value_effect(x, r) && *final(st) == *old(st),
            None => true,
        },
    decreases fuel,
{
    if fuel == 0 {
        return Err(exhausted(st));
    }
    proof {
        lemma_effect_jumps(*e, st.env.scopes(), st.cells@);
    }
    match eval_expr(st, host, e, fuel - 1) {
        Err(d) => Err(d),
        Ok(o) => if block_continues(&o) {
            Ok(Ok(o.value))
        } else {
            Ok(Err(o))
        },
    }
}

/// After `LET(n, x)`, where `x` gives `v` and changes nothing: the
/// binding is refused (`E0025`, see `check_let_shadowing`), or the call
/// gives `NULL` and `n` reads `v`.
pub open spec fn let_outcome(n: Seq<char>, v: Value, r: Result<Outcome, Diagnostic>, after: Evaluator) -> bool {
    match r {
        Ok(o) => o == (Outcome { value: Value::Null, signal: Signal::Normal }) && (value_of(
            after.env.scopes(),
            after.cells@,
            n,
        ) matches Some(y) && same_value(v, y)),
        Err(d) => d.code == ErrorCode::E0025,
    }
}

/// Evaluates a block: its statements run in turn in a scope of their own,
/// until one carries a signal; the block gives the last outcome.
fn eval_block<'a, H: Host>(st: &mut Evaluator<'a>, host: &mut H, items: &'a Vec<Expr>, fuel: u64) -> (r: Result<
    Outcome,
    Diagnostic,
>)
    requires
        old(st).wf(),
    ensures
        kept(*old(st), *final(st)),
        old(st).env.scopes().len() > 0 && statements_ready(items@, old(st).env.scopes(), old(st).cells@, (fuel - 1) as nat)
            && fuel > 0 ==> gives_effect(seq_effect(items@, Value::Null, old(st).env.scopes(), old(st).cells@), r)
            && final(st).cells@ == old(st).cells@ && (r is Ok ==> final(st).env.scopes() == old(st).env.scopes()),
    decreases fuel,
{
    if fuel == 0 {
        return Err(exhausted(st));
    }
    let ghost s0 = st.env.scopes();
    let ghost c0 = st.cells@;
    let ghost ready = s0.len() > 0 && statements_ready(items@, s0, c0, (fuel - 1) as nat);
    open_scope(st);
    let ghost s1 = st.env.scopes();
    proof {
        lemma_value_of_push(s0, c0);
    }
    let mut last = Outcome::normal(Value::Null);
    let ghost mut prev = Value::Null;
    let mut i: usize = 0;
    assert(items@.skip(0) =~= items@);
    while i < items.len()
        invariant
            st.wf(),
            old(st).cells@.len() <= st.cells@.len(),
            st.call_stack@ == old(st).call_stack@,
            fuel > 0,
            i <= items@.len(),
            s0 == old(st).env.scopes(),
            c0 == old(st).cells@,
            s1 == s0.push(Seq::<(String, usize)>::empty()),
            ready == (s0.len() > 0 && statements_ready(items@, s0, c0, (fuel - 1) as nat)),
            forall|n: Seq<char>| #[trigger] value_of(s1, c0, n) == value_of(s0, c0, n),
            last.signal == Signal::Normal,
            ready ==> st.env.scopes() == s1 && st.cells@ == c0 && same_value(prev, last.value) && seq_effect(
                items@,
                Value::Null,
                s0,
                c0,
            ) == seq_effect(items@.skip(i as int), prev, s0, c0),
        decreases items@.len() - i,
    {
        proof {
            lemma_effect_same(items@[i as int], s1, s0, c0);
            lemma_effect_jumps(items@[i as int], s0, c0);
            assert(items@.skip(i as int)[0] == items@[i as int]);
            assert(items@.skip(i as int).drop_first() =~= items@.skip(i + 1));
        }
        let o = match eval_expr(st, host, &items[i], fuel - 1) {
            Err(d) => return Err(d),
            Ok(o) => o,
        };
        if !block_continues(&o) {
            close_scope(st);
            proof {
                assert(s1.drop_last() =~= s0);
            }
            return Ok(o);
        }
        proof {
            if ready {
                prev = effect(items@[i as int], s0, c0)->Some_0->Gives_0;
            }
        }
        last = o;
        i = i + 1;
    }
    close_scope(st);
    proof {
        assert(s1.drop_last() =~= s0);
        assert(items@.skip(i as int).len() == 0);
    }
    Ok(last)
}

/// `WHILE(cond, body)` ends at once when `cond`, changing nothing, gives
/// this: a false value ends the loop with `NULL`; a signal or an error is
/// the loop's outcome.
pub open spec fn while_ends_at_once(x: Effect, r: Result<Outcome, Diagnostic>) -> bool {
    match x {
        Effect::Gives(v) => !truthy(v) ==> r == Ok::<Outcome, Diagnostic>(
            Outcome { value: Value::Null, signal: Signal::Normal },
        ),
        other => gives_effect(other, r),
    }
}

/// Evaluates `WHILE(cond, body)`: the body runs, in a scope of its own,
/// while the condition is true; `BREAK` ends the loop with `NULL`,
/// `CONTINUE` goes on, `RETURN` leaves it.
fn eval_while<'a, H: Host>(st: &mut Evaluator<'a>, host: &mut H, cond: &'a Expr, body: &'a Expr, fuel: u64) -> (r:
    Result<Outcome, Diagnostic>)
    requires
        old(st).wf(),
    ensures
        kept(*old(st), *final(st)),
        match effect(*cond, old(st).env.scopes(), old(st).cells@) {
            Some(x) => fuel >= 3 * depth(*cond) + 1 ==> while_ends_at_once(x, r) && (!(x is Gives) || !truthy(
                x->Gives_0,
            ) ==> *final(st) == *old(st)),
            None => true,
        },
    decreases fuel,
{
    if fuel == 0 {
        return Err(exhausted(st));
    }
    let ghost x0 = effect(*cond, st.env.scopes(), st.cells@);
    let ghost at_once = x0 is Some && fuel >= 3 * depth(*cond) + 1 && (!(x0->Some_0 is Gives) || !truthy(
        x0->Some_0->Gives_0,
    ));
    proof {
        lemma_effect_jumps(*cond, st.env.scopes(), st.cells@);
    }
    let mut left: u64 = fuel;
    loop
        invariant
            st.wf(),
            old(st).cells@.len() <= st.cells@.len(),
            st.call_stack@ == old(st).call_stack@,
            fuel > 0,
            left <= fuel,
            x0 == effect(*cond, old(st).env.scopes(), old(st).cells@),
            at_once == (x0 is Some && fuel >= 3 * depth(*cond) + 1 && (!(x0->Some_0 is Gives) || !truthy(
                x0->Some_0->Gives_0,
            ))),
            x0 matches Some(Effect::Jumps(g)) ==> !(g is Normal),
            left == fuel ==> *st == *old(st),
            left < fuel ==> !at_once,
        decreases left,
    {
        if left == 0 {
            return Err(exhausted(st));
        }
        let ghost first = left == fuel;
        left = left - 1;
        let c = match eval_expr(st, host, cond, fuel - 1) {
            Err(d) => return Err(d),
            Ok(o) => o,
        };
        proof {
            if first && (x0 matches Some(Effect::Gives(_))) && fuel >= 3 * depth(*cond) + 1 {
                lemma_same_kind(x0->Some_0->Gives_0, c.value);
            }
        }
        match while_step(&c) {
            WhileStep::Propagate => return Ok(c),
            WhileStep::Stop => return Ok(Outcome::normal(Value::Null)),
            WhileStep::Run => {},
        }
        open_scope(st);
        let o = match eval_expr(st, host, body, fuel - 1) {
            Err(d) => return Err(d),
            Ok(o) => o,
        };
        close_scope(st);
        match after_body(&o) {
            LoopNext::Next => {},
            LoopNext::Break => return Ok(Outcome::normal(Value::Null)),
            LoopNext::Return => return Ok(o),
        }
    }
}

/// Evaluates the forms other than literals, names, jumps, `FUN` and calls.
fn eval_form<'a, H: Host>(st: &mut Evaluator<'a>, host: &mut H, e: &'a Expr, fuel: u64) -> (r: Result<
    Outcome,
    Diagnostic,
>)
    requires
        old(st).wf(),
        !(*e is Lit || *e is Var || *e is Break || *e is Continue || *e is Fun || *e is Call),
    ensures
        kept(*old(st), *final(st)),
        old(st).env.scopes().len() > 0 ==> match *e {
            Expr::Let(n, x) => match effect(*x, old(st).env.scopes(), old(st).cells@) {
                Some(Effect::Gives(v)) => fuel >= 3 * depth(*x) + 2 ==> let_outcome(n@, v, r, *final(st)),
                _ => true,
            },
            _ => true,
        },
        match effect(*e, old(st).env.scopes(), old(st).cells@) {
            Some(x) => fuel + 1 >= 3 * depth(*e) ==> gives_effect(x, r) && *final(st) == *old(st),
            None => true,
        },
        match *e {
            Expr::Block(items) => old(st).env.scopes().len() > 0 && statements_ready(
                items@,
                old(st).env.scopes(),
                old(st).cells@,
                (fuel - 2) as nat,
            ) && fuel > 1 ==> gives_effect(seq_effect(items@, Value::Null, old(st).env.scopes(), old(st).cells@), r)
                && final(st).cells@ == old(st).cells@ && (r is Ok ==> final(st).env.scopes() == old(st).env.scopes()),
            _ => true,
        },
        match *e {
            Expr::While(c, _) => match effect(*c, old(st).env.scopes(), old(st).cells@) {
                Some(x) => fuel >= 3 * depth(*c) + 2 ==> while_ends_at_once(x, r),
                None => true,
            },
            _ => true,
        },
    decreases fuel,
{
    if fuel == 0 {
        return Err(exhausted(st));
    }
    match e {
        Expr::Let(name, value) => {
            let v = match eval_value(st, host, value, fuel - 1) {
                Err(d) => return Err(d),
                Ok(Err(o)) => return Ok(o),
                Ok(Ok(v)) => v,
            };
            if st.env.get_cell(name.as_str()).is_some() {
                proof {
                    lemma_cell_of_bound(st.env.scopes(), name@);
                }
                st.env.set_existing(&mut st.cells, name.as_str(), v);
            } else {
                match check_let_shadowing(name.as_str(), st.allow_builtin_shadow) {
                    ShadowCheck::Allowed => {},
                    ShadowCheck::Warned(w) => st.warnings.push(w),
                    ShadowCheck::Refused(m) => return Err(fail(st, ErrorCode::E0025, m)),
                }
                let ghost n0 = st.cells@.len();
                st.env.set_local(&mut st.cells, name.clone(), v);
                proof {
                    lemma_closures_grow(st.closures@, n0, st.cells@.len());
                }
            }
            Ok(Outcome::normal(Value::Null))
        },
        Expr::LetPattern(p, value) => {
            let v = match eval_value(st, host, value, fuel - 1) {
                Err(d) => return Err(d),
                Ok(Err(o)) => return Ok(o),
                Ok(Ok(v)) => v,
            };
            let one = vec![copy_value(&v)];
            let texts = float_texts(host, &one);
            let ghost n0 = st.cells@.len();
            match destructure(p, &v, &mut st.env, &mut st.cells, &texts) {
                Ok(()) => {
                    proof {
                        lemma_closures_grow(st.closures@, n0, st.cells@.len());
                    }
                    Ok(Outcome::normal(Value::Null))
                },
                Err(pe) => {
                    proof {
                        lemma_closures_grow(st.closures@, n0, st.cells@.len());
                    }
                    Err(pattern_failure(st, pe))
                },
            }
        },
        Expr::Block(items) => eval_block(st, host, items, fuel - 1),
        Expr::ArrayOf(items) => {
            let mut vs: Vec<Value> = Vec::new();
            let mut i: usize = 0;
            while i < items.len()
                invariant
                    !(*e is Let),
                    !(*e is Block),
                    !(*e is While),
                    effect(*e, old(st).env.scopes(), old(st).cells@) is None,
                    st.wf(),
                    old(st).cells@.len() <= st.cells@.len(),
                    st.call_stack@ == old(st).call_stack@,
                    fuel > 0,
                decreases items@.len() - i,
            {
                match eval_value(st, host, &items[i], fuel - 1) {
                    Err(d) => return Err(d),
                    Ok(Err(o)) => return Ok(o),
                    Ok(Ok(v)) => vs.push(v),
                }
                i = i + 1;
            }
            Ok(Outcome::normal(Value::Array(vs)))
        },
        Expr::DictOf(entries) => {
            let mut vs: Vec<(Value, Value)> = Vec::new();
            let mut i: usize = 0;
            while i < entries.len()
                invariant
                    !(*e is Let),
                    !(*e is Block),
                    !(*e is While),
                    effect(*e, old(st).env.scopes(), old(st).cells@) is None,
                    st.wf(),
                    old(st).cells@.len() <= st.cells@.len(),
                    st.call_stack@ == old(st).call_stack@,
                    fuel > 0,
                decreases entries@.len() - i,
            {
                let k = match eval_value(st, host, &entries[i].0, fuel - 1) {
                    Err(d) => return Err(d),
                    Ok(Err(o)) => return Ok(o),
                    Ok(Ok(v)) => v,
                };
                let v = match eval_value(st, host, &entries[i].1, fuel - 1) {
                    Err(d) => return Err(d),
                    Ok(Err(o)) => return Ok(o),
                    Ok(Ok(v)) => v,
                };
                vs.push((k, v));
                i = i + 1;
            }
            Ok(Outcome::normal(Value::Dict(vs)))
        },
        Expr::If(cond, then_branch, else_branch) => {
            let ghost s0 = st.env.scopes();
            let ghost c0 = st.cells@;
            let c = match eval_expr(st, host, cond, fuel - 1) {
                Err(d) => return Err(d),
                Ok(o) => o,
            };
            proof {
                lemma_effect_jumps(**cond, s0, c0);
                if let Some(Effect::Gives(v)) = effect(**cond, s0, c0) {
                    if fuel - 1 >= 3 * depth(**cond) {
                        lemma_same_kind(v, c.value);
                    }
                }
            }
            match if_step(&c, else_branch.is_some()) {
                IfStep::Propagate => Ok(c),
                IfStep::Then => eval_expr(st, host, then_branch, fuel - 1),
                IfStep::Else => match else_branch {
                    Some(b) => eval_expr(st, host, b, fuel - 1),
                    None => Ok(Outcome::normal(Value::Null)),
                },
                IfStep::Null => Ok(Outcome::normal(Value::Null)),
            }
        },
        Expr::While(cond, body) => eval_while(st, host, cond, body, fuel - 1),
        Expr::For(var, iter, body) => eval_for(st, host, var, iter, body, fuel - 1),
        Expr::Return(value) => {
            let v = match value {
                Some(x) => match eval_value(st, host, x, fuel - 1) {
                    Err(d) => return Err(d),
                    Ok(Err(o)) => return Ok(o),
                    Ok(Ok(v)) => v,
                },
                None => Value::Null,
            };
            Ok(Outcome { value: Value::Null, signal: Signal::Return(v) })
        },
        Expr::OkOf(x) => match eval_value(st, host, x, fuel - 1) {
            Err(d) => Err(d),
            Ok(Err(o)) => Ok(o),
            Ok(Ok(v)) => Ok(Outcome::normal(Value::OkValue(Box::new(v)))),
        },
        Expr::ErrOf(x) => match eval_value(st, host, x, fuel - 1) {
            Err(d) => Err(d),
            Ok(Err(o)) => Ok(o),
            Ok(Ok(v)) => match err_of(v) {
                Ok(w) => Ok(Outcome::normal(w)),
                Err(m) => Err(fail(st, ErrorCode::E0030, m)),
            },
        },
        Expr::Panic(x) => match eval_value(st, host, x, fuel - 1) {
            Err(d) => Err(d),
            Ok(Err(o)) => Ok(o),
            Ok(Ok(v)) => {
                let one = vec![copy_value(&v)];
                let texts = float_texts(host, &one);
                let shown = display(&v, &texts);
                Err(fail(st, ErrorCode::E0100, concat2("PANIC: ", shown.as_str())))
            },
        },
        Expr::Try(x) => match eval_expr(st, host, x, fuel - 1) {
            Err(d) => Err(d),
            Ok(o) => match try_outcome(o.value) {
                Ok(t) => Ok(t),
                Err(m) => Err(fail(st, ErrorCode::E0030, m)),
            },
        },
        Expr::IsOk(x) => match eval_value(st, host, x, fuel - 1) {
            Err(d) => Err(d),
            Ok(Err(o)) => Ok(o),
            Ok(Ok(v)) => Ok(Outcome::normal(Value::Boolean(matches!(v, Value::OkValue(_))))),
        },
        Expr::IsErr(x) => match eval_value(st, host, x, fuel - 1) {
            Err(d) => Err(d),
            Ok(Err(o)) => Ok(o),
            Ok(Ok(v)) => Ok(Outcome::normal(Value::Boolean(matches!(v, Value::ErrValue(_))))),
        },
        Expr::OrDie(x, default) => {
            st.warnings.push(
                Warning {
                    code: WarningCode::W0051,
                    message: String::from_str(
                        "`OR_DIE` is a v0.3-compat alias; use `UNWRAP_OR` instead (will be removed in v0.5)",
                    ),
                },
            );
            match eval_value(st, host, x, fuel - 1) {
                Err(d) => Err(d),
                Ok(Err(o)) => Ok(o),
                Ok(Ok(Value::OkValue(v))) => Ok(Outcome::normal(*v)),
                Ok(Ok(Value::ErrValue(_))) => match eval_value(st, host, default, fuel - 1) {
                    Err(d) => Err(d),
                    Ok(Err(o)) => Ok(o),
                    Ok(Ok(d)) => Ok(Outcome::normal(d)),
                },
                Ok(Ok(other)) => Err(
                    fail(st, ErrorCode::E0030, concat2("UNWRAP_OR expects OK/ERR, got ", type_label(&other))),
                ),
            }
        },
        Expr::Match(value, clauses, default) => eval_match(st, host, value, clauses, default, fuel - 1),
        Expr::Import(path, names) => {
            let exports = match host.load_module(String::from_str(path.as_str())) {
                Ok(x) => x,
                Err(e) => return Err(builtin_failure(st, e)),
            };
            let mut module_env = Env::new();
            let mut export_names: Vec<String> = Vec::new();
            let mut rest = exports;
            while rest.len() > 0
                invariant
                    !(*e is Let),
                    !(*e is Block),
                    !(*e is While),
                    effect(*e, old(st).env.scopes(), old(st).cells@) is None,
                    st.wf(),
                    old(st).cells@.len() <= st.cells@.len(),
                    st.call_stack@ == old(st).call_stack@,
                    cells_below(module_env.scopes(), st.cells@.len()),
                decreases rest@.len(),
            {
                let entry = rest.remove(0);
                export_names.push(String::from_str(entry.0.as_str()));
                let ghost n0 = st.cells@.len();
                module_env.set_local(&mut st.cells, entry.0, entry.1);
                proof {
                    lemma_closures_grow(st.closures@, n0, st.cells@.len());
                    lemma_below_grows(st.env.scopes(), n0, st.cells@.len());
                }
            }
            let ghost n1 = st.cells@.len();
            let bound = import_names(&mut st.env, &module_env, &export_names, names, path.as_str(), &mut st.cells);
            proof {
                lemma_closures_grow(st.closures@, n1, st.cells@.len());
            }
            match bound {
                Ok(()) => Ok(Outcome::normal(Value::Null)),
                Err((c, m)) => Err(fail(st, c, m)),
            }
        },
        Expr::Export(names) => match check_exports(&st.env, names) {
            Some(m) => Err(fail(st, ErrorCode::E0020, m)),
            None => Ok(Outcome::normal(Value::Null)),
        },
        _ => vstd::pervasive::unreached(),
    }
}

/// `FOR` goes through the value `v`: an array, a dict or a string.
pub open spec fn iterable(v: Value) -> bool {
    v is Array || v is Dict || v is String
}

/// Evaluates `FOR(var, iter, body)`: the body runs once for each item
/// (see `for_items`), with `var` bound to it in a scope of the loop's own.
fn eval_for<'a, H: Host>(
    st: &mut Evaluator<'a>,
    host: &mut H,
    var: &'a String,
    iter: &'a Expr,
    body: &'a Expr,
    fuel: u64,
) -> (r: Result<Outcome, Diagnostic>)
    requires
        old(st).wf(),
    ensures
        kept(*old(st), *final(st)),
        match effect(*iter, old(st).env.scopes(), old(st).cells@) {
            Some(Effect::Gives(v)) => fuel >= 3 * depth(*iter) + 2 ==> if iterable(v) {
                r matches Ok(o) ==> (o == (Outcome { value: Value::Null, signal: Signal::Normal }) || o.signal is Return)
                    && final(st).env.scopes() == old(st).env.scopes()
            } else {
                r matches Err(d) && d.code == ErrorCode::E0030 && d.message@
                    == "FOR expects an iterable (array/dict/string), got "@ + type_label_spec(&v)@
            },
            Some(x) => fuel >= 3 * depth(*iter) + 2 ==> gives_effect(x, r),
            None => true,
        },
    decreases fuel,
{
    if fuel == 0 {
        return Err(exhausted(st));
    }
    let v = match eval_value(st, host, iter, fuel - 1) {
        Err(d) => return Err(d),
        Ok(Err(o)) => return Ok(o),
        Ok(Ok(v)) => v,
    };
    proof {
        if let Some(Effect::Gives(v0)) = effect(*iter, old(st).env.scopes(), old(st).cells@) {
            if fuel >= 3 * depth(*iter) + 2 {
                lemma_same_kind(v0, v);
            }
        }
    }
    let mut saved = st.env.copy();
    let ghost s_after = st.env.scopes();
    open_scope(st);
    let items = match for_items(v) {
        Ok(xs) => xs,
        Err(m) => {
            restore_scopes(st, &mut saved);
            return Err(fail(st, ErrorCode::E0030, m));
        },
    };
    let mut i: usize = 0;
    while i < items.len()
        invariant
            st.wf(),
            old(st).cells@.len() <= st.cells@.len(),
            st.call_stack@ == old(st).call_stack@,
            fuel > 0,
            cells_below(saved.scopes(), st.cells@.len()),
            saved.scopes() == s_after,
            match effect(*iter, old(st).env.scopes(), old(st).cells@) {
                Some(Effect::Gives(_)) => fuel >= 3 * depth(*iter) + 2 ==> s_after == old(st).env.scopes(),
                _ => true,
            },
            match effect(*iter, old(st).env.scopes(), old(st).cells@) {
                Some(Effect::Gives(v)) => fuel >= 3 * depth(*iter) + 2 ==> iterable(v),
                Some(_) => fuel < 3 * depth(*iter) + 2,
                None => true,
            },
        decreases items@.len() - i,
    {
        let ghost n0 = st.cells@.len();
        st.env.set_local(&mut st.cells, var.clone(), copy_value(&items[i]));
        proof {
            lemma_closures_grow(st.closures@, n0, st.cells@.len());
            lemma_below_grows(saved.scopes(), n0, st.cells@.len());
        }
        let ghost n1 = st.cells@.len();
        let o = match eval_expr(st, host, body, fuel - 1) {
            Err(d) => return Err(d),
            Ok(o) => o,
        };
        proof {
            lemma_below_grows(saved.scopes(), n1, st.cells@.len());
        }
        match after_body(&o) {
            LoopNext::Next => {},
            LoopNext::Break => {
                restore_scopes(st, &mut saved);
                return Ok(Outcome::normal(Value::Null));
            },
            LoopNext::Return => {
                restore_scopes(st, &mut saved);
                return Ok(o);
            },
        }
        i = i + 1;
    }
    restore_scopes(st, &mut saved);
    Ok(Outcome::normal(Value::Null))
}

/// Evaluates `MATCH(value, clauses..., default)`: the body of the first
/// clause whose pattern matches runs in a scope holding the pattern's
/// bindings; without a match, the default runs.
fn eval_match<'a, H: Host>(
    st: &mut Evaluator<'a>,
    host: &mut H,
    value: &'a Expr,
    clauses: &'a Vec<(Pattern, Expr)>,
    default: &'a Expr,
    fuel: u64,
) -> (r: Result<Outcome, Diagnostic>)
    requires
        old(st).wf(),
    ensures
        kept(*old(st), *final(st)),
    decreases fuel,
{
    if fuel == 0 {
        return Err(exhausted(st));
    }
    let v = match eval_value(st, host, value, fuel - 1) {
        Err(d) => return Err(d),
        Ok(Err(o)) => return Ok(o),
        Ok(Ok(v)) => v,
    };
    let mut i: usize = 0;
    while i < clauses.len()
        invariant
            st.wf(),
            old(st).cells@.len() <= st.cells@.len(),
            st.call_stack@ == old(st).call_stack@,
            fuel > 0,
        decreases clauses@.len() - i,
    {
        let mut bindings: Vec<(String, Value)> = Vec::new();
        match try_match(&clauses[i].0, &v, &st.env, &st.cells, &mut bindings) {
            Err(pe) => return Err(pattern_failure(st, pe)),
            Ok(false) => {},
            Ok(true) => {
                open_scope(st);
                let mut k: usize = 0;
                while k < bindings.len()
                    invariant
                        st.wf(),
                        old(st).cells@.len() <= st.cells@.len(),
                        st.call_stack@ == old(st).call_stack@,
                    decreases bindings@.len() - k,
                {
                    let ghost n0 = st.cells@.len();
                    st.env.set_local(&mut st.cells, bindings[k].0.clone(), copy_value(&bindings[k].1));
                    proof {
                        lemma_closures_grow(st.closures@, n0, st.cells@.len());
                    }
                    k = k + 1;
                }
                let result = eval_expr(st, host, &clauses[i].1, fuel - 1);
                close_scope(st);
                return result;
            },
        }
        i = i + 1;
    }
    match eval_value(st, host, default, fuel - 1) {
        Err(d) => Err(d),
        Ok(Err(o)) => Ok(o),
        Ok(Ok(d)) => Ok(Outcome::normal(d)),
    }
}

/// What `SET(t, x)`, where `x` gives `v` and changes nothing, does to a
/// state whose environment is `scopes` and whose store is `cells`: an
/// unbound `t` is `E0020`, an immutable cell `E0024`; a mutable cell takes
/// the value, which `t` then reads, and the call gives `NULL`.
pub open spec fn set_outcome(
    scopes: Seq<Seq<(String, usize)>>,
    cells: Seq<Binding>,
    t: Seq<char>,
    v: Value,
    r: Result<Outcome, Diagnostic>,
    after: Evaluator,
) -> bool {
    match cell_of(scopes, t) {
        None => r matches Err(d) && d.code == ErrorCode::E0020,
        Some(c) => if cells[c as int].mutable {
            &&& r == Ok::<Outcome, Diagnostic>(Outcome { value: Value::Null, signal: Signal::Normal })
            &&& after.env.scopes() == scopes
            &&& value_of(after.env.scopes(), after.cells@, t) matches Some(x) && same_value(v, x)
        } else {
            r matches Err(d) && d.code == ErrorCode::E0024
        },
    }
}

/// Evaluates `SET(target, value)`: stores the value in the cell that the
/// name `target` is bound to (see `set_form_error` and `set_result`).
fn eval_set<'a, H: Host>(st: &mut Evaluator<'a>, host: &mut H, args: &'a Vec<Expr>, fuel: u64) -> (r: Result<
    Outcome,
    Diagnostic,
>)
    requires
        old(st).wf(),
    ensures
        kept(*old(st), *final(st)),
        fuel > 0 && args@.len() != 2 ==> (r matches Err(d) && d.code == ErrorCode::E0022),
        fuel > 0 && args@.len() == 2 && !(args@[0] is Var) ==> (r matches Err(d) && d.code == ErrorCode::E0030),
        args@.len() == 2 ==> match (args@[0], effect(args@[1], old(st).env.scopes(), old(st).cells@)) {
            (Expr::Var(t), Some(Effect::Gives(v))) => fuel >= 3 * depth(args@[1]) + 2 ==> set_outcome(
                old(st).env.scopes(),
                old(st).cells@,
                t@,
                v,
                r,
                *final(st),
            ),
            _ => true,
        },
    decreases fuel,
{
    if fuel == 0 {
        return Err(exhausted(st));
    }
    let target_is_name = args.len() == 2 && match &args[0] {
        Expr::Var(_) => true,
        _ => false,
    };
    if let Some((c, m)) = set_form_error(args.len(), target_is_name) {
        return Err(fail(st, c, m));
    }
    let target: &String = match &args[0] {
        Expr::Var(n) => n,
        _ => vstd::pervasive::unreached(),
    };
    let v = match eval_value(st, host, &args[1], fuel - 1) {
        Err(d) => return Err(d),
        Ok(Err(o)) => return Ok(o),
        Ok(Ok(v)) => v,
    };
    proof {
        lemma_cell_of_bound(st.env.scopes(), target@);
    }
    let stored = st.env.set_cell_value(&mut st.cells, target.as_str(), v);
    match set_result(stored, target.as_str()) {
        Ok(x) => Ok(Outcome::normal(x)),
        Err((ErrorCode::E0020, _)) => Err(undefined(st, target.as_str())),
        Err((c, m)) => Err(fail(st, c, m)),
    }
}

/// The value that the expression `e`, which changes nothing, gives.
pub open spec fn arg_value(e: Expr, s: Seq<Seq<(String, usize)>>, c: Seq<Binding>) -> Value {
    effect(e, s, c)->Some_0->Gives_0
}

/// With `fuel`, the argument `e` gives a value and changes nothing.
pub open spec fn given_arg(e: Expr, s: Seq<Seq<(String, usize)>>, c: Seq<Binding>, fuel: nat) -> bool {
    fuel >= 3 * depth(e) && effect(e, s, c) matches Some(Effect::Gives(_))
}

/// The arguments before position `i` give values other than `ERR`, and
/// change nothing.
pub open spec fn plain_args_before(args: Seq<Expr>, i: int, s: Seq<Seq<(String, usize)>>, c: Seq<Binding>, fuel: nat) -> bool {
    forall|j: int|
        0 <= j < i ==> given_arg(#[trigger] args[j], s, c, fuel) && !(arg_value(args[j], s, c) is ErrValue)
}

/// The argument at position `k` is the first one to give an `ERR`, after
/// arguments that give other values; none of them changes anything.
pub open spec fn first_err_arg(args: Seq<Expr>, k: int, s: Seq<Seq<(String, usize)>>, c: Seq<Binding>, fuel: nat) -> bool {
    &&& 0 <= k < args.len()
    &&& given_arg(args[k], s, c, fuel)
    &&& arg_value(args[k], s, c) is ErrValue
    &&& plain_args_before(args, k, s, c, fuel)
}

/// Every argument gives a value and changes nothing; none gives an `ERR`
/// unless the callee `name` consumes them.
pub open spec fn args_given(name: Seq<char>, args: Seq<Expr>, s: Seq<Seq<(String, usize)>>, c: Seq<Binding>, fuel: nat) -> bool {
    forall|j: int|
        0 <= j < args.len() ==> given_arg(#[trigger] args[j], s, c, fuel) && (err_consumer_names().contains(name)
            || !(arg_value(args[j], s, c) is ErrValue))
}

/// `vals` are copies of the values that the arguments give.
pub open spec fn copies_of_args(vals: Seq<Value>, args: Seq<Expr>, s: Seq<Seq<(String, usize)>>, c: Seq<Binding>) -> bool {
    &&& vals.len() == args.len()
    &&& forall|j: int| 0 <= j < args.len() ==> same_value(arg_value(#[trigger] args[j], s, c), vals[j])
}

/// The call's result `r` is the value result `rv`.
pub open spec fn value_outcome(rv: Result<Value, Diagnostic>, r: Result<Outcome, Diagnostic>) -> bool {
    match rv {
        Ok(v) => r == Ok::<Outcome, Diagnostic>(Outcome { value: v, signal: Signal::Normal }),
        Err(d) => r == Err::<Outcome, Diagnostic>(d),
    }
}

/// The call's result `r` is the built-in's result `rb`: its value, or a
/// diagnostic with its code and message.
pub open spec fn builtin_called(rb: Result<Value, BuiltinError>, r: Result<Outcome, Diagnostic>) -> bool {
    match rb {
        Ok(v) => r == Ok::<Outcome, Diagnostic>(Outcome { value: v, signal: Signal::Normal }),
        Err(e) => r matches Err(d) && d.code == e.code && d.message == e.message,
    }
}

/// Evaluates a call of `name` with the argument expressions `args`.
/// `SET` and the empty `ARRAY()` / `DICT()` are forms of their own.
/// Otherwise the callee is the value bound to `name` when the call
/// starts, else the built-in of that name (see `call_target`); the
/// arguments are evaluated from left to right, and the first `ERR` among
/// them is the call's result, without evaluating the rest, unless the
/// callee consumes `ERR` arguments (see `short_circuits`).
pub fn eval_call<'a, H: Host>(st: &mut Evaluator<'a>, host: &mut H, name: &'a String, args: &'a Vec<Expr>, fuel: u64) -> (r:
    Result<Outcome, Diagnostic>)
    requires
        old(st).wf(),
    ensures
        kept(*old(st), *final(st)),
        fuel == 0 ==> (r matches Err(d) && d.code == ErrorCode::E0100),
        forall|k: int|
            fuel > 1 && name@ != "SET"@ && !err_consumer_names().contains(name@) && #[trigger] first_err_arg(
                args@,
                k,
                old(st).env.scopes(),
                old(st).cells@,
                (fuel - 1) as nat,
            ) ==> (r matches Ok(o) && o.signal == Signal::Normal && same_value(
                arg_value(args@[k], old(st).env.scopes(), old(st).cells@),
                o.value,
            ) && *final(st) == *old(st)),
        fuel > 1 && name@ != "SET"@ && !((name@ == "ARRAY"@ || name@ == "DICT"@) && args@.len() == 0) && value_of(
            old(st).env.scopes(),
            old(st).cells@,
            name@,
        ) is None && args_given(name@, args@, old(st).env.scopes(), old(st).cells@, (fuel - 1) as nat) ==> match lookup_first(
            builtin_table(),
            name@,
        ) {
            Some(b) => b != Builtin::CallMethod ==> exists|vals: Seq<Value>, rb: Result<Value, BuiltinError>|
                copies_of_args(vals, args@, old(st).env.scopes(), old(st).cells@) && #[trigger] builtin_outcome(b, vals, rb)
                    && builtin_called(rb, r),
            None => r matches Err(d) && d.code == ErrorCode::E0020,
        },
        fuel > 2 && name@ != "SET"@ && !((name@ == "ARRAY"@ || name@ == "DICT"@) && args@.len() == 0) && args_given(
            name@,
            args@,
            old(st).env.scopes(),
            old(st).cells@,
            (fuel - 1) as nat,
        ) ==> match value_of(old(st).env.scopes(), old(st).cells@, name@) {
            Some(Value::Closure { handle, .. }) => exists|vals: Seq<Value>|
                copies_of_args(vals, args@, old(st).env.scopes(), old(st).cells@) && #[trigger] invoked(
                    *old(st),
                    handle,
                    vals,
                    (fuel - 1) as nat,
                    r,
                ),
            Some(Value::NativeFn { name: n, .. }) => match collection_named(n@) {
                Some(c) => exists|vals: Seq<Value>, rv: Result<Value, Diagnostic>|
                    copies_of_args(vals, args@, old(st).env.scopes(), old(st).cells@) && #[trigger] collection_ran(
                        c,
                        vals,
                        (fuel - 1) as nat,
                        rv,
                    ) && value_outcome(rv, r),
                None => true,
            },
            _ => true,
        },
        fuel > 1 && name@ == "SET"@ && args@.len() != 2 ==> (r matches Err(d) && d.code == ErrorCode::E0022),
        fuel > 1 && name@ == "SET"@ && args@.len() == 2 && !(args@[0] is Var) ==> (r matches Err(d) && d.code
            == ErrorCode::E0030),
        name@ == "SET"@ && args@.len() == 2 ==> match (args@[0], effect(args@[1], old(st).env.scopes(), old(st).cells@)) {
            (Expr::Var(t), Some(Effect::Gives(v))) => fuel >= 3 * depth(args@[1]) + 3 ==> set_outcome(
                old(st).env.scopes(),
                old(st).cells@,
                t@,
                v,
                r,
                *final(st),
            ),
            _ => true,
        },
    decreases fuel,
{
    if fuel == 0 {
        return Err(exhausted(st));
    }
    let ghost guard = fuel > 1 && name@ != "SET"@ && !err_consumer_names().contains(name@);
    let bound: Option<Value> = match st.env.get(&st.cells, name.as_str()) {
        Some(v) => Some(copy_value(v)),
        None => None,
    };
    let target = match &bound {
        Some(v) => call_target(name.as_str(), args.len(), Some(v)),
        None => call_target(name.as_str(), args.len(), None),
    };
    match target {
        CallTarget::SetForm => return eval_set(st, host, args, fuel - 1),
        CallTarget::Empty(v) => return Ok(Outcome::normal(v)),
        _ => {},
    }
    assert(name@ != "SET"@);
    let mut vals: Vec<Value> = Vec::new();
    let mut i: usize = 0;
    while i < args.len()
        invariant
            st.wf(),
            old(st).cells@.len() <= st.cells@.len(),
            st.call_stack@ == old(st).call_stack@,
            fuel > 0,
            i <= args@.len(),
            guard == (fuel > 1 && name@ != "SET"@ && !err_consumer_names().contains(name@)),
            name@ != "SET"@,
            guard ==> forall|k: int|
                #[trigger] first_err_arg(args@, k, old(st).env.scopes(), old(st).cells@, (fuel - 1) as nat) ==> i <= k,
            (forall|j: int| 0 <= j < i ==> given_arg(#[trigger] args@[j], old(st).env.scopes(), old(st).cells@, (fuel - 1) as nat))
                ==> *st == *old(st) && copies_of_args(vals@, args@.take(i as int), old(st).env.scopes(), old(st).cells@),
        decreases args@.len() - i,
    {
        let ghost vs0 = vals@;
        let o = match eval_expr(st, host, &args[i], fuel - 1) {
            Err(d) => return Err(d),
            Ok(o) => o,
        };
        proof {
            if forall|j: int|
                0 <= j <= i ==> given_arg(#[trigger] args@[j], old(st).env.scopes(), old(st).cells@, (fuel - 1) as nat) {
                lemma_same_kind(arg_value(args@[i as int], old(st).env.scopes(), old(st).cells@), o.value);
            }
        }
        if !block_continues(&o) {
            return Ok(o);
        }
        if short_circuits(name.as_str(), &o.value) {
            return Ok(Outcome::normal(o.value));
        }
        vals.push(o.value);
        proof {
            assert(args@.take(i + 1).drop_last() =~= args@.take(i as int));
            assert(vals@.drop_last() == vs0);
        }
        i = i + 1;
    }
    assert(args@.take(args@.len() as int) =~= args@);
    match target {
        CallTarget::Closure => match bound {
            Some(Value::Closure { handle, .. }) => {
                let ghost vs = vals@;
                let r = invoke_closure(st, host, name.as_str(), handle, vals, fuel - 1);
                assert(invoked(*old(st), handle, vs, (fuel - 1) as nat, r) || !args_given(
                    name@,
                    args@,
                    old(st).env.scopes(),
                    old(st).cells@,
                    (fuel - 1) as nat,
                ));
                r
            },
            _ => Err(fail(st, ErrorCode::E0020, not_callable_message(name.as_str()))),
        },
        CallTarget::Native => match bound {
            Some(Value::NativeFn { name: n, handle }) => match collection_of(n.as_str()) {
                Some(c) => {
                    let ghost vs = vals@;
                    let rv = run_collection(st, host, c, vals, fuel - 1);
                    let ghost g = rv;
                    let r = match rv {
                        Ok(v) => Ok(Outcome::normal(v)),
                        Err(d) => Err(d),
                    };
                    assert(fuel > 1 ==> collection_ran(c, vs, (fuel - 1) as nat, g) && value_outcome(g, r));
                    r
                },
                None => match host.call_native(n, handle, vals) {
                    Ok(v) => Ok(Outcome::normal(v)),
                    Err(e) => Err(builtin_failure(st, e)),
                },
            },
            _ => Err(fail(st, ErrorCode::E0020, not_callable_message(name.as_str()))),
        },
        CallTarget::NotCallable => Err(fail(st, ErrorCode::E0020, not_callable_message(name.as_str()))),
        CallTarget::Builtin(Builtin::CallMethod) => call_method(st, host, vals, fuel - 1),
        CallTarget::Builtin(b) => {
            let ghost vs = vals@;
            let rb = call_builtin(b, vals, host, &mut st.warnings);
            let ghost g = rb;
            let r = match rb {
                Ok(v) => Ok(Outcome::normal(v)),
                Err(e) => Err(builtin_failure(st, e)),
            };
            assert(builtin_outcome(b, vs, g) && builtin_called(g, r));
            r
        },
        CallTarget::Undefined => Err(undefined(st, name.as_str())),
        CallTarget::SetForm | CallTarget::Empty(_) => vstd::pervasive::unreached(),
    }
}

/// `CALL_METHOD(obj, m, ...)` finds its method: `obj` is a DICT with an
/// entry for the STRING `m`.
pub open spec fn method_found(vals: Seq<Value>) -> bool {
    &&& vals.len() >= 2
    &&& vals[0] is Dict
    &&& vals[1] is String
    &&& has_key(vals[0]->Dict_0@, vals[1]->String_0@)
}

/// The method that `CALL_METHOD(obj, m, ...)` finds: the value of the
/// first entry of `obj` with the key `m`.
pub open spec fn method_value(vals: Seq<Value>) -> Value {
    vals[0]->Dict_0@[choose|i: int| first_key(vals[0]->Dict_0@, vals[1]->String_0@, i)].1
}

/// The arguments a method `callee` is called with: those after the method
/// name, with the receiver in front for a closure whose first parameter
/// is `self`.
pub open spec fn method_call_args(callee: Value, vals: Seq<Value>) -> Seq<Value> {
    match callee {
        Value::Closure { params, .. } => if params@.len() > 0 && params@[0]@ == "self"@ {
            seq![vals[0]] + vals.skip(2)
        } else {
            vals.skip(2)
        },
        _ => vals.skip(2),
    }
}

proof fn lemma_first_key_unique(d: Seq<(Value, Value)>, k: Seq<char>, i: int, j: int)
    requires
        first_key(d, k, i),
        first_key(d, k, j),
    ensures
        i == j,
{
    if i < j {
        assert(!key_is(d[i], k));
    } else if j < i {
        assert(!key_is(d[j], k));
    }
}

/// `CALL_METHOD(obj, m, args...)`: calls the method that
/// `call_method_target` resolves. A closure whose first parameter is
/// `self` gets the receiver in front of the arguments; a native function
/// is called without it; anything else is refused (`E0030`).
fn call_method<'a, H: Host>(st: &mut Evaluator<'a>, host: &mut H, vals: Vec<Value>, fuel: u64) -> (r: Result<
    Outcome,
    Diagnostic,
>)
    requires
        old(st).wf(),
    ensures
        kept(*old(st), *final(st)),
        fuel > 0 && vals@.len() < 2 ==> (r matches Err(d) && d.code == ErrorCode::E0022),
        fuel > 0 && vals@.len() >= 2 && !(vals@[0] is Dict && vals@[1] is String) ==> (r matches Err(d) && d.code
            == ErrorCode::E0030),
        fuel > 0 && vals@.len() >= 2 && vals@[0] is Dict && vals@[1] is String && !method_found(vals@) ==> (r matches Err(
            d,
        ) && d.code == ErrorCode::E0037),
        fuel > 0 && method_found(vals@) ==> match method_value(vals@) {
            Value::Closure { handle, .. } => invoked(
                *old(st),
                handle,
                method_call_args(method_value(vals@), vals@),
                (fuel - 1) as nat,
                r,
            ),
            Value::NativeFn { .. } => true,
            _ => r matches Err(d) && d.code == ErrorCode::E0030,
        },
    decreases fuel,
{
    if fuel == 0 {
        return Err(exhausted(st));
    }
    let ghost vs = vals@;
    let m = match call_method_target(vals) {
        Ok(m) => m,
        Err(e) => return Err(builtin_failure(st, e)),
    };
    proof {
        let d = vs[0]->Dict_0@;
        let k = vs[1]->String_0@;
        let i = choose|i: int| first_key(d, k, i) && same_value(d[i].1, m.callee);
        let j = choose|j: int| first_key(d, k, j);
        lemma_first_key_unique(d, k, i, j);
        assert(same_value(method_value(vs), m.callee));
    }
    match m.callee {
        Value::Closure { params, handle } => {
            let args = method_arguments(&params, Some(m.receiver), m.args);
            invoke_closure(st, host, m.method.as_str(), handle, args, fuel - 1)
        },
        Value::NativeFn { name, handle } => match host.call_native(name, handle, m.args) {
            Ok(v) => Ok(Outcome::normal(v)),
            Err(e) => Err(builtin_failure(st, e)),
        },
        other => {
            let mut detail = concat2("member is not callable (", type_label(&other));
            detail.append(" value)");
            Err(builtin_failure(st, type_error(m.method.as_str(), detail.as_str())))
        },
    }
}

/// The scopes in which the closure `cl`'s body runs when it is called
/// from the scopes `caller` with the store `cells`: those it captured, the
/// caller's, and a scope binding each parameter to a fresh cell.
pub open spec fn frame_scopes<'a>(cl: ClosureDef<'a>, caller: Seq<Seq<(String, usize)>>, cells: Seq<Binding>) -> Seq<
    Seq<(String, usize)>,
> {
    bind_all(
        cl.env.scopes() + caller + seq![Seq::<(String, usize)>::empty()],
        cl.params@,
        upgraded(cells, cl.env.scopes()).len(),
    )
}

/// The store in which the closure `cl`'s body runs for `args`: its
/// captured cells made mutable, then a fresh cell for each argument.
pub open spec fn frame_cells<'a>(cl: ClosureDef<'a>, cells: Seq<Binding>, args: Seq<Value>) -> Seq<Binding> {
    upgraded(cells, cl.env.scopes()) + fresh_cells(args)
}

/// Strict mode refuses the call of `cl` with `args`: some argument breaks
/// its parameter's annotation (see `first_type_mismatch`).
pub open spec fn strict_refuses<'a>(strict: bool, cl: ClosureDef<'a>, args: Seq<Value>) -> bool {
    strict && first_type_mismatch(cl.annotations@, args) is Some
}

/// The expression `e` is the name `p`.
pub open spec fn names_param(e: Expr, p: String) -> bool {
    e matches Expr::Var(n) && n@ == p@
}

/// How a closure call ends when its body has the effect `x`: with the
/// value it gives or returns; `BREAK` or `CONTINUE` is `E0014`; an error
/// stays.
pub open spec fn call_ends(x: Effect, r: Result<Outcome, Diagnostic>) -> bool {
    match x {
        Effect::Gives(v) => r matches Ok(o) && o.signal == Signal::Normal && same_value(v, o.value),
        Effect::Jumps(Signal::Return(v)) => r matches Ok(o) && o.signal == Signal::Normal && same_value(v, o.value),
        Effect::Jumps(_) => r matches Err(d) && d.code == ErrorCode::E0014,
        Effect::Fails(code) => r matches Err(d) && d.code == code,
    }
}

/// What calling the closure `handle` of the state `st` with `args` and
/// `fuel` gives: `E0100` without fuel; `E0020` for a handle that names no
/// closure; `E0022` (with this message) when the number of arguments is
/// not that of the parameters; `E0033` when strict mode refuses an
/// argument; otherwise, for a body that changes nothing, what the body
/// gives in the call's frame (see `call_ends`).
pub open spec fn invoked<'a>(st: Evaluator<'a>, handle: u64, args: Seq<Value>, fuel: nat, r: Result<Outcome, Diagnostic>) -> bool {
    &&& fuel == 0 ==> (r matches Err(d) && d.code == ErrorCode::E0100)
    &&& fuel > 0 && handle >= st.closures@.len() ==> (r matches Err(d) && d.code == ErrorCode::E0020)
    &&& fuel > 0 && handle < st.closures@.len() && st.closures@[handle as int].params@.len() != args.len() ==> (
    r matches Err(d) && d.code == ErrorCode::E0022 && d.message@ == "function expects "@ + decimal(
        st.closures@[handle as int].params@.len() as int,
    ) + " argument(s), got "@ + decimal(args.len() as int))
    &&& fuel > 0 && handle < st.closures@.len() && st.closures@[handle as int].params@.len() == args.len()
        && strict_refuses(st.strict_types, st.closures@[handle as int], args) ==> (r matches Err(d) && d.code
        == ErrorCode::E0033)
    &&& fuel > 1 && handle < st.closures@.len() && st.closures@[handle as int].params@.len() == args.len()
        && !strict_refuses(st.strict_types, st.closures@[handle as int], args) ==> match effect(
        *st.closures@[handle as int].body,
        frame_scopes(st.closures@[handle as int], st.env.scopes(), st.cells@),
        frame_cells(st.closures@[handle as int], st.cells@, args),
    ) {
        Some(x) => fuel >= 3 * depth(*st.closures@[handle as int].body) + 1 ==> call_ends(x, r),
        None => true,
    }
}

/// Calls the closure `handle` with `args`: its body runs in the frame
/// that `enter_closure` sets up, under a call-stack frame named after
/// `name`, and the caller's environment is back in place afterwards
/// (see `leave_closure` for how the call ends).
pub fn invoke_closure<'a, H: Host>(
    st: &mut Evaluator<'a>,
    host: &mut H,
    name: &str,
    handle: u64,
    args: Vec<Value>,
    fuel: u64,
) -> (r: Result<Outcome, Diagnostic>)
    requires
        old(st).wf(),
    ensures
        kept(*old(st), *final(st)),
        final(st).env == old(st).env,
        invoked(*old(st), handle, args@, fuel as nat, r),
        fuel > 0 && handle < old(st).closures@.len() && old(st).closures@[handle as int].params@.len() == args@.len()
            && strict_refuses(old(st).strict_types, old(st).closures@[handle as int], args@) ==> *final(st) == *old(
            st,
        ),
        forall|i: int|
            fuel > 3 && handle < old(st).closures@.len() && old(st).closures@[handle as int].params@.len()
                == args@.len() && !strict_refuses(old(st).strict_types, old(st).closures@[handle as int], args@)
                && distinct_names(old(st).closures@[handle as int].params@) && 0 <= i < args@.len() && names_param(
                *old(st).closures@[handle as int].body,
                #[trigger] old(st).closures@[handle as int].params@[i],
            ) ==> (r matches Ok(o) && o.signal == Signal::Normal && same_value(args@[i], o.value)),
    decreases fuel,
{
    if fuel == 0 {
        return Err(exhausted(st));
    }
    if handle >= st.closures.len() as u64 {
        return Err(fail(st, ErrorCode::E0020, String::from_str("no such closure")));
    }
    let h = handle as usize;
    if st.strict_types && st.closures[h].params.len() == args.len() {
        if let Some((_, expected, actual)) = strict_type_mismatch(&st.closures[h].annotations, &args) {
            return Err(strict_failure(st, expected.as_str(), actual));
        }
    }
    let body: &'a Expr = st.closures[h].body;
    let ghost c0 = st.cells@.len();
    let ghost caller = st.env.scopes();
    assert(cells_below(st.closures@[h as int].env.scopes(), c0));
    let entered = enter_closure(&st.closures[h].env, &st.env, &st.closures[h].params, args, &mut st.cells);
    let mut other = match entered {
        Ok(env) => env,
        Err(m) => return Err(fail(st, ErrorCode::E0022, m)),
    };
    proof {
        lemma_closures_grow(st.closures@, c0, st.cells@.len());
        lemma_below_grows(caller, c0, st.cells@.len());
    }
    proof {
        lemma_effect_jumps(*body, other.scopes(), st.cells@);
    }
    std::mem::swap(&mut st.env, &mut other);
    let ghost stack = st.call_stack@;
    st.call_stack.push(TraceFrame { frame: String::from_str(frame_name(name)), location: runtime_location() });
    let out = eval_expr(st, host, body, fuel - 1);
    st.call_stack.pop();
    assert(st.call_stack@ =~= stack);
    let ghost n1 = st.cells@.len();
    std::mem::swap(&mut st.env, &mut other);
    proof {
        lemma_below_grows(caller, c0, n1);
    }
    match out {
        Err(d) => Err(d),
        Ok(o) => match leave_closure(o) {
            Ok(x) => Ok(x),
            Err(m) => Err(fail(st, ErrorCode::E0014, m)),
        },
    }
}


/// What a program's outcome `o` gives at the top level: an `ERR` that
/// reaches it, returned by `TRY` or as the final value, is `E0102`;
/// `BREAK` or `CONTINUE` there is `E0014`; otherwise the value.
pub fn top_level_result(o: Outcome, texts: &Vec<(u64, String)>) -> (r: Result<Value, (ErrorCode, String)>)
    ensures
        match o.signal {
            Signal::Return(Value::ErrValue(p)) => r matches Err((c, m)) && c == ErrorCode::E0102 && m@
                == "unhandled ERR escaped to top level: "@ + shown(*p, texts@),
            Signal::Return(v) => r == Ok::<Value, (ErrorCode, String)>(v),
            Signal::Normal => match o.value {
                Value::ErrValue(p) => r matches Err((c, m)) && c == ErrorCode::E0102 && m@
                    == "unhandled ERR escaped to top level: "@ + shown(*p, texts@),
                v => r == Ok::<Value, (ErrorCode, String)>(v),
            },
            _ => r matches Err((c, m)) && c == ErrorCode::E0014 && m@ == "BREAK or CONTINUE used outside a loop"@,
        },
{
    match o.signal {
        Signal::Return(Value::ErrValue(p)) => Err(
            (ErrorCode::E0102, concat2("unhandled ERR escaped to top level: ", display(&p, texts).as_str())),
        ),
        Signal::Return(v) => Ok(v),
        Signal::Normal => match o.value {
            Value::ErrValue(p) => Err(
                (ErrorCode::E0102, concat2("unhandled ERR escaped to top level: ", display(&p, texts).as_str())),
            ),
            v => Ok(v),
        },
        _ => Err((ErrorCode::E0014, String::from_str("BREAK or CONTINUE used outside a loop"))),
    }
}

/// The values that an outcome carries.
fn outcome_values(o: &Outcome) -> (r: Vec<Value>) {
    let mut r: Vec<Value> = Vec::new();
    r.push(copy_value(&o.value));
    if let Signal::Return(v) = &o.signal {
        r.push(copy_value(v));
    }
    r
}

/// The effect of the statements `items` run in turn after one that gave
/// `prev`: the first signal or error stops them; otherwise the last value.
pub open spec fn seq_effect(items: Seq<Expr>, prev: Value, s: Seq<Seq<(String, usize)>>, c: Seq<Binding>) -> Effect
    decreases items.len(),
{
    if items.len() == 0 {
        Effect::Gives(prev)
    } else {
        match effect(items[0], s, c) {
            Some(Effect::Gives(v)) => seq_effect(items.drop_first(), v, s, c),
            Some(other) => other,
            None => Effect::Fails(ErrorCode::E0100),
        }
    }
}

proof fn lemma_seq_jumps(items: Seq<Expr>, prev: Value, s: Seq<Seq<(String, usize)>>, c: Seq<Binding>)
    ensures
        seq_effect(items, prev, s, c) matches Effect::Jumps(g) ==> !(g is Normal),
    decreases items.len(),
{
    if items.len() > 0 {
        lemma_effect_jumps(items[0], s, c);
        if let Some(Effect::Gives(v)) = effect(items[0], s, c) {
            lemma_seq_jumps(items.drop_first(), v, s, c);
        }
    }
}

/// With `fuel`, each of the statements `items` has an effect: none of
/// them changes anything.
pub open spec fn statements_ready(items: Seq<Expr>, s: Seq<Seq<(String, usize)>>, c: Seq<Binding>, fuel: nat) -> bool {
    forall|j: int| 0 <= j < items.len() ==> fuel >= 3 * depth(#[trigger] items[j]) && effect(items[j], s, c) is Some
}

/// With `fuel`, the program `p` (a block of statements, or one
/// expression) has an effect.
pub open spec fn program_ready(p: Expr, s: Seq<Seq<(String, usize)>>, c: Seq<Binding>, fuel: nat) -> bool {
    match p {
        Expr::Block(items) => statements_ready(items@, s, c, fuel),
        other => fuel >= 3 * depth(other) && effect(other, s, c) is Some,
    }
}

/// The effect of the program `p`.
pub open spec fn program_effect(p: Expr, s: Seq<Seq<(String, usize)>>, c: Seq<Binding>) -> Effect {
    match p {
        Expr::Block(items) => seq_effect(items@, Value::Null, s, c),
        other => effect(other, s, c)->Some_0,
    }
}

/// What the top level makes of a program's effect `x`: an `ERR` that
/// reaches it, as the final value or returned, is `E0102`; `BREAK` or
/// `CONTINUE` is `E0014`; an error stays; otherwise the value.
pub open spec fn top_level_ends(x: Effect, r: Result<Value, Diagnostic>) -> bool {
    match x {
        Effect::Gives(v) => if v is ErrValue {
            r matches Err(d) && d.code == ErrorCode::E0102
        } else {
            r matches Ok(w) && same_value(v, w)
        },
        Effect::Jumps(Signal::Return(v)) => if v is ErrValue {
            r matches Err(d) && d.code == ErrorCode::E0102
        } else {
            r matches Ok(w) && same_value(v, w)
        },
        Effect::Jumps(_) => r matches Err(d) && d.code == ErrorCode::E0014,
        Effect::Fails(code) => r matches Err(d) && d.code == code,
    }
}

/// Runs the statements of a top-level block in the current scope, in
/// turn, until one carries a signal.
fn run_block<'a, H: Host>(st: &mut Evaluator<'a>, host: &mut H, items: &'a Vec<Expr>, fuel: u64) -> (r: Result<
    Outcome,
    Diagnostic,
>)
    requires
        old(st).wf(),
    ensures
        kept(*old(st), *final(st)),
        statements_ready(items@, old(st).env.scopes(), old(st).cells@, fuel as nat) ==> gives_effect(
            seq_effect(items@, Value::Null, old(st).env.scopes(), old(st).cells@),
            r,
        ) && *final(st) == *old(st),
{
    let ghost s0 = st.env.scopes();
    let ghost c0 = st.cells@;
    let ghost ready = statements_ready(items@, s0, c0, fuel as nat);
    let mut last = Outcome::normal(Value::Null);
    let ghost mut prev = Value::Null;
    let mut i: usize = 0;
    assert(items@.skip(0) =~= items@);
    while i < items.len()
        invariant
            st.wf(),
            old(st).cells@.len() <= st.cells@.len(),
            st.call_stack@ == old(st).call_stack@,
            i <= items@.len(),
            s0 == old(st).env.scopes(),
            c0 == old(st).cells@,
            ready == statements_ready(items@, s0, c0, fuel as nat),
            last.signal == Signal::Normal,
            ready ==> *st == *old(st) && same_value(prev, last.value) && seq_effect(items@, Value::Null, s0, c0)
                == seq_effect(items@.skip(i as int), prev, s0, c0),
        decreases items@.len() - i,
    {
        proof {
            lemma_effect_jumps(items@[i as int], s0, c0);
            assert(items@.skip(i as int)[0] == items@[i as int]);
            assert(items@.skip(i as int).drop_first() =~= items@.skip(i + 1));
        }
        let o = match eval_expr(st, host, &items[i], fuel) {
            Err(d) => return Err(d),
            Ok(o) => o,
        };
        if !block_continues(&o) {
            return Ok(o);
        }
        proof {
            if ready {
                prev = effect(items@[i as int], s0, c0)->Some_0->Gives_0;
            }
        }
        last = o;
        i = i + 1;
    }
    proof {
        assert(items@.skip(i as int).len() == 0);
    }
    Ok(last)
}

/// Runs a program: a block's statements run in the current scope, so that
/// its bindings stay; the outcome is then judged by `top_level_result`.
/// Every error carries a trace (see `enrich_with_trace`).
pub fn run<'a, H: Host>(st: &mut Evaluator<'a>, host: &mut H, program: &'a Expr, fuel: u64) -> (r: Result<Value, Diagnostic>)
    requires
        old(st).wf(),
    ensures
        kept(*old(st), *final(st)),
        fuel == 0 ==> (r matches Err(d) && d.code == ErrorCode::E0100),
        fuel > 1 && (*program is Break || *program is Continue) ==> (r matches Err(d) && d.code == ErrorCode::E0014
            && d.message@ == "BREAK or CONTINUE used outside a loop"@),
        fuel > 1 ==> match *program {
            Expr::Lit(v) => if v is ErrValue {
                r matches Err(d) && d.code == ErrorCode::E0102
            } else {
                r matches Ok(x) && same_value(v, x)
            },
            _ => true,
        },
        fuel > 0 && program_ready(*program, old(st).env.scopes(), old(st).cells@, (fuel - 1) as nat) ==> top_level_ends(
            program_effect(*program, old(st).env.scopes(), old(st).cells@),
            r,
        ),
{
    if fuel == 0 {
        return Err(exhausted(st));
    }
    let ghost s0 = st.env.scopes();
    let ghost c0 = st.cells@;
    let result = match program {
        Expr::Block(items) => run_block(st, host, items, fuel - 1),
        _ => eval_expr(st, host, program, fuel - 1),
    };
    proof {
        lemma_effect_jumps(*program, s0, c0);
        if *program is Block {
            lemma_seq_jumps((*program)->Block_0@, Value::Null, s0, c0);
        }
        if program_ready(*program, s0, c0, (fuel - 1) as nat) {
            if result is Ok {
                let o = result->Ok_0;
                match program_effect(*program, s0, c0) {
                    Effect::Gives(v) => lemma_same_kind(v, o.value),
                    Effect::Jumps(Signal::Return(v)) => {
                        if let Signal::Return(w) = o.signal {
                            lemma_same_kind(v, w);
                        }
                    },
                    _ => {},
                }
            }
        }
    }
    match result {
        Err(d) => Err(enrich_with_trace(d, &st.call_stack)),
        Ok(o) => {
            let vals = outcome_values(&o);
            let texts = float_texts(host, &vals);
            match top_level_result(o, &texts) {
                Ok(v) => Ok(v),
                Err((c, m)) => Err(enrich_with_trace(fail(st, c, m), &st.call_stack)),
            }
        },
    }
}

/// A collection function whose callback the evaluator calls.
#[derive(Debug, Clone, Copy, PartialEq, Eq, Structural)]
pub enum Walker {
    Mapping,
    Filtering,
    Finding,
    Reducing,
    AnyOf,
    AllOf,
    Grouping,
    SortingBy,
}

/// The collection function that a native function value `name` stands
/// for, when the evaluator runs it: those with a callback, and those
/// without one.
#[derive(Debug, Clone, Copy, PartialEq, Eq, Structural)]
pub enum Collection {
    Walk(Walker),
    Enumerate,
    Take,
    Drop,
    Flat,
    Range,
    Zip,
    Uniq,
    Join,
    Sort,
}

/// The collection function named `n`, if the evaluator runs it.
pub open spec fn collection_named(n: Seq<char>) -> Option<Collection> {
    if n == "MAP"@ {
        Some(Collection::Walk(Walker::Mapping))
    } else if n == "FILTER"@ {
        Some(Collection::Walk(Walker::Filtering))
    } else if n == "FIND"@ {
        Some(Collection::Walk(Walker::Finding))
    } else if n == "REDUCE"@ {
        Some(Collection::Walk(Walker::Reducing))
    } else if n == "ANY"@ {
        Some(Collection::Walk(Walker::AnyOf))
    } else if n == "ALL"@ {
        Some(Collection::Walk(Walker::AllOf))
    } else if n == "GROUP_BY"@ {
        Some(Collection::Walk(Walker::Grouping))
    } else if n == "SORT_BY"@ {
        Some(Collection::Walk(Walker::SortingBy))
    } else if n == "ENUMERATE"@ {
        Some(Collection::Enumerate)
    } else if n == "TAKE"@ {
        Some(Collection::Take)
    } else if n == "DROP"@ {
        Some(Collection::Drop)
    } else if n == "FLAT"@ {
        Some(Collection::Flat)
    } else if n == "RANGE"@ {
        Some(Collection::Range)
    } else if n == "ZIP"@ {
        Some(Collection::Zip)
    } else if n == "UNIQ"@ {
        Some(Collection::Uniq)
    } else if n == "JOIN"@ {
        Some(Collection::Join)
    } else if n == "SORT"@ {
        Some(Collection::Sort)
    } else {
        None
    }
}

/// The collection function named `name`, if the evaluator runs it.
pub fn collection_of(name: &str) -> (r: Option<Collection>)
    ensures
        r == collection_named(name@),
{
    proof {
        reveal_strlit("MAP");
        reveal_strlit("FILTER");
        reveal_strlit("FIND");
        reveal_strlit("REDUCE");
        reveal_strlit("ANY");
        reveal_strlit("ALL");
        reveal_strlit("GROUP_BY");
        reveal_strlit("SORT_BY");
        reveal_strlit("ENUMERATE");
        reveal_strlit("TAKE");
        reveal_strlit("DROP");
        reveal_strlit("FLAT");
        reveal_strlit("RANGE");
        reveal_strlit("ZIP");
        reveal_strlit("UNIQ");
        reveal_strlit("JOIN");
        reveal_strlit("SORT");
    }
    if str_eq(name, "MAP") {
        Some(Collection::Walk(Walker::Mapping))
    } else if str_eq(name, "FILTER") {
        Some(Collection::Walk(Walker::Filtering))
    } else if str_eq(name, "FIND") {
        Some(Collection::Walk(Walker::Finding))
    } else if str_eq(name, "REDUCE") {
        Some(Collection::Walk(Walker::Reducing))
    } else if str_eq(name, "ANY") {
        Some(Collection::Walk(Walker::AnyOf))
    } else if str_eq(name, "ALL") {
        Some(Collection::Walk(Walker::AllOf))
    } else if str_eq(name, "GROUP_BY") {
        Some(Collection::Walk(Walker::Grouping))
    } else if str_eq(name, "SORT_BY") {
        Some(Collection::Walk(Walker::SortingBy))
    } else if str_eq(name, "ENUMERATE") {
        Some(Collection::Enumerate)
    } else if str_eq(name, "TAKE") {
        Some(Collection::Take)
    } else if str_eq(name, "DROP") {
        Some(Collection::Drop)
    } else if str_eq(name, "FLAT") {
        Some(Collection::Flat)
    } else if str_eq(name, "RANGE") {
        Some(Collection::Range)
    } else if str_eq(name, "ZIP") {
        Some(Collection::Zip)
    } else if str_eq(name, "UNIQ") {
        Some(Collection::Uniq)
    } else if str_eq(name, "JOIN") {
        Some(Collection::Join)
    } else if str_eq(name, "SORT") {
        Some(Collection::Sort)
    } else {
        None
    }
}

/// Calls a callback value: a closure, or a native function; anything
/// else is refused (`E0030`).
fn call_callback<'a, H: Host>(st: &mut Evaluator<'a>, host: &mut H, callee: &Value, args: Vec<Value>, fuel: u64) -> (r:
    Result<Value, Diagnostic>)
    requires
        old(st).wf(),
    ensures
        kept(*old(st), *final(st)),
    decreases fuel,
{
    if fuel == 0 {
        return Err(exhausted(st));
    }
    match callee {
        Value::Closure { handle, .. } => match invoke_closure(st, host, "", *handle, args, fuel - 1) {
            Ok(o) => Ok(o.value),
            Err(d) => Err(d),
        },
        Value::NativeFn { name, handle } => match host.call_native(String::from_str(name.as_str()), *handle, args) {
            Ok(v) => Ok(v),
            Err(e) => Err(builtin_failure(st, e)),
        },
        other => {
            let mut detail = concat2("member is not callable (", type_label(other));
            detail.append(" value)");
            Err(builtin_failure(st, type_error("CALL", detail.as_str())))
        },
    }
}

/// `s` is the first step of the walk of `kind` over `args` (see the
/// `start_` functions of `callbacks`).
pub open spec fn walk_started(kind: Walker, args: Seq<Value>, s: Step<Walk>) -> bool {
    match kind {
        Walker::Mapping => start_map_post(args, s),
        Walker::Filtering => start_filter_post(args, s),
        Walker::Finding => start_find_post(args, s),
        Walker::Reducing => start_reduce_post(args, s),
        Walker::AnyOf => start_any_post(args, s),
        Walker::AllOf => start_all_post(args, s),
        Walker::Grouping => start_group_by_post(args, s),
        Walker::SortingBy => start_sort_by_post(args, s),
    }
}

/// `s` is the step of the walk of `kind` that follows `w` when its
/// callback gave `out` (see the `resume_` functions of `callbacks`).
pub open spec fn walk_resumed(kind: Walker, w: Walk, out: Value, s: Step<Walk>) -> bool {
    match kind {
        Walker::Mapping => resume_map_post(w, out, s),
        Walker::Filtering => resume_filter_post(w, out, s),
        Walker::Finding => resume_find_post(w, out, s),
        Walker::Reducing => resume_reduce_post(w, out, s),
        Walker::AnyOf => resume_any_post(w, out, s),
        Walker::AllOf => resume_all_post(w, out, s),
        Walker::Grouping => exists|t: Seq<(u64, String)>| #[trigger] resume_group_by_post(w, out, t, s),
        Walker::SortingBy => resume_sort_by_post(w, out, s),
    }
}

/// `steps` is a walk of `kind` over `args`: it starts there, and each step
/// but the last asks for a callback call, whose result `outs[i]` leads to
/// the next step.
pub open spec fn walk_trace(kind: Walker, args: Seq<Value>, steps: Seq<Step<Walk>>, outs: Seq<Value>) -> bool {
    &&& steps.len() == outs.len() + 1
    &&& walk_started(kind, args, steps[0])
    &&& forall|i: int|
        0 <= i < outs.len() ==> (#[trigger] steps[i] matches Step::Call(w, _) && walk_resumed(
            kind,
            w,
            outs[i],
            steps[i + 1],
        ))
}

/// The result `rb` of a collection function, as the evaluator gives it:
/// its value, or a diagnostic with its code and message.
pub open spec fn collection_done(rb: Result<Value, BuiltinError>, r: Result<Value, Diagnostic>) -> bool {
    match rb {
        Ok(v) => r == Ok::<Value, Diagnostic>(v),
        Err(e) => r matches Err(d) && d.code == e.code && d.message == e.message,
    }
}

/// The walk of `kind` after its callback gave `out`.
fn resume_walk<H: Host>(kind: Walker, w: Walk, out: Value, host: &mut H) -> (s: Step<Walk>)
    requires
        kind == Walker::Grouping ==> groups_are_arrays(w.pairs@),
    ensures
        kind == Walker::Grouping ==> (s matches Step::Call(w2, _) ==> groups_are_arrays(w2.pairs@)),
        walk_resumed(kind, w, out, s),
{
    match kind {
        Walker::Mapping => resume_map(w, out),
        Walker::Filtering => resume_filter(w, out),
        Walker::Finding => resume_find(w, out),
        Walker::Reducing => resume_reduce(w, out),
        Walker::AnyOf => resume_any(w, out),
        Walker::AllOf => resume_all(w, out),
        Walker::Grouping => {
            let one = vec![copy_value(&out)];
            let texts = float_texts(host, &one);
            let ghost g = (w, out);
            let s = resume_group_by(w, out, &texts);
            assert(resume_group_by_post(g.0, g.1, texts@, s));
            s
        },
        Walker::SortingBy => resume_sort_by(w, out),
    }
}

/// The start of the walk of `kind` over `args`.
fn start_walk(kind: Walker, args: Vec<Value>) -> (s: Step<Walk>)
    ensures
        kind == Walker::Grouping ==> (s matches Step::Call(w, _) ==> groups_are_arrays(w.pairs@)),
        walk_started(kind, args@, s),
{
    match kind {
        Walker::Mapping => start_map(args),
        Walker::Filtering => start_filter(args),
        Walker::Finding => start_find(args),
        Walker::Reducing => start_reduce(args),
        Walker::AnyOf => start_any(args),
        Walker::AllOf => start_all(args),
        Walker::Grouping => {
            let s = start_group_by(args);
            proof {
                if s is Call {
                    assert(groups_are_arrays(Seq::<(Value, Value)>::empty()));
                }
            }
            s
        },
        Walker::SortingBy => start_sort_by(args),
    }
}

/// Runs the collection function `kind` on `args`: each callback call that
/// its walk asks for is made, and its result handed back, until the walk
/// gives its result.
fn run_walk<'a, H: Host>(st: &mut Evaluator<'a>, host: &mut H, kind: Walker, args: Vec<Value>, fuel: u64) -> (r:
    Result<Value, Diagnostic>)
    requires
        old(st).wf(),
    ensures
        kept(*old(st), *final(st)),
        fuel > 0 ==> exists|s0: Step<Walk>|
            #[trigger] walk_started(kind, args@, s0) && (s0 matches Step::Done(rb) ==> collection_done(rb, r)),
        r is Ok ==> exists|steps: Seq<Step<Walk>>, outs: Seq<Value>|
            #[trigger] walk_trace(kind, args@, steps, outs) && (steps.last() matches Step::Done(rb) && collection_done(
                rb,
                r,
            )),
    decreases fuel,
{
    if fuel == 0 {
        return Err(exhausted(st));
    }
    let ghost a = args@;
    let mut step = start_walk(kind, args);
    let ghost first = step;
    let ghost mut steps: Seq<Step<Walk>> = seq![step];
    let ghost mut outs: Seq<Value> = Seq::empty();
    let mut left: u64 = fuel;
    loop
        invariant
            st.wf(),
            old(st).cells@.len() <= st.cells@.len(),
            st.call_stack@ == old(st).call_stack@,
            fuel > 0,
            kind == Walker::Grouping ==> (step matches Step::Call(w, _) ==> groups_are_arrays(w.pairs@)),
            a == args@,
            walk_started(kind, a, first),
            walk_trace(kind, a, steps, outs),
            steps.last() == step,
            steps[0] == first,
            first is Done ==> steps.len() == 1,
        decreases left,
    {
        let ghost cur = step;
        match step {
            Step::Done(r) => {
                let res = match r {
                    Ok(v) => Ok(v),
                    Err(e) => Err(builtin_failure(st, e)),
                };
                proof {
                    assert(collection_done(r, res));
                }
                return res;
            },
            Step::Call(w, call_args) => {
                if left == 0 {
                    return Err(exhausted(st));
                }
                left = left - 1;
                let out = match call_callback(st, host, &w.callback, call_args, fuel - 1) {
                    Ok(v) => v,
                    Err(d) => return Err(d),
                };
                let ghost gw = w;
                step = resume_walk(kind, w, out, host);
                proof {
                    let old_steps = steps;
                    let old_outs = outs;
                    steps = steps.push(step);
                    outs = outs.push(out);
                    assert forall|i: int| 0 <= i < outs.len() implies (#[trigger] steps[i] matches Step::Call(w, _)
                        && walk_resumed(kind, w, outs[i], steps[i + 1])) by {
                        if i < old_outs.len() {
                            assert(steps[i] == old_steps[i]);
                            assert(steps[i + 1] == old_steps[i + 1]);
                        } else {
                            assert(steps[i] == cur);
                        }
                    }
                }
            },
        }
    }
}

/// What the collection function `c` gives on `args` with `fuel`: the
/// result that its own function states; for a function with a callback,
/// the result of a walk (see `walk_started` and `walk_trace`); for `SORT`,
/// the result of its start when that decides it (no comparator, or an
/// error).
pub open spec fn collection_ran(c: Collection, args: Seq<Value>, fuel: nat, r: Result<Value, Diagnostic>) -> bool {
    match c {
        Collection::Walk(k) => {
            &&& fuel > 1 ==> exists|s0: Step<Walk>|
                #[trigger] walk_started(k, args, s0) && (s0 matches Step::Done(rb) ==> collection_done(rb, r))
            &&& r is Ok ==> exists|steps: Seq<Step<Walk>>, outs: Seq<Value>|
                #[trigger] walk_trace(k, args, steps, outs) && (steps.last() matches Step::Done(rb) && collection_done(
                    rb,
                    r,
                ))
        },
        Collection::Enumerate => exists|rb: Result<Value, BuiltinError>| #[trigger] builtin_enumerate_post(args, rb) && collection_done(rb, r),
        Collection::Take => exists|rb: Result<Value, BuiltinError>| #[trigger] builtin_take_post(args, rb) && collection_done(rb, r),
        Collection::Drop => exists|rb: Result<Value, BuiltinError>| #[trigger] builtin_drop_post(args, rb) && collection_done(rb, r),
        Collection::Flat => exists|rb: Result<Value, BuiltinError>| #[trigger] builtin_flat_post(args, rb) && collection_done(rb, r),
        Collection::Range => exists|rb: Result<Value, BuiltinError>| #[trigger] builtin_range_post(args, rb) && collection_done(rb, r),
        Collection::Zip => exists|rb: Result<Value, BuiltinError>| #[trigger] builtin_zip_post(args, rb) && collection_done(rb, r),
        Collection::Uniq => exists|rb: Result<Value, BuiltinError>| #[trigger] builtin_uniq_post(args, rb) && collection_done(rb, r),
        Collection::Join => exists|t: Seq<(u64, String)>, rb: Result<Value, BuiltinError>|
            #[trigger] builtin_join_post(args, t, rb) && collection_done(rb, r),
        Collection::Sort => exists|s0: SortStart|
            #[trigger] start_sort_post(args, s0) && (s0 matches SortStart::Done(rb) ==> collection_done(rb, r)),
    }
}

/// Runs the collection function `c` on `args`.
fn run_collection<'a, H: Host>(st: &mut Evaluator<'a>, host: &mut H, c: Collection, args: Vec<Value>, fuel: u64) -> (r:
    Result<Value, Diagnostic>)
    requires
        old(st).wf(),
    ensures
        kept(*old(st), *final(st)),
        fuel > 0 ==> collection_ran(c, args@, fuel as nat, r),
    decreases fuel,
{
    if fuel == 0 {
        return Err(exhausted(st));
    }
    let ghost a = args@;
    let done = match c {
        Collection::Walk(k) => return run_walk(st, host, k, args, fuel - 1),
        Collection::Enumerate => builtin_enumerate(args),
        Collection::Take => builtin_take(args),
        Collection::Drop => builtin_drop(args),
        Collection::Flat => builtin_flat(args),
        Collection::Range => builtin_range(args),
        Collection::Zip => builtin_zip(args),
        Collection::Uniq => builtin_uniq(args),
        Collection::Join => {
            let texts = float_texts(host, &args);
            let rb = builtin_join(args, &texts);
            assert(builtin_join_post(a, texts@, rb));
            rb
        },
        Collection::Sort => {
            let started = start_sort(args);
            let ghost s0 = started;
            match started {
                SortStart::Done(r) => r,
                SortStart::Compare(items, comparator) => {
                    let r = sort_with(st, host, items, comparator, fuel - 1);
                    assert(start_sort_post(a, s0));
                    return r;
                },
            }
        },
    };
    let ghost g = done;
    let r = match done {
        Ok(v) => Ok(v),
        Err(e) => Err(builtin_failure(st, e)),
    };
    assert(collection_done(g, r));
    r
}

/// How `a` and `b` are ordered by the program's comparator: it is asked
/// whether `a` goes before `b`, then whether `b` goes before `a` (see
/// `comparator_answer` and `comparator_order`); or the end of the sort.
fn compare_with<'a, H: Host>(
    st: &mut Evaluator<'a>,
    host: &mut H,
    comparator: &Value,
    a: &Value,
    b: &Value,
    fuel: u64,
) -> (r: Result<Result<Order, Result<Value, BuiltinError>>, Diagnostic>)
    requires
        old(st).wf(),
    ensures
        kept(*old(st), *final(st)),
    decreases fuel,
{
    if fuel == 0 {
        return Err(exhausted(st));
    }
    let first = match call_callback(st, host, comparator, vec![copy_value(a), copy_value(b)], fuel - 1) {
        Ok(v) => v,
        Err(d) => return Err(d),
    };
    let a_first = match comparator_answer("SORT", first) {
        Ok(x) => x,
        Err(stop) => return Ok(Err(stop)),
    };
    let second = match call_callback(st, host, comparator, vec![copy_value(b), copy_value(a)], fuel - 1) {
        Ok(v) => v,
        Err(d) => return Err(d),
    };
    let b_first = match comparator_answer("SORT", second) {
        Ok(x) => x,
        Err(stop) => return Ok(Err(stop)),
    };
    Ok(Ok(comparator_order(a_first, b_first)))
}

/// `SORT(arr, comparator)`: the elements in the comparator's order, equal
/// ones in their first order; each element is placed after those already
/// placed that do not come after it.
fn sort_with<'a, H: Host>(
    st: &mut Evaluator<'a>,
    host: &mut H,
    items: Vec<Value>,
    comparator: Value,
    fuel: u64,
) -> (r: Result<Value, Diagnostic>)
    requires
        old(st).wf(),
    ensures
        kept(*old(st), *final(st)),
    decreases fuel,
{
    if fuel == 0 {
        return Err(exhausted(st));
    }
    let mut out: Vec<Value> = Vec::new();
    let mut i: usize = 0;
    while i < items.len()
        invariant
            st.wf(),
            old(st).cells@.len() <= st.cells@.len(),
            st.call_stack@ == old(st).call_stack@,
            fuel > 0,
            out@.len() == i,
            i <= items@.len(),
        decreases items@.len() - i,
    {
        let x = copy_value(&items[i]);
        let mut j: usize = out.len();
        while j > 0
            invariant
                st.wf(),
                old(st).cells@.len() <= st.cells@.len(),
                st.call_stack@ == old(st).call_stack@,
                fuel > 0,
                j <= out@.len(),
            decreases j,
        {
            match compare_with(st, host, &comparator, &x, &out[j - 1], fuel - 1) {
                Err(d) => return Err(d),
                Ok(Err(Ok(v))) => return Ok(v),
                Ok(Err(Err(e))) => return Err(builtin_failure(st, e)),
                Ok(Ok(Order::Less)) => {},
                Ok(Ok(_)) => break,
            }
            j = j - 1;
        }
        out.insert(j, x);
        i = i + 1;
    }
    Ok(Value::Array(out))
}

} // verus!
