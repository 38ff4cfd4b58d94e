//! The collection functions that call back into the program: `MAP`,
//! `FILTER`, `REDUCE`, `ANY`, `ALL`, `FIND`, `GROUP_BY`, `SORT_BY` and
//! `SORT`.
//!
//! Calling a closure is the evaluator's work, so each function is a machine
//! here: `start_*` checks the arguments and asks for the first call, and
//! `resume_*` takes what the callback returned and asks for the next call or
//! gives the result. The caller runs the loop.
use vstd::prelude::*;

use crate::collection::collection_arity_failure;
use crate::collection::{
    arity, collection_type_failure, collection_type_note, err_result, no_err, not_callable,
    short_circuit_err,
};
use crate::compare::{copy_value, same_value};
use crate::builtins::{first_key, has_key};
use crate::display::{display, shown};
use crate::sorting::{rearranged, sort_by_keys, sorted_stably, strict_weak_order};
use crate::text::{concat2, str_eq};
use crate::value::{is_truthy, truthy, value_kind, value_kind_spec, BuiltinError, ErrorCode, Value};

verus! {

/// What a collection function needs next: a call of its callback with
/// these arguments, or its result.
pub enum Step<S> {
    Call(S, Vec<Value>),
    Done(Result<Value, BuiltinError>),
}

/// A collection function's walk through the elements of its array.
pub struct Walk {
    /// The function value to call.
    pub callback: Value,
    /// The element whose callback result is awaited, when the function
    /// keeps it (`FILTER`, `FIND`, `GROUP_BY`, `SORT_BY`).
    pub current: Value,
    /// The elements still to visit, in order.
    pub rest: Vec<Value>,
    /// The results gathered so far (`MAP`, `FILTER`).
    pub out: Vec<Value>,
    /// The groups so far (`GROUP_BY`), or the elements with their keys so
    /// far (`SORT_BY`).
    pub pairs: Vec<(Value, Value)>,
}

/// `v` can be called.
pub open spec fn callable(v: Value) -> bool {
    v is Closure || v is NativeFn
}

/// `r` is the error of a collection function given a callback that cannot
/// be called.
pub open spec fn not_callable_failure(r: Result<Value, BuiltinError>, name: Seq<char>, v: Value) -> bool {
    r matches Err(e) && e.code == ErrorCode::E0020 && e.message@ == name + ": callback is not callable (got "@
        + value_kind_spec(&v)@ + ")"@ && e.cause is None
}

/// `r` is the error of `name` for a predicate that returned `v`, not a
/// BOOLEAN.
pub open spec fn predicate_failure(r: Result<Value, BuiltinError>, name: Seq<char>, v: Value) -> bool {
    r matches Err(e) && e.code == ErrorCode::E0030 && e.message@ == name
        + ": predicate must return BOOLEAN, got "@ + value_kind_spec(&v)@ && (e.note matches Some(n) && n@
        == collection_type_note()) && e.cause is None
}

/// The checks that every collection function with an array and a callback
/// makes first, in order: an `ERR` argument is the result, then the number
/// of arguments (`want`), the array, the callback.
pub open spec fn checked(args: Seq<Value>, name: Seq<char>, want: nat, s: Step<Walk>) -> bool {
    if !no_err(args) {
        s matches Step::Done(r) && err_result(args, r)
    } else if args.len() != want {
        s matches Step::Done(r) && collection_arity_failure(r, name, args.len() as nat, want)
    } else if !(args[0] is Array) {
        s matches Step::Done(r) && collection_type_failure(r, name, "array"@, args[0])
    } else if !callable(args[1]) {
        s matches Step::Done(r) && not_callable_failure(r, name, args[1])
    } else {
        true
    }
}

/// The arguments pass the checks of a collection function.
pub open spec fn passes(args: Seq<Value>, want: nat) -> bool {
    no_err(args) && args.len() == want && args[0] is Array && callable(args[1])
}

/// `s` is the result `Ok(ARRAY)` with the elements `out`.
pub open spec fn done_array(s: Step<Walk>, out: Seq<Value>) -> bool {
    s matches Step::Done(r) && (r matches Ok(Value::Array(o)) && o@ == out)
}

/// `s` is a call whose walk has gathered `out`.
pub open spec fn gathered(s: Step<Walk>, out: Seq<Value>) -> bool {
    s matches Step::Call(w, _) && w.out@ == out
}

/// `s` calls `callback` with `call` next, with `rest` still to visit.
pub open spec fn calls(s: Step<Walk>, callback: Value, call: Seq<Value>, rest: Seq<Value>) -> bool {
    s matches Step::Call(w, a) && w.callback == callback && a@ == call && w.rest@ == rest
}

fn error_of_checks(args: &mut Vec<Value>, name: &str, want: usize) -> (r: Option<Step<Walk>>)
    requires
        want >= 2,
    ensures
        r matches Some(s) ==> checked(old(args)@, name@, want as nat, s) && !passes(old(args)@, want as nat),
        r is None ==> passes(old(args)@, want as nat) && final(args)@ == old(args)@,
{
    if let Some(k) = short_circuit_err(args) {
        return Some(Step::Done(Ok(args.remove(k))));
    }
    if args.len() != want {
        return Some(Step::Done(Err(arity(name, args.len(), want))));
    }
    if !matches!(args[0], Value::Array(_)) {
        return Some(Step::Done(Err(crate::collection::type_err(name, "array", &args[0]))));
    }
    if !matches!(args[1], Value::Closure { .. } | Value::NativeFn { .. }) {
        return Some(Step::Done(Err(not_callable(name, &args[1]))));
    }
    None
}

fn predicate_error(name: &str, v: &Value) -> (r: Result<Value, BuiltinError>)
    ensures
        predicate_failure(r, name@, *v),
{
    let mut m = concat2(name, ": predicate must return BOOLEAN, got ");
    m.append(value_kind(v));
    Err(
        BuiltinError {
            code: ErrorCode::E0030,
            message: m,
            note: Some(
                String::from_str(
                    "operator or builtin received a value of the wrong type; check operand types or use an explicit conversion",
                ),
            ),
            cause: None,
        },
    )
}

/// Splits the array and the callback off checked arguments.
fn array_and_callback(args: Vec<Value>) -> (r: (Vec<Value>, Value))
    requires
        args@.len() >= 2,
        args@[0] is Array,
    ensures
        args@[0] matches Value::Array(a) && r.0@ == a@,
        r.1 == args@[1],
{
    let mut args = args;
    let cb = args.remove(1);
    match args.remove(0) {
        Value::Array(items) => (items, cb),
        _ => (Vec::new(), cb),
    }
}

/// A walk over `items` that calls back on the first of them.
fn first_call(items: Vec<Value>, callback: Value, keep: bool) -> (s: Step<Walk>)
    requires
        items@.len() > 0,
    ensures
        calls(s, callback, seq![items@[0]], items@.drop_first()),
        s matches Step::Call(w, _) && w.out@ == Seq::<Value>::empty() && w.pairs@ == Seq::<(Value, Value)>::empty()
            && (keep ==> same_value(items@[0], w.current)),
{
    let ghost all = items@;
    let mut items = items;
    let first = items.remove(0);
    assert(items@ =~= all.drop_first());
    let current = if keep {
        copy_value(&first)
    } else {
        Value::Null
    };
    let call = vec![first];
    assert(call@ =~= seq![all[0]]);
    Step::Call(Walk { callback, current, rest: items, out: Vec::new(), pairs: Vec::new() }, call)
}

/// Moves `w` on to its next element.
fn next_call(w: Walk, keep: bool) -> (s: Step<Walk>)
    requires
        w.rest@.len() > 0,
    ensures
        calls(s, w.callback, seq![w.rest@[0]], w.rest@.drop_first()),
        s matches Step::Call(w2, _) && w2.out@ == w.out@ && w2.pairs@ == w.pairs@ && (keep ==> same_value(
            w.rest@[0],
            w2.current,
        )),
{
    let Walk { callback, current: _, rest, out, pairs } = w;
    let ghost all = rest@;
    let mut rest = rest;
    let first = rest.remove(0);
    assert(rest@ =~= all.drop_first());
    let current = if keep {
        copy_value(&first)
    } else {
        Value::Null
    };
    let call = vec![first];
    assert(call@ =~= seq![all[0]]);
    Step::Call(Walk { callback, current, rest, out, pairs }, call)
}

/// What `start_map` gives.
pub open spec fn start_map_post(args: Seq<Value>, s: Step<Walk>) -> bool {
    &&& (checked(args, "MAP"@, 2, s))
    &&& (passes(args, 2) ==> (args[0] matches Value::Array(a) && if a@.len() == 0 {
        done_array(s, Seq::empty())
    } else {
        calls(s, args[1], seq![a@[0]], a@.drop_first()) && gathered(s, Seq::empty())
    }))
}

/// `MAP(arr, f)`: starts the walk.
pub fn start_map(args: Vec<Value>) -> (s: Step<Walk>)
    ensures
        start_map_post(args@, s),
{
    let mut args = args;
    if let Some(s) = error_of_checks(&mut args, "MAP", 2) {
        return s;
    }
    let ghost orig = args@;
    let (items, cb) = array_and_callback(args);
    if items.len() == 0 {
        let s = Step::Done(Ok(Value::Array(Vec::new())));
        assert(done_array(s, Seq::empty()));
        return s;
    }
    let s = first_call(items, cb, false);
    assert(calls(s, orig[1], seq![items@[0]], items@.drop_first()));
    s
}

/// What `resume_map` gives.
pub open spec fn resume_map_post(w: Walk, r: Value, s: Step<Walk>) -> bool {
    &&& (r is ErrValue ==> s == Step::<Walk>::Done(Ok(r)))
    &&& (!(r is ErrValue) && w.rest@.len() == 0 ==> done_array(s, w.out@.push(r)))
    &&& (!(r is ErrValue) && w.rest@.len() > 0 ==> calls(s, w.callback, seq![w.rest@[0]], w.rest@.drop_first()) && gathered(s, w.out@.push(r)))
}

/// `MAP`: takes the callback's result `r` for the current element. An `ERR`
/// result is the result of `MAP`; otherwise it is gathered, and after the
/// last element the gathered results are.
pub fn resume_map(w: Walk, r: Value) -> (s: Step<Walk>)
    ensures
        resume_map_post(w, r, s),
{
    if let Value::ErrValue(_) = r {
        return Step::Done(Ok(r));
    }
    let mut w = w;
    w.out.push(r);
    if w.rest.len() == 0 {
        return Step::Done(Ok(Value::Array(w.out)));
    }
    next_call(w, false)
}


/// `s` is a call whose walk keeps a copy of `v` as its current element.
pub open spec fn keeps(s: Step<Walk>, v: Value) -> bool {
    s matches Step::Call(w, _) && same_value(v, w.current)
}

/// What `start_filter` gives.
pub open spec fn start_filter_post(args: Seq<Value>, s: Step<Walk>) -> bool {
    &&& (checked(args, "FILTER"@, 2, s))
    &&& (passes(args, 2) ==> (args[0] matches Value::Array(a) && if a@.len() == 0 {
        done_array(s, Seq::empty())
    } else {
        calls(s, args[1], seq![a@[0]], a@.drop_first()) && gathered(s, Seq::empty()) && keeps(s, a@[0])
    }))
}

/// `FILTER(arr, f)`: starts the walk.
pub fn start_filter(args: Vec<Value>) -> (s: Step<Walk>)
    ensures
        start_filter_post(args@, s),
{
    let mut args = args;
    if let Some(s) = error_of_checks(&mut args, "FILTER", 2) {
        return s;
    }
    let (items, cb) = array_and_callback(args);
    if items.len() == 0 {
        let s = Step::Done(Ok(Value::Array(Vec::new())));
        assert(done_array(s, Seq::empty()));
        return s;
    }
    first_call(items, cb, true)
}

/// What `resume_filter` gives.
pub open spec fn resume_filter_post(w: Walk, r: Value, s: Step<Walk>) -> bool {
    &&& (r is ErrValue ==> s == Step::<Walk>::Done(Ok(r)))
    &&& (r matches Value::Boolean(b) ==> ({
        let out = if b {
            w.out@.push(w.current)
        } else {
            w.out@
        }; if w.rest@.len() == 0 {
            done_array(s, out)
        } else {
            calls(s, w.callback, seq![w.rest@[0]], w.rest@.drop_first()) && gathered(s, out) && keeps( s, w.rest@[0], )
        }
    }))
    &&& (!(r is ErrValue) && !(r is Boolean) ==> (s matches Step::Done(e) && predicate_failure(e, "FILTER"@, r)))
}

/// `FILTER`: takes the predicate's result `r` for the current element. An
/// `ERR` result is the result of `FILTER`, a result other than a BOOLEAN
/// an error; the element is kept when the result is `TRUE`, and after the
/// last element the kept ones are the result.
pub fn resume_filter(w: Walk, r: Value) -> (s: Step<Walk>)
    ensures
        resume_filter_post(w, r, s),
{
    match r {
        Value::ErrValue(_) => Step::Done(Ok(r)),
        Value::Boolean(b) => {
            let mut w = w;
            if b {
                let mut c = Value::Null;
                std::mem::swap(&mut c, &mut w.current);
                w.out.push(c);
            }
            if w.rest.len() == 0 {
                return Step::Done(Ok(Value::Array(w.out)));
            }
            next_call(w, true)
        },
        other => Step::Done(predicate_error("FILTER", &other)),
    }
}

/// What `start_find` gives.
pub open spec fn start_find_post(args: Seq<Value>, s: Step<Walk>) -> bool {
    &&& (checked(args, "FIND"@, 2, s))
    &&& (passes(args, 2) ==> (args[0] matches Value::Array(a) && if a@.len() == 0 {
        s == Step::<Walk>::Done(Ok(Value::Null))
    } else {
        calls(s, args[1], seq![a@[0]], a@.drop_first()) && keeps(s, a@[0])
    }))
}

/// `FIND(arr, f)`: starts the walk.
pub fn start_find(args: Vec<Value>) -> (s: Step<Walk>)
    ensures
        start_find_post(args@, s),
{
    let mut args = args;
    if let Some(s) = error_of_checks(&mut args, "FIND", 2) {
        return s;
    }
    let (items, cb) = array_and_callback(args);
    if items.len() == 0 {
        return Step::Done(Ok(Value::Null));
    }
    first_call(items, cb, true)
}

/// What `resume_find` gives.
pub open spec fn resume_find_post(w: Walk, r: Value, s: Step<Walk>) -> bool {
    &&& (r is ErrValue ==> s == Step::<Walk>::Done(Ok(r)))
    &&& (r == Value::Boolean(true) ==> s == Step::<Walk>::Done(Ok(w.current)))
    &&& (r == Value::Boolean(false) ==> if w.rest@.len() == 0 {
        s == Step::<Walk>::Done(Ok(Value::Null))
    } else {
        calls(s, w.callback, seq![w.rest@[0]], w.rest@.drop_first()) && keeps(s, w.rest@[0])
    })
    &&& (!(r is ErrValue) && !(r is Boolean) ==> (s matches Step::Done(e) && predicate_failure(e, "FIND"@, r)))
}

/// `FIND`: takes the predicate's result `r` for the current element. An
/// `ERR` result is the result of `FIND`, a result other than a BOOLEAN an
/// error; `TRUE` makes the current element the result, and after the last
/// element the result is `NULL`.
pub fn resume_find(w: Walk, r: Value) -> (s: Step<Walk>)
    ensures
        resume_find_post(w, r, s),
{
    match r {
        Value::ErrValue(_) => Step::Done(Ok(r)),
        Value::Boolean(true) => Step::Done(Ok(w.current)),
        Value::Boolean(false) => {
            if w.rest.len() == 0 {
                return Step::Done(Ok(Value::Null));
            }
            next_call(w, true)
        },
        other => Step::Done(predicate_error("FIND", &other)),
    }
}

/// What `start_reduce` gives.
pub open spec fn start_reduce_post(args: Seq<Value>, s: Step<Walk>) -> bool {
    &&& (checked(args, "REDUCE"@, 3, s))
    &&& (passes(args, 3) ==> (args[0] matches Value::Array(a) && if a@.len() == 0 {
        s == Step::<Walk>::Done(Ok(args[2]))
    } else {
        calls(s, args[1], seq![args[2], a@[0]], a@.drop_first())
    }))
}

/// `REDUCE(arr, f, init)`: starts the walk; the first call is
/// `f(init, arr[0])`, and an empty array gives `init`.
pub fn start_reduce(args: Vec<Value>) -> (s: Step<Walk>)
    ensures
        start_reduce_post(args@, s),
{
    let mut args = args;
    if let Some(s) = error_of_checks(&mut args, "REDUCE", 3) {
        return s;
    }
    let ghost orig = args@;
    let init = args.pop().unwrap();
    let (items, cb) = array_and_callback(args);
    assert(items@ == orig[0]->Array_0@);
    if items.len() == 0 {
        return Step::Done(Ok(init));
    }
    let ghost all = items@;
    let mut items = items;
    let first = items.remove(0);
    assert(items@ =~= all.drop_first());
    let call = vec![init, first];
    assert(call@ =~= seq![orig[2], all[0]]);
    Step::Call(Walk { callback: cb, current: Value::Null, rest: items, out: Vec::new(), pairs: Vec::new() }, call)
}

/// What `resume_reduce` gives.
pub open spec fn resume_reduce_post(w: Walk, r: Value, s: Step<Walk>) -> bool {
    &&& (r is ErrValue ==> s == Step::<Walk>::Done(Ok(r)))
    &&& (!(r is ErrValue) && w.rest@.len() == 0 ==> s == Step::<Walk>::Done(Ok(r)))
    &&& (!(r is ErrValue) && w.rest@.len() > 0 ==> calls(s, w.callback, seq![r, w.rest@[0]], w.rest@.drop_first()))
}

/// `REDUCE`: takes the callback's result `r`, the new accumulator. An `ERR`
/// is the result of `REDUCE`; after the last element the accumulator is,
/// and otherwise the next call is `f(r, next element)`.
pub fn resume_reduce(w: Walk, r: Value) -> (s: Step<Walk>)
    ensures
        resume_reduce_post(w, r, s),
{
    if let Value::ErrValue(_) = r {
        return Step::Done(Ok(r));
    }
    if w.rest.len() == 0 {
        return Step::Done(Ok(r));
    }
    let Walk { callback, current, rest, out, pairs } = w;
    let ghost all = rest@;
    let mut rest = rest;
    let next = rest.remove(0);
    assert(rest@ =~= all.drop_first());
    let ghost rv = r;
    let call = vec![r, next];
    assert(call@ =~= seq![rv, all[0]]);
    Step::Call(Walk { callback, current, rest, out, pairs }, call)
}


/// The checks of `ANY` and `ALL`, whose callback is optional: an `ERR`
/// argument is the result, then one or two arguments, the array, and a
/// callback when there is one.
pub open spec fn checked_optional(args: Seq<Value>, name: Seq<char>, s: Step<Walk>) -> bool {
    if !no_err(args) {
        s matches Step::Done(r) && err_result(args, r)
    } else if !(1 <= args.len() <= 2) {
        s matches Step::Done(r) && collection_arity_failure(r, name, args.len() as nat, 2)
    } else if !(args[0] is Array) {
        s matches Step::Done(r) && collection_type_failure(r, name, "array"@, args[0])
    } else if args.len() == 2 && !callable(args[1]) {
        s matches Step::Done(r) && not_callable_failure(r, name, args[1])
    } else {
        true
    }
}

/// The arguments pass the checks of `ANY` and `ALL`.
pub open spec fn passes_optional(args: Seq<Value>) -> bool {
    no_err(args) && 1 <= args.len() <= 2 && args[0] is Array && (args.len() == 2 ==> callable(args[1]))
}

fn error_of_optional_checks(args: &mut Vec<Value>, name: &str) -> (r: Option<Step<Walk>>)
    ensures
        r matches Some(s) ==> checked_optional(old(args)@, name@, s) && !passes_optional(old(args)@),
        r is None ==> passes_optional(old(args)@) && final(args)@ == old(args)@,
{
    if let Some(k) = short_circuit_err(args) {
        return Some(Step::Done(Ok(args.remove(k))));
    }
    if !(1 <= args.len() && args.len() <= 2) {
        return Some(Step::Done(Err(arity(name, args.len(), 2))));
    }
    if !matches!(args[0], Value::Array(_)) {
        return Some(Step::Done(Err(crate::collection::type_err(name, "array", &args[0]))));
    }
    if args.len() == 2 && !matches!(args[1], Value::Closure { .. } | Value::NativeFn { .. }) {
        return Some(Step::Done(Err(not_callable(name, &args[1]))));
    }
    None
}

/// Some element of `a` is truthy.
pub open spec fn any_truthy(a: Seq<Value>) -> bool {
    exists|i: int| 0 <= i < a.len() && truthy(#[trigger] a[i])
}

/// Every element of `a` is truthy.
pub open spec fn all_truthy(a: Seq<Value>) -> bool {
    forall|i: int| 0 <= i < a.len() ==> truthy(#[trigger] a[i])
}

fn first_truthiness(a: &Vec<Value>, want: bool) -> (r: bool)
    ensures
        r == exists|i: int| 0 <= i < a@.len() && truthy(#[trigger] a@[i]) == want,
{
    let mut i: usize = 0;
    while i < a.len()
        invariant
            i <= a@.len(),
            forall|k: int| 0 <= k < i ==> truthy(#[trigger] a@[k]) != want,
        decreases a@.len() - i,
    {
        if is_truthy(&a[i]) == want {
            return true;
        }
        i = i + 1;
    }
    false
}

/// What `start_any` gives.
pub open spec fn start_any_post(args: Seq<Value>, s: Step<Walk>) -> bool {
    &&& (checked_optional(args, "ANY"@, s))
    &&& (passes_optional(args) ==> (args[0] matches Value::Array(a) && if args.len() == 1 {
        s == Step::<Walk>::Done(Ok(Value::Boolean(any_truthy(a@))))
    } else if a@.len() == 0 {
        s == Step::<Walk>::Done(Ok(Value::Boolean(false)))
    } else {
        calls(s, args[1], seq![a@[0]], a@.drop_first())
    }))
}

/// `ANY(arr, f?)`: without a predicate, whether some element is truthy;
/// with one, starts the walk.
pub fn start_any(args: Vec<Value>) -> (s: Step<Walk>)
    ensures
        start_any_post(args@, s),
{
    let mut args = args;
    if let Some(s) = error_of_optional_checks(&mut args, "ANY") {
        return s;
    }
    if args.len() == 1 {
        let b = match &args[0] {
            Value::Array(a) => first_truthiness(a, true),
            _ => false,
        };
        return Step::Done(Ok(Value::Boolean(b)));
    }
    let (items, cb) = array_and_callback(args);
    if items.len() == 0 {
        return Step::Done(Ok(Value::Boolean(false)));
    }
    first_call(items, cb, false)
}

/// What `resume_any` gives.
pub open spec fn resume_any_post(w: Walk, r: Value, s: Step<Walk>) -> bool {
    &&& (r is ErrValue ==> s == Step::<Walk>::Done(Ok(r)))
    &&& (!(r is ErrValue) && truthy(r) ==> s == Step::<Walk>::Done(Ok(Value::Boolean(true))))
    &&& (!(r is ErrValue) && !truthy(r) ==> if w.rest@.len() == 0 {
        s == Step::<Walk>::Done(Ok(Value::Boolean(false)))
    } else {
        calls(s, w.callback, seq![w.rest@[0]], w.rest@.drop_first())
    })
}

/// `ANY`: takes the predicate's result `r`. An `ERR` is the result; a
/// truthy result makes it `TRUE`; after the last element it is `FALSE`.
pub fn resume_any(w: Walk, r: Value) -> (s: Step<Walk>)
    ensures
        resume_any_post(w, r, s),
{
    if let Value::ErrValue(_) = r {
        return Step::Done(Ok(r));
    }
    if is_truthy(&r) {
        return Step::Done(Ok(Value::Boolean(true)));
    }
    if w.rest.len() == 0 {
        return Step::Done(Ok(Value::Boolean(false)));
    }
    next_call(w, false)
}

/// What `start_all` gives.
pub open spec fn start_all_post(args: Seq<Value>, s: Step<Walk>) -> bool {
    &&& (checked_optional(args, "ALL"@, s))
    &&& (passes_optional(args) ==> (args[0] matches Value::Array(a) && if args.len() == 1 {
        s == Step::<Walk>::Done(Ok(Value::Boolean(all_truthy(a@))))
    } else if a@.len() == 0 {
        s == Step::<Walk>::Done(Ok(Value::Boolean(true)))
    } else {
        calls(s, args[1], seq![a@[0]], a@.drop_first())
    }))
}

/// `ALL(arr, f?)`: without a predicate, whether every element is truthy;
/// with one, starts the walk.
pub fn start_all(args: Vec<Value>) -> (s: Step<Walk>)
    ensures
        start_all_post(args@, s),
{
    let mut args = args;
    if let Some(s) = error_of_optional_checks(&mut args, "ALL") {
        return s;
    }
    if args.len() == 1 {
        let b = match &args[0] {
            Value::Array(a) => !first_truthiness(a, false),
            _ => false,
        };
        return Step::Done(Ok(Value::Boolean(b)));
    }
    let (items, cb) = array_and_callback(args);
    if items.len() == 0 {
        return Step::Done(Ok(Value::Boolean(true)));
    }
    first_call(items, cb, false)
}

/// What `resume_all` gives.
pub open spec fn resume_all_post(w: Walk, r: Value, s: Step<Walk>) -> bool {
    &&& (r is ErrValue ==> s == Step::<Walk>::Done(Ok(r)))
    &&& (!(r is ErrValue) && !truthy(r) ==> s == Step::<Walk>::Done(Ok(Value::Boolean(false))))
    &&& (!(r is ErrValue) && truthy(r) ==> if w.rest@.len() == 0 {
        s == Step::<Walk>::Done(Ok(Value::Boolean(true)))
    } else {
        calls(s, w.callback, seq![w.rest@[0]], w.rest@.drop_first())
    })
}

/// `ALL`: takes the predicate's result `r`. An `ERR` is the result; a
/// result that is not truthy makes it `FALSE`; after the last element it
/// is `TRUE`.
pub fn resume_all(w: Walk, r: Value) -> (s: Step<Walk>)
    ensures
        resume_all_post(w, r, s),
{
    if let Value::ErrValue(_) = r {
        return Step::Done(Ok(r));
    }
    if !is_truthy(&r) {
        return Step::Done(Ok(Value::Boolean(false)));
    }
    if w.rest.len() == 0 {
        return Step::Done(Ok(Value::Boolean(true)));
    }
    next_call(w, false)
}


/// Every group holds an array of elements.
pub open spec fn groups_are_arrays(groups: Seq<(Value, Value)>) -> bool {
    forall|i: int| 0 <= i < groups.len() ==> (#[trigger] groups[i]).1 is Array
}

/// The text of the group key that a key function's result `r` names: a
/// STRING's own text, the text of any other value (see `STR`).
pub open spec fn group_key_text(r: Value, texts: Seq<(u64, String)>) -> Seq<char> {
    match r {
        Value::String(s) => s@,
        other => shown(other, texts),
    }
}

/// `after` is `before` with `item` added to the group with key text `kt`:
/// appended to the first group with that STRING key, or in a new group
/// `kt: [item]` at the end.
pub open spec fn regrouped(before: Seq<(Value, Value)>, after: Seq<(Value, Value)>, kt: Seq<char>, item: Value) -> bool {
    if has_key(before, kt) {
        exists|i: int|
            first_key(before, kt, i) && after.len() == before.len() && (forall|j: int|
                0 <= j < before.len() && j != i ==> #[trigger] after[j] == before[j]) && after[i].0 == before[i].0
                && (before[i].1 matches Value::Array(b) && (after[i].1 matches Value::Array(b2) && b2@ == b@.push(
                item,
            )))
    } else {
        &&& after.len() == before.len() + 1
        &&& after.drop_last() == before
        &&& after.last().0 matches Value::String(k) && k@ == kt
        &&& after.last().1 matches Value::Array(b) && b@ == seq![item]
    }
}

/// `s` is a call whose walk holds the groups `groups`.
pub open spec fn holds_groups(s: Step<Walk>, groups: Seq<(Value, Value)>) -> bool {
    s matches Step::Call(w, _) && w.pairs@ == groups
}

/// What `start_group_by` gives.
pub open spec fn start_group_by_post(args: Seq<Value>, s: Step<Walk>) -> bool {
    &&& (checked(args, "GROUP_BY"@, 2, s))
    &&& (passes(args, 2) ==> (args[0] matches Value::Array(a) && if a@.len() == 0 {
        s matches Step::Done(r) && (r matches Ok(Value::Dict(d)) && d@.len() == 0)
    } else {
        calls(s, args[1], seq![a@[0]], a@.drop_first()) && keeps(s, a@[0]) && holds_groups(s, Seq::empty())
    }))
}

/// `GROUP_BY(arr, key)`: starts the walk.
pub fn start_group_by(args: Vec<Value>) -> (s: Step<Walk>)
    ensures
        start_group_by_post(args@, s),
{
    let mut args = args;
    if let Some(s) = error_of_checks(&mut args, "GROUP_BY", 2) {
        return s;
    }
    let (items, cb) = array_and_callback(args);
    if items.len() == 0 {
        return Step::Done(Ok(Value::Dict(Vec::new())));
    }
    first_call(items, cb, true)
}

/// What `resume_group_by` gives.
pub open spec fn resume_group_by_post(w: Walk, r: Value, texts: Seq<(u64, String)>, s: Step<Walk>) -> bool {
    &&& (r is ErrValue ==> s == Step::<Walk>::Done(Ok(r)))
    &&& (!(r is ErrValue) && w.rest@.len() == 0 ==> (s matches Step::Done(res) && (res matches Ok(Value::Dict(d)) && regrouped(w.pairs@, d@, group_key_text(r, texts), w.current))))
    &&& (!(r is ErrValue) && w.rest@.len() > 0 ==> calls(s, w.callback, seq![w.rest@[0]], w.rest@.drop_first()) && keeps(s, w.rest@[0]) && (s matches Step::Call(w2, _) && regrouped( w.pairs@, w2.pairs@, group_key_text(r, texts), w.current, ) && groups_are_arrays(w2.pairs@)))
}

/// `GROUP_BY`: takes the key function's result `r` for the current
/// element. An `ERR` is the result; otherwise the element joins the group
/// whose key is the text of `r` (a value other than a STRING written as
/// `STR` writes it, its doubles as `texts` gives them), and after the last
/// element the groups, as a dict, are the result.
pub fn resume_group_by(w: Walk, r: Value, texts: &Vec<(u64, String)>) -> (s: Step<Walk>)
    requires
        groups_are_arrays(w.pairs@),
    ensures
        resume_group_by_post(w, r, texts@, s),
{
    if let Value::ErrValue(_) = r {
        return Step::Done(Ok(r));
    }
    let ghost kt = group_key_text(r, texts@);
    let key: String = match r {
        Value::String(s) => s,
        other => display(&other, texts),
    };
    assert(key@ == kt);
    let mut w = w;
    let ghost before = w.pairs@;
    let ghost item = w.current;
    let mut cur = Value::Null;
    std::mem::swap(&mut cur, &mut w.current);
    match crate::builtins::find_string_key(&w.pairs, key.as_str()) {
        Some(i) => {
            let (k0, bucket) = w.pairs.remove(i);
            assert(before[i as int].1 is Array);
            match bucket {
                Value::Array(mut b) => {
                    let ghost b0 = b@;
                    b.push(cur);
                    w.pairs.insert(i, (k0, Value::Array(b)));
                    proof {
                        assert forall|j: int| 0 <= j < before.len() && j != i implies #[trigger] w.pairs@[j]
                            == before[j] by {}
                        assert(first_key(before, kt, i as int));
                    }
                },
                other => {
                    w.pairs.insert(i, (k0, other));
                },
            }
        },
        None => {
            let b = vec![cur];
            assert(b@ =~= seq![item]);
            w.pairs.push((Value::String(key), Value::Array(b)));
            assert(w.pairs@.drop_last() =~= before);
        },
    }
    proof {
        assert forall|j: int| 0 <= j < w.pairs@.len() implies (#[trigger] w.pairs@[j]).1 is Array by {
            if j < before.len() {
                if has_key(before, kt) {
                    let i = choose|i: int| first_key(before, kt, i);
                    if j != i {
                        assert(w.pairs@[j] == before[j]);
                    }
                } else {
                    assert(w.pairs@[j] == before[j]);
                }
            }
        }
    }
    if w.rest.len() == 0 {
        return Step::Done(Ok(Value::Dict(w.pairs)));
    }
    next_call(w, true)
}


/// `out` is `pairs` sorted stably by key (when the keys are strictly weakly
/// ordered; a rearrangement of them in any case), keys dropped.
pub open spec fn sorted_by_key(pairs: Seq<(Value, Value)>, out: Seq<Value>) -> bool {
    exists|sorted: Seq<(Value, Value)>, p: Seq<int>|
        #[trigger] rearranged(sorted, pairs, p) && (strict_weak_order(pairs) ==> sorted_stably(sorted, p))
            && out == sorted.map_values(|e: (Value, Value)| e.1)
}

/// What `start_sort_by` gives.
pub open spec fn start_sort_by_post(args: Seq<Value>, s: Step<Walk>) -> bool {
    &&& (checked(args, "SORT_BY"@, 2, s))
    &&& (passes(args, 2) ==> (args[0] matches Value::Array(a) && if a@.len() == 0 {
        done_array(s, Seq::empty())
    } else {
        calls(s, args[1], seq![a@[0]], a@.drop_first()) && keeps(s, a@[0]) && holds_groups(s, Seq::empty())
    }))
}

/// `SORT_BY(arr, key)`: starts the walk, which asks for the key of each
/// element in turn.
pub fn start_sort_by(args: Vec<Value>) -> (s: Step<Walk>)
    ensures
        start_sort_by_post(args@, s),
{
    let mut args = args;
    if let Some(s) = error_of_checks(&mut args, "SORT_BY", 2) {
        return s;
    }
    let (items, cb) = array_and_callback(args);
    if items.len() == 0 {
        let s = Step::Done(Ok(Value::Array(Vec::new())));
        assert(done_array(s, Seq::empty()));
        return s;
    }
    first_call(items, cb, true)
}

/// What `resume_sort_by` gives.
pub open spec fn resume_sort_by_post(w: Walk, r: Value, s: Step<Walk>) -> bool {
    &&& (r is ErrValue ==> s == Step::<Walk>::Done(Ok(r)))
    &&& (!(r is ErrValue) && w.rest@.len() == 0 ==> (s matches Step::Done(res) && (res matches Ok( Value::Array(out), ) && sorted_by_key(w.pairs@.push((r, w.current)), out@))))
    &&& (!(r is ErrValue) && w.rest@.len() > 0 ==> calls(s, w.callback, seq![w.rest@[0]], w.rest@.drop_first()) && keeps(s, w.rest@[0]) && holds_groups(s, w.pairs@.push((r, w.current))))
}

/// `SORT_BY`: takes the key `r` of the current element. An `ERR` is the
/// result; after the last element the elements, sorted stably by their
/// keys under the default `<`, are.
pub fn resume_sort_by(w: Walk, r: Value) -> (s: Step<Walk>)
    ensures
        resume_sort_by_post(w, r, s),
{
    if let Value::ErrValue(_) = r {
        return Step::Done(Ok(r));
    }
    let mut w = w;
    let mut cur = Value::Null;
    std::mem::swap(&mut cur, &mut w.current);
    w.pairs.push((r, cur));
    if w.rest.len() == 0 {
        let ghost pairs = w.pairs@;
        let sorted = sort_by_keys(w.pairs);
        let ghost sv = sorted@;
        let mut out: Vec<Value> = Vec::new();
        let mut rest = crate::builtins::reversed(sorted);
        while rest.len() > 0
            invariant
                rest@.len() <= sv.len(),
                rest@ == sv.reverse().take(rest@.len() as int),
                out@ == sv.take(sv.len() - rest@.len()).map_values(|e: (Value, Value)| e.1),
            decreases rest@.len(),
        {
            let ghost n = rest@.len();
            let ghost done: int = sv.len() - n;
            let (_k, v) = rest.pop().unwrap();
            assert(sv.reverse()[n - 1] == sv[done]);
            assert(rest@ =~= sv.reverse().take(n - 1));
            out.push(v);
            assert(out@ =~= sv.take(done + 1).map_values(|e: (Value, Value)| e.1));
        }
        assert(sv.take(sv.len() as int) =~= sv);
        proof {
            let p = choose|p: Seq<int>| #[trigger] rearranged(sv, pairs, p) && (strict_weak_order(pairs) ==> sorted_stably(sv, p));
            assert(rearranged(sv, pairs, p));
        }
        return Step::Done(Ok(Value::Array(out)));
    }
    next_call(w, true)
}

/// How `SORT` goes on: with its result, or by sorting these elements with
/// the program's comparator, which the caller runs.
pub enum SortStart {
    Done(Result<Value, BuiltinError>),
    Compare(Vec<Value>, Value),
}

/// The values of `v` as keys without payload.
pub open spec fn as_keys(v: Seq<Value>) -> Seq<(Value, ())> {
    v.map_values(|x: Value| (x, ()))
}

/// `out` is `v` sorted stably under the default `<` (see `sort_by_keys`).
pub open spec fn sorted_values(v: Seq<Value>, out: Seq<Value>) -> bool {
    exists|sorted: Seq<(Value, ())>, p: Seq<int>|
        #[trigger] rearranged(sorted, as_keys(v), p) && (strict_weak_order(as_keys(v)) ==> sorted_stably(
            sorted,
            p,
        )) && out == sorted.map_values(|e: (Value, ())| e.0)
}

/// The elements of `v` sorted stably under the default `<`.
pub fn sort_values(v: Vec<Value>) -> (r: Vec<Value>)
    ensures
        sorted_values(v@, r@),
{
    let ghost input = v@;
    let mut pairs: Vec<(Value, ())> = Vec::new();
    let mut rest = crate::builtins::reversed(v);
    while rest.len() > 0
        invariant
            rest@.len() <= input.len(),
            rest@ == input.reverse().take(rest@.len() as int),
            pairs@ == input.take(input.len() - rest@.len()).map_values(|x: Value| (x, ())),
        decreases rest@.len(),
    {
        let ghost n = rest@.len();
        let ghost done: int = input.len() - n;
        let x = rest.pop().unwrap();
        assert(input.reverse()[n - 1] == input[done]);
        assert(rest@ =~= input.reverse().take(n - 1));
        pairs.push((x, ()));
        assert(pairs@ =~= input.take(done + 1).map_values(|x: Value| (x, ())));
    }
    assert(input.take(input.len() as int) =~= input);
    let ghost pv = pairs@;
    assert(pv == as_keys(input));
    let sorted = sort_by_keys(pairs);
    let ghost sv = sorted@;
    let mut out: Vec<Value> = Vec::new();
    let mut rest2 = crate::builtins::reversed(sorted);
    while rest2.len() > 0
        invariant
            rest2@.len() <= sv.len(),
            rest2@ == sv.reverse().take(rest2@.len() as int),
            out@ == sv.take(sv.len() - rest2@.len()).map_values(|e: (Value, ())| e.0),
        decreases rest2@.len(),
    {
        let ghost n = rest2@.len();
        let ghost done: int = sv.len() - n;
        let (x, _u) = rest2.pop().unwrap();
        assert(sv.reverse()[n - 1] == sv[done]);
        assert(rest2@ =~= sv.reverse().take(n - 1));
        out.push(x);
        assert(out@ =~= sv.take(done + 1).map_values(|e: (Value, ())| e.0));
    }
    assert(sv.take(sv.len() as int) =~= sv);
    proof {
        let p = choose|p: Seq<int>| #[trigger] rearranged(sv, pv, p) && (strict_weak_order(pv) ==> sorted_stably(sv, p));
        assert(rearranged(sv, pv, p));
    }
    out
}

/// What `start_sort` gives.
pub open spec fn start_sort_post(args: Seq<Value>, s: SortStart) -> bool {
    &&& (match s {
        SortStart::Done(r) => checked_optional(args, "SORT"@, Step::Done(r)) && (passes_optional(args) ==> (args.len() == 1 && (args[0] matches Value::Array(a) && (r matches Ok(Value::Array(out)) && sorted_values(a@, out@))))),
        SortStart::Compare(items, cmp) => passes_optional(args) && args.len() == 2 && (args[0] matches Value::Array(a) && items@ == a@) && cmp == args[1],
    })
}

/// `SORT(arr, cmp?)`: the checks of the optional-callback functions, then
/// without a comparator the elements sorted stably under the default `<`;
/// with one, the elements and the comparator for the caller to sort with.
pub fn start_sort(args: Vec<Value>) -> (s: SortStart)
    ensures
        start_sort_post(args@, s),
{
    let mut args = args;
    if let Some(s) = error_of_optional_checks(&mut args, "SORT") {
        return match s {
            Step::Done(r) => SortStart::Done(r),
            Step::Call(_, _) => SortStart::Done(Ok(Value::Null)),
        };
    }
    if args.len() == 2 {
        let (items, cmp) = array_and_callback(args);
        return SortStart::Compare(items, cmp);
    }
    match args.pop().unwrap() {
        Value::Array(items) => SortStart::Done(Ok(Value::Array(sort_values(items)))),
        other => SortStart::Done(Ok(other)),
    }
}


/// What a comparator's answer `r` to "is a less than b?" means for `SORT`:
/// the BOOLEAN; or the end of the sort, with the payload of an `ERR` as
/// its result, or the error for an answer that is not a BOOLEAN.
pub fn comparator_answer(name: &str, r: Value) -> (a: Result<bool, Result<Value, BuiltinError>>)
    ensures
        match r {
            Value::Boolean(b) => a == Ok::<bool, Result<Value, BuiltinError>>(b),
            Value::ErrValue(p) => a == Err::<bool, Result<Value, BuiltinError>>(Ok(*p)),
            other => a matches Err(e) && e matches Err(x) && x.code == ErrorCode::E0030 && x.message@ == name@
                + ": comparator must return BOOLEAN, got "@ + value_kind_spec(&other)@ && x.cause is None,
        },
{
    match r {
        Value::Boolean(b) => Ok(b),
        Value::ErrValue(p) => Err(Ok(*p)),
        other => {
            let mut m = concat2(name, ": comparator must return BOOLEAN, got ");
            m.append(value_kind(&other));
            Err(
                Err(
                    BuiltinError {
                        code: ErrorCode::E0030,
                        message: m,
                        note: Some(
                            String::from_str(
                                "operator or builtin received a value of the wrong type; check operand types or use an explicit conversion",
                            ),
                        ),
                        cause: None,
                    },
                ),
            )
        },
    }
}

/// The order of two elements from the comparator's answers to "is a less
/// than b?" and "is b less than a?": less or greater when exactly one
/// holds, equal otherwise.
pub fn comparator_order(a_first: bool, b_first: bool) -> (o: crate::compare::Order)
    ensures
        o == (if a_first && !b_first {
            crate::compare::Order::Less
        } else if !a_first && b_first {
            crate::compare::Order::Greater
        } else {
            crate::compare::Order::Equal
        }),
{
    if a_first && !b_first {
        crate::compare::Order::Less
    } else if !a_first && b_first {
        crate::compare::Order::Greater
    } else {
        crate::compare::Order::Equal
    }
}

} // verus!
