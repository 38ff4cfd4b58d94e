//! Values as JSON data: the payload that an error cause carries.
use vstd::prelude::*;

use crate::double::{exponent_field, two52};
use crate::text::concat2;
use crate::value::Value;

verus! {

/// A JSON value. Numbers keep their kind: an INTEGER, or a finite double
/// held as its encoding. An object lists its members in insertion order.
#[derive(Debug, PartialEq)]
pub enum JsonValue {
    Null,
    Bool(bool),
    Int(i64),
    Double(u64),
    Text(String),
    List(Vec<JsonValue>),
    Object(Vec<(String, JsonValue)>),
}

/// The cause attached to an error raised from an `ERR` value: its text, or
/// its fields when it is a dictionary.
#[derive(Debug, PartialEq)]
pub enum ErrorCause {
    Text(String),
    Fields(Vec<(String, JsonValue)>),
}

/// The double with encoding `b` is finite (neither infinite nor NaN).
pub open spec fn is_finite(b: u64) -> bool {
    exponent_field(b) != 2047
}

/// `j` is the JSON form of `v`: null, booleans, INTEGERs, finite FLOATs
/// and strings as themselves, arrays element by element, dicts with STRING
/// keys member by member, `OK(x)` as the form of `x`. Nothing else has a
/// JSON form: closures, native functions, `ERR` values, non-finite FLOATs,
/// and dicts with a key that is not a STRING.
pub open spec fn json_of(v: Value, j: JsonValue) -> bool
    decreases v, 0nat,
{
    match v {
        Value::Null => j == JsonValue::Null,
        Value::Boolean(b) => j == JsonValue::Bool(b),
        Value::Integer(i) => j == JsonValue::Int(i),
        Value::Float(b) => is_finite(b) && j == JsonValue::Double(b),
        Value::String(s) => j matches JsonValue::Text(t) && t@ == s@,
        Value::Array(items) => j matches JsonValue::List(out) && json_items(items@, out@),
        Value::Dict(entries) => j matches JsonValue::Object(out) && json_members(entries@, out@),
        Value::OkValue(x) => json_of(*x, j),
        _ => false,
    }
}

/// `out` holds the JSON forms of `items`, in order.
pub open spec fn json_items(items: Seq<Value>, out: Seq<JsonValue>) -> bool
    decreases items, 0nat,
{
    if items.len() == 0 {
        out.len() == 0
    } else {
        out.len() == items.len() && json_items(items.drop_last(), out.drop_last()) && json_of(
            items.last(),
            out.last(),
        )
    }
}

/// `out` holds, in order, the STRING keys of `entries` with the JSON forms
/// of their values.
pub open spec fn json_members(entries: Seq<(Value, Value)>, out: Seq<(String, JsonValue)>) -> bool
    decreases entries, 0nat,
{
    if entries.len() == 0 {
        out.len() == 0
    } else {
        &&& out.len() == entries.len()
        &&& json_members(entries.drop_last(), out.drop_last())
        &&& entries.last().0 matches Value::String(k) && out.last().0@ == k@
        &&& json_of(entries.last().1, out.last().1)
    }
}

/// `v` has a JSON form.
pub open spec fn has_json(v: Value) -> bool
    decreases v, 0nat,
{
    match v {
        Value::Null | Value::Boolean(_) | Value::Integer(_) | Value::String(_) => true,
        Value::Float(b) => is_finite(b),
        Value::Array(items) => all_have_json(items@),
        Value::Dict(entries) => members_have_json(entries@),
        Value::OkValue(x) => has_json(*x),
        _ => false,
    }
}

/// Every element of `items` has a JSON form.
pub open spec fn all_have_json(items: Seq<Value>) -> bool
    decreases items, 0nat,
{
    items.len() == 0 || (all_have_json(items.drop_last()) && has_json(items.last()))
}

/// Every entry of `entries` has a STRING key and a value with a JSON form.
pub open spec fn members_have_json(entries: Seq<(Value, Value)>) -> bool
    decreases entries, 0nat,
{
    entries.len() == 0 || (members_have_json(entries.drop_last()) && entries.last().0 is String
        && has_json(entries.last().1))
}

fn finite_double(b: u64) -> (r: bool)
    ensures
        r == is_finite(b),
{
    (b / 4503599627370496) % 2048 != 2047
}

fn copy_text(s: &String) -> (r: String)
    ensures
        r@ == s@,
{
    String::from_str(s.as_str())
}

/// The JSON form of `v`, if it has one.
pub fn value_to_json_value(v: &Value) -> (r: Option<JsonValue>)
    ensures
        r is Some <==> has_json(*v),
        r matches Some(j) ==> json_of(*v, j),
    decreases v,
{
    match v {
        Value::Null => Some(JsonValue::Null),
        Value::Boolean(b) => Some(JsonValue::Bool(*b)),
        Value::Integer(i) => Some(JsonValue::Int(*i)),
        Value::Float(b) => {
            if finite_double(*b) {
                Some(JsonValue::Double(*b))
            } else {
                None
            }
        },
        Value::String(s) => Some(JsonValue::Text(copy_text(s))),
        Value::Array(items) => {
            let mut out: Vec<JsonValue> = Vec::new();
            let mut i: usize = 0;
            while i < items.len()
                invariant
                    i <= items@.len(),
                    *v == Value::Array(*items),
                    out@.len() == i,
                    json_items(items@.take(i as int), out@),
                    all_have_json(items@.take(i as int)),
                decreases items@.len() - i,
            {
                proof {
                    assert(items == (*v)->Array_0);
                    assert(decreases_to!(*v => (*v)->Array_0));
                    assert(decreases_to!(*items => items@));
                    assert(decreases_to!(items@ => items@[i as int]));
                }
                let ghost t = items@.take(i + 1);
                assert(t.drop_last() =~= items@.take(i as int));
                assert(t.last() == items@[i as int]);
                match value_to_json_value(&items[i]) {
                    Some(j) => {
                        let ghost before = out@;
                        out.push(j);
                        assert(out@.drop_last() =~= before);
                    },
                    None => {
                        proof {
                            if all_have_json(items@) {
                                lemma_all_have_json_prefix(items@, i as int + 1);
                            }
                        }
                        return None;
                    },
                }
                i = i + 1;
            }
            assert(items@.take(items@.len() as int) =~= items@);
            Some(JsonValue::List(out))
        },
        Value::Dict(entries) => {
            let mut out: Vec<(String, JsonValue)> = Vec::new();
            let mut i: usize = 0;
            while i < entries.len()
                invariant
                    i <= entries@.len(),
                    *v == Value::Dict(*entries),
                    out@.len() == i,
                    json_members(entries@.take(i as int), out@),
                    members_have_json(entries@.take(i as int)),
                decreases entries@.len() - i,
            {
                proof {
                    assert(entries == (*v)->Dict_0);
                    assert(decreases_to!(*v => (*v)->Dict_0));
                    assert(decreases_to!(*entries => entries@));
                    assert(decreases_to!(entries@ => entries@[i as int]));
                    assert(decreases_to!(entries@[i as int] => entries@[i as int].1));
                }
                let ghost t = entries@.take(i + 1);
                assert(t.drop_last() =~= entries@.take(i as int));
                assert(t.last() == entries@[i as int]);
                let key = match &entries[i].0 {
                    Value::String(s) => copy_text(s),
                    _ => {
                        proof {
                            if members_have_json(entries@) {
                                lemma_members_have_json_prefix(entries@, i as int + 1);
                            }
                        }
                        return None;
                    },
                };
                match value_to_json_value(&entries[i].1) {
                    Some(j) => {
                        let ghost before = out@;
                        out.push((key, j));
                        assert(out@.drop_last() =~= before);
                    },
                    None => {
                        proof {
                            if members_have_json(entries@) {
                                lemma_members_have_json_prefix(entries@, i as int + 1);
                            }
                        }
                        return None;
                    },
                }
                i = i + 1;
            }
            assert(entries@.take(entries@.len() as int) =~= entries@);
            Some(JsonValue::Object(out))
        },
        Value::OkValue(x) => value_to_json_value(x),
        _ => None,
    }
}

proof fn lemma_all_have_json_prefix(items: Seq<Value>, n: int)
    requires
        0 <= n <= items.len(),
        all_have_json(items),
    ensures
        all_have_json(items.take(n)),
    decreases items.len(),
{
    if n < items.len() {
        assert(items.drop_last().take(n) =~= items.take(n));
        lemma_all_have_json_prefix(items.drop_last(), n);
    } else {
        assert(items.take(n) =~= items);
    }
}

proof fn lemma_members_have_json_prefix(entries: Seq<(Value, Value)>, n: int)
    requires
        0 <= n <= entries.len(),
        members_have_json(entries),
    ensures
        members_have_json(entries.take(n)),
    decreases entries.len(),
{
    if n < entries.len() {
        assert(entries.drop_last().take(n) =~= entries.take(n));
        lemma_members_have_json_prefix(entries.drop_last(), n);
    } else {
        assert(entries.take(n) =~= entries);
    }
}


/// `c` is the cause that the value `v` gives an error: a STRING as its
/// text, a dict whose keys are all STRINGs and whose values all have a JSON
/// form as its fields, `ERR(x)` as the cause of `x`; nothing else gives a
/// cause.
pub open spec fn cause_of(v: Value, c: Option<ErrorCause>) -> bool
    decreases v,
{
    match v {
        Value::String(s) => c matches Some(ErrorCause::Text(t)) && t@ == s@,
        Value::Dict(entries) => if members_have_json(entries@) {
            c matches Some(ErrorCause::Fields(out)) && json_members(entries@, out@)
        } else {
            c is None
        },
        Value::ErrValue(x) => cause_of(*x, c),
        _ => c is None,
    }
}

/// The cause that the value `v` gives an error, if any.
pub fn value_to_error_cause(v: &Value) -> (r: Option<ErrorCause>)
    ensures
        cause_of(*v, r),
    decreases v,
{
    match v {
        Value::String(s) => Some(ErrorCause::Text(copy_text(s))),
        Value::Dict(_) => match value_to_json_value(v) {
            Some(JsonValue::Object(fields)) => Some(ErrorCause::Fields(fields)),
            _ => None,
        },
        Value::ErrValue(x) => value_to_error_cause(x),
        _ => None,
    }
}


/// Why a value cannot cross to a standard-library module: what was
/// expected, and what was found.
#[derive(Debug, PartialEq)]
pub struct StdConvError {
    pub expected: String,
    pub got: String,
}

/// The first reason, in the order of a walk through `v`, why `v` cannot be
/// handed to a standard-library module: a non-finite FLOAT, a dict key that
/// is not a STRING, an `ERR`, a closure or a native function.
pub open spec fn std_error(v: Value) -> Option<(Seq<char>, Seq<char>)>
    decreases v, 0nat,
{
    match v {
        Value::Float(b) => if is_finite(b) {
            None
        } else {
            Some(("finite number"@, "NaN/Inf float"@))
        },
        Value::Array(items) => items_error(items@),
        Value::Dict(entries) => entries_error(entries@),
        Value::OkValue(x) => std_error(*x),
        Value::ErrValue(_) => Some(("OK/primitives at std boundary"@, "ERR(...)"@)),
        Value::Closure { .. } => Some(("data value at std boundary"@, "function closure"@)),
        Value::NativeFn { name, handle: _ } => Some(("data value at std boundary"@, "native fn `"@ + name@ + "`"@)),
        _ => None,
    }
}

/// The first reason among `items`, in order.
pub open spec fn items_error(items: Seq<Value>) -> Option<(Seq<char>, Seq<char>)>
    decreases items, 0nat,
{
    if items.len() == 0 {
        None
    } else {
        match std_error(items[0]) {
            Some(e) => Some(e),
            None => items_error(items.drop_first()),
        }
    }
}

/// The first reason among `entries`, each key checked before its value.
pub open spec fn entries_error(entries: Seq<(Value, Value)>) -> Option<(Seq<char>, Seq<char>)>
    decreases entries, 0nat,
{
    if entries.len() == 0 {
        None
    } else if !(entries[0].0 is String) {
        Some(("string dict key"@, crate::value::type_label_spec(&entries[0].0)@))
    } else {
        match std_error(entries[0].1) {
            Some(e) => Some(e),
            None => entries_error(entries.drop_first()),
        }
    }
}

proof fn lemma_std_error_none(v: Value)
    ensures
        std_error(v) is None <==> has_json(v),
    decreases v, 0nat,
{
    match v {
        Value::Array(items) => {
            assert(decreases_to!(v => items));
            lemma_items_error_none(items@);
        },
        Value::Dict(entries) => {
            assert(decreases_to!(v => entries));
            lemma_entries_error_none(entries@);
        },
        Value::OkValue(x) => {
            lemma_std_error_none(*x);
        },
        _ => {},
    }
}

proof fn lemma_items_error_none(items: Seq<Value>)
    ensures
        items_error(items) is None <==> all_have_json(items),
    decreases items, 0nat,
{
    if items.len() > 0 {
        lemma_std_error_none(items[0]);
        lemma_items_error_none(items.drop_first());
        lemma_all_have_json_front(items);
    }
}

proof fn lemma_entries_error_none(entries: Seq<(Value, Value)>)
    ensures
        entries_error(entries) is None <==> members_have_json(entries),
    decreases entries, 0nat,
{
    if entries.len() > 0 {
        lemma_std_error_none(entries[0].1);
        lemma_entries_error_none(entries.drop_first());
        lemma_members_have_json_front(entries);
    }
}

proof fn lemma_all_have_json_front(items: Seq<Value>)
    requires
        items.len() > 0,
    ensures
        all_have_json(items) <==> (has_json(items[0]) && all_have_json(items.drop_first())),
    decreases items.len(),
{
    if items.len() > 1 {
        lemma_all_have_json_front(items.drop_last());
        assert(items.drop_last()[0] == items[0]);
        assert(items.drop_last().drop_first() =~= items.drop_first().drop_last());
        assert(items.drop_first().last() == items.last());
        assert(all_have_json(items) == (all_have_json(items.drop_last()) && has_json(items.last())));
        assert(all_have_json(items.drop_first()) == (all_have_json(items.drop_first().drop_last()) && has_json(
            items.drop_first().last(),
        )));
    } else {
        assert(items.drop_first().len() == 0);
        assert(items.drop_last().len() == 0);
        assert(all_have_json(items.drop_last()));
        assert(all_have_json(items.drop_first()));
        assert(items.last() == items[0]);
    }
}

proof fn lemma_members_have_json_front(entries: Seq<(Value, Value)>)
    requires
        entries.len() > 0,
    ensures
        members_have_json(entries) <==> (entries[0].0 is String && has_json(entries[0].1) && members_have_json(
            entries.drop_first(),
        )),
    decreases entries.len(),
{
    if entries.len() > 1 {
        lemma_members_have_json_front(entries.drop_last());
        assert(entries.drop_last()[0] == entries[0]);
        assert(entries.drop_last().drop_first() =~= entries.drop_first().drop_last());
        assert(entries.drop_first().last() == entries.last());
    } else {
        assert(entries.drop_first().len() == 0);
        assert(entries.drop_last().len() == 0);
        assert(members_have_json(entries.drop_last()));
        assert(members_have_json(entries.drop_first()));
        assert(entries.last() == entries[0]);
    }
}


/// `e` states the reason `r`.
pub open spec fn states(e: StdConvError, r: (Seq<char>, Seq<char>)) -> bool {
    e.expected@ == r.0 && e.got@ == r.1
}

fn conv_error(expected: &str, got: String) -> (e: StdConvError)
    ensures
        e.expected@ == expected@ && e.got@ == got@,
{
    StdConvError { expected: String::from_str(expected), got }
}

/// The first reason, in the order of a walk through `v`, why `v` cannot be
/// handed to a standard-library module.
fn std_error_of(v: &Value) -> (r: Option<StdConvError>)
    ensures
        match std_error(*v) {
            Some(x) => r matches Some(e) && states(e, x),
            None => r is None,
        },
    decreases v,
{
    match v {
        Value::Float(b) => {
            if finite_double(*b) {
                None
            } else {
                Some(conv_error("finite number", String::from_str("NaN/Inf float")))
            }
        },
        Value::Array(items) => {
            let mut i: usize = 0;
            assert(items@.skip(0) =~= items@);
            while i < items.len()
                invariant
                    i <= items@.len(),
                    *v == Value::Array(*items),
                    items_error(items@) == items_error(items@.skip(i as int)),
                decreases items@.len() - i,
            {
                proof {
                    assert(items == (*v)->Array_0);
                    assert(decreases_to!(*v => (*v)->Array_0));
                    assert(decreases_to!(*items => items@));
                    assert(decreases_to!(items@ => items@[i as int]));
                    assert(items@.skip(i as int)[0] == items@[i as int]);
                    assert(items@.skip(i as int).drop_first() =~= items@.skip(i + 1));
                }
                let e = std_error_of(&items[i]);
                if e.is_some() {
                    return e;
                }
                i = i + 1;
            }
            None
        },
        Value::Dict(entries) => {
            let mut i: usize = 0;
            assert(entries@.skip(0) =~= entries@);
            while i < entries.len()
                invariant
                    i <= entries@.len(),
                    *v == Value::Dict(*entries),
                    entries_error(entries@) == entries_error(entries@.skip(i as int)),
                decreases entries@.len() - i,
            {
                proof {
                    assert(entries == (*v)->Dict_0);
                    assert(decreases_to!(*v => (*v)->Dict_0));
                    assert(decreases_to!(*entries => entries@));
                    assert(decreases_to!(entries@ => entries@[i as int]));
                    assert(decreases_to!(entries@[i as int] => entries@[i as int].1));
                    assert(entries@.skip(i as int)[0] == entries@[i as int]);
                    assert(entries@.skip(i as int).drop_first() =~= entries@.skip(i + 1));
                }
                if !matches!(entries[i].0, Value::String(_)) {
                    return Some(
                        conv_error("string dict key", String::from_str(crate::value::type_label(&entries[i].0))),
                    );
                }
                let e = std_error_of(&entries[i].1);
                if e.is_some() {
                    return e;
                }
                i = i + 1;
            }
            None
        },
        Value::OkValue(x) => std_error_of(x),
        Value::ErrValue(_) => Some(conv_error("OK/primitives at std boundary", String::from_str("ERR(...)"))),
        Value::Closure { .. } => Some(conv_error("data value at std boundary", String::from_str("function closure"))),
        Value::NativeFn { name, handle: _ } => {
            let mut g = concat2("native fn `", name.as_str());
            g.append("`");
            Some(conv_error("data value at std boundary", g))
        },
        _ => None,
    }
}

/// The JSON form of `v` that a standard-library module receives, or the
/// first reason why `v` cannot cross (see `std_error`).
pub fn value_to_std_value(v: &Value) -> (r: Result<JsonValue, StdConvError>)
    ensures
        match std_error(*v) {
            None => r matches Ok(j) && json_of(*v, j),
            Some(x) => r matches Err(e) && states(e, x),
        },
{
    proof {
        lemma_std_error_none(*v);
    }
    match std_error_of(v) {
        Some(e) => Err(e),
        None => match value_to_json_value(v) {
            Some(j) => Ok(j),
            None => Err(conv_error("", String::new())),
        },
    }
}

/// Every double in `j` is finite (as in any JSON document).
pub open spec fn finite_json(j: JsonValue) -> bool
    decreases j, 0nat,
{
    match j {
        JsonValue::Double(b) => is_finite(b),
        JsonValue::List(items) => all_finite(items@),
        JsonValue::Object(members) => all_finite_members(members@),
        _ => true,
    }
}

/// Every double in `items` is finite.
pub open spec fn all_finite(items: Seq<JsonValue>) -> bool
    decreases items, 0nat,
{
    items.len() == 0 || (all_finite(items.drop_last()) && finite_json(items.last()))
}

/// Every double in the members' values is finite.
pub open spec fn all_finite_members(members: Seq<(String, JsonValue)>) -> bool
    decreases members, 0nat,
{
    members.len() == 0 || (all_finite_members(members.drop_last()) && finite_json(members.last().1))
}

/// The value that a standard-library module's JSON result stands for:
/// null, booleans, numbers, strings, arrays, and objects as dicts with
/// STRING keys, in member order.
pub fn std_value_to_value(j: JsonValue) -> (v: Value)
    ensures
        finite_json(j) ==> json_of(v, j),
    decreases j,
{
    match j {
        JsonValue::Null => Value::Null,
        JsonValue::Bool(b) => Value::Boolean(b),
        JsonValue::Int(i) => Value::Integer(i),
        JsonValue::Double(b) => Value::Float(b),
        JsonValue::Text(t) => Value::String(t),
        JsonValue::List(items) => {
            let ghost iv = items@;
            let mut out: Vec<Value> = Vec::new();
            let mut rest = crate::builtins::reversed(items);
            while rest.len() > 0
                invariant
                    rest@.len() <= iv.len(),
                    rest@ == iv.reverse().take(rest@.len() as int),
                    out@.len() == iv.len() - rest@.len(),
                    all_finite(iv.take(iv.len() - rest@.len())) ==> json_items(out@, iv.take(iv.len() - rest@.len())),
                    decreases_to!(j => iv),
                decreases rest@.len(),
            {
                let ghost n = rest@.len();
                let ghost done: int = iv.len() - n;
                let x = rest.pop().unwrap();
                assert(iv.reverse()[n - 1] == iv[done]);
                assert(rest@ =~= iv.reverse().take(n - 1));
                proof {
                    assert(decreases_to!(iv => iv[done]));
                }
                let ghost xv = x;
                let v = std_value_to_value(x);
                let ghost before = out@;
                out.push(v);
                proof {
                    let t = iv.take(done + 1);
                    assert(t.drop_last() =~= iv.take(done));
                    assert(t.last() == xv);
                    assert(out@.drop_last() =~= before);
                }
            }
            assert(iv.take(iv.len() as int) =~= iv);
            Value::Array(out)
        },
        JsonValue::Object(members) => {
            let ghost mv = members@;
            let mut out: Vec<(Value, Value)> = Vec::new();
            let mut rest = crate::builtins::reversed(members);
            while rest.len() > 0
                invariant
                    rest@.len() <= mv.len(),
                    rest@ == mv.reverse().take(rest@.len() as int),
                    out@.len() == mv.len() - rest@.len(),
                    all_finite_members(mv.take(mv.len() - rest@.len())) ==> json_members(
                        out@,
                        mv.take(mv.len() - rest@.len()),
                    ),
                    decreases_to!(j => mv),
                decreases rest@.len(),
            {
                let ghost n = rest@.len();
                let ghost done: int = mv.len() - n;
                let (k, x) = rest.pop().unwrap();
                assert(mv.reverse()[n - 1] == mv[done]);
                assert(rest@ =~= mv.reverse().take(n - 1));
                proof {
                    assert(decreases_to!(mv => mv[done]));
                    assert(decreases_to!(mv[done] => mv[done].1));
                }
                let ghost xv = x;
                let ghost kv = k;
                let v = std_value_to_value(x);
                let ghost before = out@;
                out.push((Value::String(k), v));
                proof {
                    let t = mv.take(done + 1);
                    assert(t.drop_last() =~= mv.take(done));
                    assert(t.last() == (kv, xv));
                    assert(out@.drop_last() =~= before);
                }
            }
            assert(mv.take(mv.len() as int) =~= mv);
            Value::Dict(out)
        },
    }
}

} // verus!
