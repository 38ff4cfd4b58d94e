//! Patterns of `MATCH` clauses and of destructuring `LET`: what a value
//! must look like to match, and the names a match binds.
//!
//! A match target is a value, or the tail of an array value from some
//! position on (what a `*rest` pattern meets).
use vstd::prelude::*;

use crate::compare::{
    copy_value, loosely_equal, same_entries, same_items, same_names, same_value, values_equal_loose,
};
use crate::display::{display, joined_names, shown, shown_entries, shown_items};
use crate::env::{cell_of, cells_below, set_scopes, value_of, Binding, Cells, Env};
use crate::text::{concat2, count_text, decimal, str_eq};
use crate::value::{type_label, type_label_spec, ErrorCode, Value};

verus! {

/// The key of a dict pattern entry: a literal, a name whose value is the
/// key, or an expression of another kind (which is refused).
#[derive(Debug)]
pub enum PatternKey {
    Literal(Value),
    Name(String),
    Other,
}

/// A pattern.
#[derive(Debug)]
pub enum Pattern {
    /// Binds the whole target to the name.
    Ident(String),
    /// `_`: matches anything, binds nothing.
    Wildcard,
    /// A literal: its value, and its text as written.
    Literal(Value, String),
    /// `[p1, ..., pn]` or `[p1, ..., pn, *rest]`.
    Array(Vec<Pattern>, Option<Box<Pattern>>),
    /// `{k1: p1, ...}`: each key must be present.
    Dict(Vec<(PatternKey, Pattern)>),
    /// `OK(p)` / `ERR(p)`.
    Constructor(String, Box<Pattern>),
}

/// Why matching could not be decided: an undefined name used as a dict
/// key (`E0020`), or another error with its code and message.
#[derive(Debug, PartialEq)]
pub enum PatternError {
    Undefined(String),
    Failed(ErrorCode, String),
}

/// `e` is the error `x`, given as its code and message (for `E0020`, the
/// undefined name).
pub open spec fn error_is(e: PatternError, x: (ErrorCode, Seq<char>)) -> bool {
    match e {
        PatternError::Undefined(n) => x.0 == ErrorCode::E0020 && n@ == x.1,
        PatternError::Failed(c, m) => c == x.0 && m@ == x.1 && c != ErrorCode::E0020,
    }
}

/// The items of the target: those of the array `v`, from position `k` on
/// when the target is a tail.
pub open spec fn target_items(v: Value, tail: Option<usize>) -> Seq<Value> {
    match v {
        Value::Array(a) => match tail {
            Some(k) => a@.skip(k as int),
            None => a@,
        },
        _ => Seq::empty(),
    }
}

/// Where the target's items start among the items of `v`.
pub open spec fn start_of(tail: Option<usize>) -> int {
    match tail {
        Some(k) => k as int,
        None => 0,
    }
}

/// The value of a dict-pattern key.
pub open spec fn key_of(key: PatternKey, s: Seq<Seq<(String, usize)>>, c: Seq<crate::env::Binding>) -> Result<
    Value,
    (ErrorCode, Seq<char>),
> {
    match key {
        PatternKey::Literal(v) => Ok(v),
        PatternKey::Name(n) => match value_of(s, c, n@) {
            Some(x) => Ok(x),
            None => Err((ErrorCode::E0020, n@)),
        },
        PatternKey::Other => Err((ErrorCode::E0026, "destructure pattern keys must be literals (Sec. 7.5)"@)),
    }
}

/// The position of the first entry of `d` whose key is loosely equal to
/// `key`.
pub open spec fn first_key_match(d: Seq<(Value, Value)>, key: Value) -> Option<int>
    decreases d.len(),
{
    if d.len() == 0 {
        None
    } else if loosely_equal(d[0].0, key) {
        Some(0)
    } else {
        match first_key_match(d.drop_first(), key) {
            Some(j) => Some(j + 1),
            None => None,
        }
    }
}

/// `r` with `prefix` in front of its bindings, when it has bindings.
pub open spec fn extend<B, E>(prefix: Seq<B>, r: Result<Option<Seq<B>>, E>) -> Result<Option<Seq<B>>, E> {
    match r {
        Ok(Some(bs)) => Ok(Some(prefix + bs)),
        other => other,
    }
}

/// The outcome of matching the target (`v`, or its tail from `tail`) with
/// `p`, where dict keys that are names take their values from the scopes
/// `s` over the cells `c`: the bindings made, in order, each a name with
/// its target; `None` when the target does not match; or an error.
pub open spec fn match_spec(
    p: Pattern,
    v: Value,
    tail: Option<usize>,
    s: Seq<Seq<(String, usize)>>,
    c: Seq<crate::env::Binding>,
) -> Result<Option<Seq<(Seq<char>, Value, Option<usize>)>>, (ErrorCode, Seq<char>)>
    decreases p, 0nat,
{
    match p {
        Pattern::Ident(name) => Ok(Some(seq![(name@, v, tail)])),
        Pattern::Wildcard => Ok(Some(Seq::empty())),
        Pattern::Literal(lit, _) => Ok(
            if tail is None && loosely_equal(lit, v) {
                Some(Seq::empty())
            } else {
                None
            },
        ),
        Pattern::Array(items, rest) => if !(v is Array) {
            Err((ErrorCode::E0030, "destructure pattern expected ARRAY, got "@ + type_label_spec(&v)@))
        } else {
            let arr = target_items(v, tail);
            if arr.len() < items@.len() {
                Ok(None)
            } else {
                match match_items(items@, arr, s, c) {
                    Ok(Some(bs)) => match rest {
                        Some(rp) => extend(
                            bs,
                            match_spec(*rp, v, Some((start_of(tail) + items@.len()) as usize), s, c),
                        ),
                        None => if arr.len() > items@.len() {
                            Ok(None)
                        } else {
                            Ok(Some(bs))
                        },
                    },
                    other => other,
                }
            }
        },
        Pattern::Dict(entries) => match (v, tail) {
            (Value::Dict(d), None) => match_entries(entries@, d@, s, c),
            _ => Err((ErrorCode::E0030, "destructure pattern expected DICT, got "@ + type_label_spec(&v)@)),
        },
        Pattern::Constructor(name, inner) => if name@ == "OK"@ {
            match (v, tail) {
                (Value::OkValue(x), None) => match_spec(*inner, *x, None, s, c),
                _ => Ok(None),
            }
        } else if name@ == "ERR"@ {
            match (v, tail) {
                (Value::ErrValue(x), None) => match_spec(*inner, *x, None, s, c),
                _ => Ok(None),
            }
        } else {
            Err(
                (
                    ErrorCode::E0026,
                    "unsupported constructor pattern `"@ + name@ + "` (only OK / ERR are valid in v0.4)"@,
                ),
            )
        },
    }
}

/// Matching the values `vals` with the patterns `ps`, one by one, in
/// order; the first that fails decides.
pub open spec fn match_items(
    ps: Seq<Pattern>,
    vals: Seq<Value>,
    s: Seq<Seq<(String, usize)>>,
    c: Seq<crate::env::Binding>,
) -> Result<Option<Seq<(Seq<char>, Value, Option<usize>)>>, (ErrorCode, Seq<char>)>
    decreases ps, 0nat,
{
    if ps.len() == 0 {
        Ok(Some(Seq::empty()))
    } else {
        match match_spec(ps[0], vals[0], None, s, c) {
            Ok(Some(b)) => extend(b, match_items(ps.drop_first(), vals.drop_first(), s, c)),
            other => other,
        }
    }
}

/// Matching the dict entries `d` with the entry patterns `es`, in order:
/// each key must be present, and the first entry with that key is
/// matched with the entry's pattern.
pub open spec fn match_entries(
    es: Seq<(PatternKey, Pattern)>,
    d: Seq<(Value, Value)>,
    s: Seq<Seq<(String, usize)>>,
    c: Seq<crate::env::Binding>,
) -> Result<Option<Seq<(Seq<char>, Value, Option<usize>)>>, (ErrorCode, Seq<char>)>
    decreases es, 0nat,
{
    if es.len() == 0 {
        Ok(Some(Seq::empty()))
    } else {
        match key_of(es[0].0, s, c) {
            Err(e) => Err(e),
            Ok(key) => match first_key_match(d, key) {
                None => Ok(None),
                Some(j) => match match_spec(es[0].1, d[j].1, None, s, c) {
                    Ok(Some(b)) => extend(b, match_entries(es.drop_first(), d, s, c)),
                    other => other,
                },
            },
        }
    }
}

/// The binding `e` is the name of `b` with a copy of its target.
pub open spec fn bound_like(e: (String, Value), b: (Seq<char>, Value, Option<usize>)) -> bool {
    &&& e.0@ == b.0
    &&& match b.2 {
        None => same_value(b.1, e.1),
        Some(k) => e.1 matches Value::Array(xs) && same_items(target_items(b.1, Some(k)), xs@),
    }
}

/// `after` is `before` followed by bindings like `bs`.
pub open spec fn extended_by(
    before: Seq<(String, Value)>,
    after: Seq<(String, Value)>,
    bs: Seq<(Seq<char>, Value, Option<usize>)>,
) -> bool {
    &&& after.len() == before.len() + bs.len()
    &&& after.take(before.len() as int) == before
    &&& forall|i: int| 0 <= i < bs.len() ==> bound_like(after[before.len() + i], #[trigger] bs[i])
}

/// `after` begins with `before`.
pub open spec fn kept_prefix(before: Seq<(String, Value)>, after: Seq<(String, Value)>) -> bool {
    after.len() >= before.len() && after.take(before.len() as int) == before
}

proof fn lemma_extended_trans(
    a: Seq<(String, Value)>,
    b: Seq<(String, Value)>,
    c: Seq<(String, Value)>,
    x: Seq<(Seq<char>, Value, Option<usize>)>,
    y: Seq<(Seq<char>, Value, Option<usize>)>,
)
    requires
        extended_by(a, b, x),
        extended_by(b, c, y),
    ensures
        extended_by(a, c, x + y),
{
    assert(c.take(a.len() as int) =~= b.take(a.len() as int)) by {
        assert forall|i: int| 0 <= i < a.len() implies c[i] == b[i] by {
            assert(c.take(b.len() as int)[i] == b[i]);
        }
    }
    assert forall|i: int| 0 <= i < (x + y).len() implies bound_like(c[a.len() + i], #[trigger] (x + y)[i]) by {
        if i < x.len() {
            assert((x + y)[i] == x[i]);
            assert(bound_like(b[a.len() + i], x[i]));
            assert(c.take(b.len() as int)[a.len() + i] == b[a.len() + i]);
        } else {
            assert((x + y)[i] == y[i - x.len()]);
            assert(bound_like(c[b.len() + (i - x.len())], y[i - x.len()]));
        }
    }
}

proof fn lemma_kept_trans(a: Seq<(String, Value)>, b: Seq<(String, Value)>, c: Seq<(String, Value)>)
    requires
        kept_prefix(a, b),
        kept_prefix(b, c),
    ensures
        kept_prefix(a, c),
{
    assert(c.take(a.len() as int) =~= a) by {
        assert forall|i: int| 0 <= i < a.len() implies c.take(a.len() as int)[i] == a[i] by {
            assert(c.take(b.len() as int)[i] == b[i]);
            assert(b.take(a.len() as int)[i] == a[i]);
        }
    }
}

proof fn lemma_extend_assoc<B, E>(x: Seq<B>, y: Seq<B>, r: Result<Option<Seq<B>>, E>)
    ensures
        extend(x, extend(y, r)) == extend(x + y, r),
{
    if let Ok(Some(bs)) = r {
        assert(x + (y + bs) =~= (x + y) + bs);
    }
}

/// Copies of the items of `items` from position `k` on.
fn copy_tail(items: &Vec<Value>, k: usize) -> (r: Vec<Value>)
    requires
        k <= items@.len(),
    ensures
        same_items(items@.skip(k as int), r@),
{
    let mut out: Vec<Value> = Vec::new();
    let mut i: usize = k;
    while i < items.len()
        invariant
            k <= i <= items@.len(),
            same_items(items@.subrange(k as int, i as int), out@),
        decreases items@.len() - i,
    {
        let x = copy_value(&items[i]);
        let ghost before = out@;
        out.push(x);
        proof {
            let t = items@.subrange(k as int, i + 1);
            assert(t.drop_last() =~= items@.subrange(k as int, i as int));
            assert(out@.drop_last() =~= before);
        }
        i = i + 1;
    }
    assert(items@.subrange(k as int, items@.len() as int) =~= items@.skip(k as int));
    out
}

/// The position of the first entry of `d` whose key is loosely equal to
/// `key`.
fn find_key(d: &Vec<(Value, Value)>, key: &Value) -> (r: Option<usize>)
    ensures
        match first_key_match(d@, *key) {
            Some(j) => r matches Some(k) && k == j && j < d@.len(),
            None => r is None,
        },
{
    let mut i: usize = 0;
    assert(d@.skip(0) =~= d@);
    while i < d.len()
        invariant
            i <= d@.len(),
            first_key_match(d@, *key) == match first_key_match(d@.skip(i as int), *key) {
                Some(j) => Some(j + i),
                None => None,
            },
        decreases d@.len() - i,
    {
        assert(d@.skip(i as int)[0] == d@[i as int]);
        assert(d@.skip(i as int).drop_first() =~= d@.skip(i + 1));
        if values_equal_loose(&d[i].0, key) {
            return Some(i);
        }
        i = i + 1;
    }
    None
}

/// The value of a dict-pattern key.
fn eval_key<'a>(key: &'a PatternKey, env: &Env, cells: &'a Cells) -> (r: Result<&'a Value, PatternError>)
    requires
        cells_below(env.scopes(), cells@.len()),
    ensures
        match key_of(*key, env.scopes(), cells@) {
            Ok(v) => r matches Ok(x) && *x == v,
            Err(e) => r matches Err(x) && error_is(x, e),
        },
{
    match key {
        PatternKey::Literal(v) => Ok(v),
        PatternKey::Name(n) => match env.get(cells, n.as_str()) {
            Some(x) => Ok(x),
            None => Err(PatternError::Undefined(n.clone())),
        },
        PatternKey::Other => Err(
            PatternError::Failed(
                ErrorCode::E0026,
                String::from_str("destructure pattern keys must be literals (Sec. 7.5)"),
            ),
        ),
    }
}

/// What a match that the spec decides as `m` did: its result `r`, and how
/// the bindings went from `before` to `after`. A match binds its names
/// after the bindings it was given; a failed match leaves them as they
/// were; an error keeps at least what was there.
pub open spec fn outcome_is(
    m: Result<Option<Seq<(Seq<char>, Value, Option<usize>)>>, (ErrorCode, Seq<char>)>,
    r: Result<bool, PatternError>,
    before: Seq<(String, Value)>,
    after: Seq<(String, Value)>,
) -> bool {
    match m {
        Ok(Some(bs)) => r == Ok::<bool, PatternError>(true) && extended_by(before, after, bs),
        Ok(None) => r == Ok::<bool, PatternError>(false) && after == before,
        Err(e) => r matches Err(x) && error_is(x, e) && kept_prefix(before, after),
    }
}

fn restore(bindings: &mut Vec<(String, Value)>, checkpoint: usize, Ghost(before): Ghost<Seq<(String, Value)>>)
    requires
        checkpoint == before.len(),
        kept_prefix(before, old(bindings)@),
    ensures
        final(bindings)@ == before,
{
    bindings.truncate(checkpoint);
    assert(bindings@ =~= before);
}

fn match_into(
    p: &Pattern,
    v: &Value,
    tail: Option<usize>,
    env: &Env,
    cells: &Cells,
    bindings: &mut Vec<(String, Value)>,
) -> (r: Result<bool, PatternError>)
    requires
        cells_below(env.scopes(), cells@.len()),
        tail matches Some(k) ==> (v is Array && k <= v->Array_0@.len()),
    ensures
        outcome_is(match_spec(*p, *v, tail, env.scopes(), cells@), r, old(bindings)@, final(bindings)@),
    decreases p,
{
    let ghost s = env.scopes();
    let ghost c = cells@;
    let ghost before = bindings@;
    match p {
        Pattern::Ident(name) => {
            let val = match tail {
                None => copy_value(v),
                Some(k) => match v {
                    Value::Array(a) => Value::Array(copy_tail(a, k)),
                    _ => Value::Null,
                },
            };
            bindings.push((name.clone(), val));
            proof {
                let bs = seq![(name@, *v, tail)];
                assert(bindings@.take(before.len() as int) =~= before);
                assert(bound_like(bindings@[before.len() as int], bs[0]));
                assert(extended_by(before, bindings@, bs));
            }
            Ok(true)
        },
        Pattern::Wildcard => {
            assert(bindings@.take(before.len() as int) =~= before);
            assert(extended_by(before, bindings@, Seq::empty()));
            Ok(true)
        },
        Pattern::Literal(lit, _) => {
            if tail.is_some() {
                return Ok(false);
            }
            assert(bindings@.take(before.len() as int) =~= before);
            Ok(values_equal_loose(lit, v))
        },
        Pattern::Array(items, rest) => {
            let a = match v {
                Value::Array(a) => a,
                other => {
                    assert(bindings@.take(before.len() as int) =~= before);
                    return Err(
                        PatternError::Failed(
                            ErrorCode::E0030,
                            concat2("destructure pattern expected ARRAY, got ", type_label(other)),
                        ),
                    );
                },
            };
            let start: usize = match tail {
                Some(k) => k,
                None => 0,
            };
            let n = items.len();
            let alen = a.len();
            let ghost arr = target_items(*v, tail);
            assert(arr =~= a@.skip(start as int));
            if a.len() - start < n {
                return Ok(false);
            }
            let checkpoint = bindings.len();
            let ghost mut acc: Seq<(Seq<char>, Value, Option<usize>)> = Seq::empty();
            assert(bindings@.take(before.len() as int) =~= before);
            assert(items@.skip(0) =~= items@);
            assert(arr.skip(0) =~= arr);
            assert(acc + Seq::<(Seq<char>, Value, Option<usize>)>::empty() =~= acc);
            proof {
                lemma_extend_assoc(acc, Seq::empty(), match_items(items@, arr, s, c));
                assert(extend(Seq::<(Seq<char>, Value, Option<usize>)>::empty(), match_items(items@, arr, s, c))
                    == match_items(items@, arr, s, c)) by {
                    if let Ok(Some(bs)) = match_items(items@, arr, s, c) {
                        assert(Seq::<(Seq<char>, Value, Option<usize>)>::empty() + bs =~= bs);
                    }
                }
            }
            let mut i: usize = 0;
            while i < n
                invariant
                    s == env.scopes(),
                    c == cells@,
                    cells_below(s, c.len()),
                    *p == Pattern::Array(*items, *rest),
                    *v == Value::Array(*a),
                    n == items@.len(),
                    start <= a@.len(),
                    start + n <= a@.len(),
                    alen == a@.len(),
                    start == start_of(tail),
                    arr == target_items(*v, tail),
                    arr == a@.skip(start as int),
                    before == old(bindings)@,
                    arr.len() >= n,
                    i <= n,
                    checkpoint == before.len(),
                    extended_by(before, bindings@, acc),
                    match_items(items@, arr, s, c) == extend(
                        acc,
                        match_items(items@.skip(i as int), arr.skip(i as int), s, c),
                    ),
                decreases n - i,
            {
                proof {
                    assert(decreases_to!(*p => (*p)->Array_0));
                    assert(decreases_to!(*items => items@));
                    assert(decreases_to!(items@ => items@[i as int]));
                }
                let ghost mid = bindings@;
                let ghost sub = match_spec(items@[i as int], arr[i as int], None, s, c);
                assert(arr[i as int] == a@[start + i]);
                let step = match_into(&items[i], &a[start + i], None, env, cells, bindings);
                proof {
                    let ps = items@.skip(i as int);
                    let vs = arr.skip(i as int);
                    assert(ps[0] == items@[i as int]);
                    assert(vs[0] == arr[i as int]);
                    assert(ps.drop_first() =~= items@.skip(i + 1));
                    assert(vs.drop_first() =~= arr.skip(i + 1));
                }
                match step {
                    Err(e) => {
                        proof {
                            assert(kept_prefix(before, mid)) by {
                                assert(mid.take(before.len() as int) == before);
                            }
                            lemma_kept_trans(before, mid, bindings@);
                        }
                        return Err(e);
                    },
                    Ok(false) => {
                        proof {
                            assert(mid.take(before.len() as int) == before);
                        }
                        restore(bindings, checkpoint, Ghost(before));
                        return Ok(false);
                    },
                    Ok(true) => {
                        proof {
                            let b = sub->Ok_0->Some_0;
                            lemma_extended_trans(before, mid, bindings@, acc, b);
                            lemma_extend_assoc(
                                acc,
                                b,
                                match_items(items@.skip(i + 1), arr.skip(i + 1), s, c),
                            );
                            acc = acc + b;
                        }
                    },
                }
                i = i + 1;
            }
            proof {
                assert(items@.skip(n as int).len() == 0);
                assert(acc + Seq::<(Seq<char>, Value, Option<usize>)>::empty() =~= acc);
            }
            match rest {
                Some(rp) => {
                    proof {
                        assert(decreases_to!(*p => (*p)->Array_1));
                    }
                    let ghost mid = bindings@;
                    let rr = match_into(rp, v, Some(start + n), env, cells, bindings);
                    match rr {
                        Err(e) => {
                            proof {
                                assert(kept_prefix(before, mid)) by {
                                    assert(mid.take(before.len() as int) == before);
                                }
                                lemma_kept_trans(before, mid, bindings@);
                            }
                            Err(e)
                        },
                        Ok(false) => {
                            proof {
                                assert(mid.take(before.len() as int) == before);
                            }
                            restore(bindings, checkpoint, Ghost(before));
                            Ok(false)
                        },
                        Ok(true) => {
                            proof {
                                let b = match_spec(**rp, *v, Some((start + n) as usize), s, c)->Ok_0->Some_0;
                                lemma_extended_trans(before, mid, bindings@, acc, b);
                            }
                            Ok(true)
                        },
                    }
                },
                None => {
                    if a.len() - start > n {
                        proof {
                            assert(bindings@.take(before.len() as int) == before);
                        }
                        restore(bindings, checkpoint, Ghost(before));
                        return Ok(false);
                    }
                    Ok(true)
                },
            }
        },
        Pattern::Dict(entries) => {
            let d = match (v, tail) {
                (Value::Dict(d), None) => d,
                _ => {
                    assert(bindings@.take(before.len() as int) =~= before);
                    return Err(
                        PatternError::Failed(
                            ErrorCode::E0030,
                            concat2("destructure pattern expected DICT, got ", type_label(v)),
                        ),
                    );
                },
            };
            let checkpoint = bindings.len();
            let ghost mut acc: Seq<(Seq<char>, Value, Option<usize>)> = Seq::empty();
            assert(bindings@.take(before.len() as int) =~= before);
            assert(entries@.skip(0) =~= entries@);
            proof {
                assert(extend(Seq::<(Seq<char>, Value, Option<usize>)>::empty(), match_entries(entries@, d@, s, c))
                    == match_entries(entries@, d@, s, c)) by {
                    if let Ok(Some(bs)) = match_entries(entries@, d@, s, c) {
                        assert(Seq::<(Seq<char>, Value, Option<usize>)>::empty() + bs =~= bs);
                    }
                }
            }
            let mut i: usize = 0;
            while i < entries.len()
                invariant
                    s == env.scopes(),
                    c == cells@,
                    cells_below(s, c.len()),
                    *p == Pattern::Dict(*entries),
                    *v == Value::Dict(*d),
                    tail is None,
                    before == old(bindings)@,
                    i <= entries@.len(),
                    checkpoint == before.len(),
                    extended_by(before, bindings@, acc),
                    match_entries(entries@, d@, s, c) == extend(
                        acc,
                        match_entries(entries@.skip(i as int), d@, s, c),
                    ),
                decreases entries@.len() - i,
            {
                proof {
                    assert(decreases_to!(*p => (*p)->Dict_0));
                    assert(decreases_to!(*entries => entries@));
                    assert(decreases_to!(entries@ => entries@[i as int]));
                    assert(decreases_to!(entries@[i as int] => entries@[i as int].1));
                    let es = entries@.skip(i as int);
                    assert(es[0] == entries@[i as int]);
                    assert(es.drop_first() =~= entries@.skip(i + 1));
                }
                let ghost mid = bindings@;
                let key = match eval_key(&entries[i].0, env, cells) {
                    Ok(k) => k,
                    Err(e) => {
                        proof {
                            assert(kept_prefix(before, mid)) by {
                                assert(mid.take(before.len() as int) == before);
                            }
                            let ke = key_of(entries@[i as int].0, s, c)->Err_0;
                            assert(match_entries(entries@.skip(i as int), d@, s, c) matches Err(x) && x == ke);
                            assert(match_entries(entries@, d@, s, c) matches Err(x) && x == ke);
                            assert(match_spec(*p, *v, tail, s, c) matches Err(x) && x == ke);
                            assert(error_is(e, ke));
                        }
                        return Err(e);
                    },
                };
                let j = match find_key(d, key) {
                    Some(j) => j,
                    None => {
                        proof {
                            assert(mid.take(before.len() as int) == before);
                        }
                        restore(bindings, checkpoint, Ghost(before));
                        return Ok(false);
                    },
                };
                let ghost sub = match_spec(entries@[i as int].1, d@[j as int].1, None, s, c);
                proof {
                    assert(key_of(entries@[i as int].0, s, c) == Ok::<Value, (ErrorCode, Seq<char>)>(*key));
                    assert(first_key_match(d@, *key) == Some(j as int));
                    let rest = match sub {
                        Ok(Some(b)) => extend(b, match_entries(entries@.skip(i + 1), d@, s, c)),
                        other => other,
                    };
                    assert(match_entries(entries@.skip(i as int), d@, s, c) == rest);
                    assert(match_spec(*p, *v, tail, s, c) == match_entries(entries@, d@, s, c));
                }
                let step = match_into(&entries[i].1, &d[j].1, None, env, cells, bindings);
                match step {
                    Err(e) => {
                        proof {
                            assert(kept_prefix(before, mid)) by {
                                assert(mid.take(before.len() as int) == before);
                            }
                            lemma_kept_trans(before, mid, bindings@);
                        }
                        return Err(e);
                    },
                    Ok(false) => {
                        proof {
                            assert(mid.take(before.len() as int) == before);
                        }
                        restore(bindings, checkpoint, Ghost(before));
                        return Ok(false);
                    },
                    Ok(true) => {
                        proof {
                            let b = sub->Ok_0->Some_0;
                            lemma_extended_trans(before, mid, bindings@, acc, b);
                            lemma_extend_assoc(acc, b, match_entries(entries@.skip(i + 1), d@, s, c));
                            acc = acc + b;
                        }
                    },
                }
                i = i + 1;
            }
            proof {
                assert(entries@.skip(entries@.len() as int).len() == 0);
                assert(acc + Seq::<(Seq<char>, Value, Option<usize>)>::empty() =~= acc);
                assert(match_spec(*p, *v, tail, s, c) == match_entries(entries@, d@, s, c));
                assert(match_entries(entries@, d@, s, c) == Ok::<
                    Option<Seq<(Seq<char>, Value, Option<usize>)>>,
                    (ErrorCode, Seq<char>),
                >(Some(acc)));
            }
            Ok(true)
        },
        Pattern::Constructor(name, inner) => {
            proof {
                assert(decreases_to!(*p => (*p)->Constructor_1));
            }
            if str_eq(name.as_str(), "OK") {
                match (v, tail) {
                    (Value::OkValue(x), None) => match_into(inner, x, None, env, cells, bindings),
                    _ => Ok(false),
                }
            } else if str_eq(name.as_str(), "ERR") {
                match (v, tail) {
                    (Value::ErrValue(x), None) => match_into(inner, x, None, env, cells, bindings),
                    _ => Ok(false),
                }
            } else {
                assert(bindings@.take(before.len() as int) =~= before);
                let mut m = concat2("unsupported constructor pattern `", name.as_str());
                m.append("` (only OK / ERR are valid in v0.4)");
                Err(PatternError::Failed(ErrorCode::E0026, m))
            }
        },
    }
}

/// Matches `v` with `p` (a `MATCH` clause), appending what the pattern
/// binds to `bindings`, in order. A value that does not fit gives
/// `Ok(false)` and leaves `bindings` as they were; a dict key that is an
/// undefined name or not a literal, a value of the wrong kind for an
/// array or dict pattern, or a constructor other than `OK` / `ERR` is an
/// error.
pub fn try_match(p: &Pattern, v: &Value, env: &Env, cells: &Cells, bindings: &mut Vec<(String, Value)>) -> (r: Result<
    bool,
    PatternError,
>)
    requires
        cells_below(env.scopes(), cells@.len()),
    ensures
        outcome_is(match_spec(*p, *v, None, env.scopes(), cells@), r, old(bindings)@, final(bindings)@),
{
    match_into(p, v, None, env, cells, bindings)
}

/// What destructuring knows of a cell: its target (a value, or the tail
/// of an array value from a position), and whether it is mutable.
pub open spec fn store_of(cells: Seq<Binding>) -> Seq<(Value, Option<usize>, bool)> {
    cells.map_values(|b: Binding| (b.value, None::<usize>, b.mutable))
}

/// The cell `b` holds a copy of the target `d`.
pub open spec fn holds_like(b: Binding, d: (Value, Option<usize>, bool)) -> bool {
    &&& b.mutable == d.2
    &&& match d.1 {
        None => same_value(d.0, b.value),
        Some(k) => b.value matches Value::Array(xs) && same_items(target_items(d.0, Some(k)), xs@),
    }
}

/// The cells hold copies of the targets of `st`, cell by cell.
pub open spec fn store_like(cells: Seq<Binding>, st: Seq<(Value, Option<usize>, bool)>) -> bool {
    &&& cells.len() == st.len()
    &&& forall|i: int| 0 <= i < st.len() ==> holds_like(cells[i], #[trigger] st[i])
}

/// The target that a dict-pattern key stands for.
pub open spec fn key_target(
    key: PatternKey,
    s: Seq<Seq<(String, usize)>>,
    st: Seq<(Value, Option<usize>, bool)>,
) -> Result<(Value, Option<usize>), (ErrorCode, Seq<char>)> {
    match key {
        PatternKey::Literal(v) => Ok((v, None)),
        PatternKey::Name(n) => match cell_of(s, n@) {
            Some(c) => Ok((st[c as int].0, st[c as int].1)),
            None => Err((ErrorCode::E0020, n@)),
        },
        PatternKey::Other => Err((ErrorCode::E0026, "destructure pattern keys must be literals (Sec. 7.5)"@)),
    }
}

/// The position of the first entry of `d` whose key is loosely equal to
/// the target `t` (an array tail equals no key).
pub open spec fn key_position(d: Seq<(Value, Value)>, t: (Value, Option<usize>)) -> Option<int> {
    if t.1 is None {
        first_key_match(d, t.0)
    } else {
        None
    }
}

/// The text of the target `t`, as `STR` writes it.
pub open spec fn target_text(t: (Value, Option<usize>), texts: Seq<(u64, String)>) -> Seq<char> {
    match t.1 {
        None => shown(t.0, texts),
        Some(k) => "["@ + shown_items(target_items(t.0, Some(k)), texts) + "]"@,
    }
}

/// The scopes and cell store after destructuring the target (`v`, or its
/// tail from `tail`) with `p`, binding each name as a new immutable cell
/// in the innermost scope, in order; or the error that stops it. Dict keys
/// that are names are read when they are reached, so they see what the
/// pattern bound before them.
pub open spec fn destructure_spec(
    p: Pattern,
    v: Value,
    tail: Option<usize>,
    s: Seq<Seq<(String, usize)>>,
    st: Seq<(Value, Option<usize>, bool)>,
    texts: Seq<(u64, String)>,
) -> Result<(Seq<Seq<(String, usize)>>, Seq<(Value, Option<usize>, bool)>), (ErrorCode, Seq<char>)>
    decreases p, 0nat,
{
    match p {
        Pattern::Ident(name) => Ok(
            (
                set_scopes(s, name, st.len() as usize),
                if s.len() == 0 {
                    st
                } else {
                    st.push((v, tail, false))
                },
            ),
        ),
        Pattern::Wildcard => Ok((s, st)),
        Pattern::Literal(lit, text) => if tail is None && loosely_equal(lit, v) {
            Ok((s, st))
        } else {
            Err(
                (
                    ErrorCode::E0026,
                    "destructure pattern mismatch: literal `"@ + text@ + "` does not match value"@,
                ),
            )
        },
        Pattern::Array(items, rest) => if !(v is Array) {
            Err((ErrorCode::E0030, "destructure pattern expected ARRAY, got "@ + type_label_spec(&v)@))
        } else {
            let arr = target_items(v, tail);
            if arr.len() < items@.len() {
                Err(
                    (
                        ErrorCode::E0026,
                        "destructure pattern mismatch: array of length "@ + decimal(arr.len() as int)
                            + " does not match pattern with "@ + decimal(items@.len() as int)
                            + " element(s)"@,
                    ),
                )
            } else {
                match destructure_items(items@, arr, s, st, texts) {
                    Ok((s2, st2)) => match rest {
                        Some(rp) => destructure_spec(
                            *rp,
                            v,
                            Some((start_of(tail) + items@.len()) as usize),
                            s2,
                            st2,
                            texts,
                        ),
                        None => if arr.len() > items@.len() {
                            Err(
                                (
                                    ErrorCode::E0026,
                                    "destructure pattern mismatch: array of length "@ + decimal(arr.len() as int)
                                        + " is too long for pattern with "@ + decimal(items@.len() as int)
                                        + " element(s) (no *rest)"@,
                                ),
                            )
                        } else {
                            Ok((s2, st2))
                        },
                    },
                    Err(e) => Err(e),
                }
            }
        },
        Pattern::Dict(entries) => match (v, tail) {
            (Value::Dict(d), None) => destructure_entries(entries@, d@, s, st, texts),
            _ => Err((ErrorCode::E0030, "destructure pattern expected DICT, got "@ + type_label_spec(&v)@)),
        },
        Pattern::Constructor(name, inner) => if name@ == "OK"@ {
            match (v, tail) {
                (Value::OkValue(x), None) => destructure_spec(*inner, *x, None, s, st, texts),
                _ => Err((ErrorCode::E0026, "destructure pattern mismatch: value is not "@ + name@)),
            }
        } else if name@ == "ERR"@ {
            match (v, tail) {
                (Value::ErrValue(x), None) => destructure_spec(*inner, *x, None, s, st, texts),
                _ => Err((ErrorCode::E0026, "destructure pattern mismatch: value is not "@ + name@)),
            }
        } else {
            Err(
                (
                    ErrorCode::E0026,
                    "unsupported constructor pattern `"@ + name@
                        + "` in destructure (only OK / ERR are valid in v0.4)"@,
                ),
            )
        },
    }
}

/// Destructuring the values `vals` with the patterns `ps`, one by one.
pub open spec fn destructure_items(
    ps: Seq<Pattern>,
    vals: Seq<Value>,
    s: Seq<Seq<(String, usize)>>,
    st: Seq<(Value, Option<usize>, bool)>,
    texts: Seq<(u64, String)>,
) -> Result<(Seq<Seq<(String, usize)>>, Seq<(Value, Option<usize>, bool)>), (ErrorCode, Seq<char>)>
    decreases ps, 0nat,
{
    if ps.len() == 0 {
        Ok((s, st))
    } else {
        match destructure_spec(ps[0], vals[0], None, s, st, texts) {
            Ok((s1, st1)) => destructure_items(ps.drop_first(), vals.drop_first(), s1, st1, texts),
            Err(e) => Err(e),
        }
    }
}

/// Destructuring the dict entries `d` with the entry patterns `es`, in
/// order: each key must be present.
pub open spec fn destructure_entries(
    es: Seq<(PatternKey, Pattern)>,
    d: Seq<(Value, Value)>,
    s: Seq<Seq<(String, usize)>>,
    st: Seq<(Value, Option<usize>, bool)>,
    texts: Seq<(u64, String)>,
) -> Result<(Seq<Seq<(String, usize)>>, Seq<(Value, Option<usize>, bool)>), (ErrorCode, Seq<char>)>
    decreases es, 0nat,
{
    if es.len() == 0 {
        Ok((s, st))
    } else {
        match key_target(es[0].0, s, st) {
            Err(e) => Err(e),
            Ok(t) => match key_position(d, t) {
                None => Err(
                    (ErrorCode::E0026, "destructure pattern mismatch: dict missing key `"@ + target_text(t, texts) + "`"@),
                ),
                Some(j) => match destructure_spec(es[0].1, d[j].1, None, s, st, texts) {
                    Ok((s1, st1)) => destructure_entries(es.drop_first(), d, s1, st1, texts),
                    Err(e) => Err(e),
                },
            },
        }
    }
}

proof fn lemma_same_names_joined(x: Seq<String>, y: Seq<String>)
    requires
        same_names(x, y),
    ensures
        joined_names(x) == joined_names(y),
    decreases x.len(),
{
    if x.len() > 1 {
        assert(same_names(x.drop_last(), y.drop_last())) by {
            assert forall|i: int| 0 <= i < x.drop_last().len() implies (#[trigger] x.drop_last()[i])@
                == y.drop_last()[i]@ by {
                assert(x.drop_last()[i] == x[i]);
                assert(y.drop_last()[i] == y[i]);
            }
        }
        lemma_same_names_joined(x.drop_last(), y.drop_last());
        assert(x.last()@ == y.last()@);
    } else if x.len() == 1 {
        assert(x[0]@ == y[0]@);
    }
}

/// Copies have the same text.
proof fn lemma_same_shown(a: Value, b: Value, texts: Seq<(u64, String)>)
    requires
        same_value(a, b),
    ensures
        shown(a, texts) == shown(b, texts),
    decreases a, 1nat,
{
    match (a, b) {
        (Value::Array(x), Value::Array(y)) => {
            lemma_same_items_shown(x@, y@, texts);
        },
        (Value::Dict(x), Value::Dict(y)) => {
            lemma_same_entries_shown(x@, y@, texts);
        },
        (Value::Closure { params: p, handle: _ }, Value::Closure { params: q, handle: _ }) => {
            lemma_same_names_joined(p@, q@);
        },
        (Value::OkValue(x), Value::OkValue(y)) => {
            lemma_same_shown(*x, *y, texts);
        },
        (Value::ErrValue(x), Value::ErrValue(y)) => {
            lemma_same_shown(*x, *y, texts);
        },
        _ => {},
    }
}

proof fn lemma_same_items_shown(x: Seq<Value>, y: Seq<Value>, texts: Seq<(u64, String)>)
    requires
        same_items(x, y),
    ensures
        shown_items(x, texts) == shown_items(y, texts),
    decreases x, 1nat,
{
    if x.len() > 0 {
        lemma_same_items_shown(x.drop_last(), y.drop_last(), texts);
        lemma_same_shown(x.last(), y.last(), texts);
        if x.len() == 1 {
            assert(x[0] == x.last());
            assert(y[0] == y.last());
        }
    }
}

proof fn lemma_same_entries_shown(x: Seq<(Value, Value)>, y: Seq<(Value, Value)>, texts: Seq<(u64, String)>)
    requires
        same_entries(x, y),
    ensures
        shown_entries(x, texts) == shown_entries(y, texts),
    decreases x, 1nat,
{
    if x.len() > 0 {
        lemma_same_entries_shown(x.drop_last(), y.drop_last(), texts);
        lemma_same_shown(x.last().0, y.last().0, texts);
        lemma_same_shown(x.last().1, y.last().1, texts);
    }
}

proof fn lemma_same_key_match(d: Seq<(Value, Value)>, a: Value, b: Value)
    requires
        same_value(a, b),
    ensures
        first_key_match(d, a) == first_key_match(d, b),
    decreases d.len(),
{
    if d.len() > 0 {
        lemma_same_key_match(d.drop_first(), a, b);
        assert(loosely_equal(d[0].0, a) == loosely_equal(d[0].0, b));
    }
}

proof fn lemma_array_key_match(d: Seq<(Value, Value)>, b: Value)
    requires
        b is Array,
    ensures
        first_key_match(d, b) is None,
    decreases d.len(),
{
    if d.len() > 0 {
        lemma_array_key_match(d.drop_first(), b);
    }
}

/// The error for an array of `len` items met by a pattern of `n` items:
/// too short, or (`long`) too long without a `*rest`.
fn array_length_error(len: usize, n: usize, long: bool) -> (e: PatternError)
    ensures
        e == PatternError::Failed(ErrorCode::E0026, e->Failed_1),
        long ==> e->Failed_1@ == "destructure pattern mismatch: array of length "@ + decimal(len as int)
            + " is too long for pattern with "@ + decimal(n as int) + " element(s) (no *rest)"@,
        !long ==> e->Failed_1@ == "destructure pattern mismatch: array of length "@ + decimal(len as int)
            + " does not match pattern with "@ + decimal(n as int) + " element(s)"@,
{
    let mut m = concat2("destructure pattern mismatch: array of length ", count_text(len).as_str());
    if long {
        m.append(" is too long for pattern with ");
    } else {
        m.append(" does not match pattern with ");
    }
    m.append(count_text(n).as_str());
    if long {
        m.append(" element(s) (no *rest)");
    } else {
        m.append(" element(s)");
    }
    PatternError::Failed(ErrorCode::E0026, m)
}

fn destructure_into(
    p: &Pattern,
    v: &Value,
    tail: Option<usize>,
    env: &mut Env,
    cells: &mut Cells,
    texts: &Vec<(u64, String)>,
    Ghost(st): Ghost<Seq<(Value, Option<usize>, bool)>>,
) -> (r: Result<(), PatternError>)
    requires
        cells_below(old(env).scopes(), old(cells)@.len()),
        store_like(old(cells)@, st),
        tail matches Some(k) ==> (v is Array && k <= v->Array_0@.len()),
    ensures
        cells_below(final(env).scopes(), final(cells)@.len()),
        old(cells)@.len() <= final(cells)@.len(),
        match destructure_spec(*p, *v, tail, old(env).scopes(), st, texts@) {
            Ok((s2, st2)) => r is Ok && final(env).scopes() == s2 && store_like(final(cells)@, st2),
            Err(e) => r matches Err(x) && error_is(x, e),
        },
    decreases p,
{
    let ghost s0 = env.scopes();
    let ghost n0 = cells@.len();
    match p {
        Pattern::Ident(name) => {
            let val = match tail {
                None => copy_value(v),
                Some(k) => match v {
                    Value::Array(a) => Value::Array(copy_tail(a, k)),
                    _ => Value::Null,
                },
            };
            let ghost c0 = cells@;
            let ghost bound = Binding { value: val, mutable: false };
            let nm = name.clone();
            env.set_local(cells, nm, val);
            proof {
                if s0.len() > 0 {
                    let st2 = st.push((*v, tail, false));
                    assert(cells@ == c0.push(bound));
                    assert forall|i: int| 0 <= i < st2.len() implies holds_like(cells@[i], #[trigger] st2[i]) by {
                        if i < st.len() {
                            assert(cells@[i] == c0[i]);
                            assert(st2[i] == st[i]);
                        }
                    }
                }
            }
            Ok(())
        },
        Pattern::Wildcard => Ok(()),
        Pattern::Literal(lit, text) => {
            if tail.is_none() && values_equal_loose(lit, v) {
                Ok(())
            } else {
                let mut m = concat2("destructure pattern mismatch: literal `", text.as_str());
                m.append("` does not match value");
                Err(PatternError::Failed(ErrorCode::E0026, m))
            }
        },
        Pattern::Array(items, rest) => {
            let a = match v {
                Value::Array(a) => a,
                other => {
                    return Err(
                        PatternError::Failed(
                            ErrorCode::E0030,
                            concat2("destructure pattern expected ARRAY, got ", type_label(other)),
                        ),
                    );
                },
            };
            let start: usize = match tail {
                Some(k) => k,
                None => 0,
            };
            let n = items.len();
            let alen = a.len();
            let ghost arr = target_items(*v, tail);
            assert(arr =~= a@.skip(start as int));
            if alen - start < n {
                return Err(array_length_error(alen - start, n, false));
            }
            let ghost mut cur = st;
            assert(items@.skip(0) =~= items@);
            assert(arr.skip(0) =~= arr);
            let mut i: usize = 0;
            while i < n
                invariant
                    old(cells)@.len() <= cells@.len(),
                    s0 == old(env).scopes(),
                    *p == Pattern::Array(*items, *rest),
                    *v == Value::Array(*a),
                    n == items@.len(),
                    alen == a@.len(),
                    start <= alen,
                    start + n <= alen,
                    start == start_of(tail),
                    arr == target_items(*v, tail),
                    arr == a@.skip(start as int),
                    i <= n,
                    cells_below(env.scopes(), cells@.len()),
                    store_like(cells@, cur),
                    destructure_items(items@, arr, s0, st, texts@) == destructure_items(
                        items@.skip(i as int),
                        arr.skip(i as int),
                        env.scopes(),
                        cur,
                        texts@,
                    ),
                decreases n - i,
            {
                proof {
                    assert(decreases_to!(*p => (*p)->Array_0));
                    assert(decreases_to!(*items => items@));
                    assert(decreases_to!(items@ => items@[i as int]));
                    let ps = items@.skip(i as int);
                    let vs = arr.skip(i as int);
                    assert(ps[0] == items@[i as int]);
                    assert(vs[0] == arr[i as int]);
                    assert(ps.drop_first() =~= items@.skip(i + 1));
                    assert(vs.drop_first() =~= arr.skip(i + 1));
                }
                assert(arr[i as int] == a@[start + i]);
                let ghost here = env.scopes();
                let ghost sub = destructure_spec(items@[i as int], arr[i as int], None, here, cur, texts@);
                let step = destructure_into(&items[i], &a[start + i], None, env, cells, texts, Ghost(cur));
                match step {
                    Err(e) => {
                        return Err(e);
                    },
                    Ok(()) => {
                        proof {
                            cur = sub->Ok_0.1;
                        }
                    },
                }
                i = i + 1;
            }
            proof {
                assert(items@.skip(n as int).len() == 0);
            }
            match rest {
                Some(rp) => {
                    proof {
                        assert(decreases_to!(*p => (*p)->Array_1));
                    }
                    destructure_into(rp, v, Some(start + n), env, cells, texts, Ghost(cur))
                },
                None => {
                    if alen - start > n {
                        return Err(array_length_error(alen - start, n, true));
                    }
                    Ok(())
                },
            }
        },
        Pattern::Dict(entries) => {
            let d = match (v, tail) {
                (Value::Dict(d), None) => d,
                _ => {
                    return Err(
                        PatternError::Failed(
                            ErrorCode::E0030,
                            concat2("destructure pattern expected DICT, got ", type_label(v)),
                        ),
                    );
                },
            };
            let ghost mut cur = st;
            assert(entries@.skip(0) =~= entries@);
            let mut i: usize = 0;
            while i < entries.len()
                invariant
                    old(cells)@.len() <= cells@.len(),
                    s0 == old(env).scopes(),
                    *p == Pattern::Dict(*entries),
                    *v == Value::Dict(*d),
                    tail is None,
                    i <= entries@.len(),
                    cells_below(env.scopes(), cells@.len()),
                    store_like(cells@, cur),
                    destructure_entries(entries@, d@, s0, st, texts@) == destructure_entries(
                        entries@.skip(i as int),
                        d@,
                        env.scopes(),
                        cur,
                        texts@,
                    ),
                decreases entries@.len() - i,
            {
                proof {
                    assert(decreases_to!(*p => (*p)->Dict_0));
                    assert(decreases_to!(*entries => entries@));
                    assert(decreases_to!(entries@ => entries@[i as int]));
                    assert(decreases_to!(entries@[i as int] => entries@[i as int].1));
                    let es = entries@.skip(i as int);
                    assert(es[0] == entries@[i as int]);
                    assert(es.drop_first() =~= entries@.skip(i + 1));
                }
                let ghost here = env.scopes();
                let ghost kt = key_target(entries@[i as int].0, here, cur);
                let found = {
                    let key = match eval_key(&entries[i].0, &*env, &*cells) {
                        Ok(k) => k,
                        Err(e) => {
                            proof {
                                if let PatternKey::Name(nm) = entries@[i as int].0 {
                                    assert(cell_of(here, nm@) is None ==> value_of(here, cells@, nm@) is None);
                                }
                            }
                            return Err(e);
                        },
                    };
                    proof {
                        assert(kt is Ok);
                        let t = kt->Ok_0;
                        match entries@[i as int].0 {
                            PatternKey::Name(nm) => {
                                let c = cell_of(here, nm@)->0;
                                crate::env::lemma_cell_of_bound(here, nm@);
                                assert(c < cur.len());
                                assert(holds_like(cells@[c as int], cur[c as int]));
                                assert(*key == cells@[c as int].value);
                                match t.1 {
                                    None => {
                                        lemma_same_key_match(d@, t.0, *key);
                                        lemma_same_shown(t.0, *key, texts@);
                                    },
                                    Some(k) => {
                                        lemma_array_key_match(d@, *key);
                                        let xs = (*key)->Array_0;
                                        lemma_same_items_shown(target_items(t.0, Some(k)), xs@, texts@);
                                    },
                                }
                            },
                            _ => {},
                        }
                        assert(key_position(d@, t) == first_key_match(d@, *key));
                        assert(target_text(t, texts@) == shown(*key, texts@));
                    }
                    match find_key(d, key) {
                        Some(j) => j,
                        None => {
                            let mut m = concat2("destructure pattern mismatch: dict missing key `", display(key, texts).as_str());
                            m.append("`");
                            return Err(PatternError::Failed(ErrorCode::E0026, m));
                        },
                    }
                };
                let ghost sub = destructure_spec(entries@[i as int].1, d@[found as int].1, None, here, cur, texts@);
                let step = destructure_into(&entries[i].1, &d[found].1, None, env, cells, texts, Ghost(cur));
                match step {
                    Err(e) => {
                        return Err(e);
                    },
                    Ok(()) => {
                        proof {
                            cur = sub->Ok_0.1;
                        }
                    },
                }
                i = i + 1;
            }
            proof {
                assert(entries@.skip(entries@.len() as int).len() == 0);
            }
            Ok(())
        },
        Pattern::Constructor(name, inner) => {
            proof {
                assert(decreases_to!(*p => (*p)->Constructor_1));
            }
            let is_ok = str_eq(name.as_str(), "OK");
            let is_err = str_eq(name.as_str(), "ERR");
            proof {
                reveal_strlit("OK");
                reveal_strlit("ERR");
            }
            if is_ok || is_err {
                match (v, tail) {
                    (Value::OkValue(x), None) => {
                        if is_ok {
                            return destructure_into(inner, x, None, env, cells, texts, Ghost(st));
                        }
                    },
                    (Value::ErrValue(x), None) => {
                        if is_err {
                            return destructure_into(inner, x, None, env, cells, texts, Ghost(st));
                        }
                    },
                    _ => {},
                }
                Err(
                    PatternError::Failed(
                        ErrorCode::E0026,
                        concat2("destructure pattern mismatch: value is not ", name.as_str()),
                    ),
                )
            } else {
                let mut m = concat2("unsupported constructor pattern `", name.as_str());
                m.append("` in destructure (only OK / ERR are valid in v0.4)");
                Err(PatternError::Failed(ErrorCode::E0026, m))
            }
        },
    }
}

proof fn lemma_same_value_refl(v: Value)
    ensures
        same_value(v, v),
    decreases v, 1nat,
{
    match v {
        Value::Array(x) => lemma_same_items_refl(x@),
        Value::Dict(x) => lemma_same_entries_refl(x@),
        Value::OkValue(x) => lemma_same_value_refl(*x),
        Value::ErrValue(x) => lemma_same_value_refl(*x),
        _ => {},
    }
}

proof fn lemma_same_items_refl(x: Seq<Value>)
    ensures
        same_items(x, x),
    decreases x, 1nat,
{
    if x.len() > 0 {
        lemma_same_items_refl(x.drop_last());
        lemma_same_value_refl(x.last());
    }
}

proof fn lemma_same_entries_refl(x: Seq<(Value, Value)>)
    ensures
        same_entries(x, x),
    decreases x, 1nat,
{
    if x.len() > 0 {
        lemma_same_entries_refl(x.drop_last());
        lemma_same_value_refl(x.last().0);
        lemma_same_value_refl(x.last().1);
    }
}

proof fn lemma_same_value_trans(a: Value, b: Value, c: Value)
    requires
        same_value(a, b),
        same_value(b, c),
    ensures
        same_value(a, c),
    decreases a, 1nat,
{
    match (a, b, c) {
        (Value::Array(x), Value::Array(y), Value::Array(z)) => lemma_same_items_trans(x@, y@, z@),
        (Value::Dict(x), Value::Dict(y), Value::Dict(z)) => lemma_same_entries_trans(x@, y@, z@),
        (Value::OkValue(x), Value::OkValue(y), Value::OkValue(z)) => lemma_same_value_trans(*x, *y, *z),
        (Value::ErrValue(x), Value::ErrValue(y), Value::ErrValue(z)) => lemma_same_value_trans(*x, *y, *z),
        (Value::Closure { params: p, .. }, Value::Closure { params: q, .. }, Value::Closure { params: r, .. }) => {
            assert forall|i: int| 0 <= i < p@.len() implies (#[trigger] p@[i])@ == r@[i]@ by {
                assert(p@[i]@ == q@[i]@);
            }
        },
        _ => {},
    }
}

proof fn lemma_same_items_trans(x: Seq<Value>, y: Seq<Value>, z: Seq<Value>)
    requires
        same_items(x, y),
        same_items(y, z),
    ensures
        same_items(x, z),
    decreases x, 1nat,
{
    if x.len() > 0 {
        lemma_same_items_trans(x.drop_last(), y.drop_last(), z.drop_last());
        lemma_same_value_trans(x.last(), y.last(), z.last());
    }
}

proof fn lemma_same_entries_trans(x: Seq<(Value, Value)>, y: Seq<(Value, Value)>, z: Seq<(Value, Value)>)
    requires
        same_entries(x, y),
        same_entries(y, z),
    ensures
        same_entries(x, z),
    decreases x, 1nat,
{
    if x.len() > 0 {
        lemma_same_entries_trans(x.drop_last(), y.drop_last(), z.drop_last());
        lemma_same_value_trans(x.last().0, y.last().0, z.last().0);
        lemma_same_value_trans(x.last().1, y.last().1, z.last().1);
    }
}

/// A copy of what a cell holds, in a new immutable cell, holds the same
/// target.
pub(crate) proof fn lemma_holds_copy(b: Binding, d: (Value, Option<usize>, bool), v: Value)
    requires
        holds_like(b, d),
        same_value(b.value, v),
    ensures
        holds_like(Binding { value: v, mutable: false }, (d.0, d.1, false)),
{
    match d.1 {
        None => lemma_same_value_trans(d.0, b.value, v),
        Some(k) => {
            let xs = b.value->Array_0;
            let ys = v->Array_0;
            lemma_same_items_trans(target_items(d.0, Some(k)), xs@, ys@);
        },
    }
}

/// A store read off the cells holds what the cells hold.
pub(crate) proof fn lemma_store_of_like(cells: Seq<Binding>)
    ensures
        store_like(cells, store_of(cells)),
{
    let st = store_of(cells);
    assert forall|i: int| 0 <= i < st.len() implies holds_like(cells[i], #[trigger] st[i]) by {
        lemma_same_value_refl(cells[i].value);
    }
}

/// Destructures `v` with `p` (a destructuring `LET`), binding each name
/// of the pattern, in order, as a new immutable cell in the innermost
/// scope of `env`. A value that does not fit the pattern is an error
/// (`E0026`, or `E0030` for a value of the wrong kind), as are a dict key
/// that is an undefined name or not a literal, and a constructor other
/// than `OK` / `ERR`. Names bound before the error stay bound.
pub fn destructure(
    p: &Pattern,
    v: &Value,
    env: &mut Env,
    cells: &mut Cells,
    texts: &Vec<(u64, String)>,
) -> (r: Result<(), PatternError>)
    requires
        cells_below(old(env).scopes(), old(cells)@.len()),
    ensures
        cells_below(final(env).scopes(), final(cells)@.len()),
        old(cells)@.len() <= final(cells)@.len(),
        match destructure_spec(*p, *v, None, old(env).scopes(), store_of(old(cells)@), texts@) {
            Ok((s2, st2)) => r is Ok && final(env).scopes() == s2 && store_like(final(cells)@, st2),
            Err(e) => r matches Err(x) && error_is(x, e),
        },
{
    proof {
        lemma_store_of_like(cells@);
    }
    destructure_into(p, v, None, env, cells, texts, Ghost(store_of(cells@)))
}

/// The names that `p` binds, in declaration order.
pub open spec fn pattern_idents(p: Pattern) -> Seq<String>
    decreases p, 0nat,
{
    match p {
        Pattern::Ident(n) => seq![n],
        Pattern::Wildcard => Seq::empty(),
        Pattern::Literal(_, _) => Seq::empty(),
        Pattern::Array(items, rest) => items_idents(items@) + match rest {
            Some(rp) => pattern_idents(*rp),
            None => Seq::empty(),
        },
        Pattern::Dict(entries) => entries_idents(entries@),
        Pattern::Constructor(_, inner) => pattern_idents(*inner),
    }
}

/// The names that the patterns `ps` bind, in order.
pub open spec fn items_idents(ps: Seq<Pattern>) -> Seq<String>
    decreases ps, 0nat,
{
    if ps.len() == 0 {
        Seq::empty()
    } else {
        pattern_idents(ps[0]) + items_idents(ps.drop_first())
    }
}

/// The names that the entry patterns `es` bind, in order.
pub open spec fn entries_idents(es: Seq<(PatternKey, Pattern)>) -> Seq<String>
    decreases es, 0nat,
{
    if es.len() == 0 {
        Seq::empty()
    } else {
        pattern_idents(es[0].1) + entries_idents(es.drop_first())
    }
}

/// The names of bindings.
pub open spec fn binding_names(bs: Seq<(Seq<char>, Value, Option<usize>)>) -> Seq<Seq<char>> {
    bs.map_values(|b: (Seq<char>, Value, Option<usize>)| b.0)
}

/// The texts of names.
pub open spec fn ident_texts(ns: Seq<String>) -> Seq<Seq<char>> {
    ns.map_values(|n: String| n@)
}

proof fn lemma_names_concat(a: Seq<(Seq<char>, Value, Option<usize>)>, b: Seq<(Seq<char>, Value, Option<usize>)>)
    ensures
        binding_names(a + b) == binding_names(a) + binding_names(b),
{
    assert(binding_names(a + b) =~= binding_names(a) + binding_names(b));
}

proof fn lemma_texts_concat(a: Seq<String>, b: Seq<String>)
    ensures
        ident_texts(a + b) == ident_texts(a) + ident_texts(b),
{
    assert(ident_texts(a + b) =~= ident_texts(a) + ident_texts(b));
}

proof fn lemma_match_names(
    p: Pattern,
    v: Value,
    tail: Option<usize>,
    s: Seq<Seq<(String, usize)>>,
    c: Seq<Binding>,
)
    ensures
        match_spec(p, v, tail, s, c) matches Ok(Some(bs)) ==> binding_names(bs) == ident_texts(pattern_idents(p)),
    decreases p, 0nat,
{
    match p {
        Pattern::Ident(n) => {
            assert(binding_names(seq![(n@, v, tail)]) =~= ident_texts(seq![n]));
        },
        Pattern::Wildcard => {
            assert(binding_names(Seq::empty()) =~= ident_texts(Seq::empty()));
        },
        Pattern::Literal(_, _) => {
            assert(binding_names(Seq::empty()) =~= ident_texts(Seq::empty()));
        },
        Pattern::Array(items, rest) => {
            if v is Array {
                let arr = target_items(v, tail);
                lemma_items_names(items@, arr, s, c);
                if let Ok(Some(bs)) = match_items(items@, arr, s, c) {
                    match rest {
                        Some(rp) => {
                            let k = Some((start_of(tail) + items@.len()) as usize);
                            lemma_match_names(*rp, v, k, s, c);
                            if let Ok(Some(more)) = match_spec(*rp, v, k, s, c) {
                                lemma_names_concat(bs, more);
                                lemma_texts_concat(items_idents(items@), pattern_idents(*rp));
                            }
                        },
                        None => {
                            assert(items_idents(items@) + Seq::<String>::empty() =~= items_idents(items@));
                        },
                    }
                }
            }
        },
        Pattern::Dict(entries) => {
            if let (Value::Dict(d), None) = (v, tail) {
                lemma_entries_names(entries@, d@, s, c);
            }
        },
        Pattern::Constructor(name, inner) => {
            match (v, tail) {
                (Value::OkValue(x), None) => lemma_match_names(*inner, *x, None, s, c),
                (Value::ErrValue(x), None) => lemma_match_names(*inner, *x, None, s, c),
                _ => {},
            }
        },
    }
}

proof fn lemma_items_names(ps: Seq<Pattern>, vals: Seq<Value>, s: Seq<Seq<(String, usize)>>, c: Seq<Binding>)
    ensures
        match_items(ps, vals, s, c) matches Ok(Some(bs)) ==> binding_names(bs) == ident_texts(items_idents(ps)),
    decreases ps, 0nat,
{
    if ps.len() == 0 {
        assert(binding_names(Seq::empty()) =~= ident_texts(Seq::empty()));
    } else {
        lemma_match_names(ps[0], vals[0], None, s, c);
        lemma_items_names(ps.drop_first(), vals.drop_first(), s, c);
        if let Ok(Some(b)) = match_spec(ps[0], vals[0], None, s, c) {
            if let Ok(Some(more)) = match_items(ps.drop_first(), vals.drop_first(), s, c) {
                lemma_names_concat(b, more);
                lemma_texts_concat(pattern_idents(ps[0]), items_idents(ps.drop_first()));
            }
        }
    }
}

proof fn lemma_entries_names(es: Seq<(PatternKey, Pattern)>, d: Seq<(Value, Value)>, s: Seq<Seq<(String, usize)>>, c: Seq<Binding>)
    ensures
        match_entries(es, d, s, c) matches Ok(Some(bs)) ==> binding_names(bs) == ident_texts(entries_idents(es)),
    decreases es, 0nat,
{
    if es.len() == 0 {
        assert(binding_names(Seq::empty()) =~= ident_texts(Seq::empty()));
    } else {
        if let Ok(key) = key_of(es[0].0, s, c) {
            if let Some(j) = first_key_match(d, key) {
                lemma_match_names(es[0].1, d[j].1, None, s, c);
                lemma_entries_names(es.drop_first(), d, s, c);
                if let Ok(Some(b)) = match_spec(es[0].1, d[j].1, None, s, c) {
                    if let Ok(Some(more)) = match_entries(es.drop_first(), d, s, c) {
                        lemma_names_concat(b, more);
                        lemma_texts_concat(pattern_idents(es[0].1), entries_idents(es.drop_first()));
                    }
                }
            }
        }
    }
}

/// A successful match binds exactly the names of the pattern, in the
/// order in which the pattern declares them.
pub proof fn law_match_binds_pattern_names(
    p: Pattern,
    v: Value,
    s: Seq<Seq<(String, usize)>>,
    c: Seq<Binding>,
)
    ensures
        match_spec(p, v, None, s, c) matches Ok(Some(bs)) ==> binding_names(bs) == ident_texts(pattern_idents(p)),
{
    lemma_match_names(p, v, None, s, c);
}

/// The scopes after binding `names`, in order, to new cells numbered from
/// `id` on, each in the innermost scope.
pub open spec fn bind_all(s: Seq<Seq<(String, usize)>>, names: Seq<String>, id: nat) -> Seq<Seq<(String, usize)>>
    decreases names.len(),
{
    if names.len() == 0 {
        s
    } else {
        bind_all(set_scopes(s, names[0], id as usize), names.drop_first(), id + 1)
    }
}

proof fn lemma_bind_all_concat(s: Seq<Seq<(String, usize)>>, a: Seq<String>, b: Seq<String>, id: nat)
    ensures
        bind_all(bind_all(s, a, id), b, id + a.len()) == bind_all(s, a + b, id),
        s.len() > 0 ==> bind_all(s, a, id).len() == s.len(),
    decreases a.len(),
{
    if a.len() == 0 {
        assert(a + b =~= b);
    } else {
        let s1 = set_scopes(s, a[0], id as usize);
        lemma_bind_all_concat(s1, a.drop_first(), b, id + 1);
        assert((a + b).drop_first() =~= a.drop_first() + b);
        assert((a + b)[0] == a[0]);
    }
}

proof fn lemma_destructure_names(
    p: Pattern,
    v: Value,
    tail: Option<usize>,
    s: Seq<Seq<(String, usize)>>,
    st: Seq<(Value, Option<usize>, bool)>,
    texts: Seq<(u64, String)>,
)
    requires
        s.len() > 0,
    ensures
        destructure_spec(p, v, tail, s, st, texts) matches Ok((s2, st2)) ==> (s2 == bind_all(
            s,
            pattern_idents(p),
            st.len(),
        ) && st2.len() == st.len() + pattern_idents(p).len() && s2.len() == s.len()),
    decreases p, 0nat,
{
    match p {
        Pattern::Ident(n) => {
            let one = seq![n];
            assert(one.drop_first().len() == 0);
            assert(bind_all(s, one, st.len()) == bind_all(set_scopes(s, n, st.len() as usize), one.drop_first(), st.len() + 1));
        },
        Pattern::Array(items, rest) => {
            if v is Array {
                let arr = target_items(v, tail);
                lemma_destructure_items_names(items@, arr, s, st, texts);
                if let Ok((s1, st1)) = destructure_items(items@, arr, s, st, texts) {
                    let a = items_idents(items@);
                    match rest {
                        Some(rp) => {
                            let k = Some((start_of(tail) + items@.len()) as usize);
                            lemma_destructure_names(*rp, v, k, s1, st1, texts);
                            lemma_bind_all_concat(s, a, pattern_idents(*rp), st.len());
                        },
                        None => {
                            assert(a + Seq::<String>::empty() =~= a);
                        },
                    }
                }
            }
        },
        Pattern::Dict(entries) => {
            if let (Value::Dict(d), None) = (v, tail) {
                lemma_destructure_entries_names(entries@, d@, s, st, texts);
            }
        },
        Pattern::Constructor(name, inner) => {
            match (v, tail) {
                (Value::OkValue(x), None) => lemma_destructure_names(*inner, *x, None, s, st, texts),
                (Value::ErrValue(x), None) => lemma_destructure_names(*inner, *x, None, s, st, texts),
                _ => {},
            }
        },
        _ => {},
    }
}

proof fn lemma_destructure_items_names(
    ps: Seq<Pattern>,
    vals: Seq<Value>,
    s: Seq<Seq<(String, usize)>>,
    st: Seq<(Value, Option<usize>, bool)>,
    texts: Seq<(u64, String)>,
)
    requires
        s.len() > 0,
    ensures
        destructure_items(ps, vals, s, st, texts) matches Ok((s2, st2)) ==> (s2 == bind_all(
            s,
            items_idents(ps),
            st.len(),
        ) && st2.len() == st.len() + items_idents(ps).len() && s2.len() == s.len()),
    decreases ps, 0nat,
{
    if ps.len() > 0 {
        lemma_destructure_names(ps[0], vals[0], None, s, st, texts);
        if let Ok((s1, st1)) = destructure_spec(ps[0], vals[0], None, s, st, texts) {
            lemma_destructure_items_names(ps.drop_first(), vals.drop_first(), s1, st1, texts);
            lemma_bind_all_concat(s, pattern_idents(ps[0]), items_idents(ps.drop_first()), st.len());
        }
    }
}

proof fn lemma_destructure_entries_names(
    es: Seq<(PatternKey, Pattern)>,
    d: Seq<(Value, Value)>,
    s: Seq<Seq<(String, usize)>>,
    st: Seq<(Value, Option<usize>, bool)>,
    texts: Seq<(u64, String)>,
)
    requires
        s.len() > 0,
    ensures
        destructure_entries(es, d, s, st, texts) matches Ok((s2, st2)) ==> (s2 == bind_all(
            s,
            entries_idents(es),
            st.len(),
        ) && st2.len() == st.len() + entries_idents(es).len() && s2.len() == s.len()),
    decreases es, 0nat,
{
    if es.len() > 0 {
        if let Ok(t) = key_target(es[0].0, s, st) {
            if let Some(j) = key_position(d, t) {
                lemma_destructure_names(es[0].1, d[j].1, None, s, st, texts);
                if let Ok((s1, st1)) = destructure_spec(es[0].1, d[j].1, None, s, st, texts) {
                    lemma_destructure_entries_names(es.drop_first(), d, s1, st1, texts);
                    lemma_bind_all_concat(s, pattern_idents(es[0].1), entries_idents(es.drop_first()), st.len());
                }
            }
        }
    }
}

/// A successful destructuring binds the names of the pattern, in the
/// order in which the pattern declares them, each to a new cell (numbered
/// on from the cells there were) in the innermost scope.
pub proof fn law_destructure_binds_pattern_names(
    p: Pattern,
    v: Value,
    s: Seq<Seq<(String, usize)>>,
    st: Seq<(Value, Option<usize>, bool)>,
    texts: Seq<(u64, String)>,
)
    requires
        s.len() > 0,
    ensures
        destructure_spec(p, v, None, s, st, texts) matches Ok((s2, st2)) ==> (s2 == bind_all(
            s,
            pattern_idents(p),
            st.len(),
        ) && st2.len() == st.len() + pattern_idents(p).len()),
{
    lemma_destructure_names(p, v, None, s, st, texts);
}

} // verus!
