//! Subscripts, keys and membership: the built-ins that find an element of
//! an array or an entry of a dict by structural equality.
use vstd::prelude::*;

use crate::builtins::{arity_failure, count_as_int, count_to_int, got, type_failure};
use crate::compare::{value_eq, values_equal};
use crate::display::{display, shown};
use crate::strings::{find_from, find_position, string_contains, string_index};
use crate::suggest::utf8_len;
use crate::text::{concat2, count_text, decimal, int_text};
use crate::value::{
    arity_error, builtin_error, is_builtin_error, type_error, type_label, BuiltinError, ErrorCode,
    Value,
};

verus! {

/// The position of the first entry of `d` whose key equals `key`, or -1.
pub open spec fn key_index(d: Seq<(Value, Value)>, key: Value) -> int
    decreases d.len(),
{
    if d.len() == 0 {
        -1
    } else if value_eq(d[0].0, key) {
        0
    } else {
        let r = key_index(d.drop_first(), key);
        if r < 0 {
            -1
        } else {
            r + 1
        }
    }
}

/// `i` is the first entry of `d` whose key equals `key`.
pub open spec fn first_match(d: Seq<(Value, Value)>, key: Value, i: int) -> bool {
    &&& 0 <= i < d.len()
    &&& value_eq(d[i].0, key)
    &&& forall|j: int| 0 <= j < i ==> !value_eq(#[trigger] d[j].0, key)
}

/// Some entry of `d` has a key equal to `key`.
pub open spec fn has_match(d: Seq<(Value, Value)>, key: Value) -> bool {
    exists|i: int| 0 <= i < d.len() && value_eq(#[trigger] d[i].0, key)
}

/// `key_index` is the first matching entry, and -1 exactly when there is
/// none.
pub proof fn lemma_key_index(d: Seq<(Value, Value)>, key: Value)
    ensures
        key_index(d, key) >= 0 <==> has_match(d, key),
        key_index(d, key) >= 0 ==> first_match(d, key, key_index(d, key)),
        key_index(d, key) < 0 ==> key_index(d, key) == -1,
    decreases d.len(),
{
    if d.len() > 0 {
        let t = d.drop_first();
        lemma_key_index(t, key);
        if !value_eq(d[0].0, key) {
            if has_match(d, key) {
                let i = choose|i: int| 0 <= i < d.len() && value_eq(#[trigger] d[i].0, key);
                assert(t[i - 1] == d[i]);
            }
            if has_match(t, key) {
                let i = choose|i: int| 0 <= i < t.len() && value_eq(#[trigger] t[i].0, key);
                assert(t[i] == d[i + 1]);
            }
            if key_index(t, key) >= 0 {
                let k = key_index(t, key);
                assert forall|j: int| 0 <= j < k + 1 implies !value_eq(#[trigger] d[j].0, key) by {
                    if j > 0 {
                        assert(d[j] == t[j - 1]);
                    }
                }
                assert(d[k + 1] == t[k]);
            }
        } else {
            assert(value_eq(d[0].0, key));
        }
    }
}

/// The first entry of `entries` whose key equals `key`.
pub fn dict_lookup(entries: &Vec<(Value, Value)>, key: &Value) -> (r: Option<usize>)
    ensures
        match r {
            Some(i) => first_match(entries@, *key, i as int) && i as int == key_index(entries@, *key),
            None => !has_match(entries@, *key) && key_index(entries@, *key) == -1,
        },
{
    proof {
        lemma_key_index(entries@, *key);
    }
    let mut i: usize = 0;
    while i < entries.len()
        invariant
            i <= entries@.len(),
            forall|j: int| 0 <= j < i ==> !value_eq(#[trigger] entries@[j].0, *key),
        decreases entries@.len() - i,
    {
        if values_equal(&entries[i].0, key) {
            proof {
                lemma_key_index(entries@, *key);
                lemma_first_match_unique(entries@, *key, i as int, key_index(entries@, *key));
            }
            return Some(i);
        }
        i = i + 1;
    }
    proof {
        lemma_key_index(entries@, *key);
    }
    None
}

/// There is one first match.
pub proof fn lemma_first_match_unique(d: Seq<(Value, Value)>, key: Value, i: int, j: int)
    requires
        first_match(d, key, i),
        first_match(d, key, j),
    ensures
        i == j,
{
    if i < j {
        assert(!value_eq(d[i].0, key));
    } else if j < i {
        assert(!value_eq(d[j].0, key));
    }
}

/// The position that the index `i` names in an array of length `len`:
/// a negative index counts from the end.
pub open spec fn resolved_index(len: int, i: int) -> int {
    if i < 0 {
        i + len
    } else {
        i
    }
}

/// The detail of the out-of-bounds error for the index `i` of an array of
/// length `len`.
pub open spec fn out_of_bounds_detail(i: int, len: nat) -> Seq<char> {
    "array index "@ + decimal(i) + " out of bounds for length "@ + decimal(len as int)
}

/// What `resolve_array_index(name, arr, raw)` gives: the position that an
/// INTEGER index names, or the error for an index of another type (`E0031`)
/// or out of bounds (`E0036`).
pub open spec fn index_resolution(name: Seq<char>, len: nat, raw: Value, r: Result<usize, BuiltinError>) -> bool {
    match raw {
        Value::Integer(i) => {
            let n = resolved_index(len as int, i as int);
            if 0 <= n < len {
                r matches Ok(p) && p == n
            } else {
                r matches Err(e) && is_builtin_error(e, ErrorCode::E0036, name, out_of_bounds_detail(i as int, len))
            }
        },
        other => r matches Err(e) && is_builtin_error(
            e,
            ErrorCode::E0031,
            name,
            got("array index must be INTEGER, got "@, other),
        ),
    }
}

/// The index `raw` is an INTEGER naming a position of an array of length
/// `len`.
pub open spec fn index_in_bounds(len: nat, raw: Value) -> bool {
    raw matches Value::Integer(i) && 0 <= resolved_index(len as int, i as int) < len
}

/// The position that the INTEGER index `raw` names.
pub open spec fn index_pos(len: nat, raw: Value) -> int {
    resolved_index(len as int, raw->Integer_0 as int)
}

/// `r` is the error of `name` for an index `raw` that names no position of
/// an array of length `len`.
pub open spec fn index_failure(r: Result<Value, BuiltinError>, name: Seq<char>, len: nat, raw: Value) -> bool {
    match raw {
        Value::Integer(i) => r matches Err(e) && is_builtin_error(
            e,
            ErrorCode::E0036,
            name,
            out_of_bounds_detail(i as int, len),
        ),
        other => r matches Err(e) && is_builtin_error(
            e,
            ErrorCode::E0031,
            name,
            got("array index must be INTEGER, got "@, other),
        ),
    }
}

/// The position in `arr` that the index `raw` names.
pub fn resolve_array_index(name: &str, arr: &Vec<Value>, raw: &Value) -> (r: Result<usize, BuiltinError>)
    ensures
        index_resolution(name@, arr@.len(), *raw, r),
{
    let i = match raw {
        Value::Integer(n) => *n,
        other => {
            return Err(
                builtin_error(
                    ErrorCode::E0031,
                    name,
                    concat2("array index must be INTEGER, got ", type_label(other)).as_str(),
                ),
            );
        },
    };
    let len = arr.len();
    let normalised: i128 = if i < 0 {
        i as i128 + len as i128
    } else {
        i as i128
    };
    if normalised < 0 || normalised >= len as i128 {
        let mut d = concat2("array index ", int_text(i).as_str());
        d.append(" out of bounds for length ");
        d.append(count_text(len).as_str());
        return Err(builtin_error(ErrorCode::E0036, name, d.as_str()));
    }
    Ok(normalised as usize)
}

/// The detail of the missing-key error of `INDEX_GET`.
pub open spec fn missing_key_detail(key: Value, texts: Seq<(u64, String)>) -> Seq<char> {
    "dict key "@ + shown(key, texts) + " not found"@
}

/// What `builtin_index_get` gives.
pub open spec fn builtin_index_get_post(args: Seq<Value>, texts: Seq<(u64, String)>, r: Result<Value, BuiltinError>) -> bool {
    &&& (args.len() != 2 ==> arity_failure(r, "INDEX_GET"@, args.len() as nat, 2))
    &&& (args.len() == 2 ==> match args[0] {
        Value::Array(a) => if index_in_bounds(a@.len(), args[1]) {
            r == Ok::<Value, BuiltinError>(a@[index_pos(a@.len(), args[1])])
        } else {
            index_failure(r, "INDEX_GET"@, a@.len(), args[1])
        },
        Value::Dict(d) => {
            let k = key_index(d@, args[1]); if k >= 0 {
                r == Ok::<Value, BuiltinError>(d@[k].1)
            } else {
                r matches Err(e) && is_builtin_error( e, ErrorCode::E0037, "INDEX_GET"@, missing_key_detail(args[1], texts), )
            }
        },
        other => type_failure(r, "INDEX_GET"@, got("expected ARRAY or DICT as first arg, got "@, other)),
    })
}

/// `INDEX_GET(coll, idx_or_key)`: the element of an array at an index
/// (negative from the end; `E0036` out of bounds), or the value of a dict
/// entry whose key equals the key (`E0037` when there is none; the error
/// shows the key, its doubles written as `texts` gives them).
pub fn builtin_index_get(args: Vec<Value>, texts: &Vec<(u64, String)>) -> (r: Result<Value, BuiltinError>)
    ensures
        builtin_index_get_post(args@, texts@, r),
{
    if args.len() != 2 {
        return Err(arity_error("INDEX_GET", args.len(), 2));
    }
    let ghost orig = args@;
    let mut args = args;
    let idx = args.pop().unwrap();
    let coll = args.pop().unwrap();
    assert(idx == orig[1] && coll == orig[0]);
    match coll {
        Value::Array(mut a) => {
            match resolve_array_index("INDEX_GET", &a, &idx) {
                Ok(i) => {
                    assert(index_in_bounds(a@.len(), idx));
                    assert(i as int == index_pos(a@.len(), idx));
                    Ok(a.remove(i))
                },
                Err(e) => Err(e),
            }
        },
        Value::Dict(mut d) => {
            match dict_lookup(&d, &idx) {
                Some(i) => {
                    let (_k, v) = d.remove(i);
                    Ok(v)
                },
                None => {
                    let mut detail = concat2("dict key ", display(&idx, texts).as_str());
                    detail.append(" not found");
                    Err(builtin_error(ErrorCode::E0037, "INDEX_GET", detail.as_str()))
                },
            }
        },
        other => Err(
            type_error(
                "INDEX_GET",
                concat2("expected ARRAY or DICT as first arg, got ", type_label(&other)).as_str(),
            ),
        ),
    }
}


/// `d` with the value `v` at the first entry whose key equals `key`, or
/// with `(key, v)` appended when there is none; entries keep their order.
pub open spec fn upsert(d: Seq<(Value, Value)>, key: Value, v: Value) -> Seq<(Value, Value)> {
    let k = key_index(d, key);
    if k >= 0 {
        d.update(k, (d[k].0, v))
    } else {
        d.push((key, v))
    }
}

fn upsert_entry(d: &mut Vec<(Value, Value)>, key: Value, v: Value)
    ensures
        final(d)@ == upsert(old(d)@, key, v),
{
    match dict_lookup(d, &key) {
        Some(i) => {
            let ghost before = d@;
            let (k0, _old) = d.remove(i);
            d.insert(i, (k0, v));
            assert(d@ =~= before.update(i as int, (before[i as int].0, v)));
        },
        None => {
            d.push((key, v));
        },
    }
}

/// What `builtin_index_set` gives.
pub open spec fn builtin_index_set_post(args: Seq<Value>, r: Result<Value, BuiltinError>) -> bool {
    &&& (args.len() != 3 ==> arity_failure(r, "INDEX_SET"@, args.len() as nat, 3))
    &&& (args.len() == 3 ==> match args[0] {
        Value::Array(a) => if index_in_bounds(a@.len(), args[1]) {
            r matches Ok(Value::Array(out)) && out@ == a@.update(index_pos(a@.len(), args[1]), args[2])
        } else {
            index_failure(r, "INDEX_SET"@, a@.len(), args[1])
        },
        Value::Dict(d) => r matches Ok(Value::Dict(out)) && out@ == upsert(d@, args[1], args[2]),
        other => type_failure(r, "INDEX_SET"@, got("expected ARRAY or DICT as first arg, got "@, other)),
    })
}

/// `INDEX_SET(coll, idx_or_key, val)`: the array with the element at an
/// index replaced (negative from the end; `E0036` out of bounds), or the
/// dict with `val` set for the key (see `upsert`).
pub fn builtin_index_set(args: Vec<Value>) -> (r: Result<Value, BuiltinError>)
    ensures
        builtin_index_set_post(args@, r),
{
    if args.len() != 3 {
        return Err(arity_error("INDEX_SET", args.len(), 3));
    }
    let ghost orig = args@;
    let mut args = args;
    let new_val = args.pop().unwrap();
    let idx = args.pop().unwrap();
    let coll = args.pop().unwrap();
    assert(new_val == orig[2] && idx == orig[1] && coll == orig[0]);
    match coll {
        Value::Array(mut a) => {
            match resolve_array_index("INDEX_SET", &a, &idx) {
                Ok(i) => {
                    let ghost before = a@;
                    a.remove(i);
                    a.insert(i, new_val);
                    assert(a@ =~= before.update(i as int, orig[2]));
                    Ok(Value::Array(a))
                },
                Err(e) => Err(e),
            }
        },
        Value::Dict(mut d) => {
            upsert_entry(&mut d, idx, new_val);
            Ok(Value::Dict(d))
        },
        other => Err(
            type_error(
                "INDEX_SET",
                concat2("expected ARRAY or DICT as first arg, got ", type_label(&other)).as_str(),
            ),
        ),
    }
}

/// What `builtin_at` gives.
pub open spec fn builtin_at_post(args: Seq<Value>, r: Result<Value, BuiltinError>) -> bool {
    &&& (args.len() != 3 ==> arity_failure(r, "AT"@, args.len() as nat, 3))
    &&& (args.len() == 3 ==> match args[0] {
        Value::Array(a) => match args[1] {
            Value::Integer(i) => {
                let n = resolved_index(a@.len() as int, i as int); if 0 <= n < a@.len() {
                    r == Ok::<Value, BuiltinError>(a@[n])
                } else {
                    r == Ok::<Value, BuiltinError>(args[2])
                }
            },
            other => r matches Err(e) && is_builtin_error( e, ErrorCode::E0031, "AT"@, got("array index must be INTEGER, got "@, other), ),
        },
        Value::Dict(d) => {
            let k = key_index(d@, args[1]); r == Ok::<Value, BuiltinError>(if k >= 0 {
                d@[k].1
            } else {
                args[2]
            })
        },
        other => type_failure(r, "AT"@, got("expected ARRAY or DICT as first arg, got "@, other)),
    })
}

/// `AT(coll, idx_or_key, default)`: like `INDEX_GET`, but `default` when
/// the index is out of bounds or the key is missing.
pub fn builtin_at(args: Vec<Value>) -> (r: Result<Value, BuiltinError>)
    ensures
        builtin_at_post(args@, r),
{
    if args.len() != 3 {
        return Err(arity_error("AT", args.len(), 3));
    }
    let ghost orig = args@;
    let mut args = args;
    let default = args.pop().unwrap();
    let idx = args.pop().unwrap();
    let coll = args.pop().unwrap();
    assert(default == orig[2] && idx == orig[1] && coll == orig[0]);
    match coll {
        Value::Array(mut a) => match idx {
            Value::Integer(i) => {
                let len = a.len();
                let normalised: i128 = if i < 0 {
                    i as i128 + len as i128
                } else {
                    i as i128
                };
                if normalised < 0 || normalised >= len as i128 {
                    Ok(default)
                } else {
                    Ok(a.remove(normalised as usize))
                }
            },
            other => Err(
                builtin_error(
                    ErrorCode::E0031,
                    "AT",
                    concat2("array index must be INTEGER, got ", type_label(&other)).as_str(),
                ),
            ),
        },
        Value::Dict(mut d) => match dict_lookup(&d, &idx) {
            Some(i) => {
                let (_k, v) = d.remove(i);
                Ok(v)
            },
            None => Ok(default),
        },
        other => Err(
            type_error("AT", concat2("expected ARRAY or DICT as first arg, got ", type_label(&other)).as_str()),
        ),
    }
}

/// What `REMOVE_KEY(args)` gives: the dict without its first entry whose
/// key equals the key; the dict itself when there is none.
pub open spec fn remove_key_outcome(args: Seq<Value>, r: Result<Value, BuiltinError>) -> bool {
    &&& args.len() != 2 ==> arity_failure(r, "REMOVE_KEY"@, args.len() as nat, 2)
    &&& args.len() == 2 ==> match args[0] {
        Value::Dict(d) => {
            let k = key_index(d@, args[1]);
            r matches Ok(Value::Dict(out)) && out@ == if k >= 0 {
                d@.remove(k)
            } else {
                d@
            }
        },
        other => type_failure(r, "REMOVE_KEY"@, got("expected DICT, got "@, other)),
    }
}

/// What `builtin_remove_key` gives.
pub open spec fn builtin_remove_key_post(args: Seq<Value>, r: Result<Value, BuiltinError>) -> bool {
    &&& (remove_key_outcome(args, r))
}

/// `REMOVE_KEY(d, key)`: the dict without its first entry whose key equals
/// `key`; unchanged when there is none.
pub fn builtin_remove_key(args: Vec<Value>) -> (r: Result<Value, BuiltinError>)
    ensures
        builtin_remove_key_post(args@, r),
{
    if args.len() != 2 {
        return Err(arity_error("REMOVE_KEY", args.len(), 2));
    }
    let ghost orig = args@;
    let mut args = args;
    let key = args.pop().unwrap();
    let coll = args.pop().unwrap();
    assert(key == orig[1] && coll == orig[0]);
    match coll {
        Value::Dict(mut d) => {
            if let Some(i) = dict_lookup(&d, &key) {
                d.remove(i);
            }
            Ok(Value::Dict(d))
        },
        other => Err(type_error("REMOVE_KEY", concat2("expected DICT, got ", type_label(&other)).as_str())),
    }
}

/// What `builtin_pop_dict` gives.
pub open spec fn builtin_pop_dict_post(args: Seq<Value>, r: Result<Value, BuiltinError>) -> bool {
    &&& (args.len() != 3 ==> arity_failure(r, "POP"@, args.len() as nat, 3))
    &&& (args.len() == 3 ==> match args[0] {
        Value::Dict(d) => {
            let k = key_index(d@, args[1]); r == Ok::<Value, BuiltinError>(if k >= 0 {
                d@[k].1
            } else {
                args[2]
            })
        },
        other => type_failure(r, "POP"@, got("expected DICT as first arg, got "@, other)),
    })
}

/// `POP(d, key, default)`: the value of the first entry whose key equals
/// `key`, or `default` when there is none.
pub fn builtin_pop_dict(args: Vec<Value>) -> (r: Result<Value, BuiltinError>)
    ensures
        builtin_pop_dict_post(args@, r),
{
    if args.len() != 3 {
        return Err(arity_error("POP", args.len(), 3));
    }
    let ghost orig = args@;
    let mut args = args;
    let default = args.pop().unwrap();
    let key = args.pop().unwrap();
    let coll = args.pop().unwrap();
    assert(default == orig[2] && key == orig[1] && coll == orig[0]);
    match coll {
        Value::Dict(mut d) => match dict_lookup(&d, &key) {
            Some(i) => {
                let (_k, v) = d.remove(i);
                Ok(v)
            },
            None => Ok(default),
        },
        other => Err(type_error("POP", concat2("expected DICT as first arg, got ", type_label(&other)).as_str())),
    }
}

/// What `builtin_has` gives.
pub open spec fn builtin_has_post(args: Seq<Value>, r: Result<Value, BuiltinError>) -> bool {
    &&& (args.len() != 2 ==> arity_failure(r, "HAS"@, args.len() as nat, 2))
    &&& (args.len() == 2 ==> match args[0] {
        Value::Dict(d) => r == Ok::<Value, BuiltinError>(Value::Boolean(has_match(d@, args[1]))),
        other => type_failure(r, "HAS"@, got("expected DICT as first arg, got "@, other)),
    })
}

/// `HAS(dict, k)`: some entry has a key equal to `k`.
pub fn builtin_has(args: Vec<Value>) -> (r: Result<Value, BuiltinError>)
    ensures
        builtin_has_post(args@, r),
{
    if args.len() != 2 {
        return Err(arity_error("HAS", args.len(), 2));
    }
    match &args[0] {
        Value::Dict(d) => Ok(Value::Boolean(dict_lookup(d, &args[1]).is_some())),
        other => Err(type_error("HAS", concat2("expected DICT as first arg, got ", type_label(other)).as_str())),
    }
}

/// `a` with the entries of `b` set in turn (see `upsert`): a key of `b`
/// that `a` has keeps its place and takes `b`'s value, the others are
/// appended in `b`'s order.
pub open spec fn merged(a: Seq<(Value, Value)>, b: Seq<(Value, Value)>) -> Seq<(Value, Value)>
    decreases b.len(),
{
    if b.len() == 0 {
        a
    } else {
        upsert(merged(a, b.drop_last()), b.last().0, b.last().1)
    }
}

/// What `builtin_merge` gives.
pub open spec fn builtin_merge_post(args: Seq<Value>, r: Result<Value, BuiltinError>) -> bool {
    &&& (args.len() != 2 ==> arity_failure(r, "MERGE"@, args.len() as nat, 2))
    &&& (args.len() == 2 ==> match args[0] {
        Value::Dict(a) => match args[1] {
            Value::Dict(b) => r matches Ok(Value::Dict(out)) && out@ == merged(a@, b@),
            other => type_failure(r, "MERGE"@, got("expected DICT as second arg, got "@, other)),
        },
        other => type_failure(r, "MERGE"@, got("expected DICT as first arg, got "@, other)),
    })
}

/// `MERGE(a, b)`: the dict `a` with the entries of `b` set in turn.
pub fn builtin_merge(args: Vec<Value>) -> (r: Result<Value, BuiltinError>)
    ensures
        builtin_merge_post(args@, r),
{
    if args.len() != 2 {
        return Err(arity_error("MERGE", args.len(), 2));
    }
    let ghost orig = args@;
    let mut args = args;
    let second = args.pop().unwrap();
    let first = args.pop().unwrap();
    assert(second == orig[1] && first == orig[0]);
    let mut out = match first {
        Value::Dict(entries) => entries,
        other => {
            return Err(
                type_error("MERGE", concat2("expected DICT as first arg, got ", type_label(&other)).as_str()),
            );
        },
    };
    let b = match second {
        Value::Dict(entries) => entries,
        other => {
            return Err(
                type_error("MERGE", concat2("expected DICT as second arg, got ", type_label(&other)).as_str()),
            );
        },
    };
    let ghost a0 = out@;
    let ghost bv = b@;
    let mut rest = crate::builtins::reversed(b);
    while rest.len() > 0
        invariant
            rest@.len() <= bv.len(),
            rest@ == bv.reverse().take(rest@.len() as int),
            out@ == merged(a0, bv.take(bv.len() - rest@.len())),
        decreases rest@.len(),
    {
        let ghost n = rest@.len();
        let ghost done: int = bv.len() - n;
        let (k, v) = rest.pop().unwrap();
        assert(bv.reverse()[n - 1] == bv[done]);
        assert(rest@ =~= bv.reverse().take(n - 1));
        assert(bv.take(done + 1).drop_last() =~= bv.take(done));
        assert(bv.take(done + 1).last() == bv[done]);
        upsert_entry(&mut out, k, v);
    }
    assert(bv.take(bv.len() as int) =~= bv);
    Ok(Value::Dict(out))
}


/// The position of the first element of `a` equal to `x`, or -1.
pub open spec fn element_index(a: Seq<Value>, x: Value) -> int
    decreases a.len(),
{
    if a.len() == 0 {
        -1
    } else if value_eq(a[0], x) {
        0
    } else {
        let r = element_index(a.drop_first(), x);
        if r < 0 {
            -1
        } else {
            r + 1
        }
    }
}

/// Some element of `a` equals `x`.
pub open spec fn has_element(a: Seq<Value>, x: Value) -> bool {
    exists|i: int| 0 <= i < a.len() && value_eq(#[trigger] a[i], x)
}

/// `element_index` is the first equal element, and -1 exactly when there
/// is none.
pub proof fn lemma_element_index(a: Seq<Value>, x: Value)
    ensures
        element_index(a, x) >= 0 <==> has_element(a, x),
        element_index(a, x) >= 0 ==> element_index(a, x) < a.len() && value_eq(a[element_index(a, x)], x)
            && forall|j: int| 0 <= j < element_index(a, x) ==> !value_eq(#[trigger] a[j], x),
        element_index(a, x) < 0 ==> element_index(a, x) == -1,
    decreases a.len(),
{
    if a.len() > 0 {
        let t = a.drop_first();
        lemma_element_index(t, x);
        if !value_eq(a[0], x) {
            if has_element(a, x) {
                let i = choose|i: int| 0 <= i < a.len() && value_eq(#[trigger] a[i], x);
                assert(t[i - 1] == a[i]);
            }
            if has_element(t, x) {
                let i = choose|i: int| 0 <= i < t.len() && value_eq(#[trigger] t[i], x);
                assert(t[i] == a[i + 1]);
            }
            if element_index(t, x) >= 0 {
                let k = element_index(t, x);
                assert forall|j: int| 0 <= j < k + 1 implies !value_eq(#[trigger] a[j], x) by {
                    if j > 0 {
                        assert(a[j] == t[j - 1]);
                    }
                }
                assert(a[k + 1] == t[k]);
            }
        }
    }
}

/// The position of the first element of `a` equal to `x`.
pub fn position_of(a: &Vec<Value>, x: &Value) -> (r: Option<usize>)
    ensures
        match r {
            Some(i) => i as int == element_index(a@, *x) && i < a@.len() && has_element(a@, *x),
            None => element_index(a@, *x) == -1 && !has_element(a@, *x),
        },
{
    proof {
        lemma_element_index(a@, *x);
    }
    let mut i: usize = 0;
    while i < a.len()
        invariant
            i <= a@.len(),
            forall|j: int| 0 <= j < i ==> !value_eq(#[trigger] a@[j], *x),
            element_index(a@, *x) >= 0 ==> element_index(a@, *x) < a@.len() && value_eq(
                a@[element_index(a@, *x)],
                *x,
            ) && forall|j: int| 0 <= j < element_index(a@, *x) ==> !value_eq(#[trigger] a@[j], *x),
            element_index(a@, *x) >= 0 <==> has_element(a@, *x),
            element_index(a@, *x) < 0 ==> element_index(a@, *x) == -1,
        decreases a@.len() - i,
    {
        if values_equal(&a[i], x) {
            return Some(i);
        }
        i = i + 1;
    }
    None
}

/// What `builtin_contains` gives.
pub open spec fn builtin_contains_post(args: Seq<Value>, r: Result<Value, BuiltinError>) -> bool {
    &&& (args.len() != 2 ==> arity_failure(r, "CONTAINS"@, args.len() as nat, 2))
    &&& (args.len() == 2 ==> match args[0] {
        Value::Array(a) => r == Ok::<Value, BuiltinError>(Value::Boolean(has_element(a@, args[1]))),
        Value::String(s) => match args[1] {
            Value::String(n) => r == Ok::<Value, BuiltinError>(Value::Boolean(find_from(s@, n@) >= 0)),
            other => type_failure(r, "CONTAINS"@, got("STRING contains expects STRING needle, got "@, other)),
        },
        other => type_failure(r, "CONTAINS"@, got("expected ARRAY or STRING, got "@, other)),
    })
}

/// `CONTAINS(coll, x)`: an element of an array equals `x`, or a string
/// contains the string `x`.
pub fn builtin_contains(args: Vec<Value>) -> (r: Result<Value, BuiltinError>)
    ensures
        builtin_contains_post(args@, r),
{
    if args.len() != 2 {
        return Err(arity_error("CONTAINS", args.len(), 2));
    }
    match &args[0] {
        Value::Array(a) => Ok(Value::Boolean(position_of(a, &args[1]).is_some())),
        Value::String(s) => match &args[1] {
            Value::String(n) => Ok(Value::Boolean(string_contains(s.as_str(), n.as_str()))),
            other => Err(
                type_error(
                    "CONTAINS",
                    concat2("STRING contains expects STRING needle, got ", type_label(other)).as_str(),
                ),
            ),
        },
        other => Err(
            type_error("CONTAINS", concat2("expected ARRAY or STRING, got ", type_label(other)).as_str()),
        ),
    }
}

/// What `builtin_index` gives.
pub open spec fn builtin_index_post(args: Seq<Value>, r: Result<Value, BuiltinError>) -> bool {
    &&& (args.len() != 2 ==> arity_failure(r, "INDEX"@, args.len() as nat, 2))
    &&& (args.len() == 2 ==> match args[0] {
        Value::Array(a) => {
            let k = element_index(a@, args[1]); r matches Ok(Value::Integer(n)) && n == if k >= 0 {
                count_as_int((k + 1) as nat)
            } else {
                -1i64
            }
        },
        Value::String(s) => match args[1] {
            Value::String(n) => r matches Ok(Value::Integer(p)) && p == find_position(s@, n@),
            other => type_failure(r, "INDEX"@, got("STRING index expects STRING needle, got "@, other)),
        },
        other => type_failure(r, "INDEX"@, got("expected ARRAY or STRING, got "@, other)),
    })
}

/// `INDEX(coll, x)`: the 1-based position of the first element of an
/// array equal to `x`, or the 1-based byte position of the first
/// occurrence of the string `x` in a string; `-1` when there is none.
pub fn builtin_index(args: Vec<Value>) -> (r: Result<Value, BuiltinError>)
    requires
        args@.len() == 2 ==> (args@[0] matches Value::String(s) ==> utf8_len(s@) < i64::MAX && utf8_len(s@)
            <= usize::MAX),
    ensures
        builtin_index_post(args@, r),
{
    if args.len() != 2 {
        return Err(arity_error("INDEX", args.len(), 2));
    }
    match &args[0] {
        Value::Array(a) => match position_of(a, &args[1]) {
            Some(i) => {
                let len = a.len();
                assert(i < len);
                Ok(Value::Integer(count_to_int(i + 1)))
            },
            None => Ok(Value::Integer(-1)),
        },
        Value::String(s) => match &args[1] {
            Value::String(n) => Ok(Value::Integer(string_index(s.as_str(), n.as_str()))),
            other => Err(
                type_error(
                    "INDEX",
                    concat2("STRING index expects STRING needle, got ", type_label(other)).as_str(),
                ),
            ),
        },
        other => Err(type_error("INDEX", concat2("expected ARRAY or STRING, got ", type_label(other)).as_str())),
    }
}

/// What `builtin_str` gives.
pub open spec fn builtin_str_post(args: Seq<Value>, texts: Seq<(u64, String)>, r: Result<Value, BuiltinError>) -> bool {
    &&& (args.len() != 1 ==> arity_failure(r, "STR"@, args.len() as nat, 1))
    &&& (args.len() == 1 ==> (r matches Ok(Value::String(s)) && s@ == shown(args[0], texts)))
}

/// `STR(x)`: the text of `x`, its doubles written as `texts` gives them.
pub fn builtin_str(args: Vec<Value>, texts: &Vec<(u64, String)>) -> (r: Result<Value, BuiltinError>)
    ensures
        builtin_str_post(args@, texts@, r),
{
    if args.len() != 1 {
        return Err(arity_error("STR", args.len(), 1));
    }
    Ok(Value::String(display(&args[0], texts)))
}

} // verus!
