//! Built-in functions on arrays, dicts, results and truth values.
use vstd::prelude::*;

use crate::text::{chars_of, concat2, str_eq};
use crate::value::{
    arity_error, builtin_error, is_arity_error, is_builtin_error, is_type_error, truthy, type_error,
    type_label, type_label_spec, value_type_name, value_type_name_spec, is_truthy, BuiltinError,
    ErrorCode, Value,
};

verus! {

/// `r` is the wrong-number-of-arguments error of `name`.
pub open spec fn arity_failure(r: Result<Value, BuiltinError>, name: Seq<char>, got: nat, want: nat) -> bool {
    r matches Err(e) && is_arity_error(e, name, got, want)
}

/// `r` is the type error of `name` with the detail `detail`.
pub open spec fn type_failure(r: Result<Value, BuiltinError>, name: Seq<char>, detail: Seq<char>) -> bool {
    r matches Err(e) && is_type_error(e, name, detail)
}

/// `detail` followed by the type name of `v`.
pub open spec fn got(detail: Seq<char>, v: Value) -> Seq<char> {
    detail + type_label_spec(&v)@
}

/// What `builtin_push` gives.
pub open spec fn builtin_push_post(args: Seq<Value>, r: Result<Value, BuiltinError>) -> bool {
    &&& (args.len() != 2 ==> arity_failure(r, "PUSH"@, args.len() as nat, 2))
    &&& (args.len() == 2 ==> match args[0] {
        Value::Array(a) => r matches Ok(Value::Array(out)) && out@ == a@.push(args[1]),
        other => type_failure(r, "PUSH"@, got("expected array as first arg, got "@, other)),
    })
}

/// `PUSH(arr, x)`: a copy of `arr` with `x` appended.
pub fn builtin_push(args: Vec<Value>) -> (r: Result<Value, BuiltinError>)
    ensures
        builtin_push_post(args@, r),
{
    if args.len() != 2 {
        return Err(arity_error("PUSH", args.len(), 2));
    }
    let mut args = args;
    let item = args.pop().unwrap();
    let first = args.pop().unwrap();
    match first {
        Value::Array(mut a) => {
            a.push(item);
            Ok(Value::Array(a))
        },
        other => Err(
            type_error("PUSH", concat2("expected array as first arg, got ", type_label(&other)).as_str()),
        ),
    }
}


/// What `builtin_len` gives.
pub open spec fn builtin_len_post(args: Seq<Value>, r: Result<Value, BuiltinError>) -> bool {
    &&& (args.len() != 1 ==> arity_failure(r, "LEN"@, args.len() as nat, 1))
    &&& (args.len() == 1 ==> match args[0] {
        Value::String(s) => r == Ok::<Value, BuiltinError>(Value::Integer(count_as_int(s@.len()))),
        Value::Array(a) => r == Ok::<Value, BuiltinError>(Value::Integer(count_as_int(a@.len()))),
        Value::Dict(d) => r == Ok::<Value, BuiltinError>(Value::Integer(count_as_int(d@.len()))),
        other => type_failure(r, "LEN"@, got("expected string/array/dict, got "@, other)),
    })
}

/// `LEN(x)`: number of characters of a string, elements of an array or
/// entries of a dict.
pub fn builtin_len(args: Vec<Value>) -> (r: Result<Value, BuiltinError>)
    ensures
        builtin_len_post(args@, r),
{
    if args.len() != 1 {
        return Err(arity_error("LEN", args.len(), 1));
    }
    let mut args = args;
    let v = args.pop().unwrap();
    match v {
        Value::String(s) => Ok(Value::Integer(count_to_int(s.as_str().unicode_len()))),
        Value::Array(a) => Ok(Value::Integer(count_to_int(a.len()))),
        Value::Dict(d) => Ok(Value::Integer(count_to_int(d.len()))),
        other => Err(
            type_error("LEN", concat2("expected string/array/dict, got ", type_label(&other)).as_str()),
        ),
    }
}

/// A count as an INTEGER (counts beyond the INTEGER range, which no
/// collection in memory reaches, are capped at the largest INTEGER).
pub open spec fn count_as_int(n: nat) -> i64 {
    if n <= i64::MAX {
        n as i64
    } else {
        i64::MAX
    }
}

pub(crate) fn count_to_int(n: usize) -> (r: i64)
    ensures
        r == count_as_int(n as nat),
{
    if (n as u64) <= 9223372036854775807u64 {
        n as i64
    } else {
        i64::MAX
    }
}

/// What `builtin_shift` gives.
pub open spec fn builtin_shift_post(args: Seq<Value>, r: Result<Value, BuiltinError>) -> bool {
    &&& (args.len() != 1 ==> arity_failure(r, "SHIFT"@, args.len() as nat, 1))
    &&& (args.len() == 1 ==> match args[0] {
        Value::Array(a) => r matches Ok(Value::Array(out)) && out@ == (if a@.len() == 0 {
            Seq::<Value>::empty()
        } else {
            a@.drop_first()
        }),
        other => type_failure(r, "SHIFT"@, got("expected ARRAY, got "@, other)),
    })
}

/// `SHIFT(arr)`: `arr` without its first element (an empty array stays
/// empty).
pub fn builtin_shift(args: Vec<Value>) -> (r: Result<Value, BuiltinError>)
    ensures
        builtin_shift_post(args@, r),
{
    if args.len() != 1 {
        return Err(arity_error("SHIFT", args.len(), 1));
    }
    let mut args = args;
    let v = args.pop().unwrap();
    match v {
        Value::Array(mut a) => {
            if a.len() == 0 {
                Ok(Value::Array(Vec::new()))
            } else {
                a.remove(0);
                Ok(Value::Array(a))
            }
        },
        other => Err(type_error("SHIFT", concat2("expected ARRAY, got ", type_label(&other)).as_str())),
    }
}

/// What `builtin_unshift` gives.
pub open spec fn builtin_unshift_post(args: Seq<Value>, r: Result<Value, BuiltinError>) -> bool {
    &&& (args.len() != 2 ==> arity_failure(r, "UNSHIFT"@, args.len() as nat, 2))
    &&& (args.len() == 2 ==> match args[0] {
        Value::Array(a) => r matches Ok(Value::Array(out)) && out@ == seq![args[1]] + a@,
        other => type_failure(r, "UNSHIFT"@, got("expected ARRAY as first arg, got "@, other)),
    })
}

/// `UNSHIFT(arr, x)`: `x` followed by the elements of `arr`.
pub fn builtin_unshift(args: Vec<Value>) -> (r: Result<Value, BuiltinError>)
    ensures
        builtin_unshift_post(args@, r),
{
    if args.len() != 2 {
        return Err(arity_error("UNSHIFT", args.len(), 2));
    }
    let mut args = args;
    let item = args.pop().unwrap();
    let first = args.pop().unwrap();
    match first {
        Value::Array(mut a) => {
            let ghost before = a@;
            a.insert(0, item);
            assert(a@ =~= seq![item] + before);
            Ok(Value::Array(a))
        },
        other => Err(
            type_error("UNSHIFT", concat2("expected ARRAY as first arg, got ", type_label(&other)).as_str()),
        ),
    }
}


/// A SLICE/SUB bound resolved against a length: negative counts from the
/// end, and the result is clamped to `0..=len`.
pub open spec fn clamp_bound(x: int, len: int) -> int {
    if x < 0 {
        if x + len < 0 {
            0
        } else {
            x + len
        }
    } else if x < len {
        x
    } else {
        len
    }
}

/// The half-open slice `[start, end)` of `s`, with both bounds resolved by
/// `clamp_bound`; empty when they cross.
pub open spec fn slice_of<A>(s: Seq<A>, start: int, end: int) -> Seq<A> {
    let lo = clamp_bound(start, s.len() as int);
    let hi = clamp_bound(end, s.len() as int);
    if hi <= lo {
        Seq::empty()
    } else {
        s.subrange(lo, hi)
    }
}

/// The resolved bounds of `slice_of`, as positions.
pub fn slice_bounds(len: usize, start: i128, end: i128) -> (r: (usize, usize))
    requires
        -0x8000_0000_0000_0000 <= start <= 0xFFFF_FFFF_FFFF_FFFF,
        -0x8000_0000_0000_0000 <= end <= 0xFFFF_FFFF_FFFF_FFFF,
    ensures
        r.0 <= r.1 <= len,
        r.1 <= clamp_bound(start as int, len as int) ==> r.0 == r.1,
        clamp_bound(end as int, len as int) > clamp_bound(start as int, len as int) ==> r.0
            == clamp_bound(start as int, len as int) && r.1 == clamp_bound(end as int, len as int),
        clamp_bound(end as int, len as int) <= clamp_bound(start as int, len as int) ==> r.0 == r.1,
{
    let l = len as i128;
    let s = start;
    let e = end;
    let lo = if s < 0 {
        if s + l < 0 {
            0
        } else {
            s + l
        }
    } else if s < l {
        s
    } else {
        l
    };
    let hi = if e < 0 {
        if e + l < 0 {
            0
        } else {
            e + l
        }
    } else if e < l {
        e
    } else {
        l
    };
    if hi <= lo {
        (0, 0)
    } else {
        (lo as usize, hi as usize)
    }
}

/// The elements `lo..hi` of `v`.
pub fn take_range<A>(v: Vec<A>, lo: usize, hi: usize) -> (r: Vec<A>)
    requires
        lo <= hi <= v@.len(),
    ensures
        r@ == v@.subrange(lo as int, hi as int),
{
    let mut v = v;
    v.truncate(hi);
    let tail = v.split_off(lo);
    tail
}

/// What `builtin_slice` gives.
pub open spec fn builtin_slice_post(args: Seq<Value>, r: Result<Value, BuiltinError>) -> bool {
    &&& ((args.len() < 2 || args.len() > 3) ==> arity_failure(r, "SLICE"@, args.len() as nat, 2))
    &&& ((2 <= args.len() <= 3) ==> match args[0] {
        Value::Array(a) => match args[1] {
            Value::Integer(st) => if args.len() == 3 {
                match args[2] {
                    Value::Integer(en) => r matches Ok(Value::Array(out)) && out@ == slice_of( a@, st as int, en as int, ),
                    other => type_failure(r, "SLICE"@, got("end must be INTEGER, got "@, other)),
                }
            } else {
                r matches Ok(Value::Array(out)) && out@ == slice_of(a@, st as int, a@.len() as int)
            },
            other => type_failure(r, "SLICE"@, got("start must be INTEGER, got "@, other)),
        },
        other => type_failure(r, "SLICE"@, got("expected ARRAY as first arg, got "@, other)),
    })
}

/// `SLICE(arr, start, end?)`: the half-open slice `[start, end)` of `arr`;
/// negative bounds count from the end, bounds are clamped, `end` defaults
/// to the length.
pub fn builtin_slice(args: Vec<Value>) -> (r: Result<Value, BuiltinError>)
    ensures
        builtin_slice_post(args@, r),
{
    if args.len() < 2 || args.len() > 3 {
        return Err(arity_error("SLICE", args.len(), 2));
    }
    let n = args.len();
    let mut args = args;
    let end_arg = if n == 3 {
        args.pop()
    } else {
        None
    };
    let start_arg = args.pop().unwrap();
    let arr = args.pop().unwrap();
    let a = match arr {
        Value::Array(a) => a,
        other => {
            return Err(
                type_error(
                    "SLICE",
                    concat2("expected ARRAY as first arg, got ", type_label(&other)).as_str(),
                ),
            );
        },
    };
    let start = match start_arg {
        Value::Integer(i) => i,
        other => {
            return Err(
                type_error("SLICE", concat2("start must be INTEGER, got ", type_label(&other)).as_str()),
            );
        },
    };
    let end: i128 = match end_arg {
        Some(Value::Integer(i)) => i as i128,
        Some(other) => {
            return Err(
                type_error("SLICE", concat2("end must be INTEGER, got ", type_label(&other)).as_str()),
            );
        },
        None => a.len() as i128,
    };
    let ghost av = a@;
    let (lo, hi) = slice_bounds(a.len(), start as i128, end);
    let out = take_range(a, lo, hi);
    if lo == hi {
        assert(out@ =~= slice_of(av, start as int, end as int)) by {
            if clamp_bound(end as int, av.len() as int) > clamp_bound(start as int, av.len() as int) {
                assert(av.subrange(lo as int, hi as int).len() == 0);
            }
        }
    }
    Ok(Value::Array(out))
}

/// The INTEGER code point of a character.
pub open spec fn code_of(c: char) -> i64 {
    (c as u32) as i64
}

/// The code points of `s`, as INTEGER values.
pub open spec fn code_values(s: Seq<char>) -> Seq<Value> {
    s.map_values(|c: char| Value::Integer(code_of(c)))
}

/// The code points of the characters `cs`.
pub fn codepoint_values(cs: &Vec<char>) -> (r: Vec<Value>)
    ensures
        r@ == code_values(cs@),
{
    let mut r: Vec<Value> = Vec::new();
    let mut i: usize = 0;
    while i < cs.len()
        invariant
            i <= cs@.len(),
            r@ == code_values(cs@.take(i as int)),
        decreases cs@.len() - i,
    {
        let c = cs[i];
        r.push(Value::Integer(c as u32 as i64));
        assert(code_values(cs@.take(i + 1)) =~= code_values(cs@.take(i as int)).push(
            Value::Integer(code_of(c)),
        ));
        i = i + 1;
    }
    assert(cs@.take(cs@.len() as int) =~= cs@);
    r
}


/// The elements of `v` in reverse order.
pub fn reversed<A>(v: Vec<A>) -> (r: Vec<A>)
    ensures
        r@ == v@.reverse(),
{
    let ghost orig = v@;
    let mut v = v;
    let mut r: Vec<A> = Vec::new();
    while v.len() > 0
        invariant
            v@ == orig.take(v@.len() as int),
            v@.len() <= orig.len(),
            r@ == orig.skip(v@.len() as int).reverse(),
        decreases v@.len(),
    {
        let ghost n = v@.len();
        let x = v.pop().unwrap();
        r.push(x);
        assert(orig.skip(n - 1).reverse() =~= orig.skip(n as int).reverse().push(orig[n - 1]));
        assert(v@ =~= orig.take(n - 1));
    }
    assert(orig.skip(0) =~= orig);
    r
}

/// The keys and the values of the dict entries `d`, in entry order.
pub fn split_entries(d: Vec<(Value, Value)>) -> (r: (Vec<Value>, Vec<Value>))
    ensures
        r.0@ == d@.map_values(|e: (Value, Value)| e.0),
        r.1@ == d@.map_values(|e: (Value, Value)| e.1),
{
    let ghost orig = d@;
    let mut d = reversed(d);
    let mut ks: Vec<Value> = Vec::new();
    let mut vs: Vec<Value> = Vec::new();
    while d.len() > 0
        invariant
            d@ == orig.reverse().take(d@.len() as int),
            d@.len() <= orig.len(),
            ks@ == orig.take(orig.len() - d@.len()).map_values(|e: (Value, Value)| e.0),
            vs@ == orig.take(orig.len() - d@.len()).map_values(|e: (Value, Value)| e.1),
        decreases d@.len(),
    {
        let ghost n = d@.len();
        let (k, v) = d.pop().unwrap();
        let ghost j = orig.len() - n;
        assert(orig.reverse()[n - 1] == orig[j]);
        ks.push(k);
        vs.push(v);
        assert(orig.take(j + 1) =~= orig.take(j).push(orig[j]));
        assert(ks@ =~= orig.take(j + 1).map_values(|e: (Value, Value)| e.0));
        assert(vs@ =~= orig.take(j + 1).map_values(|e: (Value, Value)| e.1));
        assert(d@ =~= orig.reverse().take(n - 1));
    }
    assert(orig.take(orig.len() as int) =~= orig);
    (ks, vs)
}

/// What `builtin_concat` gives.
pub open spec fn builtin_concat_post(args: Seq<Value>, r: Result<Value, BuiltinError>) -> bool {
    &&& (args.len() != 2 ==> arity_failure(r, "CONCAT"@, args.len() as nat, 2))
    &&& (args.len() == 2 ==> match (args[0], args[1]) {
        (Value::Array(a), Value::Array(b)) => r matches Ok(Value::Array(out)) && out@ == a@ + b@,
        (Value::String(a), Value::String(b)) => r matches Ok(Value::Array(out)) && out@ == code_values(a@) + code_values(b@),
        (x, y) => type_failure( r, "CONCAT"@, "expected (ARRAY, ARRAY) or (STRING, STRING), got ("@ + type_label_spec(&x)@ + ", "@ + type_label_spec(&y)@ + ")"@, ),
    })
}

/// `CONCAT(a, b)`: two arrays joined; two strings give the code points of
/// both, in order.
pub fn builtin_concat(args: Vec<Value>) -> (r: Result<Value, BuiltinError>)
    ensures
        builtin_concat_post(args@, r),
{
    if args.len() != 2 {
        return Err(arity_error("CONCAT", args.len(), 2));
    }
    let mut args = args;
    let second = args.pop().unwrap();
    let first = args.pop().unwrap();
    match (first, second) {
        (Value::Array(mut a), Value::Array(mut b)) => {
            a.append(&mut b);
            Ok(Value::Array(a))
        },
        (Value::String(a), Value::String(b)) => {
            let mut out = codepoint_values(&chars_of(a.as_str()));
            let mut tail = codepoint_values(&chars_of(b.as_str()));
            out.append(&mut tail);
            Ok(Value::Array(out))
        },
        (x, y) => {
            let mut detail = concat2("expected (ARRAY, ARRAY) or (STRING, STRING), got (", type_label(&x));
            detail.append(", ");
            detail.append(type_label(&y));
            detail.append(")");
            Err(type_error("CONCAT", detail.as_str()))
        },
    }
}

/// What `builtin_reverse` gives.
pub open spec fn builtin_reverse_post(args: Seq<Value>, r: Result<Value, BuiltinError>) -> bool {
    &&& (args.len() != 1 ==> arity_failure(r, "REVERSE"@, args.len() as nat, 1))
    &&& (args.len() == 1 ==> match args[0] {
        Value::Array(a) => r matches Ok(Value::Array(out)) && out@ == a@.reverse(),
        Value::String(s) => r matches Ok(Value::Array(out)) && out@ == code_values(s@).reverse(),
        other => type_failure(r, "REVERSE"@, got("expected ARRAY or STRING, got "@, other)),
    })
}

/// `REVERSE(x)`: an array reversed; a string gives its code points in
/// reverse order.
pub fn builtin_reverse(args: Vec<Value>) -> (r: Result<Value, BuiltinError>)
    ensures
        builtin_reverse_post(args@, r),
{
    if args.len() != 1 {
        return Err(arity_error("REVERSE", args.len(), 1));
    }
    let mut args = args;
    let v = args.pop().unwrap();
    match v {
        Value::Array(a) => Ok(Value::Array(reversed(a))),
        Value::String(s) => Ok(Value::Array(reversed(codepoint_values(&chars_of(s.as_str()))))),
        other => Err(
            type_error("REVERSE", concat2("expected ARRAY or STRING, got ", type_label(&other)).as_str()),
        ),
    }
}

/// What `builtin_keys` gives.
pub open spec fn builtin_keys_post(args: Seq<Value>, r: Result<Value, BuiltinError>) -> bool {
    &&& (args.len() != 1 ==> arity_failure(r, "KEYS"@, args.len() as nat, 1))
    &&& (args.len() == 1 ==> match args[0] {
        Value::Dict(d) => r matches Ok(Value::Array(out)) && out@ == d@.map_values( |e: (Value, Value)| e.0, ),
        other => type_failure(r, "KEYS"@, got("expected DICT, got "@, other)),
    })
}

/// `KEYS(dict)`: the keys, in entry order.
pub fn builtin_keys(args: Vec<Value>) -> (r: Result<Value, BuiltinError>)
    ensures
        builtin_keys_post(args@, r),
{
    if args.len() != 1 {
        return Err(arity_error("KEYS", args.len(), 1));
    }
    let mut args = args;
    let v = args.pop().unwrap();
    match v {
        Value::Dict(d) => {
            let (ks, _vs) = split_entries(d);
            Ok(Value::Array(ks))
        },
        other => Err(type_error("KEYS", concat2("expected DICT, got ", type_label(&other)).as_str())),
    }
}

/// What `builtin_values` gives.
pub open spec fn builtin_values_post(args: Seq<Value>, r: Result<Value, BuiltinError>) -> bool {
    &&& (args.len() != 1 ==> arity_failure(r, "VALUES"@, args.len() as nat, 1))
    &&& (args.len() == 1 ==> match args[0] {
        Value::Dict(d) => r matches Ok(Value::Array(out)) && out@ == d@.map_values( |e: (Value, Value)| e.1, ),
        other => type_failure(r, "VALUES"@, got("expected DICT, got "@, other)),
    })
}

/// `VALUES(dict)`: the values, in entry order.
pub fn builtin_values(args: Vec<Value>) -> (r: Result<Value, BuiltinError>)
    ensures
        builtin_values_post(args@, r),
{
    if args.len() != 1 {
        return Err(arity_error("VALUES", args.len(), 1));
    }
    let mut args = args;
    let v = args.pop().unwrap();
    match v {
        Value::Dict(d) => {
            let (_ks, vs) = split_entries(d);
            Ok(Value::Array(vs))
        },
        other => Err(type_error("VALUES", concat2("expected DICT, got ", type_label(&other)).as_str())),
    }
}


/// The entry `e` has the STRING key `k`.
pub open spec fn key_is(e: (Value, Value), k: Seq<char>) -> bool {
    e.0 matches Value::String(s) && s@ == k
}

/// `i` is the first entry of `d` with the STRING key `k`.
pub open spec fn first_key(d: Seq<(Value, Value)>, k: Seq<char>, i: int) -> bool {
    &&& 0 <= i < d.len()
    &&& key_is(d[i], k)
    &&& forall|j: int| 0 <= j < i ==> !key_is(#[trigger] d[j], k)
}

/// Some entry of `d` has the STRING key `k`.
pub open spec fn has_key(d: Seq<(Value, Value)>, k: Seq<char>) -> bool {
    exists|i: int| 0 <= i < d.len() && key_is(#[trigger] d[i], k)
}

/// The first entry of `d` with the STRING key `k`, if any.
pub fn find_string_key(d: &Vec<(Value, Value)>, k: &str) -> (r: Option<usize>)
    ensures
        match r {
            Some(i) => first_key(d@, k@, i as int),
            None => !has_key(d@, k@),
        },
{
    let mut i: usize = 0;
    while i < d.len()
        invariant
            i <= d@.len(),
            forall|j: int| 0 <= j < i ==> !key_is(#[trigger] d@[j], k@),
        decreases d@.len() - i,
    {
        let hit = match &d[i].0 {
            Value::String(s) => str_eq(s.as_str(), k),
            _ => false,
        };
        if hit {
            return Some(i);
        }
        i = i + 1;
    }
    None
}

pub proof fn lemma_first_key_unique(d: Seq<(Value, Value)>, k: Seq<char>, i: int, j: int)
    requires
        first_key(d, k, i),
        first_key(d, k, j),
    ensures
        i == j,
{
    if i < j {
        assert(!key_is(d[i], k));
    } else if j < i {
        assert(!key_is(d[j], k));
    }
}

/// What `builtin_get_prop` gives.
pub open spec fn builtin_get_prop_post(args: Seq<Value>, r: Result<Value, BuiltinError>) -> bool {
    &&& (args.len() != 2 ==> arity_failure(r, "GET_PROP"@, args.len() as nat, 2))
    &&& (args.len() == 2 ==> match args[0] {
        Value::Dict(d) => match args[1] {
            Value::String(k) => if has_key(d@, k@) {
                exists|i: int| first_key(d@, k@, i) && r == Ok::<Value, BuiltinError>(d@[i].1)
            } else {
                r matches Err(e) && is_builtin_error( e, ErrorCode::E0037, "GET_PROP"@, "no such property '"@ + k@ + "'"@, )
            },
            other => type_failure(r, "GET_PROP"@, got("property key must be STRING, got "@, other)),
        },
        other => type_failure(r, "GET_PROP"@, got("expected DICT object, got "@, other)),
    })
}

/// `GET_PROP(obj, key)`: the value of the property `key` of a DICT object;
/// `E0037` when there is none.
pub fn builtin_get_prop(args: Vec<Value>) -> (r: Result<Value, BuiltinError>)
    ensures
        builtin_get_prop_post(args@, r),
{
    if args.len() != 2 {
        return Err(arity_error("GET_PROP", args.len(), 2));
    }
    let mut args = args;
    let key = args.pop().unwrap();
    let obj = args.pop().unwrap();
    let mut d = match obj {
        Value::Dict(d) => d,
        other => {
            return Err(
                type_error("GET_PROP", concat2("expected DICT object, got ", type_label(&other)).as_str()),
            );
        },
    };
    let k = match key {
        Value::String(k) => k,
        other => {
            return Err(
                type_error(
                    "GET_PROP",
                    concat2("property key must be STRING, got ", type_label(&other)).as_str(),
                ),
            );
        },
    };
    match find_string_key(&d, k.as_str()) {
        Some(i) => {
            let (_key, v) = d.remove(i);
            Ok(v)
        },
        None => {
            let mut detail = concat2("no such property '", k.as_str());
            detail.append("'");
            Err(builtin_error(ErrorCode::E0037, "GET_PROP", detail.as_str()))
        },
    }
}

/// What `builtin_set_prop` gives.
pub open spec fn builtin_set_prop_post(args: Seq<Value>, r: Result<Value, BuiltinError>) -> bool {
    &&& (args.len() != 3 ==> arity_failure(r, "SET_PROP"@, args.len() as nat, 3))
    &&& (args.len() == 3 ==> match args[0] {
        Value::Dict(d) => match args[1] {
            Value::String(k) => if has_key(d@, k@) {
                exists|i: int| first_key(d@, k@, i) && (r matches Ok(Value::Dict(out)) && out@ == d@.update( i, (d@[i].0, args[2]), ))
            } else {
                r matches Ok(Value::Dict(out)) && out@ == d@.push((args[1], args[2]))
            },
            other => type_failure(r, "SET_PROP"@, got("property key must be STRING, got "@, other)),
        },
        other => type_failure(r, "SET_PROP"@, got("expected DICT object, got "@, other)),
    })
}

/// `SET_PROP(obj, key, v)`: the DICT object with the property `key` set to
/// `v` (updated in place when present, appended otherwise).
pub fn builtin_set_prop(args: Vec<Value>) -> (r: Result<Value, BuiltinError>)
    ensures
        builtin_set_prop_post(args@, r),
{
    if args.len() != 3 {
        return Err(arity_error("SET_PROP", args.len(), 3));
    }
    let mut args = args;
    let v = args.pop().unwrap();
    let key = args.pop().unwrap();
    let obj = args.pop().unwrap();
    let mut d = match obj {
        Value::Dict(d) => d,
        other => {
            return Err(
                type_error("SET_PROP", concat2("expected DICT object, got ", type_label(&other)).as_str()),
            );
        },
    };
    let k = match key {
        Value::String(k) => k,
        other => {
            return Err(
                type_error(
                    "SET_PROP",
                    concat2("property key must be STRING, got ", type_label(&other)).as_str(),
                ),
            );
        },
    };
    let ghost before = d@;
    match find_string_key(&d, k.as_str()) {
        Some(i) => {
            let (k0, _old) = d.remove(i);
            d.insert(i, (k0, v));
            assert(d@ =~= before.update(i as int, (before[i as int].0, v)));
            Ok(Value::Dict(d))
        },
        None => {
            d.push((Value::String(k), v));
            Ok(Value::Dict(d))
        },
    }
}

/// What `builtin_bool` gives.
pub open spec fn builtin_bool_post(args: Seq<Value>, r: Result<Value, BuiltinError>) -> bool {
    &&& (args.len() != 1 ==> arity_failure(r, "BOOL"@, args.len() as nat, 1))
    &&& (args.len() == 1 ==> r == Ok::<Value, BuiltinError>(Value::Boolean(truthy(args[0]))))
}

/// `BOOL(x)`: the truthiness of `x`.
pub fn builtin_bool(args: Vec<Value>) -> (r: Result<Value, BuiltinError>)
    ensures
        builtin_bool_post(args@, r),
{
    if args.len() != 1 {
        return Err(arity_error("BOOL", args.len(), 1));
    }
    Ok(Value::Boolean(is_truthy(&args[0])))
}

/// What `builtin_not` gives.
pub open spec fn builtin_not_post(args: Seq<Value>, r: Result<Value, BuiltinError>) -> bool {
    &&& (not_outcome(args, r))
}

/// `NOT(x)`: logical negation of the truthiness of `x`.
pub fn builtin_not(args: Vec<Value>) -> (r: Result<Value, BuiltinError>)
    ensures
        builtin_not_post(args@, r),
{
    if args.len() != 1 {
        return Err(arity_error("NOT", args.len(), 1));
    }
    Ok(Value::Boolean(!is_truthy(&args[0])))
}

/// What `NOT(args)` gives: the negated truthiness of its one argument.
pub open spec fn not_outcome(args: Seq<Value>, r: Result<Value, BuiltinError>) -> bool {
    &&& args.len() != 1 ==> arity_failure(r, "NOT"@, args.len() as nat, 1)
    &&& args.len() == 1 ==> r == Ok::<Value, BuiltinError>(Value::Boolean(!truthy(args[0])))
}

/// What `builtin_and` gives.
pub open spec fn builtin_and_post(args: Seq<Value>, r: Result<Value, BuiltinError>) -> bool {
    &&& (args.len() != 2 ==> arity_failure(r, "&&"@, args.len() as nat, 2))
    &&& (args.len() == 2 ==> r == Ok::<Value, BuiltinError>( Value::Boolean(truthy(args[0]) && truthy(args[1])), ))
}

/// `&&(a, b)`: both operands are truthy.
pub fn builtin_and(args: Vec<Value>) -> (r: Result<Value, BuiltinError>)
    ensures
        builtin_and_post(args@, r),
{
    if args.len() != 2 {
        return Err(arity_error("&&", args.len(), 2));
    }
    Ok(Value::Boolean(is_truthy(&args[0]) && is_truthy(&args[1])))
}

/// What `builtin_or` gives.
pub open spec fn builtin_or_post(args: Seq<Value>, r: Result<Value, BuiltinError>) -> bool {
    &&& (args.len() != 2 ==> arity_failure(r, "||"@, args.len() as nat, 2))
    &&& (args.len() == 2 ==> r == Ok::<Value, BuiltinError>( Value::Boolean(truthy(args[0]) || truthy(args[1])), ))
}

/// `||(a, b)`: at least one operand is truthy.
pub fn builtin_or(args: Vec<Value>) -> (r: Result<Value, BuiltinError>)
    ensures
        builtin_or_post(args@, r),
{
    if args.len() != 2 {
        return Err(arity_error("||", args.len(), 2));
    }
    Ok(Value::Boolean(is_truthy(&args[0]) || is_truthy(&args[1])))
}

/// What `builtin_type` gives.
pub open spec fn builtin_type_post(args: Seq<Value>, r: Result<Value, BuiltinError>) -> bool {
    &&& (args.len() != 1 ==> arity_failure(r, "TYPE"@, args.len() as nat, 1))
    &&& (args.len() == 1 ==> (r matches Ok(Value::String(s)) && s@ == value_type_name_spec( &args[0], )@))
}

/// `TYPE(x)`: the uppercase type name of `x`.
pub fn builtin_type(args: Vec<Value>) -> (r: Result<Value, BuiltinError>)
    ensures
        builtin_type_post(args@, r),
{
    if args.len() != 1 {
        return Err(arity_error("TYPE", args.len(), 1));
    }
    Ok(Value::String(String::from_str(value_type_name(&args[0]))))
}

/// What `UNWRAP_OR(args)` gives: the payload of an `OK`, the default for
/// an `ERR`.
pub open spec fn unwrap_or_outcome(args: Seq<Value>, r: Result<Value, BuiltinError>) -> bool {
    &&& args.len() != 2 ==> arity_failure(r, "UNWRAP_OR"@, args.len() as nat, 2)
    &&& args.len() == 2 ==> match args[0] {
        Value::OkValue(v) => r == Ok::<Value, BuiltinError>(*v),
        Value::ErrValue(_) => r == Ok::<Value, BuiltinError>(args[1]),
        other => type_failure(r, "UNWRAP_OR"@, got("expected OK/ERR, got "@, other)),
    }
}

/// What `builtin_unwrap_or` gives.
pub open spec fn builtin_unwrap_or_post(args: Seq<Value>, r: Result<Value, BuiltinError>) -> bool {
    &&& (unwrap_or_outcome(args, r))
}

/// `UNWRAP_OR(value, default)`: the payload of `OK(v)`, or `default` for an
/// `ERR`.
pub fn builtin_unwrap_or(args: Vec<Value>) -> (r: Result<Value, BuiltinError>)
    ensures
        builtin_unwrap_or_post(args@, r),
{
    if args.len() != 2 {
        return Err(arity_error("UNWRAP_OR", args.len(), 2));
    }
    let mut args = args;
    let default = args.pop().unwrap();
    let v = args.pop().unwrap();
    match v {
        Value::OkValue(inner) => Ok(*inner),
        Value::ErrValue(_) => Ok(default),
        other => Err(
            type_error("UNWRAP_OR", concat2("expected OK/ERR, got ", type_label(&other)).as_str()),
        ),
    }
}

/// What `builtin_err_payload` gives.
pub open spec fn builtin_err_payload_post(args: Seq<Value>, r: Result<Value, BuiltinError>) -> bool {
    &&& (args.len() != 1 ==> arity_failure(r, "ERR_PAYLOAD"@, args.len() as nat, 1))
    &&& (args.len() == 1 ==> match args[0] {
        Value::ErrValue(p) => r == Ok::<Value, BuiltinError>(*p),
        Value::OkValue(_) => type_failure(r, "ERR_PAYLOAD"@, "expected ERR, got OK"@),
        other => type_failure(r, "ERR_PAYLOAD"@, got("expected ERR, got "@, other)),
    })
}

/// `ERR_PAYLOAD(value)`: the payload of an `ERR`.
pub fn builtin_err_payload(args: Vec<Value>) -> (r: Result<Value, BuiltinError>)
    ensures
        builtin_err_payload_post(args@, r),
{
    if args.len() != 1 {
        return Err(arity_error("ERR_PAYLOAD", args.len(), 1));
    }
    let mut args = args;
    let v = args.pop().unwrap();
    match v {
        Value::ErrValue(p) => Ok(*p),
        Value::OkValue(_) => Err(type_error("ERR_PAYLOAD", "expected ERR, got OK")),
        other => Err(
            type_error("ERR_PAYLOAD", concat2("expected ERR, got ", type_label(&other)).as_str()),
        ),
    }
}

/// What `builtin_wrap` gives.
pub open spec fn builtin_wrap_post(args: Seq<Value>, r: Result<Value, BuiltinError>) -> bool {
    &&& (args.len() != 2 ==> arity_failure(r, "WRAP"@, args.len() as nat, 2))
    &&& (args.len() == 2 ==> match args[0] {
        Value::ErrValue(p) => r matches Ok(Value::ErrValue(w)) && match *w {
            Value::Dict(d) => {
                &&& d@.len() == 2 &&& d@[0].0 matches Value::String(k0) && k0@ == "original"@ &&& d@[0].1 == *p &&& d@[1].0 matches Value::String(k1) && k1@ == "context"@ &&& d@[1].1 == args[1]
            },
            _ => false,
        },
        Value::OkValue(v) => r == Ok::<Value, BuiltinError>(Value::OkValue(v)),
        other => type_failure(r, "WRAP"@, got("expected OK/ERR, got "@, other)),
    })
}

/// `WRAP(value, context)`: an `ERR(e)` becomes
/// `ERR({"original": e, "context": context})`; an `OK` passes through.
pub fn builtin_wrap(args: Vec<Value>) -> (r: Result<Value, BuiltinError>)
    ensures
        builtin_wrap_post(args@, r),
{
    if args.len() != 2 {
        return Err(arity_error("WRAP", args.len(), 2));
    }
    let mut args = args;
    let ctx = args.pop().unwrap();
    let v = args.pop().unwrap();
    match v {
        Value::ErrValue(p) => {
            let d = vec![
                (Value::String(String::from_str("original")), *p),
                (Value::String(String::from_str("context")), ctx),
            ];
            Ok(Value::ErrValue(Box::new(Value::Dict(d))))
        },
        Value::OkValue(inner) => Ok(Value::OkValue(inner)),
        other => Err(type_error("WRAP", concat2("expected OK/ERR, got ", type_label(&other)).as_str())),
    }
}

/// What `builtin_unwrap` gives.
pub open spec fn builtin_unwrap_post(args: Seq<Value>, r: Result<Value, BuiltinError>) -> bool {
    &&& (args.len() != 1 ==> arity_failure(r, "UNWRAP"@, args.len() as nat, 1))
    &&& (args.len() == 1 ==> match args[0] {
        Value::OkValue(v) => r == Ok::<Value, BuiltinError>(*v),
        Value::ErrValue(p) => r matches Err(e) && e.code == ErrorCode::E0100 && e.message@ == "UNWRAP called on ERR value"@ && e.note is None && e.cause == Some(p),
        other => type_failure(r, "UNWRAP"@, got("expected OK/ERR, got "@, other)),
    })
}

/// `UNWRAP(value)`: the payload of `OK(v)`; an `ERR` panics with `E0100`,
/// carrying the ERR payload as the cause.
pub fn builtin_unwrap(args: Vec<Value>) -> (r: Result<Value, BuiltinError>)
    ensures
        builtin_unwrap_post(args@, r),
{
    if args.len() != 1 {
        return Err(arity_error("UNWRAP", args.len(), 1));
    }
    let mut args = args;
    let v = args.pop().unwrap();
    match v {
        Value::OkValue(inner) => Ok(*inner),
        Value::ErrValue(p) => Err(
            BuiltinError {
                code: ErrorCode::E0100,
                message: String::from_str("UNWRAP called on ERR value"),
                note: None,
                cause: Some(p),
            },
        ),
        other => Err(type_error("UNWRAP", concat2("expected OK/ERR, got ", type_label(&other)).as_str())),
    }
}

} // verus!
