//! The callback-free functions of the `wlwl:std.collection` module, and the
//! helpers that all of its functions share.
use vstd::prelude::*;

use crate::builtins::{reversed, take_range};
use crate::display::{show_into, shown};
use crate::lookup::{has_element, position_of};
use crate::text::{concat2, count_text, decimal};
use crate::value::{arity_error, arity_note, value_kind, value_kind_spec, BuiltinError, ErrorCode, Value};

verus! {

/// The names of the collection module, in table order.
pub open spec fn collection_names() -> Seq<Seq<char>> {
    seq![
        "MAP"@, "FILTER"@, "REDUCE"@, "SORT"@, "SORT_BY"@, "ZIP"@, "RANGE"@, "ANY"@, "ALL"@,
        "FIND"@, "ENUMERATE"@, "TAKE"@, "DROP"@, "FLAT"@, "UNIQ"@, "GROUP_BY"@, "JOIN"@,
    ]
}

/// The names of the collection module, in table order.
pub fn names() -> (r: Vec<&'static str>)
    ensures
        r@.map_values(|s: &str| s@) == collection_names(),
{
    let r = vec![
        "MAP", "FILTER", "REDUCE", "SORT", "SORT_BY", "ZIP", "RANGE", "ANY", "ALL", "FIND",
        "ENUMERATE", "TAKE", "DROP", "FLAT", "UNIQ", "GROUP_BY", "JOIN",
    ];
    assert(r@.map_values(|s: &str| s@) =~= collection_names());
    r
}

/// `k` is the first argument that is an `ERR`.
pub open spec fn first_err(args: Seq<Value>, k: int) -> bool {
    0 <= k < args.len() && args[k] is ErrValue && forall|j: int| 0 <= j < k ==> !(#[trigger] args[j] is ErrValue)
}

/// No argument is an `ERR`.
pub open spec fn no_err(args: Seq<Value>) -> bool {
    forall|j: int| 0 <= j < args.len() ==> !(#[trigger] args[j] is ErrValue)
}

/// The position of the leftmost `ERR` argument, which every collection
/// function returns as its result (ERR propagates through them).
pub fn short_circuit_err(args: &Vec<Value>) -> (r: Option<usize>)
    ensures
        match r {
            Some(k) => first_err(args@, k as int),
            None => no_err(args@),
        },
{
    let mut i: usize = 0;
    while i < args.len()
        invariant
            i <= args@.len(),
            forall|j: int| 0 <= j < i ==> !(#[trigger] args@[j] is ErrValue),
        decreases args@.len() - i,
    {
        if let Value::ErrValue(_) = &args[i] {
            return Some(i);
        }
        i = i + 1;
    }
    None
}

/// `e` is the wrong-arity error of the collection function `name`, as in
/// `MAP: function expects 2 argument(s), got 1`.
pub open spec fn is_collection_arity_error(e: BuiltinError, name: Seq<char>, got: nat, want: nat) -> bool {
    &&& e.code == ErrorCode::E0022
    &&& e.message@ == name + ": function expects "@ + decimal(want as int) + " argument(s), got "@ + decimal(
        got as int,
    )
    &&& e.note matches Some(n) && n@ == arity_note(got, want)
    &&& e.cause is None
}

/// `r` is the wrong-arity error of the collection function `name`.
pub open spec fn collection_arity_failure(r: Result<Value, BuiltinError>, name: Seq<char>, got: nat, want: nat) -> bool {
    r matches Err(e) && is_collection_arity_error(e, name, got, want)
}

/// The wrong-arity error of the collection function `name`.
pub fn arity(name: &str, got: usize, want: usize) -> (e: BuiltinError)
    ensures
        is_collection_arity_error(e, name@, got as nat, want as nat),
{
    let plain = arity_error(name, got, want);
    let mut m = concat2(name, ": function expects ");
    m.append(count_text(want).as_str());
    m.append(" argument(s), got ");
    m.append(count_text(got).as_str());
    BuiltinError { code: ErrorCode::E0022, message: m, note: plain.note, cause: None }
}

pub open spec fn collection_type_note() -> Seq<char> {
    "operator or builtin received a value of the wrong type; check operand types or use an explicit conversion"@
}

/// `e` is the collection type error of `name`: `expected` was wanted, `v`
/// was given.
pub open spec fn is_collection_type_error(e: BuiltinError, name: Seq<char>, expected: Seq<char>, v: Value) -> bool {
    &&& e.code == ErrorCode::E0030
    &&& e.message@ == name + ": expected "@ + expected + ", got "@ + value_kind_spec(&v)@
    &&& e.note matches Some(n) && n@ == collection_type_note()
    &&& e.cause is None
}

/// The type error (`E0030`) of the collection function `name`.
pub fn type_err(name: &str, expected: &str, v: &Value) -> (e: BuiltinError)
    ensures
        is_collection_type_error(e, name@, expected@, *v),
{
    let mut m = concat2(name, ": expected ");
    m.append(expected);
    m.append(", got ");
    m.append(value_kind(v));
    BuiltinError {
        code: ErrorCode::E0030,
        message: m,
        note: Some(
            String::from_str(
                "operator or builtin received a value of the wrong type; check operand types or use an explicit conversion",
            ),
        ),
        cause: None,
    }
}

/// The error (`E0020`) of a collection function given a callback that
/// cannot be called.
pub fn not_callable(name: &str, v: &Value) -> (e: BuiltinError)
    ensures
        e.code == ErrorCode::E0020,
        e.message@ == name@ + ": callback is not callable (got "@ + value_kind_spec(v)@ + ")"@,
        e.note matches Some(n) && n@
            == "no binding for this name; either add a `LET(name, ...)` before this use, or import it from a module"@,
        e.cause is None,
{
    let mut m = concat2(name, ": callback is not callable (got ");
    m.append(value_kind(v));
    m.append(")");
    BuiltinError {
        code: ErrorCode::E0020,
        message: m,
        note: Some(
            String::from_str(
                "no binding for this name; either add a `LET(name, ...)` before this use, or import it from a module",
            ),
        ),
        cause: None,
    }
}

/// `r` is the result that the leftmost `ERR` argument gives.
pub open spec fn err_result(args: Seq<Value>, r: Result<Value, BuiltinError>) -> bool {
    exists|k: int| first_err(args, k) && r == Ok::<Value, BuiltinError>(args[k])
}

/// `r` is the collection type error of `name` for the value `v`.
pub open spec fn collection_type_failure(r: Result<Value, BuiltinError>, name: Seq<char>, expected: Seq<char>, v: Value) -> bool {
    r matches Err(e) && is_collection_type_error(e, name, expected, v)
}

/// What `builtin_enumerate` gives.
pub open spec fn builtin_enumerate_post(args: Seq<Value>, r: Result<Value, BuiltinError>) -> bool {
    &&& (!no_err(args) ==> err_result(args, r))
    &&& (no_err(args) && args.len() != 1 ==> collection_arity_failure(r, "ENUMERATE"@, args.len() as nat, 1))
    &&& (no_err(args) && args.len() == 1 ==> match args[0] {
        Value::Array(a) => r matches Ok(Value::Array(out)) && out@.len() == a@.len() && forall|i: int| 0 <= i < a@.len() ==> (#[trigger] out@[i] matches Value::Array(pair) && pair@ == seq![ Value::Integer(i as i64), a@[i], ]),
        _ => collection_arity_failure(r, "ENUMERATE"@, 1, 1),
    })
}

/// `ENUMERATE(arr)`: the pairs `[i, v]` of the elements of `arr` with their
/// 0-based positions.
pub fn builtin_enumerate(args: Vec<Value>) -> (r: Result<Value, BuiltinError>)
    ensures
        builtin_enumerate_post(args@, r),
{
    let mut args = args;
    if let Some(k) = short_circuit_err(&args) {
        return Ok(args.remove(k));
    }
    if args.len() != 1 {
        return Err(arity("ENUMERATE", args.len(), 1));
    }
    let v = args.pop().unwrap();
    let a = match v {
        Value::Array(a) => a,
        _ => return Err(arity("ENUMERATE", 1, 1)),
    };
    let ghost av = a@;
    assert(av.len() == a.len());
    let mut rest = reversed(a);
    let mut out: Vec<Value> = Vec::new();
    let mut i: usize = 0;
    while rest.len() > 0
        invariant
            i + rest@.len() == av.len(),
            av.len() <= usize::MAX,
            rest@ == av.reverse().take(rest@.len() as int),
            out@.len() == i,
            forall|j: int|
                0 <= j < i ==> (#[trigger] out@[j] matches Value::Array(pair) && pair@ == seq![
                    Value::Integer(j as i64),
                    av[j],
                ]),
        decreases rest@.len(),
    {
        let ghost n = rest@.len();
        let x = rest.pop().unwrap();
        assert(av.reverse()[n - 1] == av[i as int]);
        assert(rest@ =~= av.reverse().take(n - 1));
        let ghost old_out = out@;
        out.push(Value::Array(vec![Value::Integer(i as i64), x]));
        assert forall|j: int|
            0 <= j < i + 1 implies (#[trigger] out@[j] matches Value::Array(pair) && pair@ == seq![
            Value::Integer(j as i64),
            av[j],
        ]) by {
            if j < i {
                assert(out@[j] == old_out[j]);
            }
        }
        i = i + 1;
    }
    Ok(Value::Array(out))
}

/// The count that `TAKE` / `DROP` use for a non-negative INTEGER `n`.
pub open spec fn take_count(n: i64, len: nat) -> int {
    let c = (n as usize) as int;
    if c < len {
        c
    } else {
        len as int
    }
}

/// What `builtin_take` gives.
pub open spec fn builtin_take_post(args: Seq<Value>, r: Result<Value, BuiltinError>) -> bool {
    &&& (!no_err(args) ==> err_result(args, r))
    &&& (no_err(args) && args.len() != 2 ==> collection_arity_failure(r, "TAKE"@, args.len() as nat, 2))
    &&& (no_err(args) && args.len() == 2 ==> match args[0] {
        Value::Array(a) => match args[1] {
            Value::Integer(n) => r matches Ok(Value::Array(out)) && out@ == (if n >= 0 {
                a@.take(take_count(n, a@.len()))
            } else {
                Seq::<Value>::empty()
            }),
            other => collection_type_failure(r, "TAKE"@, "non-negative integer"@, other),
        },
        other => collection_type_failure(r, "TAKE"@, "array"@, other),
    })
}

/// `TAKE(arr, n)`: the first `n` elements (all of them when `n` is larger
/// than the length, none when it is negative).
pub fn builtin_take(args: Vec<Value>) -> (r: Result<Value, BuiltinError>)
    ensures
        builtin_take_post(args@, r),
{
    let mut args = args;
    if let Some(k) = short_circuit_err(&args) {
        return Ok(args.remove(k));
    }
    if args.len() != 2 {
        return Err(arity("TAKE", args.len(), 2));
    }
    let nv = args.pop().unwrap();
    let av = args.pop().unwrap();
    let a = match av {
        Value::Array(a) => a,
        other => return Err(type_err("TAKE", "array", &other)),
    };
    match nv {
        Value::Integer(n) => {
            if n < 0 {
                return Ok(Value::Array(Vec::new()));
            }
            let c = n as usize;
            let len = a.len();
            let k = if c < len {
                c
            } else {
                len
            };
            Ok(Value::Array(take_range(a, 0, k)))
        },
        other => Err(type_err("TAKE", "non-negative integer", &other)),
    }
}

/// What `builtin_drop` gives.
pub open spec fn builtin_drop_post(args: Seq<Value>, r: Result<Value, BuiltinError>) -> bool {
    &&& (!no_err(args) ==> err_result(args, r))
    &&& (no_err(args) && args.len() != 2 ==> collection_arity_failure(r, "DROP"@, args.len() as nat, 2))
    &&& (no_err(args) && args.len() == 2 ==> match args[0] {
        Value::Array(a) => match args[1] {
            Value::Integer(n) => r matches Ok(Value::Array(out)) && out@ == (if n >= 0 {
                a@.skip(take_count(n, a@.len()))
            } else {
                a@
            }),
            other => collection_type_failure(r, "DROP"@, "non-negative integer"@, other),
        },
        other => collection_type_failure(r, "DROP"@, "array"@, other),
    })
}

/// `DROP(arr, n)`: `arr` without its first `n` elements (unchanged when `n`
/// is negative).
pub fn builtin_drop(args: Vec<Value>) -> (r: Result<Value, BuiltinError>)
    ensures
        builtin_drop_post(args@, r),
{
    let mut args = args;
    if let Some(k) = short_circuit_err(&args) {
        return Ok(args.remove(k));
    }
    if args.len() != 2 {
        return Err(arity("DROP", args.len(), 2));
    }
    let nv = args.pop().unwrap();
    let av = args.pop().unwrap();
    let a = match av {
        Value::Array(a) => a,
        other => return Err(type_err("DROP", "array", &other)),
    };
    match nv {
        Value::Integer(n) => {
            if n < 0 {
                return Ok(Value::Array(a));
            }
            let c = n as usize;
            let len = a.len();
            let k = if c < len {
                c
            } else {
                len
            };
            Ok(Value::Array(take_range(a, k, len)))
        },
        other => Err(type_err("DROP", "non-negative integer", &other)),
    }
}

/// Flatten one level: the elements of the arrays among `a`, and the other
/// elements themselves, in order.
pub open spec fn flatten_one(a: Seq<Value>) -> Seq<Value>
    decreases a.len(),
{
    if a.len() == 0 {
        Seq::empty()
    } else {
        flatten_one(a.drop_last()) + match a.last() {
            Value::Array(inner) => inner@,
            other => seq![other],
        }
    }
}

/// What `builtin_flat` gives.
pub open spec fn builtin_flat_post(args: Seq<Value>, r: Result<Value, BuiltinError>) -> bool {
    &&& (!no_err(args) ==> err_result(args, r))
    &&& (no_err(args) && args.len() != 1 ==> collection_arity_failure(r, "FLAT"@, args.len() as nat, 1))
    &&& (no_err(args) && args.len() == 1 ==> match args[0] {
        Value::Array(a) => r matches Ok(Value::Array(out)) && out@ == flatten_one(a@),
        _ => collection_arity_failure(r, "FLAT"@, 1, 1),
    })
}

/// `FLAT(arr)`: `arr` flattened by one level.
pub fn builtin_flat(args: Vec<Value>) -> (r: Result<Value, BuiltinError>)
    ensures
        builtin_flat_post(args@, r),
{
    let mut args = args;
    if let Some(k) = short_circuit_err(&args) {
        return Ok(args.remove(k));
    }
    if args.len() != 1 {
        return Err(arity("FLAT", args.len(), 1));
    }
    let v = args.pop().unwrap();
    let a = match v {
        Value::Array(a) => a,
        _ => return Err(arity("FLAT", 1, 1)),
    };
    let ghost av = a@;
    let mut rest = reversed(a);
    let mut out: Vec<Value> = Vec::new();
    let ghost mut done: int = 0;
    while rest.len() > 0
        invariant
            done + rest@.len() == av.len(),
            0 <= done,
            rest@ == av.reverse().take(rest@.len() as int),
            out@ == flatten_one(av.take(done)),
        decreases rest@.len(),
    {
        let ghost n = rest@.len();
        let x = rest.pop().unwrap();
        assert(av.reverse()[n - 1] == av[done]);
        assert(rest@ =~= av.reverse().take(n - 1));
        assert(av.take(done + 1).drop_last() =~= av.take(done));
        assert(av.take(done + 1).last() == av[done]);
        match x {
            Value::Array(mut inner) => {
                out.append(&mut inner);
            },
            other => {
                out.push(other);
                assert(out@ =~= flatten_one(av.take(done)) + seq![av[done]]);
            },
        }
        proof {
            done = done + 1;
        }
    }
    assert(av.take(done) =~= av);
    Ok(Value::Array(out))
}


/// The values `a, a + step, ...` below `end` (`step > 0`), stopping early
/// when the next value would leave the INTEGER range.
pub open spec fn range_up(a: int, end: int, step: int) -> Seq<int>
    decreases (if a < end {
        end - a
    } else {
        0
    }),
{
    if step <= 0 || a >= end {
        Seq::empty()
    } else if a + step > i64::MAX {
        seq![a]
    } else {
        seq![a] + range_up(a + step, end, step)
    }
}

/// The values `a, a + step, ...` above `end` (`step < 0`), stopping early
/// when the next value would leave the INTEGER range.
pub open spec fn range_down(a: int, end: int, step: int) -> Seq<int>
    decreases (if a > end {
        a - end
    } else {
        0
    }),
{
    if step >= 0 || a <= end {
        Seq::empty()
    } else if a + step < i64::MIN {
        seq![a]
    } else {
        seq![a] + range_down(a + step, end, step)
    }
}

/// The values of `RANGE(start, end, step)`.
pub open spec fn range_values(start: int, end: int, step: int) -> Seq<Value> {
    (if step > 0 {
        range_up(start, end, step)
    } else {
        range_down(start, end, step)
    }).map_values(|x: int| Value::Integer(x as i64))
}

/// The RANGE bounds `args` asks for, when they are all INTEGER: one
/// argument `n` means `0, n, 1`.
pub open spec fn range_args(args: Seq<Value>) -> Option<(i64, i64, i64)> {
    if args.len() == 1 {
        match args[0] {
            Value::Integer(n) => Some((0i64, n, 1i64)),
            _ => None,
        }
    } else if args.len() == 2 {
        match (args[0], args[1]) {
            (Value::Integer(s), Value::Integer(e)) => Some((s, e, 1i64)),
            _ => None,
        }
    } else {
        match (args[0], args[1], args[2]) {
            (Value::Integer(s), Value::Integer(e), Value::Integer(st)) => Some((s, e, st)),
            _ => None,
        }
    }
}

/// The first argument of `args` that is not an INTEGER.
pub open spec fn first_non_integer(args: Seq<Value>, k: int) -> bool {
    0 <= k < args.len() && !(args[k] is Integer) && forall|j: int| 0 <= j < k ==> #[trigger] args[j] is Integer
}

fn range_loop(start: i64, end: i64, step: i64) -> (out: Vec<Value>)
    requires
        step != 0,
    ensures
        out@ == range_values(start as int, end as int, step as int),
{
    let mut out: Vec<Value> = Vec::new();
    let mut i = start;
    if step > 0 {
        while i < end
            invariant_except_break
                step > 0,
                out@ + range_up(i as int, end as int, step as int).map_values(
                    |x: int| Value::Integer(x as i64),
                ) == range_up(start as int, end as int, step as int).map_values(
                    |x: int| Value::Integer(x as i64),
                ),
            ensures
                out@ == range_up(start as int, end as int, step as int).map_values(
                    |x: int| Value::Integer(x as i64),
                ),
            decreases (if i < end {
                end - i
            } else {
                0
            }),
        {
            let ghost before = out@;
            out.push(Value::Integer(i));
            match i.checked_add(step) {
                Some(v) => {
                    assert(out@ + range_up(v as int, end as int, step as int).map_values(
                        |x: int| Value::Integer(x as i64),
                    ) =~= before + range_up(i as int, end as int, step as int).map_values(
                        |x: int| Value::Integer(x as i64),
                    ));
                    i = v;
                },
                None => {
                    assert(out@ =~= before + range_up(i as int, end as int, step as int).map_values(
                        |x: int| Value::Integer(x as i64),
                    ));
                    break ;
                },
            }
        }
    } else {
        while i > end
            invariant_except_break
                step < 0,
                out@ + range_down(i as int, end as int, step as int).map_values(
                    |x: int| Value::Integer(x as i64),
                ) == range_down(start as int, end as int, step as int).map_values(
                    |x: int| Value::Integer(x as i64),
                ),
            ensures
                out@ == range_down(start as int, end as int, step as int).map_values(
                    |x: int| Value::Integer(x as i64),
                ),
            decreases (if i > end {
                i - end
            } else {
                0
            }),
        {
            let ghost before = out@;
            out.push(Value::Integer(i));
            match i.checked_add(step) {
                Some(v) => {
                    assert(out@ + range_down(v as int, end as int, step as int).map_values(
                        |x: int| Value::Integer(x as i64),
                    ) =~= before + range_down(i as int, end as int, step as int).map_values(
                        |x: int| Value::Integer(x as i64),
                    ));
                    i = v;
                },
                None => {
                    assert(out@ =~= before + range_down(i as int, end as int, step as int).map_values(
                        |x: int| Value::Integer(x as i64),
                    ));
                    break ;
                },
            }
        }
    }
    out
}

/// What `builtin_range` gives.
pub open spec fn builtin_range_post(args: Seq<Value>, r: Result<Value, BuiltinError>) -> bool {
    &&& (!no_err(args) ==> err_result(args, r))
    &&& (no_err(args) && (args.len() < 1 || args.len() > 3) ==> collection_arity_failure( r, "RANGE"@, args.len() as nat, 3, ))
    &&& (no_err(args) && 1 <= args.len() <= 3 ==> match range_args(args) {
        None => exists|k: int| first_non_integer(args, k) && collection_type_failure(r, "RANGE"@, "integer"@, args[k]),
        Some((start, end, step)) => if step == 0 {
            r matches Err(e) && e.code == ErrorCode::E0038 && e.message@ == "RANGE: step must be non-zero (got 0)"@ && e.note is None && e.cause is None
        } else {
            r matches Ok(Value::Array(out)) && out@ == range_values( start as int, end as int, step as int, )
        },
    })
}

/// `RANGE(n)` / `RANGE(start, end, step = 1)`: the INTEGER values from
/// `start` (default 0) towards `end` (exclusive) by `step` (default 1); a
/// zero step raises `E0038`.
pub fn builtin_range(args: Vec<Value>) -> (r: Result<Value, BuiltinError>)
    ensures
        builtin_range_post(args@, r),
{
    let mut args = args;
    if let Some(k) = short_circuit_err(&args) {
        return Ok(args.remove(k));
    }
    if args.len() < 1 || args.len() > 3 {
        return Err(arity("RANGE", args.len(), 3));
    }
    let (start, end, step) = if args.len() == 1 {
        match &args[0] {
            Value::Integer(n) => (0i64, *n, 1i64),
            other => {
                assert(first_non_integer(args@, 0));
                return Err(type_err("RANGE", "integer", other));
            },
        }
    } else {
        let s = match &args[0] {
            Value::Integer(s) => *s,
            other => {
                assert(first_non_integer(args@, 0));
                return Err(type_err("RANGE", "integer", other));
            },
        };
        let e = match &args[1] {
            Value::Integer(e) => *e,
            other => {
                assert(first_non_integer(args@, 1));
                return Err(type_err("RANGE", "integer", other));
            },
        };
        if args.len() == 2 {
            (s, e, 1i64)
        } else {
            let st = match &args[2] {
                Value::Integer(st) => *st,
                other => {
                    assert(first_non_integer(args@, 2));
                    return Err(type_err("RANGE", "integer", other));
                },
            };
            (s, e, st)
        }
    };
    if step == 0 {
        return Err(
            BuiltinError {
                code: ErrorCode::E0038,
                message: String::from_str("RANGE: step must be non-zero (got 0)"),
                note: None,
                cause: None,
            },
        );
    }
    Ok(Value::Array(range_loop(start, end, step)))
}


/// The column that a `ZIP` argument contributes: an array's elements, or
/// any other value as a one-element column.
pub open spec fn zip_column(v: Value) -> Seq<Value> {
    match v {
        Value::Array(items) => items@,
        other => seq![other],
    }
}

/// The length of the shortest of the non-empty list of columns `cs`.
pub open spec fn shortest(cs: Seq<Seq<Value>>) -> nat
    decreases cs.len(),
{
    if cs.len() <= 1 {
        if cs.len() == 0 {
            0
        } else {
            cs[0].len()
        }
    } else {
        let m = shortest(cs.drop_last());
        if cs.last().len() < m {
            cs.last().len()
        } else {
            m
        }
    }
}

proof fn lemma_shortest_bound(cs: Seq<Seq<Value>>, k: int)
    requires
        0 <= k < cs.len(),
    ensures
        shortest(cs) <= cs[k].len(),
    decreases cs.len(),
{
    if cs.len() > 1 && k < cs.len() - 1 {
        lemma_shortest_bound(cs.drop_last(), k);
    }
}

/// What `builtin_zip` gives.
pub open spec fn builtin_zip_post(args: Seq<Value>, r: Result<Value, BuiltinError>) -> bool {
    &&& (!no_err(args) ==> err_result(args, r))
    &&& (no_err(args) && args.len() == 0 ==> collection_arity_failure(r, "ZIP"@, 0, 1))
    &&& (no_err(args) && args.len() > 0 ==> ({
        let cs = args.map_values(|v: Value| zip_column(v)); r matches Ok(Value::Array(out)) && out@.len() == shortest(cs) && forall|i: int| 0 <= i < out@.len() ==> (#[trigger] out@[i] matches Value::Array(row) && row@.len() == cs.len() && forall|k: int| 0 <= k < cs.len() ==> row@[k] == cs[k][i])
    }))
}

/// `ZIP(a, b, ...)`: the rows `[a[i], b[i], ...]` for every position `i`
/// of the shortest argument; a non-array argument counts as a column of one
/// element.
pub fn builtin_zip(args: Vec<Value>) -> (r: Result<Value, BuiltinError>)
    ensures
        builtin_zip_post(args@, r),
{
    let mut args = args;
    if let Some(k) = short_circuit_err(&args) {
        return Ok(args.remove(k));
    }
    if args.len() == 0 {
        return Err(arity("ZIP", 0, 1));
    }
    let ghost cs = args@.map_values(|v: Value| zip_column(v));
    let n = args.len();
    // The columns, each reversed so that popping yields the next row.
    let mut cols: Vec<Vec<Value>> = Vec::new();
    let mut rest = reversed(args);
    let mut m: usize = 0;
    while rest.len() > 0
        invariant
            cols@.len() + rest@.len() == n,
            n == cs.len(),
            rest@ == args@.reverse().take(rest@.len() as int),
            cs == args@.map_values(|v: Value| zip_column(v)),
            forall|k: int| 0 <= k < cols@.len() ==> (#[trigger] cols@[k])@ == cs[k].reverse(),
            cols@.len() > 0 ==> m == shortest(cs.take(cols@.len() as int)),
        decreases rest@.len(),
    {
        let ghost j: int = cols@.len() as int;
        let ghost len0: int = rest@.len() as int;
        let v = rest.pop().unwrap();
        assert(args@.reverse()[len0 - 1] == args@[j]);
        assert(rest@ =~= args@.reverse().take(len0 - 1));
        let col = match v {
            Value::Array(items) => items,
            other => vec![other],
        };
        assert(col@ =~= cs[j]);
        let l = col.len();
        if cols.len() == 0 {
            m = l;
        } else if l < m {
            m = l;
        }
        assert(cs.take(j + 1).drop_last() =~= cs.take(j));
        let rc = reversed(col);
        let ghost old_cols = cols@;
        cols.push(rc);
        assert forall|k: int| 0 <= k < cols@.len() implies (#[trigger] cols@[k])@ == cs[k].reverse() by {
            if k < j {
                assert(cols@[k] == old_cols[k]);
            }
        }
    }
    assert(cs.take(n as int) =~= cs);
    proof {
        assert forall|k: int| 0 <= k < n implies shortest(cs) <= cs[k].len() by {
            lemma_shortest_bound(cs, k);
        }
    }
    let mut out: Vec<Value> = Vec::new();
    let mut i: usize = 0;
    while i < m
        invariant
            i <= m,
            m == shortest(cs),
            n == cs.len(),
            cols@.len() == n,
            forall|k: int| 0 <= k < n ==> shortest(cs) <= cs[k].len(),
            forall|k: int|
                0 <= k < n ==> (#[trigger] cols@[k])@ == cs[k].reverse().take(cs[k].len() - i),
            out@.len() == i,
            forall|t: int|
                0 <= t < i ==> (#[trigger] out@[t] matches Value::Array(row) && row@.len() == cs.len()
                    && forall|k: int| 0 <= k < cs.len() ==> row@[k] == cs[k][t]),
        decreases m - i,
    {
        let mut row: Vec<Value> = Vec::new();
        let mut k: usize = 0;
        while k < n
            invariant
                i < m,
                m == shortest(cs),
                n == cs.len(),
                cols@.len() == n,
                k <= n,
                forall|q: int| 0 <= q < n ==> shortest(cs) <= cs[q].len(),
                forall|q: int|
                    0 <= q < k ==> (#[trigger] cols@[q])@ == cs[q].reverse().take(cs[q].len() - i - 1),
                forall|q: int|
                    k <= q < n ==> (#[trigger] cols@[q])@ == cs[q].reverse().take(cs[q].len() - i),
                row@.len() == k,
                forall|q: int| 0 <= q < k ==> row@[q] == cs[q][i as int],
            decreases n - k,
        {
            let mut c: Vec<Value> = Vec::new();
            cols.set_and_swap(k, &mut c);
            let ghost cl = c@.len();
            assert(cl == cs[k as int].len() - i);
            assert(cl > 0);
            let x = c.pop().unwrap();
            assert(cs[k as int].reverse()[cl - 1] == cs[k as int][i as int]);
            assert(c@ =~= cs[k as int].reverse().take(cs[k as int].len() - i - 1));
            cols.set_and_swap(k, &mut c);
            row.push(x);
            k = k + 1;
        }
        let ghost old_out = out@;
        out.push(Value::Array(row));
        assert forall|t: int|
            0 <= t < i + 1 implies (#[trigger] out@[t] matches Value::Array(row) && row@.len()
            == cs.len() && forall|k: int| 0 <= k < cs.len() ==> row@[k] == cs[k][t]) by {
            if t < i {
                assert(out@[t] == old_out[t]);
            }
        }
        i = i + 1;
    }
    Ok(Value::Array(out))
}


/// The elements of `s` without those equal to an earlier kept one: each
/// element is kept unless an element already kept equals it.
pub open spec fn uniq_of(s: Seq<Value>) -> Seq<Value>
    decreases s.len(),
{
    if s.len() == 0 {
        Seq::empty()
    } else {
        let seen = uniq_of(s.drop_last());
        if has_element(seen, s.last()) {
            seen
        } else {
            seen.push(s.last())
        }
    }
}

/// What `builtin_uniq` gives.
pub open spec fn builtin_uniq_post(args: Seq<Value>, r: Result<Value, BuiltinError>) -> bool {
    &&& (!no_err(args) ==> err_result(args, r))
    &&& (no_err(args) && args.len() != 1 ==> collection_arity_failure(r, "UNIQ"@, args.len() as nat, 1))
    &&& (no_err(args) && args.len() == 1 ==> match args[0] {
        Value::Array(items) => r matches Ok(Value::Array(out)) && out@ == uniq_of(items@),
        _ => collection_arity_failure(r, "UNIQ"@, 1, 1),
    })
}

/// `UNIQ(arr)`: the elements of `arr` without repeats, first occurrences
/// kept in order.
pub fn builtin_uniq(args: Vec<Value>) -> (r: Result<Value, BuiltinError>)
    ensures
        builtin_uniq_post(args@, r),
{
    let mut args = args;
    if let Some(k) = short_circuit_err(&args) {
        return Ok(args.remove(k));
    }
    if args.len() != 1 {
        return Err(arity("UNIQ", args.len(), 1));
    }
    let items = match args.pop().unwrap() {
        Value::Array(items) => items,
        _ => {
            return Err(arity("UNIQ", 1, 1));
        },
    };
    let ghost iv = items@;
    let mut rest = reversed(items);
    let mut seen: Vec<Value> = Vec::new();
    while rest.len() > 0
        invariant
            rest@.len() <= iv.len(),
            rest@ == iv.reverse().take(rest@.len() as int),
            seen@ == uniq_of(iv.take(iv.len() - rest@.len())),
        decreases rest@.len(),
    {
        let ghost n = rest@.len();
        let ghost done: int = iv.len() - n;
        let v = rest.pop().unwrap();
        assert(iv.reverse()[n - 1] == iv[done]);
        assert(rest@ =~= iv.reverse().take(n - 1));
        assert(iv.take(done + 1).drop_last() =~= iv.take(done));
        assert(iv.take(done + 1).last() == iv[done]);
        if position_of(&seen, &v).is_none() {
            seen.push(v);
        }
    }
    assert(iv.take(iv.len() as int) =~= iv);
    Ok(Value::Array(seen))
}

/// The texts of `items` with `sep` between them.
pub open spec fn joined(items: Seq<Value>, sep: Seq<char>, texts: Seq<(u64, String)>) -> Seq<char>
    decreases items.len(),
{
    if items.len() == 0 {
        Seq::empty()
    } else if items.len() == 1 {
        shown(items[0], texts)
    } else {
        joined(items.drop_last(), sep, texts) + sep + shown(items.last(), texts)
    }
}

/// What `builtin_join` gives.
pub open spec fn builtin_join_post(args: Seq<Value>, texts: Seq<(u64, String)>, r: Result<Value, BuiltinError>) -> bool {
    &&& (!no_err(args) ==> err_result(args, r))
    &&& (no_err(args) && args.len() != 2 ==> collection_arity_failure(r, "JOIN"@, args.len() as nat, 2))
    &&& (no_err(args) && args.len() == 2 ==> match args[0] {
        Value::Array(items) => match args[1] {
            Value::String(sep) => r matches Ok(Value::String(out)) && out@ == joined(items@, sep@, texts),
            other => collection_type_failure(r, "JOIN"@, "string (separator)"@, other),
        },
        other => collection_type_failure(r, "JOIN"@, "array"@, other),
    })
}

/// `JOIN(arr, sep)`: the texts of the elements (see `STR`) with `sep`
/// between them.
pub fn builtin_join(args: Vec<Value>, texts: &Vec<(u64, String)>) -> (r: Result<Value, BuiltinError>)
    ensures
        builtin_join_post(args@, texts@, r),
{
    let mut args = args;
    if let Some(k) = short_circuit_err(&args) {
        return Ok(args.remove(k));
    }
    if args.len() != 2 {
        return Err(arity("JOIN", args.len(), 2));
    }
    let items = match &args[0] {
        Value::Array(items) => items,
        other => {
            return Err(type_err("JOIN", "array", other));
        },
    };
    let sep = match &args[1] {
        Value::String(s) => s,
        other => {
            return Err(type_err("JOIN", "string (separator)", other));
        },
    };
    let mut out = String::new();
    let mut i: usize = 0;
    while i < items.len()
        invariant
            i <= items@.len(),
            out@ == joined(items@.take(i as int), sep@, texts@),
        decreases items@.len() - i,
    {
        if i > 0 {
            out.append(sep.as_str());
        }
        show_into(&items[i], texts, &mut out);
        proof {
            let t = items@.take(i + 1);
            assert(t.drop_last() =~= items@.take(i as int));
            assert(t.last() == items@[i as int]);
            if i == 0 {
                assert(t[0] == items@[0]);
            }
            assert(out@ =~= joined(t, sep@, texts@));
        }
        i = i + 1;
    }
    assert(items@.take(items@.len() as int) =~= items@);
    Ok(Value::String(out))
}

} // verus!
