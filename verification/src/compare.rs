//! Structural equality of values, the default `<` of SORT, and key lookup
//! in dictionaries.
use vstd::prelude::*;

use crate::double::{
    double_eq, double_equal, double_less, double_lt, int_double_bits, int_to_double_bits, is_nan,
    order_key,
};
use crate::text::{chars_of, str_eq};
use crate::builtins::{arity_failure, type_failure};
use crate::text::concat2;
use crate::value::{arity_error, type_error, type_label, type_label_spec, BuiltinError, Value};

verus! {

/// Structural equality: numbers compare as numbers (an INTEGER against a
/// FLOAT through the double nearest to the INTEGER), strings and booleans
/// by content, arrays element by element, and dictionaries of the same
/// size when every entry of the first has an equal entry in the second,
/// whatever the order. Values of other kinds are never equal.
pub open spec fn value_eq(a: Value, b: Value) -> bool
    decreases a, 0nat,
{
    match (a, b) {
        (Value::Integer(x), Value::Integer(y)) => x == y,
        (Value::Float(x), Value::Float(y)) => double_eq(x, y),
        (Value::Integer(x), Value::Float(y)) => double_eq(int_double_bits(x as int) as u64, y),
        (Value::Float(x), Value::Integer(y)) => double_eq(x, int_double_bits(y as int) as u64),
        (Value::String(x), Value::String(y)) => x@ == y@,
        (Value::Boolean(x), Value::Boolean(y)) => x == y,
        (Value::Null, Value::Null) => true,
        (Value::Array(x), Value::Array(y)) => seq_eq(x@, y@),
        (Value::Dict(x), Value::Dict(y)) => x@.len() == y@.len() && entries_included(x@, y@),
        (Value::OkValue(x), Value::OkValue(y)) => value_eq(*x, *y),
        (Value::ErrValue(x), Value::ErrValue(y)) => value_eq(*x, *y),
        _ => false,
    }
}

/// The two sequences have the same length and are equal position by
/// position.
pub open spec fn seq_eq(x: Seq<Value>, y: Seq<Value>) -> bool
    decreases x, 0nat,
{
    if x.len() == 0 {
        y.len() == 0
    } else {
        y.len() > 0 && value_eq(x[0], y[0]) && seq_eq(x.drop_first(), y.drop_first())
    }
}

/// Every entry of `x` has an equal entry (key and value) in `y`.
pub open spec fn entries_included(x: Seq<(Value, Value)>, y: Seq<(Value, Value)>) -> bool
    decreases x, 0nat,
{
    x.len() == 0 || (entry_in(x[0], y) && entries_included(x.drop_first(), y))
}

/// Some entry of `y` has a key equal to `e`'s and a value equal to `e`'s.
pub open spec fn entry_in(e: (Value, Value), y: Seq<(Value, Value)>) -> bool
    decreases e, y.len(),
{
    y.len() > 0 && ((value_eq(e.0, y[0].0) && value_eq(e.1, y[0].1)) || entry_in(e, y.drop_first()))
}

proof fn lemma_seq_eq(x: Seq<Value>, y: Seq<Value>)
    ensures
        seq_eq(x, y) <==> (x.len() == y.len() && forall|i: int|
            0 <= i < x.len() ==> value_eq(#[trigger] x[i], y[i])),
    decreases x.len(),
{
    if x.len() > 0 && y.len() > 0 {
        lemma_seq_eq(x.drop_first(), y.drop_first());
        if x.len() == y.len() && forall|i: int| 0 <= i < x.len() ==> value_eq(#[trigger] x[i], y[i]) {
            assert forall|i: int|
                0 <= i < x.drop_first().len() implies value_eq(
                #[trigger] x.drop_first()[i],
                y.drop_first()[i],
            ) by {
                assert(x.drop_first()[i] == x[i + 1]);
                assert(value_eq(x[i + 1], y[i + 1]));
            }
        }
        if seq_eq(x, y) {
            assert forall|i: int| 0 <= i < x.len() implies value_eq(#[trigger] x[i], y[i]) by {
                if i > 0 {
                    assert(x[i] == x.drop_first()[i - 1]);
                }
            }
        }
    }
}

proof fn lemma_entry_in(e: (Value, Value), y: Seq<(Value, Value)>)
    ensures
        entry_in(e, y) <==> exists|j: int|
            0 <= j < y.len() && value_eq(e.0, #[trigger] y[j].0) && value_eq(e.1, y[j].1),
    decreases y.len(),
{
    if y.len() > 0 {
        lemma_entry_in(e, y.drop_first());
        if entry_in(e, y.drop_first()) {
            let j = choose|j: int|
                0 <= j < y.drop_first().len() && value_eq(e.0, #[trigger] y.drop_first()[j].0) && value_eq(
                    e.1,
                    y.drop_first()[j].1,
                );
            assert(y.drop_first()[j] == y[j + 1]);
        }
        if exists|j: int| 0 <= j < y.len() && value_eq(e.0, #[trigger] y[j].0) && value_eq(e.1, y[j].1) {
            let j = choose|j: int| 0 <= j < y.len() && value_eq(e.0, #[trigger] y[j].0) && value_eq(e.1, y[j].1);
            if j > 0 {
                assert(y[j] == y.drop_first()[j - 1]);
            }
        }
    }
}

proof fn lemma_entries_included(x: Seq<(Value, Value)>, y: Seq<(Value, Value)>)
    ensures
        entries_included(x, y) <==> forall|i: int| 0 <= i < x.len() ==> entry_in(#[trigger] x[i], y),
    decreases x.len(),
{
    if x.len() > 0 {
        lemma_entries_included(x.drop_first(), y);
        if forall|i: int| 0 <= i < x.len() ==> entry_in(#[trigger] x[i], y) {
            assert forall|i: int| 0 <= i < x.drop_first().len() implies entry_in(#[trigger] x.drop_first()[i], y) by {
                assert(x.drop_first()[i] == x[i + 1]);
            }
        }
        if entries_included(x, y) {
            assert forall|i: int| 0 <= i < x.len() implies entry_in(#[trigger] x[i], y) by {
                if i > 0 {
                    assert(x[i] == x.drop_first()[i - 1]);
                }
            }
        }
    }
}

/// Structural equality of two values.
pub fn values_equal(a: &Value, b: &Value) -> (r: bool)
    ensures
        r == value_eq(*a, *b),
    decreases a,
{
    match (a, b) {
        (Value::Integer(x), Value::Integer(y)) => *x == *y,
        (Value::Float(x), Value::Float(y)) => double_equal(*x, *y),
        (Value::Integer(x), Value::Float(y)) => double_equal(int_to_double_bits(*x), *y),
        (Value::Float(x), Value::Integer(y)) => double_equal(*x, int_to_double_bits(*y)),
        (Value::String(x), Value::String(y)) => str_eq(x.as_str(), y.as_str()),
        (Value::Boolean(x), Value::Boolean(y)) => *x == *y,
        (Value::Null, Value::Null) => true,
        (Value::Array(x), Value::Array(y)) => {
            proof {
                lemma_seq_eq(x@, y@);
            }
            if x.len() != y.len() {
                return false;
            }
            let mut i: usize = 0;
            while i < x.len()
                invariant
                    i <= x@.len(),
                    x@.len() == y@.len(),
                    *a == Value::Array(*x),
                    *b == Value::Array(*y),
                    forall|k: int| 0 <= k < i ==> value_eq(#[trigger] x@[k], y@[k]),
                decreases x@.len() - i,
            {
                proof {
                    assert(x == (*a)->Array_0);
                    assert(decreases_to!(*a => (*a)->Array_0));
                    assert(decreases_to!(*x => x@));
                    assert(decreases_to!(x@ => x@[i as int]));
                    assert(decreases_to!(*a => x@[i as int]));
                }
                if !values_equal(&x[i], &y[i]) {
                    proof {
                        lemma_seq_eq(x@, y@);
                    }
                    return false;
                }
                i = i + 1;
            }
            true
        },
        (Value::Dict(x), Value::Dict(y)) => {
            proof {
                lemma_entries_included(x@, y@);
            }
            if x.len() != y.len() {
                return false;
            }
            let mut i: usize = 0;
            while i < x.len()
                invariant
                    i <= x@.len(),
                    x@.len() == y@.len(),
                    *a == Value::Dict(*x),
                    *b == Value::Dict(*y),
                    forall|k: int| 0 <= k < i ==> entry_in(#[trigger] x@[k], y@),
                decreases x@.len() - i,
            {
                proof {
                    lemma_entry_in(x@[i as int], y@);
                }
                let mut j: usize = 0;
                let mut found = false;
                while j < y.len() && !found
                    invariant
                        i < x@.len(),
                        j <= y@.len(),
                        *a == Value::Dict(*x),
                        found ==> entry_in(x@[i as int], y@),
                        !found ==> forall|m: int|
                            0 <= m < j ==> !(value_eq(x@[i as int].0, #[trigger] y@[m].0) && value_eq(
                                x@[i as int].1,
                                y@[m].1,
                            )),
                        entry_in(x@[i as int], y@) <==> exists|m: int|
                            0 <= m < y@.len() && value_eq(x@[i as int].0, #[trigger] y@[m].0) && value_eq(
                                x@[i as int].1,
                                y@[m].1,
                            ),
                    decreases y@.len() - j,
                {
                    proof {
                        assert(x == (*a)->Dict_0);
                        assert(decreases_to!(*a => (*a)->Dict_0));
                        assert(decreases_to!(*x => x@));
                        assert(decreases_to!(x@ => x@[i as int]));
                        assert(decreases_to!(x@[i as int] => x@[i as int].0));
                        assert(decreases_to!(x@[i as int] => x@[i as int].1));
                        assert(decreases_to!(*a => x@[i as int].0));
                        assert(decreases_to!(*a => x@[i as int].1));
                    }
                    if values_equal(&x[i].0, &y[j].0) && values_equal(&x[i].1, &y[j].1) {
                        found = true;
                    }
                    j = j + 1;
                }
                if !found {
                    proof {
                        lemma_entries_included(x@, y@);
                    }
                    return false;
                }
                i = i + 1;
            }
            true
        },
        (Value::OkValue(x), Value::OkValue(y)) => values_equal(x, y),
        (Value::ErrValue(x), Value::ErrValue(y)) => values_equal(x, y),
        _ => false,
    }
}


/// The outcome of a three-way comparison.
#[derive(Debug, Clone, Copy, PartialEq, Eq, Structural)]
pub enum Order {
    Less,
    Equal,
    Greater,
}

/// Three-way comparison of two doubles, a NaN comparing equal to anything.
pub open spec fn double_order(a: u64, b: u64) -> Order {
    if is_nan(a) || is_nan(b) || order_key(a) == order_key(b) {
        Order::Equal
    } else if order_key(a) < order_key(b) {
        Order::Less
    } else {
        Order::Greater
    }
}

/// Lexicographic order of two strings by code point (which is the order
/// of their UTF-8 bytes).
pub open spec fn text_order(a: Seq<char>, b: Seq<char>) -> Order
    decreases a.len(),
{
    if a.len() == 0 {
        if b.len() == 0 {
            Order::Equal
        } else {
            Order::Less
        }
    } else if b.len() == 0 {
        Order::Greater
    } else if (a[0] as u32) < (b[0] as u32) {
        Order::Less
    } else if (a[0] as u32) > (b[0] as u32) {
        Order::Greater
    } else {
        text_order(a.drop_first(), b.drop_first())
    }
}

/// The double that a number compares as: a FLOAT itself, an INTEGER as the
/// double nearest to it.
pub open spec fn numeric_bits(v: Value) -> Option<u64> {
    match v {
        Value::Integer(i) => Some(int_double_bits(i as int) as u64),
        Value::Float(b) => Some(b),
        _ => None,
    }
}

/// The order of two values under the comparison operators: numbers as
/// doubles, strings lexicographically; `None` for any other pair.
pub open spec fn value_order(a: Value, b: Value) -> Option<Order> {
    if numeric_bits(a) is Some && numeric_bits(b) is Some {
        Some(double_order(numeric_bits(a)->0, numeric_bits(b)->0))
    } else {
        match (a, b) {
            (Value::String(x), Value::String(y)) => Some(text_order(x@, y@)),
            _ => None,
        }
    }
}

fn double_compare(a: u64, b: u64) -> (r: Order)
    ensures
        r == double_order(a, b),
{
    if !double_less(a, b) && !double_less(b, a) {
        Order::Equal
    } else if double_less(a, b) {
        Order::Less
    } else {
        Order::Greater
    }
}

/// Lexicographic comparison of two strings.
pub fn text_compare(a: &str, b: &str) -> (r: Order)
    ensures
        r == text_order(a@, b@),
{
    let x = chars_of(a);
    let y = chars_of(b);
    let mut i: usize = 0;
    assert(x@.skip(0) =~= x@);
    assert(y@.skip(0) =~= y@);
    while i < x.len() && i < y.len()
        invariant
            i <= x@.len(),
            i <= y@.len(),
            text_order(a@, b@) == text_order(x@.skip(i as int), y@.skip(i as int)),
            x@ == a@,
            y@ == b@,
        decreases x@.len() - i,
    {
        let c = x[i];
        let d = y[i];
        assert(x@.skip(i as int)[0] == c);
        assert(y@.skip(i as int)[0] == d);
        if (c as u32) < (d as u32) {
            return Order::Less;
        }
        if (c as u32) > (d as u32) {
            return Order::Greater;
        }
        assert(x@.skip(i as int).drop_first() =~= x@.skip(i + 1));
        assert(y@.skip(i as int).drop_first() =~= y@.skip(i + 1));
        i = i + 1;
    }
    if i < x.len() {
        Order::Greater
    } else if i < y.len() {
        Order::Less
    } else {
        Order::Equal
    }
}

fn numeric_of(v: &Value) -> (r: Option<u64>)
    ensures
        r == numeric_bits(*v),
{
    match v {
        Value::Integer(i) => Some(int_to_double_bits(*i)),
        Value::Float(b) => Some(*b),
        _ => None,
    }
}

/// The order of two values under the comparison operators.
pub fn compare_values(a: &Value, b: &Value) -> (r: Option<Order>)
    ensures
        r == value_order(*a, *b),
{
    match (numeric_of(a), numeric_of(b)) {
        (Some(x), Some(y)) => Some(double_compare(x, y)),
        _ => match (a, b) {
            (Value::String(x), Value::String(y)) => Some(text_compare(x.as_str(), y.as_str())),
            _ => None,
        },
    }
}


/// What `builtin_eq` gives.
pub open spec fn builtin_eq_post(args: Seq<Value>, r: Result<Value, BuiltinError>) -> bool {
    &&& (args.len() != 2 ==> arity_failure(r, "=="@, args.len() as nat, 2))
    &&& (args.len() == 2 ==> r == Ok::<Value, BuiltinError>(Value::Boolean(value_eq(args[0], args[1]))))
}

/// `==(a, b)`: structural equality.
pub fn builtin_eq(args: Vec<Value>) -> (r: Result<Value, BuiltinError>)
    ensures
        builtin_eq_post(args@, r),
{
    if args.len() != 2 {
        return Err(arity_error("==", args.len(), 2));
    }
    Ok(Value::Boolean(values_equal(&args[0], &args[1])))
}

/// What `builtin_ne` gives.
pub open spec fn builtin_ne_post(args: Seq<Value>, r: Result<Value, BuiltinError>) -> bool {
    &&& (args.len() != 2 ==> arity_failure(r, "!="@, args.len() as nat, 2))
    &&& (args.len() == 2 ==> r == Ok::<Value, BuiltinError>(Value::Boolean(!value_eq(args[0], args[1]))))
}

/// `!=(a, b)`: the negation of structural equality.
pub fn builtin_ne(args: Vec<Value>) -> (r: Result<Value, BuiltinError>)
    ensures
        builtin_ne_post(args@, r),
{
    if args.len() != 2 {
        return Err(arity_error("!=", args.len(), 2));
    }
    Ok(Value::Boolean(!values_equal(&args[0], &args[1])))
}

/// Which orders a comparison operator accepts.
#[derive(Debug, Clone, Copy, PartialEq, Eq, Structural)]
pub enum Relation {
    Less,
    Greater,
    LessOrEqual,
    GreaterOrEqual,
}

/// The relation holds for an order.
pub open spec fn holds(rel: Relation, o: Order) -> bool {
    match rel {
        Relation::Less => o == Order::Less,
        Relation::Greater => o == Order::Greater,
        Relation::LessOrEqual => o != Order::Greater,
        Relation::GreaterOrEqual => o != Order::Less,
    }
}

/// The words a comparison error uses for the relation.
pub open spec fn relation_label(rel: Relation) -> Seq<char> {
    match rel {
        Relation::Less => "less than"@,
        Relation::Greater => "greater than"@,
        Relation::LessOrEqual => "less or equal"@,
        Relation::GreaterOrEqual => "greater or equal"@,
    }
}

/// What a comparison operator gives for `a` and `b`: whether the relation
/// holds, or the type error for values that do not compare.
pub open spec fn comparison(rel: Relation, a: Value, b: Value, r: Result<Value, BuiltinError>) -> bool {
    match value_order(a, b) {
        Some(o) => r == Ok::<Value, BuiltinError>(Value::Boolean(holds(rel, o))),
        None => type_failure(
            r,
            "<cmp>"@,
            "cannot compute "@ + relation_label(rel) + " for "@ + type_label_spec(&a)@ + " and "@
                + type_label_spec(&b)@,
        ),
    }
}

/// A comparison operator on two values.
pub fn compare_op(a: &Value, b: &Value, rel: Relation) -> (r: Result<Value, BuiltinError>)
    ensures
        comparison(rel, *a, *b, r),
{
    match compare_values(a, b) {
        Some(o) => {
            let h = match rel {
                Relation::Less => o == Order::Less,
                Relation::Greater => o == Order::Greater,
                Relation::LessOrEqual => o != Order::Greater,
                Relation::GreaterOrEqual => o != Order::Less,
            };
            Ok(Value::Boolean(h))
        },
        None => {
            let label = match rel {
                Relation::Less => "less than",
                Relation::Greater => "greater than",
                Relation::LessOrEqual => "less or equal",
                Relation::GreaterOrEqual => "greater or equal",
            };
            let mut d = concat2("cannot compute ", label);
            d.append(" for ");
            d.append(type_label(a));
            d.append(" and ");
            d.append(type_label(b));
            Err(type_error("<cmp>", d.as_str()))
        },
    }
}

/// What `builtin_lt` gives.
pub open spec fn builtin_lt_post(args: Seq<Value>, r: Result<Value, BuiltinError>) -> bool {
    &&& (args.len() != 2 ==> arity_failure(r, "<"@, args.len() as nat, 2))
    &&& (args.len() == 2 ==> comparison(Relation::Less, args[0], args[1], r))
}

/// `<(a, b)`.
pub fn builtin_lt(args: Vec<Value>) -> (r: Result<Value, BuiltinError>)
    ensures
        builtin_lt_post(args@, r),
{
    if args.len() != 2 {
        return Err(arity_error("<", args.len(), 2));
    }
    compare_op(&args[0], &args[1], Relation::Less)
}

/// What `builtin_gt` gives.
pub open spec fn builtin_gt_post(args: Seq<Value>, r: Result<Value, BuiltinError>) -> bool {
    &&& (args.len() != 2 ==> arity_failure(r, ">"@, args.len() as nat, 2))
    &&& (args.len() == 2 ==> comparison(Relation::Greater, args[0], args[1], r))
}

/// `>(a, b)`.
pub fn builtin_gt(args: Vec<Value>) -> (r: Result<Value, BuiltinError>)
    ensures
        builtin_gt_post(args@, r),
{
    if args.len() != 2 {
        return Err(arity_error(">", args.len(), 2));
    }
    compare_op(&args[0], &args[1], Relation::Greater)
}

/// What `builtin_le` gives.
pub open spec fn builtin_le_post(args: Seq<Value>, r: Result<Value, BuiltinError>) -> bool {
    &&& (args.len() != 2 ==> arity_failure(r, "<="@, args.len() as nat, 2))
    &&& (args.len() == 2 ==> comparison(Relation::LessOrEqual, args[0], args[1], r))
}

/// `<=(a, b)`.
pub fn builtin_le(args: Vec<Value>) -> (r: Result<Value, BuiltinError>)
    ensures
        builtin_le_post(args@, r),
{
    if args.len() != 2 {
        return Err(arity_error("<=", args.len(), 2));
    }
    compare_op(&args[0], &args[1], Relation::LessOrEqual)
}

/// What `builtin_ge` gives.
pub open spec fn builtin_ge_post(args: Seq<Value>, r: Result<Value, BuiltinError>) -> bool {
    &&& (args.len() != 2 ==> arity_failure(r, ">="@, args.len() as nat, 2))
    &&& (args.len() == 2 ==> comparison(Relation::GreaterOrEqual, args[0], args[1], r))
}

/// `>=(a, b)`.
pub fn builtin_ge(args: Vec<Value>) -> (r: Result<Value, BuiltinError>)
    ensures
        builtin_ge_post(args@, r),
{
    if args.len() != 2 {
        return Err(arity_error(">=", args.len(), 2));
    }
    compare_op(&args[0], &args[1], Relation::GreaterOrEqual)
}

/// The `<` that SORT uses when it is given no comparator: numbers as
/// numbers (INTEGERs exactly, an INTEGER against a FLOAT through the
/// double nearest to it), strings lexicographically, `FALSE < TRUE`;
/// values of any other pair are never less.
pub open spec fn less_by_default(a: Value, b: Value) -> bool {
    match (a, b) {
        (Value::Integer(x), Value::Integer(y)) => x < y,
        (Value::Float(x), Value::Float(y)) => double_lt(x, y),
        (Value::Integer(x), Value::Float(y)) => double_lt(int_double_bits(x as int) as u64, y),
        (Value::Float(x), Value::Integer(y)) => double_lt(x, int_double_bits(y as int) as u64),
        (Value::String(x), Value::String(y)) => text_order(x@, y@) == Order::Less,
        (Value::Boolean(x), Value::Boolean(y)) => !x && y,
        _ => false,
    }
}

/// The `<` that SORT uses when it is given no comparator.
pub fn default_less(a: &Value, b: &Value) -> (r: bool)
    ensures
        r == less_by_default(*a, *b),
{
    match (a, b) {
        (Value::Integer(x), Value::Integer(y)) => *x < *y,
        (Value::Float(x), Value::Float(y)) => double_less(*x, *y),
        (Value::Integer(x), Value::Float(y)) => double_less(int_to_double_bits(*x), *y),
        (Value::Float(x), Value::Integer(y)) => double_less(*x, int_to_double_bits(*y)),
        (Value::String(x), Value::String(y)) => text_compare(x.as_str(), y.as_str()) == Order::Less,
        (Value::Boolean(x), Value::Boolean(y)) => !*x && *y,
        _ => false,
    }
}


/// `a` and `b` are the same value: the same kind, with the same numbers,
/// the same texts and, inside, the same values in the same order.
pub open spec fn same_value(a: Value, b: Value) -> bool
    decreases a, 0nat,
{
    match (a, b) {
        (Value::String(x), Value::String(y)) => x@ == y@,
        (Value::Array(x), Value::Array(y)) => same_items(x@, y@),
        (Value::Dict(x), Value::Dict(y)) => same_entries(x@, y@),
        (Value::Closure { params: p, handle: h }, Value::Closure { params: q, handle: g }) => h == g
            && same_names(p@, q@),
        (Value::NativeFn { name: n, handle: h }, Value::NativeFn { name: m, handle: g }) => h == g && n@
            == m@,
        (Value::OkValue(x), Value::OkValue(y)) => same_value(*x, *y),
        (Value::ErrValue(x), Value::ErrValue(y)) => same_value(*x, *y),
        (Value::Integer(x), Value::Integer(y)) => x == y,
        (Value::Float(x), Value::Float(y)) => x == y,
        (Value::Boolean(x), Value::Boolean(y)) => x == y,
        (Value::Null, Value::Null) => true,
        _ => false,
    }
}

/// The two sequences hold the same values in the same order.
pub open spec fn same_items(x: Seq<Value>, y: Seq<Value>) -> bool
    decreases x, 0nat,
{
    x.len() == y.len() && (x.len() == 0 || (same_items(x.drop_last(), y.drop_last()) && same_value(
        x.last(),
        y.last(),
    )))
}

/// The two entry lists hold the same keys and values in the same order.
pub open spec fn same_entries(x: Seq<(Value, Value)>, y: Seq<(Value, Value)>) -> bool
    decreases x, 0nat,
{
    x.len() == y.len() && (x.len() == 0 || (same_entries(x.drop_last(), y.drop_last()) && same_value(
        x.last().0,
        y.last().0,
    ) && same_value(x.last().1, y.last().1)))
}

/// The two name lists have the same texts in the same order.
pub open spec fn same_names(x: Seq<String>, y: Seq<String>) -> bool {
    x.len() == y.len() && forall|i: int| 0 <= i < x.len() ==> (#[trigger] x[i])@ == y[i]@
}

/// A copy of `v`.
pub fn copy_value(v: &Value) -> (r: Value)
    ensures
        same_value(*v, r),
    decreases v,
{
    match v {
        Value::Integer(x) => Value::Integer(*x),
        Value::Float(x) => Value::Float(*x),
        Value::String(x) => Value::String(String::from_str(x.as_str())),
        Value::Boolean(x) => Value::Boolean(*x),
        Value::Null => Value::Null,
        Value::Array(items) => {
            let mut out: Vec<Value> = Vec::new();
            let mut i: usize = 0;
            while i < items.len()
                invariant
                    i <= items@.len(),
                    *v == Value::Array(*items),
                    same_items(items@.take(i as int), out@),
                decreases items@.len() - i,
            {
                proof {
                    assert(items == (*v)->Array_0);
                    assert(decreases_to!(*v => (*v)->Array_0));
                    assert(decreases_to!(*items => items@));
                    assert(decreases_to!(items@ => items@[i as int]));
                }
                let c = copy_value(&items[i]);
                let ghost before = out@;
                out.push(c);
                proof {
                    let t = items@.take(i + 1);
                    assert(t.drop_last() =~= items@.take(i as int));
                    assert(out@.drop_last() =~= before);
                }
                i = i + 1;
            }
            assert(items@.take(items@.len() as int) =~= items@);
            Value::Array(out)
        },
        Value::Dict(entries) => {
            let mut out: Vec<(Value, Value)> = Vec::new();
            let mut i: usize = 0;
            while i < entries.len()
                invariant
                    i <= entries@.len(),
                    *v == Value::Dict(*entries),
                    same_entries(entries@.take(i as int), out@),
                decreases entries@.len() - i,
            {
                proof {
                    assert(entries == (*v)->Dict_0);
                    assert(decreases_to!(*v => (*v)->Dict_0));
                    assert(decreases_to!(*entries => entries@));
                    assert(decreases_to!(entries@ => entries@[i as int]));
                    assert(decreases_to!(entries@[i as int] => entries@[i as int].0));
                    assert(decreases_to!(entries@[i as int] => entries@[i as int].1));
                }
                let k = copy_value(&entries[i].0);
                let x = copy_value(&entries[i].1);
                let ghost before = out@;
                out.push((k, x));
                proof {
                    let t = entries@.take(i + 1);
                    assert(t.drop_last() =~= entries@.take(i as int));
                    assert(out@.drop_last() =~= before);
                }
                i = i + 1;
            }
            assert(entries@.take(entries@.len() as int) =~= entries@);
            Value::Dict(out)
        },
        Value::Closure { params, handle } => {
            let mut names: Vec<String> = Vec::new();
            let mut i: usize = 0;
            while i < params.len()
                invariant
                    i <= params@.len(),
                    names@.len() == i,
                    forall|k: int| 0 <= k < i ==> (#[trigger] params@[k])@ == names@[k]@,
                decreases params@.len() - i,
            {
                names.push(String::from_str(params[i].as_str()));
                i = i + 1;
            }
            Value::Closure { params: names, handle: *handle }
        },
        Value::NativeFn { name, handle } => Value::NativeFn {
            name: String::from_str(name.as_str()),
            handle: *handle,
        },
        Value::OkValue(x) => Value::OkValue(Box::new(copy_value(x))),
        Value::ErrValue(x) => Value::ErrValue(Box::new(copy_value(x))),
    }
}

/// The equality that pattern literals use: NULL, INTEGERs, FLOATs (as
/// IEEE doubles), BOOLEANs and STRINGs against a value of the same kind;
/// nothing else is equal.
pub open spec fn loosely_equal(a: Value, b: Value) -> bool {
    match (a, b) {
        (Value::Null, Value::Null) => true,
        (Value::Integer(x), Value::Integer(y)) => x == y,
        (Value::Float(x), Value::Float(y)) => double_eq(x, y),
        (Value::Boolean(x), Value::Boolean(y)) => x == y,
        (Value::String(x), Value::String(y)) => x@ == y@,
        _ => false,
    }
}

/// Whether the pattern literal `a` matches the value `b`.
pub fn values_equal_loose(a: &Value, b: &Value) -> (r: bool)
    ensures
        r == loosely_equal(*a, *b),
{
    match (a, b) {
        (Value::Null, Value::Null) => true,
        (Value::Integer(x), Value::Integer(y)) => *x == *y,
        (Value::Float(x), Value::Float(y)) => double_equal(*x, *y),
        (Value::Boolean(x), Value::Boolean(y)) => *x == *y,
        (Value::String(x), Value::String(y)) => str_eq(x.as_str(), y.as_str()),
        _ => false,
    }
}

/// `v` holds no NaN, closure or native function, at any depth: the values
/// that `==` finds equal to themselves.
pub open spec fn self_equal(v: Value) -> bool
    decreases v, 0nat,
{
    match v {
        Value::Float(b) => !is_nan(b),
        Value::Array(items) => forall|i: int| 0 <= i < items@.len() ==> self_equal(#[trigger] items@[i]),
        Value::Dict(d) => forall|i: int|
            0 <= i < d@.len() ==> self_equal(#[trigger] d@[i].0) && self_equal(d@[i].1),
        Value::OkValue(x) => self_equal(*x),
        Value::ErrValue(x) => self_equal(*x),
        Value::Closure { .. } => false,
        Value::NativeFn { .. } => false,
        _ => true,
    }
}

proof fn lemma_equal_is_self_equal(a: Value, b: Value)
    requires
        value_eq(a, b),
    ensures
        self_equal(a),
    decreases a, 0nat,
{
    match (a, b) {
        (Value::Array(x), Value::Array(y)) => {
            lemma_seq_eq(x@, y@);
            assert forall|i: int| 0 <= i < x@.len() implies self_equal(#[trigger] x@[i]) by {
                lemma_equal_is_self_equal(x@[i], y@[i]);
            }
        },
        (Value::Dict(x), Value::Dict(y)) => {
            lemma_entries_included(x@, y@);
            assert forall|i: int| 0 <= i < x@.len() implies self_equal(#[trigger] x@[i].0) && self_equal(x@[i].1) by {
                assert(entry_in(x@[i], y@));
                lemma_entry_in(x@[i], y@);
                let j = choose|j: int|
                    0 <= j < y@.len() && value_eq(x@[i].0, #[trigger] y@[j].0) && value_eq(x@[i].1, y@[j].1);
                lemma_equal_is_self_equal(x@[i].0, y@[j].0);
                lemma_equal_is_self_equal(x@[i].1, y@[j].1);
            }
        },
        (Value::OkValue(x), Value::OkValue(y)) => {
            lemma_equal_is_self_equal(*x, *y);
        },
        (Value::ErrValue(x), Value::ErrValue(y)) => {
            lemma_equal_is_self_equal(*x, *y);
        },
        _ => {},
    }
}

proof fn lemma_self_equal_is_equal(a: Value)
    requires
        self_equal(a),
    ensures
        value_eq(a, a),
    decreases a, 0nat,
{
    match a {
        Value::Array(x) => {
            assert forall|i: int| 0 <= i < x@.len() implies value_eq(#[trigger] x@[i], x@[i]) by {
                lemma_self_equal_is_equal(x@[i]);
            }
            lemma_seq_eq(x@, x@);
        },
        Value::Dict(x) => {
            assert forall|i: int| 0 <= i < x@.len() implies entry_in(#[trigger] x@[i], x@) by {
                lemma_self_equal_is_equal(x@[i].0);
                lemma_self_equal_is_equal(x@[i].1);
                lemma_entry_in(x@[i], x@);
                assert(value_eq(x@[i].0, x@[i].0) && value_eq(x@[i].1, x@[i].1));
            }
            lemma_entries_included(x@, x@);
        },
        Value::OkValue(x) => {
            lemma_self_equal_is_equal(*x);
        },
        Value::ErrValue(x) => {
            lemma_self_equal_is_equal(*x);
        },
        _ => {},
    }
}

/// `==` is reflexive exactly on the values without a NaN, a closure or a
/// native function inside, and such a value is equal to nothing.
pub proof fn law_eq_reflexive(a: Value, b: Value)
    ensures
        value_eq(a, a) <==> self_equal(a),
        value_eq(a, b) ==> self_equal(a),
{
    if value_eq(a, a) {
        lemma_equal_is_self_equal(a, a);
    }
    if self_equal(a) {
        lemma_self_equal_is_equal(a);
    }
    if value_eq(a, b) {
        lemma_equal_is_self_equal(a, b);
    }
}

} // verus!
