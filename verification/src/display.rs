//! The text of a value, as STR and PRINT show it.
//!
//! The digits of a FLOAT come from the host's float formatting, which
//! this library does not hold; the caller hands in the text of each double
//! that a value holds (`floats_in` lists them), and everything else is
//! rendered here.
use vstd::prelude::*;

use crate::text::{decimal, int_text};
use crate::value::Value;

verus! {

/// The text that `texts` gives the double with encoding `bits`: that of its
/// first pair with these bits, or nothing when there is none.
pub open spec fn float_text(texts: Seq<(u64, String)>, bits: u64) -> Seq<char>
    decreases texts.len(),
{
    if texts.len() == 0 {
        Seq::empty()
    } else if texts[0].0 == bits {
        texts[0].1@
    } else {
        float_text(texts.drop_first(), bits)
    }
}

/// The text of `v`: decimal INTEGERs, FLOATs as `texts` gives them,
/// strings as they are, `TRUE` / `FALSE` / `NULL`, arrays and dicts in
/// brackets with `, ` between items and `: ` between a key and its value,
/// `<fun(a, b)>` for a closure, `<native fun name>`, `OK(..)` and `ERR(..)`.
pub open spec fn shown(v: Value, texts: Seq<(u64, String)>) -> Seq<char>
    decreases v, 0nat,
{
    match v {
        Value::Integer(n) => decimal(n as int),
        Value::Float(b) => float_text(texts, b),
        Value::String(s) => s@,
        Value::Boolean(b) => if b {
            "TRUE"@
        } else {
            "FALSE"@
        },
        Value::Null => "NULL"@,
        Value::Array(items) => "["@ + shown_items(items@, texts) + "]"@,
        Value::Dict(entries) => "["@ + shown_entries(entries@, texts) + "]"@,
        Value::Closure { params, handle: _ } => "<fun("@ + joined_names(params@) + ")>"@,
        Value::NativeFn { name, handle: _ } => "<native fun "@ + name@ + ">"@,
        Value::OkValue(x) => "OK("@ + shown(*x, texts) + ")"@,
        Value::ErrValue(x) => "ERR("@ + shown(*x, texts) + ")"@,
    }
}

/// The texts of `items`, separated by `, `.
pub open spec fn shown_items(items: Seq<Value>, texts: Seq<(u64, String)>) -> Seq<char>
    decreases items, 0nat,
{
    if items.len() == 0 {
        Seq::empty()
    } else if items.len() == 1 {
        shown(items[0], texts)
    } else {
        shown_items(items.drop_last(), texts) + ", "@ + shown(items.last(), texts)
    }
}

/// The entries of a dict as `key: value`, separated by `, `.
pub open spec fn shown_entries(entries: Seq<(Value, Value)>, texts: Seq<(u64, String)>) -> Seq<char>
    decreases entries, 0nat,
{
    if entries.len() == 0 {
        Seq::empty()
    } else {
        let e = entries.last();
        let last = shown(e.0, texts) + ": "@ + shown(e.1, texts);
        if entries.len() == 1 {
            last
        } else {
            shown_entries(entries.drop_last(), texts) + ", "@ + last
        }
    }
}

/// Names separated by `, `.
pub open spec fn joined_names(names: Seq<String>) -> Seq<char>
    decreases names.len(),
{
    if names.len() == 0 {
        Seq::empty()
    } else if names.len() == 1 {
        names[0]@
    } else {
        joined_names(names.drop_last()) + ", "@ + names.last()@
    }
}

fn append_float_text(texts: &Vec<(u64, String)>, bits: u64, out: &mut String)
    ensures
        final(out)@ == old(out)@ + float_text(texts@, bits),
{
    let mut i: usize = 0;
    assert(texts@.skip(0) =~= texts@);
    while i < texts.len()
        invariant
            i <= texts@.len(),
            float_text(texts@, bits) == float_text(texts@.skip(i as int), bits),
            *out == *old(out),
        decreases texts@.len() - i,
    {
        assert(texts@.skip(i as int)[0] == texts@[i as int]);
        assert(texts@.skip(i as int).drop_first() =~= texts@.skip(i + 1));
        if texts[i].0 == bits {
            out.append(texts[i].1.as_str());
            return;
        }
        i = i + 1;
    }
}

pub(crate) fn append_names(names: &Vec<String>, out: &mut String)
    ensures
        final(out)@ == old(out)@ + joined_names(names@),
{
    let ghost start = out@;
    let mut i: usize = 0;
    while i < names.len()
        invariant
            i <= names@.len(),
            out@ == start + joined_names(names@.take(i as int)),
        decreases names@.len() - i,
    {
        assert(names@.take(i + 1).drop_last() =~= names@.take(i as int));
        if i > 0 {
            out.append(", ");
        }
        out.append(names[i].as_str());
        proof {
            assert(names@.take(i + 1).last() == names@[i as int]);
            if i == 0 {
                assert(names@.take(1)[0] == names@[0]);
            }
            assert(out@ =~= start + joined_names(names@.take(i + 1)));
        }
        i = i + 1;
    }
    assert(names@.take(names@.len() as int) =~= names@);
}

/// Appends the text of `v` to `out`.
pub fn show_into(v: &Value, texts: &Vec<(u64, String)>, out: &mut String)
    ensures
        final(out)@ == old(out)@ + shown(*v, texts@),
    decreases v,
{
    let ghost start = out@;
    match v {
        Value::Integer(n) => {
            out.append(int_text(*n).as_str());
        },
        Value::Float(b) => {
            append_float_text(texts, *b, out);
        },
        Value::String(s) => {
            out.append(s.as_str());
        },
        Value::Boolean(b) => {
            if *b {
                out.append("TRUE");
            } else {
                out.append("FALSE");
            }
        },
        Value::Null => {
            out.append("NULL");
        },
        Value::Array(items) => {
            out.append("[");
            let ghost open = out@;
            let mut i: usize = 0;
            while i < items.len()
                invariant
                    i <= items@.len(),
                    *v == Value::Array(*items),
                    out@ == open + shown_items(items@.take(i as int), texts@),
                decreases items@.len() - i,
            {
                proof {
                    assert(items == (*v)->Array_0);
                    assert(decreases_to!(*v => (*v)->Array_0));
                    assert(decreases_to!(*items => items@));
                    assert(decreases_to!(items@ => items@[i as int]));
                }
                if i > 0 {
                    out.append(", ");
                }
                show_into(&items[i], texts, out);
                proof {
                    let t = items@.take(i + 1);
                    assert(t.drop_last() =~= items@.take(i as int));
                    assert(t.last() == items@[i as int]);
                    if i == 0 {
                        assert(t[0] == items@[0]);
                    }
                    assert(out@ =~= open + shown_items(t, texts@));
                }
                i = i + 1;
            }
            assert(items@.take(items@.len() as int) =~= items@);
            out.append("]");
            assert(out@ =~= start + shown(*v, texts@));
        },
        Value::Dict(entries) => {
            out.append("[");
            let ghost open = out@;
            let mut i: usize = 0;
            while i < entries.len()
                invariant
                    i <= entries@.len(),
                    *v == Value::Dict(*entries),
                    out@ == open + shown_entries(entries@.take(i as int), texts@),
                decreases entries@.len() - i,
            {
                proof {
                    assert(entries == (*v)->Dict_0);
                    assert(decreases_to!(*v => (*v)->Dict_0));
                    assert(decreases_to!(*entries => entries@));
                    assert(decreases_to!(entries@ => entries@[i as int]));
                    assert(decreases_to!(entries@[i as int] => entries@[i as int].0));
                    assert(decreases_to!(entries@[i as int] => entries@[i as int].1));
                }
                if i > 0 {
                    out.append(", ");
                }
                show_into(&entries[i].0, texts, out);
                out.append(": ");
                show_into(&entries[i].1, texts, out);
                proof {
                    let t = entries@.take(i + 1);
                    assert(t.drop_last() =~= entries@.take(i as int));
                    assert(t.last() == entries@[i as int]);
                    assert(out@ =~= open + shown_entries(t, texts@));
                }
                i = i + 1;
            }
            assert(entries@.take(entries@.len() as int) =~= entries@);
            out.append("]");
            assert(out@ =~= start + shown(*v, texts@));
        },
        Value::Closure { params, handle: _ } => {
            out.append("<fun(");
            append_names(params, out);
            out.append(")>");
            assert(out@ =~= start + shown(*v, texts@));
        },
        Value::NativeFn { name, handle: _ } => {
            out.append("<native fun ");
            out.append(name.as_str());
            out.append(">");
            assert(out@ =~= start + shown(*v, texts@));
        },
        Value::OkValue(x) => {
            out.append("OK(");
            show_into(x, texts, out);
            out.append(")");
            assert(out@ =~= start + shown(*v, texts@));
        },
        Value::ErrValue(x) => {
            out.append("ERR(");
            show_into(x, texts, out);
            out.append(")");
            assert(out@ =~= start + shown(*v, texts@));
        },
    }
}

/// The text of `v`, with the text of each of its doubles taken from
/// `texts`.
pub fn display(v: &Value, texts: &Vec<(u64, String)>) -> (s: String)
    ensures
        s@ == shown(*v, texts@),
{
    let mut s = String::new();
    show_into(v, texts, &mut s);
    assert(s@ =~= shown(*v, texts@));
    s
}


/// The encodings of the doubles that `v` holds, in the order its text
/// shows them.
pub open spec fn floats_of(v: Value) -> Seq<u64>
    decreases v, 0nat,
{
    match v {
        Value::Float(b) => seq![b],
        Value::Array(items) => floats_of_items(items@),
        Value::Dict(entries) => floats_of_entries(entries@),
        Value::OkValue(x) => floats_of(*x),
        Value::ErrValue(x) => floats_of(*x),
        _ => Seq::empty(),
    }
}

/// The doubles of `items`, in order.
pub open spec fn floats_of_items(items: Seq<Value>) -> Seq<u64>
    decreases items, 0nat,
{
    if items.len() == 0 {
        Seq::empty()
    } else {
        floats_of_items(items.drop_last()) + floats_of(items.last())
    }
}

/// The doubles of the keys and values of `entries`, in order.
pub open spec fn floats_of_entries(entries: Seq<(Value, Value)>) -> Seq<u64>
    decreases entries, 0nat,
{
    if entries.len() == 0 {
        Seq::empty()
    } else {
        let e = entries.last();
        floats_of_entries(entries.drop_last()) + floats_of(e.0) + floats_of(e.1)
    }
}

fn collect_floats(v: &Value, out: &mut Vec<u64>)
    ensures
        final(out)@ == old(out)@ + floats_of(*v),
    decreases v,
{
    let ghost start = out@;
    match v {
        Value::Float(b) => {
            out.push(*b);
            assert(out@ =~= start + floats_of(*v));
        },
        Value::Array(items) => {
            let mut i: usize = 0;
            while i < items.len()
                invariant
                    i <= items@.len(),
                    *v == Value::Array(*items),
                    out@ == start + floats_of_items(items@.take(i as int)),
                decreases items@.len() - i,
            {
                proof {
                    assert(items == (*v)->Array_0);
                    assert(decreases_to!(*v => (*v)->Array_0));
                    assert(decreases_to!(*items => items@));
                    assert(decreases_to!(items@ => items@[i as int]));
                }
                collect_floats(&items[i], out);
                proof {
                    let t = items@.take(i + 1);
                    assert(t.drop_last() =~= items@.take(i as int));
                    assert(t.last() == items@[i as int]);
                    assert(out@ =~= start + floats_of_items(t));
                }
                i = i + 1;
            }
            assert(items@.take(items@.len() as int) =~= items@);
        },
        Value::Dict(entries) => {
            let mut i: usize = 0;
            while i < entries.len()
                invariant
                    i <= entries@.len(),
                    *v == Value::Dict(*entries),
                    out@ == start + floats_of_entries(entries@.take(i as int)),
                decreases entries@.len() - i,
            {
                proof {
                    assert(entries == (*v)->Dict_0);
                    assert(decreases_to!(*v => (*v)->Dict_0));
                    assert(decreases_to!(*entries => entries@));
                    assert(decreases_to!(entries@ => entries@[i as int]));
                    assert(decreases_to!(entries@[i as int] => entries@[i as int].0));
                    assert(decreases_to!(entries@[i as int] => entries@[i as int].1));
                }
                collect_floats(&entries[i].0, out);
                collect_floats(&entries[i].1, out);
                proof {
                    let t = entries@.take(i + 1);
                    assert(t.drop_last() =~= entries@.take(i as int));
                    assert(t.last() == entries@[i as int]);
                    assert(out@ =~= start + floats_of_entries(t));
                }
                i = i + 1;
            }
            assert(entries@.take(entries@.len() as int) =~= entries@);
        },
        Value::OkValue(x) => {
            collect_floats(x, out);
        },
        Value::ErrValue(x) => {
            collect_floats(x, out);
        },
        _ => {
            assert(out@ =~= start + floats_of(*v));
        },
    }
}

/// The encodings of the doubles that `v` holds, in the order its text
/// shows them: the ones whose text `display` needs.
pub fn floats_in(v: &Value) -> (r: Vec<u64>)
    ensures
        r@ == floats_of(*v),
{
    let mut r: Vec<u64> = Vec::new();
    collect_floats(v, &mut r);
    assert(r@ =~= floats_of(*v));
    r
}

} // verus!
