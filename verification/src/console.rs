//! The rules of the console built-ins `PRINT`, `PRINT_ERR` and `INPUT`,
//! and of the call built-ins `CALL` and `CALL_METHOD`; the reading,
//! writing and calling themselves are the caller's.
use vstd::prelude::*;

use crate::builtins::{arity_failure, first_key, got, has_key, type_failure};
use crate::collection::joined;
use crate::compare::{copy_value, same_value};
use crate::display::{show_into, shown};
use crate::text::{chars_of, concat2, string_from_chars};
use crate::value::{
    arity_error, builtin_error, is_builtin_error, type_error, type_label, BuiltinError, ErrorCode, Value,
};

verus! {

/// The line that `PRINT` and `PRINT_ERR` write for `args`: their texts
/// (see `STR`) separated by single spaces.
pub fn print_line(args: &Vec<Value>, texts: &Vec<(u64, String)>) -> (s: String)
    ensures
        s@ == joined(args@, " "@, texts@),
{
    let mut out = String::new();
    let mut i: usize = 0;
    while i < args.len()
        invariant
            i <= args@.len(),
            out@ == joined(args@.take(i as int), " "@, texts@),
        decreases args@.len() - i,
    {
        if i > 0 {
            out.append(" ");
        }
        show_into(&args[i], texts, &mut out);
        proof {
            let t = args@.take(i + 1);
            assert(t.drop_last() =~= args@.take(i as int));
            assert(t.last() == args@[i as int]);
            if i == 0 {
                assert(t[0] == args@[0]);
            }
            assert(out@ =~= joined(t, " "@, texts@));
        }
        i = i + 1;
    }
    assert(args@.take(args@.len() as int) =~= args@);
    out
}

/// The prompt that `INPUT(prompt?)` writes before reading a line: none
/// without an argument; `E0022` for more than one argument and `E0030`
/// for a prompt that is not a STRING.
pub fn input_prompt(args: &Vec<Value>) -> (r: Result<Option<&str>, BuiltinError>)
    ensures
        args@.len() > 1 ==> (r matches Err(e) && crate::value::is_arity_error(e, "INPUT"@, args@.len() as nat, 1)),
        args@.len() == 0 ==> r matches Ok(None),
        args@.len() == 1 ==> match args@[0] {
            Value::String(p) => r matches Ok(Some(q)) && q@ == p@,
            other => r matches Err(e) && crate::value::is_type_error(
                e,
                "INPUT"@,
                got("prompt must be STRING, got "@, other),
            ),
        },
{
    if args.len() > 1 {
        return Err(arity_error("INPUT", args.len(), 1));
    }
    if args.len() == 0 {
        return Ok(None);
    }
    match &args[0] {
        Value::String(p) => Ok(Some(p.as_str())),
        other => Err(type_error("INPUT", concat2("prompt must be STRING, got ", type_label(other)).as_str())),
    }
}

/// What reading a line gave: the line with the number of bytes read, or a
/// failure to read.
#[derive(Debug)]
pub enum LineRead {
    Line(String, usize),
    Failed,
}

/// `r` is `ERR(["kind": kind])`.
pub open spec fn is_kind_err(r: Value, kind: Seq<char>) -> bool {
    r matches Value::ErrValue(p) && *p matches Value::Dict(entries) && entries@.len() == 1 && (
    entries@[0].0 matches Value::String(k) && k@ == "kind"@) && (entries@[0].1 matches Value::String(v)
        && v@ == kind)
}

/// `s` without its trailing `\n` and `\r` characters.
pub open spec fn without_line_end(s: Seq<char>) -> Seq<char>
    decreases s.len(),
{
    if s.len() > 0 && (s.last() == '\n' || s.last() == '\r') {
        without_line_end(s.drop_last())
    } else {
        s
    }
}

fn kind_err(kind: &str) -> (r: Value)
    ensures
        is_kind_err(r, kind@),
{
    let entries = vec![(Value::String(String::from_str("kind")), Value::String(String::from_str(kind)))];
    Value::ErrValue(Box::new(Value::Dict(entries)))
}

/// What `INPUT` gives for what reading a line gave: the line without its
/// line end; `ERR(["kind": "EOF"])` at the end of the input (nothing
/// read); `ERR(["kind": "NoInputAvailable"])` when reading failed.
pub fn input_value(read: LineRead) -> (r: Value)
    ensures
        match read {
            LineRead::Failed => is_kind_err(r, "NoInputAvailable"@),
            LineRead::Line(line, n) => if n == 0 {
                is_kind_err(r, "EOF"@)
            } else {
                r matches Value::String(s) && s@ == without_line_end(line@)
            },
        },
{
    match read {
        LineRead::Failed => kind_err("NoInputAvailable"),
        LineRead::Line(line, n) => {
            if n == 0 {
                return kind_err("EOF");
            }
            let cs = chars_of(line.as_str());
            let mut end = cs.len();
            assert(cs@.take(end as int) =~= cs@);
            while end > 0 && (cs[end - 1] == '\n' || cs[end - 1] == '\r')
                invariant
                    end <= cs@.len(),
                    without_line_end(cs@) == without_line_end(cs@.take(end as int)),
                decreases end,
            {
                assert(cs@.take(end as int).drop_last() =~= cs@.take(end - 1));
                end = end - 1;
            }
            assert(cs@.take(end as int) =~= without_line_end(cs@.take(end as int)));
            let mut kept: Vec<char> = Vec::new();
            let mut i: usize = 0;
            while i < end
                invariant
                    i <= end <= cs@.len(),
                    kept@ == cs@.take(i as int),
                decreases end - i,
            {
                kept.push(cs[i]);
                assert(kept@ =~= cs@.take(i + 1));
                i = i + 1;
            }
            assert(cs@.take(cs@.len() as int) =~= cs@);
            Value::String(string_from_chars(kept.as_slice()))
        },
    }
}

/// What `builtin_call` gives.
pub open spec fn builtin_call_post(args: Seq<Value>, r: Result<Value, BuiltinError>) -> bool {
    &&& (args.len() == 0 ==> arity_failure(r, "CALL"@, 0, 1))
    &&& (args.len() > 0 && args[0] is Closure ==> type_failure( r, "CALL"@, "CALL(closure, ...) is dispatched via eval_call already; this path is reserved for dynamic dispatch"@, ))
    &&& (args.len() > 0 && !(args[0] is Closure) ==> type_failure( r, "CALL"@, "CALL first arg must be closure (or native fn via registry); other callables not yet supported"@, ))
}

/// `CALL(fn, args...)`: calls are dispatched before this built-in is
/// reached, so it only reports: `E0022` without arguments, and `E0030`
/// otherwise, naming the closure case apart.
pub fn builtin_call(args: Vec<Value>) -> (r: Result<Value, BuiltinError>)
    ensures
        builtin_call_post(args@, r),
{
    if args.len() == 0 {
        return Err(arity_error("CALL", 0, 1));
    }
    match &args[0] {
        Value::Closure { .. } => Err(
            type_error(
                "CALL",
                "CALL(closure, ...) is dispatched via eval_call already; this path is reserved for dynamic dispatch",
            ),
        ),
        _ => Err(
            type_error(
                "CALL",
                "CALL first arg must be closure (or native fn via registry); other callables not yet supported",
            ),
        ),
    }
}

/// A method call that `CALL_METHOD` resolved: the method's value, the
/// receiver, the arguments after the method name, and the method's name.
#[derive(Debug)]
pub struct MethodCall {
    pub callee: Value,
    pub receiver: Value,
    pub args: Vec<Value>,
    pub method: String,
}

/// `CALL_METHOD(obj, m, args...)`: resolves the method `m` of the DICT
/// object `obj` (its first entry with the STRING key `m`), for the caller
/// to call with the receiver; `E0022` for fewer than two arguments,
/// `E0030` for a receiver that is not a DICT or a name that is not a
/// STRING, `E0037` when there is no such method.
pub fn call_method_target(args: Vec<Value>) -> (r: Result<MethodCall, BuiltinError>)
    ensures
        args@.len() < 2 ==> (r matches Err(e) && crate::value::is_arity_error(e, "CALL_METHOD"@, args@.len() as nat, 2)),
        args@.len() >= 2 ==> match args@[0] {
            Value::Dict(d) => match args@[1] {
                Value::String(m) => if has_key(d@, m@) {
                    r matches Ok(c) && (exists|i: int| first_key(d@, m@, i) && same_value(d@[i].1, c.callee))
                        && c.receiver == args@[0] && c.args@ == args@.skip(2) && c.method@ == m@
                } else {
                    r matches Err(e) && is_builtin_error(e, ErrorCode::E0037, "CALL_METHOD"@, "no such method '"@ + m@ + "'"@)
                },
                other => r matches Err(e) && crate::value::is_type_error(
                    e,
                    "CALL_METHOD"@,
                    got("method name must be STRING, got "@, other),
                ),
            },
            other => r matches Err(e) && crate::value::is_type_error(
                e,
                "CALL_METHOD"@,
                got("expected DICT object receiver, got "@, other),
            ),
        },
{
    if args.len() < 2 {
        return Err(arity_error("CALL_METHOD", args.len(), 2));
    }
    let ghost orig = args@;
    let mut rest = args;
    let mut head = Vec::new();
    head.push(rest.remove(0));
    head.push(rest.remove(0));
    assert(rest@ =~= orig.skip(2));
    let name = head.pop().unwrap();
    let obj = head.pop().unwrap();
    let entries = match &obj {
        Value::Dict(e) => e,
        other => {
            return Err(
                type_error(
                    "CALL_METHOD",
                    concat2("expected DICT object receiver, got ", type_label(other)).as_str(),
                ),
            );
        },
    };
    let method = match name {
        Value::String(s) => s,
        other => {
            return Err(
                type_error("CALL_METHOD", concat2("method name must be STRING, got ", type_label(&other)).as_str()),
            );
        },
    };
    match crate::builtins::find_string_key(entries, method.as_str()) {
        Some(i) => {
            let callee = copy_value(&entries[i].1);
            Ok(MethodCall { callee, receiver: obj, args: rest, method })
        },
        None => {
            let mut d = concat2("no such method '", method.as_str());
            d.append("'");
            Err(builtin_error(ErrorCode::E0037, "CALL_METHOD", d.as_str()))
        },
    }
}

} // verus!
