//! Built-in functions on strings. Positions and lengths count characters
//! (Unicode scalar values).
use vstd::prelude::*;

use crate::builtins::{arity_failure, codepoint_values, code_values, got, type_failure};
use crate::modpath::{chars_end_with, chars_start_with, has_prefix, has_suffix, sub_chars};
use crate::builtins::{slice_bounds, slice_of, take_range};
use crate::text::{
    char_from_u32, chars_of, concat2, decimal, hex4, hex4_text, int_text, str_eq, string_from_chars,
};
use crate::suggest::utf8_len;
use crate::value::{
    arity_error, builtin_error, is_arity_error, is_builtin_error, is_type_error, type_error, type_label,
    type_label_spec, BuiltinError, ErrorCode, Value,
};

verus! {

/// ASCII whitespace: space, tab, line feed, form feed, carriage return.
pub open spec fn ascii_ws(c: char) -> bool {
    c == ' ' || c == '\t' || c == '\n' || c == '\x0C' || c == '\r'
}

fn is_ascii_ws(c: char) -> (b: bool)
    ensures
        b == ascii_ws(c),
{
    c == ' ' || c == '\t' || c == '\n' || c == '\x0C' || c == '\r'
}

/// The number of ASCII whitespace characters that `s` starts with.
pub open spec fn leading_ws(s: Seq<char>) -> nat
    decreases s.len(),
{
    if s.len() > 0 && ascii_ws(s[0]) {
        1 + leading_ws(s.drop_first())
    } else {
        0
    }
}

/// The number of ASCII whitespace characters that `s` ends with.
pub open spec fn trailing_ws(s: Seq<char>) -> nat
    decreases s.len(),
{
    if s.len() > 0 && ascii_ws(s.last()) {
        1 + trailing_ws(s.drop_last())
    } else {
        0
    }
}

/// `s` without its leading ASCII whitespace.
pub open spec fn trim_start_spec(s: Seq<char>) -> Seq<char> {
    s.skip(leading_ws(s) as int)
}

/// `s` without its trailing ASCII whitespace.
pub open spec fn trim_end_spec(s: Seq<char>) -> Seq<char> {
    s.take(s.len() - trailing_ws(s))
}

/// `s` without leading and trailing ASCII whitespace.
pub open spec fn trim_spec(s: Seq<char>) -> Seq<char> {
    trim_end_spec(trim_start_spec(s))
}

proof fn lemma_leading_ws(s: Seq<char>, k: int)
    requires
        0 <= k <= s.len(),
        forall|j: int| 0 <= j < k ==> ascii_ws(s[j]),
        k == s.len() || !ascii_ws(s[k]),
    ensures
        leading_ws(s) == k,
    decreases k,
{
    if k > 0 {
        lemma_leading_ws(s.drop_first(), k - 1);
    }
}

proof fn lemma_trailing_ws(s: Seq<char>, k: int)
    requires
        0 <= k <= s.len(),
        forall|j: int| s.len() - k <= j < s.len() ==> ascii_ws(s[j]),
        k == s.len() || !ascii_ws(s[s.len() - k - 1]),
    ensures
        trailing_ws(s) == k,
    decreases k,
{
    if k > 0 {
        lemma_trailing_ws(s.drop_last(), k - 1);
    }
}

fn count_leading_ws(cs: &Vec<char>) -> (k: usize)
    ensures
        k == leading_ws(cs@),
        k <= cs@.len(),
{
    let mut k: usize = 0;
    while k < cs.len() && is_ascii_ws(cs[k])
        invariant
            k <= cs@.len(),
            forall|j: int| 0 <= j < k ==> ascii_ws(cs@[j]),
        decreases cs@.len() - k,
    {
        k = k + 1;
    }
    proof {
        lemma_leading_ws(cs@, k as int);
    }
    k
}

fn count_trailing_ws(cs: &Vec<char>) -> (k: usize)
    ensures
        k == trailing_ws(cs@),
        k <= cs@.len(),
{
    let n = cs.len();
    let mut k: usize = 0;
    while k < n && is_ascii_ws(cs[n - k - 1])
        invariant
            n == cs@.len(),
            k <= n,
            forall|j: int| n - k <= j < n ==> ascii_ws(cs@[j]),
        decreases n - k,
    {
        k = k + 1;
    }
    proof {
        lemma_trailing_ws(cs@, k as int);
    }
    k
}

/// `s` with its leading ASCII whitespace removed.
pub fn trim_start_ascii(s: &str) -> (r: &str)
    ensures
        r@ == trim_start_spec(s@),
{
    let cs = chars_of(s);
    let a = count_leading_ws(&cs);
    s.substring_char(a, cs.len())
}

/// `s` with its trailing ASCII whitespace removed.
pub fn trim_end_ascii(s: &str) -> (r: &str)
    ensures
        r@ == trim_end_spec(s@),
{
    let cs = chars_of(s);
    let b = count_trailing_ws(&cs);
    let r = s.substring_char(0, cs.len() - b);
    assert(r@ =~= trim_end_spec(s@));
    r
}

/// `s` with ASCII whitespace removed from both ends.
pub fn trim_ascii(s: &str) -> (r: &str)
    ensures
        r@ == trim_spec(s@),
{
    let t = trim_start_ascii(s);
    trim_end_ascii(t)
}

/// The string of `r` is `expected`, given that `args` is a single STRING.
pub open spec fn string_result(r: Result<Value, BuiltinError>, expected: Seq<char>) -> bool {
    r matches Ok(Value::String(out)) && out@ == expected
}

/// What `builtin_trim` gives.
pub open spec fn builtin_trim_post(args: Seq<Value>, r: Result<Value, BuiltinError>) -> bool {
    &&& (args.len() != 1 ==> arity_failure(r, "TRIM"@, args.len() as nat, 1))
    &&& (args.len() == 1 ==> match args[0] {
        Value::String(s) => string_result(r, trim_spec(s@)),
        other => type_failure(r, "TRIM"@, got("expected STRING, got "@, other)),
    })
}

/// `TRIM(s)`: `s` without leading and trailing ASCII whitespace.
pub fn builtin_trim(args: Vec<Value>) -> (r: Result<Value, BuiltinError>)
    ensures
        builtin_trim_post(args@, r),
{
    if args.len() != 1 {
        return Err(arity_error("TRIM", args.len(), 1));
    }
    match &args[0] {
        Value::String(s) => Ok(Value::String(String::from_str(trim_ascii(s.as_str())))),
        other => Err(type_error("TRIM", concat2("expected STRING, got ", type_label(other)).as_str())),
    }
}

/// What `builtin_trim_start` gives.
pub open spec fn builtin_trim_start_post(args: Seq<Value>, r: Result<Value, BuiltinError>) -> bool {
    &&& (args.len() != 1 ==> arity_failure(r, "TRIM_START"@, args.len() as nat, 1))
    &&& (args.len() == 1 ==> match args[0] {
        Value::String(s) => string_result(r, trim_start_spec(s@)),
        other => type_failure(r, "TRIM_START"@, got("expected STRING, got "@, other)),
    })
}

/// `TRIM_START(s)`: `s` without leading ASCII whitespace.
pub fn builtin_trim_start(args: Vec<Value>) -> (r: Result<Value, BuiltinError>)
    ensures
        builtin_trim_start_post(args@, r),
{
    if args.len() != 1 {
        return Err(arity_error("TRIM_START", args.len(), 1));
    }
    match &args[0] {
        Value::String(s) => Ok(Value::String(String::from_str(trim_start_ascii(s.as_str())))),
        other => Err(
            type_error("TRIM_START", concat2("expected STRING, got ", type_label(other)).as_str()),
        ),
    }
}

/// What `builtin_trim_end` gives.
pub open spec fn builtin_trim_end_post(args: Seq<Value>, r: Result<Value, BuiltinError>) -> bool {
    &&& (args.len() != 1 ==> arity_failure(r, "TRIM_END"@, args.len() as nat, 1))
    &&& (args.len() == 1 ==> match args[0] {
        Value::String(s) => string_result(r, trim_end_spec(s@)),
        other => type_failure(r, "TRIM_END"@, got("expected STRING, got "@, other)),
    })
}

/// `TRIM_END(s)`: `s` without trailing ASCII whitespace.
pub fn builtin_trim_end(args: Vec<Value>) -> (r: Result<Value, BuiltinError>)
    ensures
        builtin_trim_end_post(args@, r),
{
    if args.len() != 1 {
        return Err(arity_error("TRIM_END", args.len(), 1));
    }
    match &args[0] {
        Value::String(s) => Ok(Value::String(String::from_str(trim_end_ascii(s.as_str())))),
        other => Err(
            type_error("TRIM_END", concat2("expected STRING, got ", type_label(other)).as_str()),
        ),
    }
}


/// What `builtin_starts_with` gives.
pub open spec fn builtin_starts_with_post(args: Seq<Value>, r: Result<Value, BuiltinError>) -> bool {
    &&& (args.len() != 2 ==> arity_failure(r, "STARTS_WITH"@, args.len() as nat, 2))
    &&& (args.len() == 2 ==> match (args[0], args[1]) {
        (Value::String(s), Value::String(p)) => r == Ok::<Value, BuiltinError>( Value::Boolean(has_prefix(s@, p@)), ),
        _ => type_failure(r, "STARTS_WITH"@, "expected STRING, STRING"@),
    })
}

/// `STARTS_WITH(s, prefix)`.
pub fn builtin_starts_with(args: Vec<Value>) -> (r: Result<Value, BuiltinError>)
    ensures
        builtin_starts_with_post(args@, r),
{
    if args.len() != 2 {
        return Err(arity_error("STARTS_WITH", args.len(), 2));
    }
    match (&args[0], &args[1]) {
        (Value::String(s), Value::String(p)) => Ok(
            Value::Boolean(chars_start_with(&chars_of(s.as_str()), &chars_of(p.as_str()))),
        ),
        _ => Err(type_error("STARTS_WITH", "expected STRING, STRING")),
    }
}

/// What `builtin_ends_with` gives.
pub open spec fn builtin_ends_with_post(args: Seq<Value>, r: Result<Value, BuiltinError>) -> bool {
    &&& (args.len() != 2 ==> arity_failure(r, "ENDS_WITH"@, args.len() as nat, 2))
    &&& (args.len() == 2 ==> match (args[0], args[1]) {
        (Value::String(s), Value::String(p)) => r == Ok::<Value, BuiltinError>( Value::Boolean(has_suffix(s@, p@)), ),
        _ => type_failure(r, "ENDS_WITH"@, "expected STRING, STRING"@),
    })
}

/// `ENDS_WITH(s, suffix)`.
pub fn builtin_ends_with(args: Vec<Value>) -> (r: Result<Value, BuiltinError>)
    ensures
        builtin_ends_with_post(args@, r),
{
    if args.len() != 2 {
        return Err(arity_error("ENDS_WITH", args.len(), 2));
    }
    match (&args[0], &args[1]) {
        (Value::String(s), Value::String(p)) => Ok(
            Value::Boolean(chars_end_with(&chars_of(s.as_str()), &chars_of(p.as_str()))),
        ),
        _ => Err(type_error("ENDS_WITH", "expected STRING, STRING")),
    }
}

/// ASCII upper case of one character; other characters are kept.
pub open spec fn ascii_upper(c: char) -> char {
    if 'a' <= c && c <= 'z' {
        ((c as u32) - 32) as char
    } else {
        c
    }
}

/// ASCII lower case of one character; other characters are kept.
pub open spec fn ascii_lower(c: char) -> char {
    if 'A' <= c && c <= 'Z' {
        ((c as u32) + 32) as char
    } else {
        c
    }
}

pub(crate) fn map_ascii_case(s: &str, upper: bool) -> (r: String)
    ensures
        r@ == s@.map_values(|c: char| if upper { ascii_upper(c) } else { ascii_lower(c) }),
{
    let cs = chars_of(s);
    let mut out: Vec<char> = Vec::new();
    let mut i: usize = 0;
    while i < cs.len()
        invariant
            i <= cs@.len(),
            cs@ == s@,
            out@ == cs@.take(i as int).map_values(
                |c: char| if upper { ascii_upper(c) } else { ascii_lower(c) },
            ),
        decreases cs@.len() - i,
    {
        let c = cs[i];
        let m = if upper && 'a' <= c && c <= 'z' {
            ((c as u8) - 32) as char
        } else if !upper && 'A' <= c && c <= 'Z' {
            ((c as u8) + 32) as char
        } else {
            c
        };
        out.push(m);
        assert(cs@.take(i + 1) =~= cs@.take(i as int).push(c));
        assert(out@ =~= cs@.take(i + 1).map_values(
            |c: char| if upper { ascii_upper(c) } else { ascii_lower(c) },
        ));
        i = i + 1;
    }
    assert(cs@.take(cs@.len() as int) =~= cs@);
    string_from_chars(out.as_slice())
}

/// What `builtin_upper` gives.
pub open spec fn builtin_upper_post(args: Seq<Value>, r: Result<Value, BuiltinError>) -> bool {
    &&& (args.len() != 1 ==> arity_failure(r, "UPPER"@, args.len() as nat, 1))
    &&& (args.len() == 1 ==> match args[0] {
        Value::String(s) => string_result(r, s@.map_values(|c: char| ascii_upper(c))),
        other => type_failure(r, "UPPER"@, got("expected STRING, got "@, other)),
    })
}

/// `UPPER(s)`: ASCII letters upper-cased, other characters kept.
pub fn builtin_upper(args: Vec<Value>) -> (r: Result<Value, BuiltinError>)
    ensures
        builtin_upper_post(args@, r),
{
    if args.len() != 1 {
        return Err(arity_error("UPPER", args.len(), 1));
    }
    match &args[0] {
        Value::String(s) => {
            let out = map_ascii_case(s.as_str(), true);
            assert(out@ =~= s@.map_values(|c: char| ascii_upper(c)));
            Ok(Value::String(out))
        },
        other => Err(type_error("UPPER", concat2("expected STRING, got ", type_label(other)).as_str())),
    }
}

/// What `builtin_lower` gives.
pub open spec fn builtin_lower_post(args: Seq<Value>, r: Result<Value, BuiltinError>) -> bool {
    &&& (args.len() != 1 ==> arity_failure(r, "LOWER"@, args.len() as nat, 1))
    &&& (args.len() == 1 ==> match args[0] {
        Value::String(s) => string_result(r, s@.map_values(|c: char| ascii_lower(c))),
        other => type_failure(r, "LOWER"@, got("expected STRING, got "@, other)),
    })
}

/// `LOWER(s)`: ASCII letters lower-cased, other characters kept.
pub fn builtin_lower(args: Vec<Value>) -> (r: Result<Value, BuiltinError>)
    ensures
        builtin_lower_post(args@, r),
{
    if args.len() != 1 {
        return Err(arity_error("LOWER", args.len(), 1));
    }
    match &args[0] {
        Value::String(s) => {
            let out = map_ascii_case(s.as_str(), false);
            assert(out@ =~= s@.map_values(|c: char| ascii_lower(c)));
            Ok(Value::String(out))
        },
        other => Err(type_error("LOWER", concat2("expected STRING, got ", type_label(other)).as_str())),
    }
}

/// What `builtin_codepoints` gives.
pub open spec fn builtin_codepoints_post(args: Seq<Value>, r: Result<Value, BuiltinError>) -> bool {
    &&& (args.len() != 1 ==> arity_failure(r, "CODEPOINTS"@, args.len() as nat, 1))
    &&& (args.len() == 1 ==> match args[0] {
        Value::String(s) => r matches Ok(Value::Array(out)) && out@ == code_values(s@),
        other => type_failure(r, "CODEPOINTS"@, got("expected STRING, got "@, other)),
    })
}

/// `CODEPOINTS(s)`: the INTEGER code points of `s`.
pub fn builtin_codepoints(args: Vec<Value>) -> (r: Result<Value, BuiltinError>)
    ensures
        builtin_codepoints_post(args@, r),
{
    if args.len() != 1 {
        return Err(arity_error("CODEPOINTS", args.len(), 1));
    }
    match &args[0] {
        Value::String(s) => Ok(Value::Array(codepoint_values(&chars_of(s.as_str())))),
        other => Err(
            type_error("CODEPOINTS", concat2("expected STRING, got ", type_label(other)).as_str()),
        ),
    }
}

/// `c` repeated `n` times.
pub fn repeat_char(c: char, n: usize) -> (r: Vec<char>)
    ensures
        r@ == Seq::new(n as nat, |i: int| c),
{
    let mut r: Vec<char> = Vec::new();
    let mut i: usize = 0;
    while i < n
        invariant
            i <= n,
            r@ == Seq::new(i as nat, |k: int| c),
        decreases n - i,
    {
        r.push(c);
        assert(r@ =~= Seq::new((i + 1) as nat, |k: int| c));
        i = i + 1;
    }
    r
}

/// `s` padded with `c` to `n` characters: on the left when `start`, else
/// on the right; unchanged when it already has `n` characters or more.
pub open spec fn pad_spec(s: Seq<char>, n: nat, c: char, start: bool) -> Seq<char> {
    if s.len() >= n {
        s
    } else if start {
        Seq::new((n - s.len()) as nat, |i: int| c) + s
    } else {
        s + Seq::new((n - s.len()) as nat, |i: int| c)
    }
}

pub open spec fn start_side() -> Seq<char> {
    seq!['s', 't', 'a', 'r', 't']
}

/// Pad `s` with `c` to `n` characters; `side == "start"` pads on the left,
/// any other side on the right.
pub fn pad_with(s: &str, n: usize, c: char, side: &str) -> (r: String)
    ensures
        r@ == pad_spec(s@, n as nat, c, side@ == start_side()),
{
    let cs = chars_of(s);
    let len = cs.len();
    if len >= n {
        return String::from_str(s);
    }
    let pad = repeat_char(c, n - len);
    let st = vec!['s', 't', 'a', 'r', 't'];
    assert(st@ == start_side());
    let sc = chars_of(side);
    let start = sc.len() == 5 && chars_start_with(&sc, &st);
    proof {
        if start {
            assert(side@ =~= side@.take(5));
        }
        if side@ == start_side() {
            assert(side@.take(5) =~= side@);
        }
    }
    let mut out = if start {
        let mut p = pad;
        let mut rest = cs;
        p.append(&mut rest);
        p
    } else {
        let mut p = cs;
        let mut tail = pad;
        p.append(&mut tail);
        p
    };
    string_from_chars(out.as_slice())
}


/// The pad target of `PAD_START` / `PAD_END`: negative counts as zero.
pub open spec fn pad_target(n: i64) -> usize {
    (if n < 0 {
        0
    } else {
        n
    }) as usize
}

/// The outcome of `PAD_START` (`start`) or `PAD_END` called with `args`.
pub open spec fn pad_outcome(args: Seq<Value>, r: Result<Value, BuiltinError>, name: Seq<char>, start: bool) -> bool {
    match (args[0], args[1], args[2]) {
        (Value::String(s), Value::Integer(n), Value::String(c)) => if c@.len() == 0 {
            type_failure(r, name, "pad character STRING must be non-empty"@)
        } else {
            string_result(r, pad_spec(s@, pad_target(n) as nat, c@[0], start))
        },
        _ => type_failure(r, name, "expected STRING, INTEGER, STRING"@),
    }
}

fn pad_builtin(args: Vec<Value>, name: &str, side: &str) -> (r: Result<Value, BuiltinError>)
    requires
        args@.len() == 3,
    ensures
        pad_outcome(args@, r, name@, side@ == start_side()),
{
    match (&args[0], &args[1], &args[2]) {
        (Value::String(s), Value::Integer(n), Value::String(c)) => {
            let cc = chars_of(c.as_str());
            if cc.len() == 0 {
                return Err(type_error(name, "pad character STRING must be non-empty"));
            }
            let t: usize = (if *n < 0 {
                0
            } else {
                *n
            }) as usize;
            Ok(Value::String(pad_with(s.as_str(), t, cc[0], side)))
        },
        _ => Err(type_error(name, "expected STRING, INTEGER, STRING")),
    }
}

/// What `builtin_pad_start` gives.
pub open spec fn builtin_pad_start_post(args: Seq<Value>, r: Result<Value, BuiltinError>) -> bool {
    &&& (args.len() != 3 ==> arity_failure(r, "PAD_START"@, args.len() as nat, 3))
    &&& (args.len() == 3 ==> pad_outcome(args, r, "PAD_START"@, true))
}

/// `PAD_START(s, n, c)`: `s` padded on the left to `n` characters with the
/// first character of `c`.
pub fn builtin_pad_start(args: Vec<Value>) -> (r: Result<Value, BuiltinError>)
    ensures
        builtin_pad_start_post(args@, r),
{
    if args.len() != 3 {
        return Err(arity_error("PAD_START", args.len(), 3));
    }
    proof {
        reveal_strlit("start");
    }
    assert("start"@ == start_side());
    pad_builtin(args, "PAD_START", "start")
}

/// What `builtin_pad_end` gives.
pub open spec fn builtin_pad_end_post(args: Seq<Value>, r: Result<Value, BuiltinError>) -> bool {
    &&& (args.len() != 3 ==> arity_failure(r, "PAD_END"@, args.len() as nat, 3))
    &&& (args.len() == 3 ==> pad_outcome(args, r, "PAD_END"@, false))
}

/// `PAD_END(s, n, c)`: `s` padded on the right to `n` characters with the
/// first character of `c`.
pub fn builtin_pad_end(args: Vec<Value>) -> (r: Result<Value, BuiltinError>)
    ensures
        builtin_pad_end_post(args@, r),
{
    if args.len() != 3 {
        return Err(arity_error("PAD_END", args.len(), 3));
    }
    proof {
        reveal_strlit("end");
    }
    assert("end"@ != start_side()) by {
        assert("end"@.len() == 3);
    }
    pad_builtin(args, "PAD_END", "end")
}

/// `s` repeated `n` times.
pub open spec fn repeat_spec(s: Seq<char>, n: nat) -> Seq<char>
    decreases n,
{
    if n == 0 {
        Seq::empty()
    } else {
        repeat_spec(s, (n - 1) as nat) + s
    }
}

/// The repetition count that `REPEAT` uses: `n` capped at the largest
/// `usize`.
pub open spec fn repeat_count(n: i64) -> nat {
    if n > usize::MAX {
        usize::MAX as nat
    } else {
        n as nat
    }
}

/// `REPEAT(s, n)` with these arguments builds a string whose size fits in
/// memory addressing (std's `repeat` panics otherwise).
pub open spec fn repeat_fits(args: Seq<Value>) -> bool {
    args.len() == 2 ==> match (args[0], args[1]) {
        (Value::String(s), Value::Integer(n)) => n < 0 || utf8_len(s@) * repeat_count(n) <= usize::MAX,
        _ => true,
    }
}

/// What `builtin_repeat` gives.
pub open spec fn builtin_repeat_post(args: Seq<Value>, r: Result<Value, BuiltinError>) -> bool {
    &&& (args.len() != 2 ==> arity_failure(r, "REPEAT"@, args.len() as nat, 2))
    &&& (args.len() == 2 ==> match (args[0], args[1]) {
        (Value::String(s), Value::Integer(n)) => if n >= 0 {
            string_result(r, repeat_spec(s@, repeat_count(n)))
        } else {
            type_failure(r, "REPEAT"@, "second arg must be non-negative INTEGER"@)
        },
        _ => type_failure(r, "REPEAT"@, "expected STRING, INTEGER"@),
    })
}

/// `REPEAT(s, n)`: `n` copies of `s` (`n` must be non-negative).
pub fn builtin_repeat(args: Vec<Value>) -> (r: Result<Value, BuiltinError>)
    requires
        repeat_fits(args@),
    ensures
        builtin_repeat_post(args@, r),
{
    if args.len() != 2 {
        return Err(arity_error("REPEAT", args.len(), 2));
    }
    match (&args[0], &args[1]) {
        (Value::String(s), Value::Integer(n)) => {
            if *n < 0 {
                return Err(type_error("REPEAT", "second arg must be non-negative INTEGER"));
            }
            let count: usize = if (*n as u64) > (usize::MAX as u64) {
                usize::MAX
            } else {
                *n as usize
            };
            let mut out = String::new();
            if chars_of(s.as_str()).len() == 0 {
                proof {
                    lemma_repeat_empty(s@, repeat_count(*n));
                }
                return Ok(Value::String(out));
            }
            let mut i: usize = 0;
            while i < count
                invariant
                    i <= count,
                    count == repeat_count(*n),
                    out@ == repeat_spec(s@, i as nat),
                decreases count - i,
            {
                out.append(s.as_str());
                i = i + 1;
            }
            Ok(Value::String(out))
        },
        _ => Err(type_error("REPEAT", "expected STRING, INTEGER")),
    }
}

proof fn lemma_repeat_empty(s: Seq<char>, n: nat)
    requires
        s.len() == 0,
    ensures
        repeat_spec(s, n) == Seq::<char>::empty(),
    decreases n,
{
    if n > 0 {
        lemma_repeat_empty(s, (n - 1) as nat);
        assert(repeat_spec(s, (n - 1) as nat) + s =~= Seq::<char>::empty());
    }
}


/// `v` is an INTEGER that is a Unicode scalar value.
pub open spec fn scalar_code(v: Value) -> bool {
    v matches Value::Integer(i) && 0 <= i <= 0x10FFFF && !(0xD800 <= i <= 0xDFFF)
}

/// The code point of a character.
pub open spec fn char_code(c: char) -> int {
    c as u32 as int
}

/// The code point that an INTEGER element stands for.
pub open spec fn element_code(v: Value) -> int {
    match v {
        Value::Integer(i) => i as int,
        _ => -1,
    }
}

/// `k` is the first element of `items` that is not a scalar code point.
pub open spec fn first_non_scalar(items: Seq<Value>, k: int) -> bool {
    0 <= k < items.len() && !scalar_code(items[k]) && forall|j: int|
        0 <= j < k ==> scalar_code(#[trigger] items[j])
}

/// The error that `FROM_CODEPOINTS` raises for the element `v`.
pub open spec fn bad_code_failure(r: Result<Value, BuiltinError>, v: Value) -> bool {
    match v {
        Value::Integer(i) => if 0 <= i <= 0x10FFFF {
            r matches Err(e) && is_builtin_error(
                e,
                ErrorCode::E0031,
                "FROM_CODEPOINTS"@,
                "codepoint U+"@ + hex4(i as nat) + " not a valid Unicode scalar"@,
            )
        } else {
            r matches Err(e) && is_builtin_error(
                e,
                ErrorCode::E0031,
                "FROM_CODEPOINTS"@,
                "codepoint "@ + decimal(i as int) + " outside Unicode range 0..=0x10FFFF"@,
            )
        },
        other => type_failure(r, "FROM_CODEPOINTS"@, got("array element must be INTEGER, got "@, other)),
    }
}

/// What `builtin_from_codepoints` gives.
pub open spec fn builtin_from_codepoints_post(args: Seq<Value>, r: Result<Value, BuiltinError>) -> bool {
    &&& (args.len() != 1 ==> arity_failure(r, "FROM_CODEPOINTS"@, args.len() as nat, 1))
    &&& (args.len() == 1 ==> match args[0] {
        Value::Array(items) => if forall|j: int| 0 <= j < items@.len() ==> scalar_code(#[trigger] items@[j]) {
            r matches Ok(Value::String(out)) && out@.map_values(|c: char| char_code(c)) == items@.map_values(|v: Value| element_code(v))
        } else {
            exists|k: int| first_non_scalar(items@, k) && bad_code_failure(r, items@[k])
        },
        other => type_failure(r, "FROM_CODEPOINTS"@, got("expected ARRAY, got "@, other)),
    })
}

/// `FROM_CODEPOINTS(arr)`: the string of the code points in `arr`; the
/// first element that is not a Unicode scalar value raises the error.
#[verifier::rlimit(50)]
pub fn builtin_from_codepoints(args: Vec<Value>) -> (r: Result<Value, BuiltinError>)
    ensures
        builtin_from_codepoints_post(args@, r),
{
    if args.len() != 1 {
        return Err(arity_error("FROM_CODEPOINTS", args.len(), 1));
    }
    let items = match &args[0] {
        Value::Array(items) => items,
        other => {
            return Err(
                type_error("FROM_CODEPOINTS", concat2("expected ARRAY, got ", type_label(other)).as_str()),
            );
        },
    };
    let mut out: Vec<char> = Vec::new();
    let mut i: usize = 0;
    while i < items.len()
        invariant
            i <= items@.len(),
            args@.len() == 1,
            args@[0] == Value::Array(*items),
            forall|j: int| 0 <= j < i ==> scalar_code(#[trigger] items@[j]),
            out@.map_values(|c: char| char_code(c)) == items@.take(i as int).map_values(
                |v: Value| element_code(v),
            ),
        decreases items@.len() - i,
    {
        match &items[i] {
            Value::Integer(v) => {
                let v = *v;
                if 0 <= v && v <= 0x10FFFF {
                    match char_from_u32(v as u32) {
                        Some(c) => {
                            assert(items@[i as int] == Value::Integer(v));
                            let ghost before = out@;
                            out.push(c);
                            assert(items@.take(i + 1) =~= items@.take(i as int).push(items@[i as int]));
                            assert(out@.map_values(|c: char| char_code(c)) =~= before.map_values(
                                |c: char| char_code(c),
                            ).push(char_code(c)));
                            assert(out@.map_values(|c: char| char_code(c)) =~= items@.take(
                                i + 1,
                            ).map_values(|v: Value| element_code(v)));
                        },
                        None => {
                            let mut d = concat2("codepoint U+", hex4_text(v).as_str());
                            d.append(" not a valid Unicode scalar");
                            assert(first_non_scalar(items@, i as int));
                            return Err(builtin_error(ErrorCode::E0031, "FROM_CODEPOINTS", d.as_str()));
                        },
                    }
                } else {
                    let mut d = concat2("codepoint ", int_text(v).as_str());
                    d.append(" outside Unicode range 0..=0x10FFFF");
                    assert(first_non_scalar(items@, i as int));
                    return Err(builtin_error(ErrorCode::E0031, "FROM_CODEPOINTS", d.as_str()));
                }
            },
            other => {
                assert(first_non_scalar(items@, i as int));
                let r: Result<Value, BuiltinError> = Err(
                    type_error(
                        "FROM_CODEPOINTS",
                        concat2("array element must be INTEGER, got ", type_label(other)).as_str(),
                    ),
                );
                assert(bad_code_failure(r, items@[i as int]));
                assert(!scalar_code(items@[i as int]));
                assert(exists|k: int| first_non_scalar(items@, k) && bad_code_failure(r, items@[k]));
                assert(!(forall|j: int| 0 <= j < items@.len() ==> scalar_code(#[trigger] items@[j])));
                return r;
            },
        }
        i = i + 1;
    }
    assert(items@.take(items@.len() as int) =~= items@);
    Ok(Value::String(string_from_chars(out.as_slice())))
}

/// What `builtin_substr` gives.
pub open spec fn builtin_substr_post(args: Seq<Value>, r: Result<Value, BuiltinError>) -> bool {
    &&& ((args.len() < 2 || args.len() > 3) ==> arity_failure(r, "SUB"@, args.len() as nat, 2))
    &&& ((2 <= args.len() <= 3) ==> match args[0] {
        Value::String(s) => match args[1] {
            Value::Integer(st) => if args.len() == 3 {
                match args[2] {
                    Value::Integer(en) => string_result(r, slice_of(s@, st as int, en as int)),
                    other => type_failure(r, "SUB"@, got("end must be INTEGER, got "@, other)),
                }
            } else {
                string_result(r, slice_of(s@, st as int, s@.len() as int))
            },
            other => type_failure(r, "SUB"@, got("start must be INTEGER, got "@, other)),
        },
        other => type_failure(r, "SUB"@, got("expected STRING as first arg, got "@, other)),
    })
}

/// `SUB(s, start, end?)`: the characters `[start, end)` of `s`; negative
/// bounds count from the end, bounds are clamped, `end` defaults to the
/// length.
pub fn builtin_substr(args: Vec<Value>) -> (r: Result<Value, BuiltinError>)
    ensures
        builtin_substr_post(args@, r),
{
    if args.len() < 2 || args.len() > 3 {
        return Err(arity_error("SUB", args.len(), 2));
    }
    let s = match &args[0] {
        Value::String(s) => s,
        other => {
            return Err(
                type_error("SUB", concat2("expected STRING as first arg, got ", type_label(other)).as_str()),
            );
        },
    };
    let start = match &args[1] {
        Value::Integer(i) => *i,
        other => {
            return Err(
                type_error("SUB", concat2("start must be INTEGER, got ", type_label(other)).as_str()),
            );
        },
    };
    let cs = chars_of(s.as_str());
    let end: i128 = if args.len() == 3 {
        match &args[2] {
            Value::Integer(i) => *i as i128,
            other => {
                return Err(
                    type_error("SUB", concat2("end must be INTEGER, got ", type_label(other)).as_str()),
                );
            },
        }
    } else {
        cs.len() as i128
    };
    let ghost sv = cs@;
    let (lo, hi) = slice_bounds(cs.len(), start as i128, end);
    let out = take_range(cs, lo, hi);
    if lo == hi {
        assert(out@ =~= slice_of(sv, start as int, end as int)) by {
            if crate::builtins::clamp_bound(end as int, sv.len() as int)
                > crate::builtins::clamp_bound(start as int, sv.len() as int) {
                assert(sv.subrange(lo as int, hi as int).len() == 0);
            }
        }
    }
    Ok(Value::String(string_from_chars(out.as_slice())))
}


/// The position of the first occurrence of `pat` in `s`, or `-1`.
pub open spec fn find_from(s: Seq<char>, pat: Seq<char>) -> int
    decreases s.len(),
{
    if has_prefix(s, pat) {
        0
    } else if s.len() == 0 {
        -1
    } else {
        let r = find_from(s.drop_first(), pat);
        if r < 0 {
            -1
        } else {
            r + 1
        }
    }
}

proof fn lemma_find_at(s: Seq<char>, pat: Seq<char>, k: int)
    requires
        0 <= k <= s.len(),
        forall|j: int| 0 <= j < k ==> !has_prefix(#[trigger] s.skip(j), pat),
        has_prefix(s.skip(k), pat),
    ensures
        find_from(s, pat) == k,
    decreases k,
{
    if k == 0 {
        assert(s.skip(0) =~= s);
    } else {
        assert(s.skip(0) =~= s);
        assert(!has_prefix(s.skip(0), pat));
        let t = s.drop_first();
        assert forall|j: int| 0 <= j < k - 1 implies !has_prefix(#[trigger] t.skip(j), pat) by {
            assert(t.skip(j) =~= s.skip(j + 1));
        }
        assert(t.skip(k - 1) =~= s.skip(k));
        lemma_find_at(t, pat, k - 1);
    }
}

proof fn lemma_find_none(s: Seq<char>, pat: Seq<char>)
    requires
        forall|j: int| 0 <= j <= s.len() ==> !has_prefix(#[trigger] s.skip(j), pat),
    ensures
        find_from(s, pat) == -1,
    decreases s.len(),
{
    assert(s.skip(0) =~= s);
    if s.len() > 0 {
        let t = s.drop_first();
        assert forall|j: int| 0 <= j <= t.len() implies !has_prefix(#[trigger] t.skip(j), pat) by {
            assert(t.skip(j) =~= s.skip(j + 1));
        }
        lemma_find_none(t, pat);
    }
}

/// `pat` occurs in `cs` at position `i`.
fn matches_at(cs: &Vec<char>, pat: &Vec<char>, i: usize) -> (b: bool)
    requires
        i <= cs@.len(),
    ensures
        b == has_prefix(cs@.skip(i as int), pat@),
{
    if pat.len() > cs.len() - i {
        return false;
    }
    let mut k: usize = 0;
    while k < pat.len()
        invariant
            i + pat@.len() <= cs@.len(),
            cs@.len() == cs.len(),
            k <= pat@.len(),
            forall|j: int| 0 <= j < k ==> cs@[i + j] == pat@[j],
        decreases pat@.len() - k,
    {
        if cs[i + k] != pat[k] {
            assert(cs@.skip(i as int).take(pat@.len() as int)[k as int] != pat@[k as int]);
            return false;
        }
        k = k + 1;
    }
    assert(cs@.skip(i as int).take(pat@.len() as int) =~= pat@);
    true
}

/// The position of the first occurrence of `pat` in `cs`, if any.
pub fn find_chars(cs: &Vec<char>, pat: &Vec<char>) -> (r: Option<usize>)
    ensures
        match r {
            Some(i) => find_from(cs@, pat@) == i && i <= cs@.len(),
            None => find_from(cs@, pat@) == -1,
        },
{
    let mut i: usize = 0;
    while i <= cs.len()
        invariant
            i <= cs@.len() + 1,
            forall|j: int| 0 <= j < i ==> !has_prefix(#[trigger] cs@.skip(j), pat@),
        decreases cs@.len() + 1 - i,
    {
        if matches_at(cs, pat, i) {
            proof {
                lemma_find_at(cs@, pat@, i as int);
            }
            return Some(i);
        }
        if i == cs.len() {
            proof {
                lemma_find_none(cs@, pat@);
            }
            return None;
        }
        i = i + 1;
    }
    proof {
        lemma_find_none(cs@, pat@);
    }
    None
}

/// `s` contains `needle` (the empty needle is everywhere).
pub fn string_contains(s: &str, needle: &str) -> (b: bool)
    ensures
        b == (find_from(s@, needle@) >= 0),
{
    find_chars(&chars_of(s), &chars_of(needle)).is_some()
}

/// The 1-based byte position at which `needle` first occurs in `s`, or
/// `-1` when it does not occur.
pub open spec fn find_position(s: Seq<char>, needle: Seq<char>) -> int {
    let f = find_from(s, needle);
    if f < 0 {
        -1
    } else {
        utf8_len(s.take(f)) + 1
    }
}

/// The 1-based byte position of the first `needle` in `s`, or `-1`.
pub fn string_index(s: &str, needle: &str) -> (r: i64)
    requires
        utf8_len(s@) < i64::MAX,
        utf8_len(s@) <= usize::MAX,
    ensures
        r == find_position(s@, needle@),
{
    let cs = chars_of(s);
    match find_chars(&cs, &chars_of(needle)) {
        Some(i) => {
            let prefix = s.substring_char(0, i);
            let n = prefix.len();
            proof {
                lemma_utf8_len_prefix(s@, i as int);
            }
            assert(prefix@ =~= s@.take(i as int));
            assert(n as int == utf8_len(s@.take(i as int)));
            (n as i64) + 1
        },
        None => -1,
    }
}

proof fn lemma_utf8_len_prefix(s: Seq<char>, i: int)
    requires
        0 <= i <= s.len(),
    ensures
        utf8_len(s.take(i)) <= utf8_len(s),
{
    assert(s =~= s.take(i) + s.skip(i));
    lemma_encode_append(s.take(i), s.skip(i));
}

proof fn lemma_encode_append(a: Seq<char>, b: Seq<char>)
    ensures
        vstd::utf8::encode_utf8(a + b) == vstd::utf8::encode_utf8(a) + vstd::utf8::encode_utf8(b),
    decreases a.len(),
{
    if a.len() == 0 {
        assert(a + b =~= b);
        assert(vstd::utf8::encode_utf8(a) =~= Seq::<u8>::empty());
        assert(Seq::<u8>::empty() + vstd::utf8::encode_utf8(b) =~= vstd::utf8::encode_utf8(b));
    } else {
        lemma_encode_append(a.drop_first(), b);
        assert((a + b).drop_first() =~= a.drop_first() + b);
        assert((a + b)[0] == a[0]);
        assert(vstd::utf8::encode_utf8(a + b) =~= vstd::utf8::encode_scalar(a[0] as u32)
            + vstd::utf8::encode_utf8(a.drop_first()) + vstd::utf8::encode_utf8(b));
    }
}

/// Every non-overlapping occurrence of `old` in `s`, left to right,
/// replaced by `new`.
pub open spec fn replace_all(s: Seq<char>, old: Seq<char>, new: Seq<char>) -> Seq<char>
    decreases s.len(),
{
    if old.len() == 0 || s.len() == 0 {
        s
    } else if has_prefix(s, old) {
        new + replace_all(s.skip(old.len() as int), old, new)
    } else {
        seq![s[0]] + replace_all(s.drop_first(), old, new)
    }
}

fn replace_chars(cs: &Vec<char>, old: &Vec<char>, new: &Vec<char>) -> (r: Vec<char>)
    requires
        old@.len() > 0,
    ensures
        r@ == replace_all(cs@, old@, new@),
{
    let mut out: Vec<char> = Vec::new();
    let mut i: usize = 0;
    assert(cs@.skip(0) =~= cs@);
    while i < cs.len()
        invariant
            i <= cs@.len(),
            old@.len() > 0,
            out@ + replace_all(cs@.skip(i as int), old@, new@) == replace_all(cs@, old@, new@),
        decreases cs@.len() - i,
    {
        let ghost rest = cs@.skip(i as int);
        if matches_at(cs, old, i) {
            let ghost before = out@;
            let mut piece = new.clone();
            assert(piece@ == new@) by {
                assert(forall|k: int| 0 <= k < new@.len() ==> piece@[k] == new@[k]);
            }
            out.append(&mut piece);
            assert(rest.skip(old@.len() as int) =~= cs@.skip(i + old@.len()));
            assert(before + (new@ + replace_all(rest.skip(old@.len() as int), old@, new@)) =~= out@
                + replace_all(cs@.skip(i + old@.len()), old@, new@));
            i = i + old.len();
        } else {
            let ghost before = out@;
            out.push(cs[i]);
            assert(rest.drop_first() =~= cs@.skip(i + 1));
            assert(before + (seq![rest[0]] + replace_all(rest.drop_first(), old@, new@)) =~= out@
                + replace_all(cs@.skip(i + 1), old@, new@));
            i = i + 1;
        }
    }
    assert(out@ + replace_all(cs@.skip(i as int), old@, new@) =~= out@);
    out
}

/// What `builtin_replace` gives.
pub open spec fn builtin_replace_post(args: Seq<Value>, r: Result<Value, BuiltinError>) -> bool {
    &&& (args.len() != 3 ==> arity_failure(r, "REPLACE"@, args.len() as nat, 3))
    &&& (args.len() == 3 ==> match args[0] {
        Value::String(s) => match args[1] {
            Value::String(old) => match args[2] {
                Value::String(new) => if old@.len() == 0 {
                    type_failure( r, "REPLACE"@, "old pattern must be non-empty (empty would cause infinite loop)"@, )
                } else {
                    string_result(r, replace_all(s@, old@, new@))
                },
                other => type_failure(r, "REPLACE"@, got("new must be STRING, got "@, other)),
            },
            other => type_failure(r, "REPLACE"@, got("old must be STRING, got "@, other)),
        },
        other => type_failure(r, "REPLACE"@, got("expected STRING as first arg, got "@, other)),
    })
}

/// `REPLACE(s, old, new)`: every non-overlapping occurrence of `old`,
/// left to right, replaced by `new`; an empty `old` is refused.
pub fn builtin_replace(args: Vec<Value>) -> (r: Result<Value, BuiltinError>)
    ensures
        builtin_replace_post(args@, r),
{
    if args.len() != 3 {
        return Err(arity_error("REPLACE", args.len(), 3));
    }
    let s = match &args[0] {
        Value::String(s) => s,
        other => {
            return Err(
                type_error(
                    "REPLACE",
                    concat2("expected STRING as first arg, got ", type_label(other)).as_str(),
                ),
            );
        },
    };
    let old = match &args[1] {
        Value::String(o) => o,
        other => {
            return Err(
                type_error("REPLACE", concat2("old must be STRING, got ", type_label(other)).as_str()),
            );
        },
    };
    let new = match &args[2] {
        Value::String(n) => n,
        other => {
            return Err(
                type_error("REPLACE", concat2("new must be STRING, got ", type_label(other)).as_str()),
            );
        },
    };
    let oc = chars_of(old.as_str());
    if oc.len() == 0 {
        return Err(
            type_error("REPLACE", "old pattern must be non-empty (empty would cause infinite loop)"),
        );
    }
    let out = replace_chars(&chars_of(s.as_str()), &oc, &chars_of(new.as_str()));
    Ok(Value::String(string_from_chars(out.as_slice())))
}


/// The pieces of `s` between the non-overlapping occurrences of `sep`
/// (left to right), empty pieces included.
pub open spec fn split_all(s: Seq<char>, sep: Seq<char>) -> Seq<Seq<char>>
    decreases s.len(),
{
    let i = find_from(s, sep);
    if sep.len() == 0 || i < 0 || i + sep.len() > s.len() {
        seq![s]
    } else {
        seq![s.take(i)] + split_all(s.skip(i + sep.len()), sep)
    }
}

/// `vs` are STRING values whose texts are `texts`, in order.
pub open spec fn string_values(vs: Seq<Value>, texts: Seq<Seq<char>>) -> bool {
    &&& vs.len() == texts.len()
    &&& forall|k: int| 0 <= k < vs.len() ==> (#[trigger] vs[k] matches Value::String(t) && t@ == texts[k])
}

fn split_chars(cs: &Vec<char>, sep: &Vec<char>) -> (r: Vec<Value>)
    requires
        sep@.len() > 0,
    ensures
        string_values(r@, split_all(cs@, sep@)),
{
    let m = sep.len();
    let mut out: Vec<Value> = Vec::new();
    let ghost mut texts: Seq<Seq<char>> = Seq::empty();
    let mut start: usize = 0;
    let mut i: usize = 0;
    assert(cs@.skip(0) =~= cs@);
    assert(texts + split_all(cs@.skip(0), sep@) =~= split_all(cs@, sep@));
    while i < cs.len()
        invariant
            m == sep@.len(),
            m > 0,
            start <= i <= cs@.len(),
            string_values(out@, texts),
            texts + split_all(cs@.skip(start as int), sep@) == split_all(cs@, sep@),
            forall|j: int| start <= j < i ==> !has_prefix(#[trigger] cs@.skip(j), sep@),
        decreases cs@.len() - i,
    {
        if matches_at(cs, sep, i) && i + m <= cs.len() {
            let ghost rest = cs@.skip(start as int);
            proof {
                assert forall|j: int| 0 <= j < i - start implies !has_prefix(#[trigger] rest.skip(j), sep@) by {
                    assert(rest.skip(j) =~= cs@.skip(start + j));
                }
                assert(rest.skip(i - start) =~= cs@.skip(i as int));
                lemma_find_at(rest, sep@, i - start);
                assert(rest.skip(i - start + m) =~= cs@.skip(i + m));
                assert(rest.take(i - start) =~= cs@.subrange(start as int, i as int));
            }
            let piece = sub_chars(cs, start, i);
            let ghost old_out = out@;
            out.push(Value::String(string_from_chars(piece.as_slice())));
            proof {
                texts = texts.push(cs@.subrange(start as int, i as int));
                assert(string_values(out@, texts)) by {
                    assert forall|k: int| 0 <= k < out@.len() implies (#[trigger] out@[k] matches Value::String(t) && t@ == texts[k]) by {
                        if k < old_out.len() {
                            assert(out@[k] == old_out[k]);
                        }
                    }
                }
                assert(texts + split_all(cs@.skip(i + m), sep@) =~= (texts.drop_last() + split_all(
                    rest,
                    sep@,
                )));
            }
            i = i + m;
            start = i;
        } else {
            proof {
                if i + m <= cs@.len() {
                } else {
                    assert(!has_prefix(cs@.skip(i as int), sep@));
                }
            }
            i = i + 1;
        }
    }
    let ghost rest = cs@.skip(start as int);
    proof {
        assert forall|j: int| 0 <= j <= rest.len() implies !has_prefix(#[trigger] rest.skip(j), sep@) by {
            assert(rest.skip(j) =~= cs@.skip(start + j));
            if start + j < i {
            } else {
                assert(rest.skip(j).len() < m);
            }
        }
        lemma_find_none(rest, sep@);
        assert(split_all(rest, sep@) == seq![rest]);
    }
    let piece = sub_chars(cs, start, cs.len());
    let ghost old_out = out@;
    out.push(Value::String(string_from_chars(piece.as_slice())));
    proof {
        assert(piece@ =~= rest);
        let t2 = texts.push(rest);
        assert(t2 =~= texts + split_all(rest, sep@));
        assert forall|k: int| 0 <= k < out@.len() implies (#[trigger] out@[k] matches Value::String(t) && t@ == t2[k]) by {
            if k < old_out.len() {
                assert(out@[k] == old_out[k]);
            }
        }
    }
    out
}

/// What `builtin_split` gives.
pub open spec fn builtin_split_post(args: Seq<Value>, r: Result<Value, BuiltinError>) -> bool {
    &&& (args.len() != 2 ==> arity_failure(r, "SPLIT"@, args.len() as nat, 2))
    &&& (args.len() == 2 ==> match args[0] {
        Value::String(s) => match args[1] {
            Value::String(sep) => if sep@.len() == 0 {
                type_failure(r, "SPLIT"@, "separator must be non-empty"@)
            } else {
                r matches Ok(Value::Array(out)) && string_values(out@, split_all(s@, sep@))
            },
            other => type_failure(r, "SPLIT"@, got("sep must be STRING, got "@, other)),
        },
        other => type_failure(r, "SPLIT"@, got("expected STRING as first arg, got "@, other)),
    })
}

/// `SPLIT(s, sep)`: the pieces of `s` between the occurrences of `sep`, as
/// STRING values; an empty `sep` is refused.
pub fn builtin_split(args: Vec<Value>) -> (r: Result<Value, BuiltinError>)
    ensures
        builtin_split_post(args@, r),
{
    if args.len() != 2 {
        return Err(arity_error("SPLIT", args.len(), 2));
    }
    let s = match &args[0] {
        Value::String(s) => s,
        other => {
            return Err(
                type_error("SPLIT", concat2("expected STRING as first arg, got ", type_label(other)).as_str()),
            );
        },
    };
    let sep = match &args[1] {
        Value::String(sep) => sep,
        other => {
            return Err(
                type_error("SPLIT", concat2("sep must be STRING, got ", type_label(other)).as_str()),
            );
        },
    };
    let sc = chars_of(sep.as_str());
    if sc.len() == 0 {
        return Err(type_error("SPLIT", "separator must be non-empty"));
    }
    Ok(Value::Array(split_chars(&chars_of(s.as_str()), &sc)))
}

} // verus!
