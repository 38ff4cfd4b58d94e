//! Runtime values, their type names and truthiness, and the diagnostics
//! that built-in functions raise.
use vstd::prelude::*;

use crate::text::count_text;

verus! {

/// A runtime value.
///
/// A FLOAT is held as the bit pattern of its IEEE 754 double: the library
/// moves floats around but never computes with them. Function values are
/// identified by a handle that the evaluator assigns; a closure also keeps
/// the names of its parameters.
#[derive(Debug, PartialEq)]
pub enum Value {
    Integer(i64),
    Float(u64),
    String(String),
    Boolean(bool),
    Null,
    Array(Vec<Value>),
    Dict(Vec<(Value, Value)>),
    Closure { params: Vec<String>, handle: u64 },
    NativeFn { name: String, handle: u64 },
    /// `OK(value)`
    OkValue(Box<Value>),
    /// `ERR(value)`
    ErrValue(Box<Value>),
}

/// The diagnostic codes that built-in functions and the evaluator raise.
#[derive(Debug, Clone, Copy, PartialEq, Eq, Structural)]
pub enum ErrorCode {
    /// `BREAK` / `CONTINUE` outside a loop.
    E0014,
    /// Undefined name / value not callable.
    E0020,
    /// Name already defined in the current scope.
    E0021,
    /// Wrong number of arguments.
    E0022,
    /// Name not exported by the imported module.
    E0023,
    /// `SET` on a cell that no closure captured.
    E0024,
    /// `LET` shadowing a global built-in.
    E0025,
    /// Destructure pattern mismatch.
    E0026,
    /// `MATCH` fell through without a match or a default.
    E0027,
    /// Type mismatch.
    E0030,
    /// Index or code point of the wrong kind or range.
    E0031,
    /// An argument that breaks its parameter's type annotation, in strict
    /// mode.
    E0033,
    /// Negation of the least INTEGER.
    E0034,
    /// FLOAT to INTEGER out of range.
    E0035,
    /// Array index out of bounds.
    E0036,
    /// Missing dict key, property or method.
    E0037,
    /// RANGE step of zero.
    E0038,
    /// Malformed FORMAT template.
    E0039,
    /// Module not found.
    E0040,
    /// Circular `IMPORT`.
    E0041,
    /// Lock file inconsistent with the project manifest.
    E0042,
    /// Unregistered or malformed namespace path.
    E0043,
    /// Language version mismatch.
    E0044,
    /// Dependency conflict.
    E0045,
    /// File not found.
    E0061,
    /// JSON parse failure.
    E0070,
    /// AI provider failures.
    E0080,
    E0081,
    E0082,
    E0083,
    /// UNWRAP of an ERR value.
    E0100,
    /// An `ERR` reached the top level.
    E0102,
    /// Division or modulo by zero.
    E1003,
}

/// The warning codes that built-in functions emit without failing.
#[derive(Debug, Clone, Copy, PartialEq, Eq, Structural)]
pub enum WarningCode {
    /// INTEGER overflow, saturated.
    W0015,
    /// A `LET` shadows a built-in or a macro function.
    W0030,
    /// Deprecated alias of a built-in.
    W0051,
    /// Deprecated `!` operator form.
    W0054,
}

/// A soft warning: the call still produced its value.
#[derive(Debug, PartialEq)]
pub struct Warning {
    pub code: WarningCode,
    pub message: String,
}

/// A hard error raised by a built-in function.
#[derive(Debug, PartialEq)]
pub struct BuiltinError {
    pub code: ErrorCode,
    pub message: String,
    /// A hint for the user, when there is one.
    pub note: Option<String>,
    /// The `ERR` payload behind the error, when there is one.
    pub cause: Option<Box<Value>>,
}

/// The lowercase type name used in diagnostics.
pub open spec fn type_label_spec(v: &Value) -> &'static str {
    match v {
        Value::Integer(_) => "integer",
        Value::Float(_) => "float",
        Value::String(_) => "string",
        Value::Boolean(_) => "boolean",
        Value::Null => "null",
        Value::Array(_) => "array",
        Value::Dict(_) => "dict",
        Value::Closure { .. } => "function",
        Value::NativeFn { .. } => "native-function",
        Value::OkValue(_) => "ok",
        Value::ErrValue(_) => "err",
    }
}

/// The lowercase type name of `v`, as diagnostics print it.
#[verifier::when_used_as_spec(type_label_spec)]
pub fn type_label(v: &Value) -> (s: &'static str)
    ensures
        s == type_label_spec(v),
{
    match v {
        Value::Integer(_) => "integer",
        Value::Float(_) => "float",
        Value::String(_) => "string",
        Value::Boolean(_) => "boolean",
        Value::Null => "null",
        Value::Array(_) => "array",
        Value::Dict(_) => "dict",
        Value::Closure { .. } => "function",
        Value::NativeFn { .. } => "native-function",
        Value::OkValue(_) => "ok",
        Value::ErrValue(_) => "err",
    }
}

/// The user-facing type name that `TYPE(x)` returns.
pub open spec fn value_type_name_spec(v: &Value) -> &'static str {
    match v {
        Value::Integer(_) => "INTEGER",
        Value::Float(_) => "FLOAT",
        Value::String(_) => "STRING",
        Value::Boolean(_) => "BOOLEAN",
        Value::Null => "NULL",
        Value::Array(_) => "ARRAY",
        Value::Dict(_) => "DICT",
        Value::Closure { .. } => "FUNCTION",
        Value::NativeFn { .. } => "FUNCTION",
        Value::OkValue(_) => "RESULT",
        Value::ErrValue(_) => "RESULT",
    }
}

/// The uppercase type name of `v`: both closures and native functions are
/// `FUNCTION`, both `OK` and `ERR` are `RESULT`.
#[verifier::when_used_as_spec(value_type_name_spec)]
pub fn value_type_name(v: &Value) -> (s: &'static str)
    ensures
        s == value_type_name_spec(v),
{
    match v {
        Value::Integer(_) => "INTEGER",
        Value::Float(_) => "FLOAT",
        Value::String(_) => "STRING",
        Value::Boolean(_) => "BOOLEAN",
        Value::Null => "NULL",
        Value::Array(_) => "ARRAY",
        Value::Dict(_) => "DICT",
        Value::Closure { .. } => "FUNCTION",
        Value::NativeFn { .. } => "FUNCTION",
        Value::OkValue(_) => "RESULT",
        Value::ErrValue(_) => "RESULT",
    }
}

/// The kind name used by the collection functions' diagnostics.
pub open spec fn value_kind_spec(v: &Value) -> &'static str {
    match v {
        Value::Integer(_) => "integer",
        Value::Float(_) => "float",
        Value::String(_) => "string",
        Value::Boolean(_) => "boolean",
        Value::Null => "null",
        Value::Array(_) => "array",
        Value::Dict(_) => "dict",
        Value::Closure { .. } => "function closure",
        Value::NativeFn { .. } => "native fn",
        Value::OkValue(_) => "RESULT ok",
        Value::ErrValue(_) => "RESULT err",
    }
}

/// Short name of a value's runtime kind, for collection diagnostics.
#[verifier::when_used_as_spec(value_kind_spec)]
pub fn value_kind(v: &Value) -> (s: &'static str)
    ensures
        s == value_kind_spec(v),
{
    match v {
        Value::Integer(_) => "integer",
        Value::Float(_) => "float",
        Value::String(_) => "string",
        Value::Boolean(_) => "boolean",
        Value::Null => "null",
        Value::Array(_) => "array",
        Value::Dict(_) => "dict",
        Value::Closure { .. } => "function closure",
        Value::NativeFn { .. } => "native fn",
        Value::OkValue(_) => "RESULT ok",
        Value::ErrValue(_) => "RESULT err",
    }
}

/// Truthiness: only `FALSE` and `NULL` are false.
pub open spec fn truthy(v: Value) -> bool {
    !(v matches Value::Boolean(false) || v is Null)
}

/// Truthiness of a value: everything but `FALSE` and `NULL` is true.
pub fn is_truthy(v: &Value) -> (b: bool)
    ensures
        b == truthy(*v),
{
    match v {
        Value::Boolean(b) => *b,
        Value::Null => false,
        _ => true,
    }
}

pub open spec fn arity_message(name: Seq<char>, got: nat, want: nat) -> Seq<char> {
    "function `"@ + name + "` expects "@ + crate::text::decimal(want as int) + " argument(s), got "@
        + crate::text::decimal(got as int)
}

pub open spec fn arity_note(got: nat, want: nat) -> Seq<char> {
    if got > want {
        "too many arguments: pass "@ + crate::text::decimal(got - want) + " fewer (got "@
            + crate::text::decimal(got as int) + ", want "@ + crate::text::decimal(want as int)
            + ")"@
    } else {
        "too few arguments: add "@ + crate::text::decimal(want - got) + " more (got "@
            + crate::text::decimal(got as int) + ", want "@ + crate::text::decimal(want as int)
            + ")"@
    }
}

/// `e` is the wrong-number-of-arguments error of `name`.
pub open spec fn is_arity_error(e: BuiltinError, name: Seq<char>, got: nat, want: nat) -> bool {
    &&& e.code == ErrorCode::E0022
    &&& e.message@ == arity_message(name, got, want)
    &&& e.note matches Some(n) && n@ == arity_note(got, want)
    &&& e.cause is None
}

/// The error for a call of `name` with `got` arguments where it takes
/// `want`.
pub fn arity_error(name: &str, got: usize, want: usize) -> (e: BuiltinError)
    ensures
        is_arity_error(e, name@, got as nat, want as nat),
{
    let mut note = String::new();
    if got > want {
        note.append("too many arguments: pass ");
        note.append(count_text(got - want).as_str());
        note.append(" fewer (got ");
    } else {
        note.append("too few arguments: add ");
        note.append(count_text(want - got).as_str());
        note.append(" more (got ");
    }
    note.append(count_text(got).as_str());
    note.append(", want ");
    note.append(count_text(want).as_str());
    note.append(")");
    let mut message = String::new();
    message.append("function `");
    message.append(name);
    message.append("` expects ");
    message.append(count_text(want).as_str());
    message.append(" argument(s), got ");
    message.append(count_text(got).as_str());
    assert(message@ =~= arity_message(name@, got as nat, want as nat));
    assert(note@ =~= arity_note(got as nat, want as nat));
    BuiltinError { code: ErrorCode::E0022, message, note: Some(note), cause: None }
}

pub open spec fn type_error_note() -> Seq<char> {
    "check the operand types or use an explicit conversion; v0.3 has no implicit numeric coercion"@
}

/// `e` is the type error of `name` with the detail `detail`.
pub open spec fn is_type_error(e: BuiltinError, name: Seq<char>, detail: Seq<char>) -> bool {
    &&& e.code == ErrorCode::E0030
    &&& e.message@ == name + ": "@ + detail
    &&& e.note matches Some(n) && n@ == type_error_note()
    &&& e.cause is None
}

/// A type-mismatch error (`E0030`) of the built-in `name`.
pub fn type_error(name: &str, detail: &str) -> (e: BuiltinError)
    ensures
        is_type_error(e, name@, detail@),
{
    let mut message = String::new();
    message.append(name);
    message.append(": ");
    message.append(detail);
    let note = String::from_str(
        "check the operand types or use an explicit conversion; v0.3 has no implicit numeric coercion",
    );
    BuiltinError { code: ErrorCode::E0030, message, note: Some(note), cause: None }
}

/// `e` is the error `code` of `name` with the detail `detail`.
pub open spec fn is_builtin_error(e: BuiltinError, code: ErrorCode, name: Seq<char>, detail: Seq<
    char,
>) -> bool {
    &&& e.code == code
    &&& e.message@ == name + ": "@ + detail
    &&& e.note is None
    &&& e.cause is None
}

/// An error `code` raised by the built-in `name`.
pub fn builtin_error(code: ErrorCode, name: &str, detail: &str) -> (e: BuiltinError)
    ensures
        is_builtin_error(e, code, name@, detail@),
{
    let mut message = String::new();
    message.append(name);
    message.append(": ");
    message.append(detail);
    BuiltinError { code, message, note: None, cause: None }
}

} // verus!
