//! The compatibility aliases `DEL`, `!` and `OR_DIE`: each gives the
//! result of the built-in it stands for, with a deprecation warning.
use vstd::prelude::*;

use crate::builtins::{builtin_not, builtin_unwrap_or, not_outcome, unwrap_or_outcome};
use crate::lookup::{builtin_remove_key, remove_key_outcome};
use crate::value::{BuiltinError, Value, Warning, WarningCode};

verus! {

/// What `builtin_remove_key_compat` gives.
pub open spec fn builtin_remove_key_compat_post(args: Seq<Value>, r: (Warning, Result<Value, BuiltinError>)) -> bool {
    &&& (r.0.code == WarningCode::W0051)
    &&& (r.0.message@ == "`DEL` is a v0.3-compat alias; use `REMOVE_KEY` instead (will be removed in v0.5)"@)
    &&& (remove_key_outcome(args, r.1))
}

/// `DEL(d, key)`: `REMOVE_KEY` with the warning `W0051`.
pub fn builtin_remove_key_compat(args: Vec<Value>) -> (r: (Warning, Result<Value, BuiltinError>))
    ensures
        builtin_remove_key_compat_post(args@, r),
{
    let w = Warning {
        code: WarningCode::W0051,
        message: String::from_str("`DEL` is a v0.3-compat alias; use `REMOVE_KEY` instead (will be removed in v0.5)"),
    };
    (w, builtin_remove_key(args))
}

/// What `builtin_not_bang_compat` gives.
pub open spec fn builtin_not_bang_compat_post(args: Seq<Value>, r: (Warning, Result<Value, BuiltinError>)) -> bool {
    &&& (r.0.code == WarningCode::W0054)
    &&& (r.0.message@ == "`!` is a v0.3-compat alias; use `NOT(expr)` instead (will be removed in v0.5)"@)
    &&& (not_outcome(args, r.1))
}

/// `!(x)`: `NOT` with the warning `W0054`.
pub fn builtin_not_bang_compat(args: Vec<Value>) -> (r: (Warning, Result<Value, BuiltinError>))
    ensures
        builtin_not_bang_compat_post(args@, r),
{
    let w = Warning {
        code: WarningCode::W0054,
        message: String::from_str("`!` is a v0.3-compat alias; use `NOT(expr)` instead (will be removed in v0.5)"),
    };
    (w, builtin_not(args))
}

/// What `builtin_unwrap_or_compat` gives.
pub open spec fn builtin_unwrap_or_compat_post(args: Seq<Value>, r: (Warning, Result<Value, BuiltinError>)) -> bool {
    &&& (r.0.code == WarningCode::W0051)
    &&& (r.0.message@ == "`OR_DIE` is a v0.3-compat alias; use `UNWRAP_OR` instead (will be removed in v0.5)"@)
    &&& (unwrap_or_outcome(args, r.1))
}

/// `OR_DIE(value, default)`: `UNWRAP_OR` with the warning `W0051`.
pub fn builtin_unwrap_or_compat(args: Vec<Value>) -> (r: (Warning, Result<Value, BuiltinError>))
    ensures
        builtin_unwrap_or_compat_post(args@, r),
{
    let w = Warning {
        code: WarningCode::W0051,
        message: String::from_str("`OR_DIE` is a v0.3-compat alias; use `UNWRAP_OR` instead (will be removed in v0.5)"),
    };
    (w, builtin_unwrap_or(args))
}

} // verus!
