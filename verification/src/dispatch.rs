//! Calling a built-in function by its registry entry, and what the
//! evaluator asks of the program's surroundings while it does so: the
//! console, FLOAT arithmetic and text, `FORMAT` templates, loading
//! modules and native module functions.
use vstd::prelude::*;

use crate::arith::{
    builtin_add, builtin_add_post, builtin_div, builtin_div_post, builtin_mod, builtin_mod_post, builtin_mul, builtin_mul_post,
    builtin_neg, builtin_neg_post, builtin_sub, builtin_sub_post, Arith,
};
use crate::builtins::{
    builtin_and, builtin_and_post, builtin_bool, builtin_bool_post, builtin_concat, builtin_concat_post, builtin_err_payload, builtin_err_payload_post, builtin_get_prop, builtin_get_prop_post, builtin_keys, builtin_keys_post, builtin_len, builtin_len_post, builtin_not, builtin_not_post, builtin_or, builtin_or_post, builtin_push, builtin_push_post, builtin_reverse, builtin_reverse_post, builtin_set_prop, builtin_set_prop_post, builtin_shift, builtin_shift_post, builtin_slice, builtin_slice_post, builtin_type, builtin_type_post, builtin_unshift, builtin_unshift_post, builtin_unwrap, builtin_unwrap_post, builtin_unwrap_or, builtin_unwrap_or_post, builtin_values, builtin_values_post, builtin_wrap, builtin_wrap_post,
};
use crate::compare::{
    builtin_eq, builtin_eq_post, builtin_ge, builtin_ge_post, builtin_gt, builtin_gt_post, builtin_le, builtin_le_post, builtin_lt, builtin_lt_post, builtin_ne, builtin_ne_post,
};
use crate::compat::{
    builtin_not_bang_compat, builtin_not_bang_compat_post, builtin_remove_key_compat, builtin_remove_key_compat_post, builtin_unwrap_or_compat, builtin_unwrap_or_compat_post,
};
use crate::console::{builtin_call, builtin_call_post, input_prompt, input_value, is_kind_err, print_line, LineRead};
use crate::builtins::got;
use crate::convert::{builtin_int, builtin_int_post};
use crate::display::floats_in;
use crate::format::{format_template, render_after_template, rendered, template_outcome, FormatSegment};
use crate::imports::{module_dict, module_ref_path, sorted_exports};
use crate::lookup::{
    builtin_at, builtin_at_post, builtin_contains, builtin_contains_post, builtin_has, builtin_has_post, builtin_index, builtin_index_post, builtin_index_get, builtin_index_get_post, builtin_index_set, builtin_index_set_post, builtin_merge, builtin_merge_post, builtin_pop_dict, builtin_pop_dict_post, builtin_remove_key, builtin_remove_key_post, builtin_str, builtin_str_post,
};
use crate::registry::Builtin;
use crate::strings::{
    builtin_codepoints, builtin_codepoints_post, builtin_ends_with, builtin_ends_with_post, builtin_from_codepoints, builtin_from_codepoints_post, builtin_lower, builtin_lower_post, builtin_pad_end, builtin_pad_end_post, builtin_pad_start, builtin_pad_start_post, builtin_repeat, builtin_repeat_post, builtin_replace, builtin_replace_post, builtin_split, builtin_split_post, builtin_starts_with, builtin_starts_with_post, builtin_substr, builtin_substr_post, builtin_trim, builtin_trim_post, builtin_trim_end, builtin_trim_end_post, builtin_trim_start, builtin_trim_start_post, builtin_upper, builtin_upper_post, repeat_count, repeat_fits,
};
use crate::suggest::utf8_len;
use crate::value::{builtin_error, is_arity_error, is_type_error, type_label_spec, BuiltinError, ErrorCode, Value, Warning};

verus! {

/// An arithmetic operator whose FLOAT case the host computes.
#[derive(Debug, Clone, Copy, PartialEq, Eq, Structural)]
pub enum FloatOp {
    Add,
    Sub,
    Mul,
    Div,
}

/// What the evaluator leaves to the program's surroundings. Nothing is
/// assumed of the answers: the evaluator is correct for every one.
pub trait Host {
    /// The text of the FLOAT with these bits, as `STR` writes it.
    fn float_text(&mut self, bits: u64) -> String;

    /// The text of the FLOAT with these bits, as diagnostics quote it.
    fn plain_float_text(&mut self, bits: u64) -> String;

    /// The IEEE 754 result of `op` on two numbers, one at least a FLOAT.
    fn float_arith(&mut self, op: FloatOp, a: Value, b: Value) -> Value;

    /// `FLOAT(args...)`.
    fn float_of(&mut self, args: Vec<Value>) -> Result<Value, BuiltinError>;

    /// Writes a line to standard output, or to standard error.
    fn write_line(&mut self, line: String, to_err: bool);

    /// Writes the prompt, if any, and reads a line of standard input.
    fn read_line(&mut self, prompt: Option<String>) -> LineRead;

    /// The segments of a `FORMAT` template.
    fn format_segments(&mut self, template: String) -> Result<Vec<FormatSegment>, BuiltinError>;

    /// Calls the native module function `name` with these arguments.
    fn call_native(&mut self, name: String, handle: u64, args: Vec<Value>) -> Result<Value, BuiltinError>;

    /// Loads the module at `path`: each name it exports, with its value.
    fn load_module(&mut self, path: String) -> Result<Vec<(String, Value)>, BuiltinError>;
}

/// The texts of the FLOATs that `args` hold, as the host writes them.
pub(crate) fn float_texts<H: Host>(host: &mut H, args: &Vec<Value>) -> (r: Vec<(u64, String)>) {
    let mut r: Vec<(u64, String)> = Vec::new();
    let mut i: usize = 0;
    while i < args.len()
        decreases args@.len() - i,
    {
        let bits = floats_in(&args[i]);
        let mut k: usize = 0;
        while k < bits.len()
            decreases bits@.len() - k,
        {
            let t = host.float_text(bits[k]);
            r.push((bits[k], t));
            k = k + 1;
        }
        i = i + 1;
    }
    r
}

/// The error for `INTEGER_MIN` divided by `-1`, whose quotient no INTEGER
/// holds.
pub fn quotient_overflow(name: &str) -> (e: BuiltinError)
    ensures
        e.code == ErrorCode::E0034,
{
    builtin_error(ErrorCode::E0034, name, "INTEGER_MIN divided by -1 is not representable")
}

/// `args` are `INTEGER_MIN` and `-1`.
pub fn min_by_minus_one(args: &Vec<Value>) -> (b: bool)
    ensures
        b == (args@.len() == 2 && args@[0] == Value::Integer(i64::MIN) && args@[1] == Value::Integer(-1i64)),
{
    if args.len() != 2 {
        return false;
    }
    match (&args[0], &args[1]) {
        (Value::Integer(a), Value::Integer(b)) => *a == i64::MIN && *b == -1,
        _ => false,
    }
}

/// Whether the result of `REPEAT(args...)` fits in memory.
pub fn repeat_fits_check(args: &Vec<Value>) -> (b: bool)
    ensures
        b == repeat_fits(args@),
{
    if args.len() != 2 {
        return true;
    }
    match (&args[0], &args[1]) {
        (Value::String(s), Value::Integer(n)) => {
            if *n < 0 {
                return true;
            }
            let bytes = s.as_str().as_bytes().len();
            assert(bytes == utf8_len(s@));
            if bytes == 0 {
                return true;
            }
            let count: usize = if *n as u64 > usize::MAX as u64 {
                usize::MAX
            } else {
                *n as usize
            };
            assert(count == repeat_count(*n));
            let limit = usize::MAX / bytes;
            proof {
                assert(limit * bytes <= usize::MAX) by (nonlinear_arith)
                    requires
                        limit == usize::MAX / bytes,
                        bytes > 0,
                ;
                assert(bytes * (limit + 1) > usize::MAX) by (nonlinear_arith)
                    requires
                        limit == usize::MAX / bytes,
                        bytes > 0,
                ;
                if count <= limit {
                    assert(bytes * count <= bytes * limit) by (nonlinear_arith)
                        requires
                            count <= limit,
                            bytes > 0,
                    ;
                } else {
                    assert(bytes * count >= bytes * (limit + 1)) by (nonlinear_arith)
                        requires
                            count >= limit + 1,
                            bytes > 0,
                    ;
                }
            }
            count <= limit
        },
        _ => true,
    }
}

/// Whether `INDEX(args...)` can count the bytes of its STRING.
pub fn index_fits_check(args: &Vec<Value>) -> (b: bool)
    ensures
        b == (args@.len() == 2 ==> (args@[0] matches Value::String(s) ==> utf8_len(s@) < i64::MAX && utf8_len(s@)
            <= usize::MAX)),
{
    if args.len() != 2 {
        return true;
    }
    match &args[0] {
        Value::String(s) => {
            let bytes = s.as_str().as_bytes().len();
            (bytes as u64) < (i64::MAX as u64)
        },
        _ => true,
    }
}

/// The value of an arithmetic result: the exact value; a saturated
/// INTEGER, whose warning is recorded; the FLOAT result from the host.
fn finish_arith<H: Host>(op: FloatOp, r: Result<Arith, BuiltinError>, host: &mut H, warnings: &mut Vec<Warning>) -> (v:
    Result<Value, BuiltinError>)
    ensures
        match r {
            Ok(Arith::Exact(x)) => v == Ok::<Value, BuiltinError>(x) && final(warnings)@ == old(warnings)@,
            Ok(Arith::Saturated(n, w)) => v == Ok::<Value, BuiltinError>(Value::Integer(n)) && final(warnings)@
                == old(warnings)@.push(w),
            Ok(Arith::Floating(_, _)) => v is Ok && final(warnings)@ == old(warnings)@,
            Err(e) => v == Err::<Value, BuiltinError>(e) && final(warnings)@ == old(warnings)@,
        },
{
    match r {
        Ok(Arith::Exact(x)) => Ok(x),
        Ok(Arith::Saturated(n, w)) => {
            warnings.push(w);
            Ok(Value::Integer(n))
        },
        Ok(Arith::Floating(a, b)) => Ok(host.float_arith(op, a, b)),
        Err(e) => Err(e),
    }
}

/// A deprecated alias: its warning is recorded, its result given.
fn with_warning(r: (Warning, Result<Value, BuiltinError>), warnings: &mut Vec<Warning>) -> (v: Result<Value, BuiltinError>)
    ensures
        v == r.1,
        final(warnings)@ == old(warnings)@.push(r.0),
{
    warnings.push(r.0);
    r.1
}

/// `args` are `INTEGER_MIN` and `-1`.
pub open spec fn min_by_minus_one_spec(args: Seq<Value>) -> bool {
    args.len() == 2 && args[0] == Value::Integer(i64::MIN) && args[1] == Value::Integer(-1i64)
}

/// `INDEX(args...)` can count the bytes of its STRING.
pub open spec fn index_fits(args: Seq<Value>) -> bool {
    args.len() == 2 ==> (args[0] matches Value::String(s) ==> utf8_len(s@) < i64::MAX && utf8_len(s@) <= usize::MAX)
}

/// The value of the arithmetic result `a`: the exact value, the
/// saturated INTEGER, or (for a FLOAT operation) the float layer's value.
pub open spec fn arith_finished(a: Result<Arith, BuiltinError>, r: Result<Value, BuiltinError>) -> bool {
    match a {
        Ok(Arith::Exact(x)) => r == Ok::<Value, BuiltinError>(x),
        Ok(Arith::Saturated(n, _)) => r == Ok::<Value, BuiltinError>(Value::Integer(n)),
        Ok(Arith::Floating(_, _)) => r is Ok,
        Err(e) => r == Err::<Value, BuiltinError>(e),
    }
}

/// What `INPUT(prompt?)` gives: `E0022` for more than one argument,
/// `E0030` for a prompt that is not a STRING; otherwise the line read, or
/// an `ERR` of kind `EOF` or `NoInputAvailable`.
pub open spec fn input_outcome(args: Seq<Value>, r: Result<Value, BuiltinError>) -> bool {
    if args.len() > 1 {
        r matches Err(e) && is_arity_error(e, "INPUT"@, args.len() as nat, 1)
    } else if args.len() == 1 && !(args[0] is String) {
        r matches Err(e) && is_type_error(e, "INPUT"@, got("prompt must be STRING, got "@, args[0]))
    } else {
        r matches Ok(v) && (v is String || is_kind_err(v, "EOF"@) || is_kind_err(v, "NoInputAvailable"@))
    }
}

/// What `FORMAT(template, args...)` gives: the template's errors (see
/// `template_outcome`); else, unless parsing the template fails, the
/// segments of the template filled with the arguments after it.
pub open spec fn format_outcome(args: Seq<Value>, r: Result<Value, BuiltinError>) -> bool {
    if args.len() == 0 || !(args[0] is String) {
        r matches Err(e) && template_outcome(args, Err(e))
    } else {
        r is Ok ==> (r matches Ok(Value::String(s)) && exists|segs: Seq<FormatSegment>, t: Seq<(u64, String)>|
            s@ == #[trigger] rendered(segs, args.drop_first(), t))
    }
}

/// What `MODULE_REF(path)` gives: the errors of `module_ref_path`; else,
/// unless loading fails, a DICT of the module's exports ordered by name.
pub open spec fn module_ref_outcome(args: Seq<Value>, r: Result<Value, BuiltinError>) -> bool {
    if args.len() != 1 {
        r matches Err(e) && is_arity_error(e, "MODULE_REF"@, args.len() as nat, 1)
    } else if !(args[0] is String) {
        r matches Err(e) && is_type_error(e, "MODULE_REF"@, "expected STRING module path, got "@ + type_label_spec(&args[0])@)
    } else {
        r is Ok ==> (r matches Ok(Value::Dict(d)) && exists|ex: Seq<(String, Value)>| #[trigger] sorted_exports(d@, ex))
    }
}

/// What calling the built-in `b` on `args` gives: the result that the
/// built-in's own function states. The answers of the surroundings (the
/// console, FLOAT texts and arithmetic, template segments, module
/// loading) are left open, and so are `FLOAT` and `CALL_METHOD`, which
/// the host and the evaluator compute.
pub open spec fn builtin_outcome(b: Builtin, args: Seq<Value>, r: Result<Value, BuiltinError>) -> bool {
    match b {
        Builtin::Print | Builtin::PrintErr => r == Ok::<Value, BuiltinError>(Value::Null),
        Builtin::Input => input_outcome(args, r),
        Builtin::Int => exists|t: Seq<char>| #[trigger] builtin_int_post(args, t, r),
        Builtin::Str => exists|t: Seq<(u64, String)>| #[trigger] builtin_str_post(args, t, r),
        Builtin::IndexGet => exists|t: Seq<(u64, String)>| #[trigger] builtin_index_get_post(args, t, r),
        Builtin::Format => format_outcome(args, r),
        Builtin::ModuleRef => module_ref_outcome(args, r),
        Builtin::Add => exists|a: Result<Arith, BuiltinError>| #[trigger] builtin_add_post(args, a) && arith_finished(a, r),
        Builtin::Subtract => exists|a: Result<Arith, BuiltinError>| #[trigger] builtin_sub_post(args, a) && arith_finished(a, r),
        Builtin::Multiply => exists|a: Result<Arith, BuiltinError>| #[trigger] builtin_mul_post(args, a) && arith_finished(a, r),
        Builtin::Divide => if min_by_minus_one_spec(args) {
            r matches Err(e) && e.code == ErrorCode::E0034
        } else {
            exists|a: Result<Arith, BuiltinError>| #[trigger] builtin_div_post(args, a) && arith_finished(a, r)
        },
        Builtin::Modulo => if min_by_minus_one_spec(args) {
            r matches Err(e) && e.code == ErrorCode::E0034
        } else {
            builtin_mod_post(args, r)
        },
        Builtin::Repeat => if repeat_fits(args) {
            builtin_repeat_post(args, r)
        } else {
            r matches Err(e) && e.code == ErrorCode::E0034
        },
        Builtin::Index => if index_fits(args) {
            builtin_index_post(args, r)
        } else {
            r matches Err(e) && e.code == ErrorCode::E0034
        },
        Builtin::RemoveKeyCompat => exists|w: Warning| #[trigger] builtin_remove_key_compat_post(args, (w, r)),
        Builtin::NotBangCompat => exists|w: Warning| #[trigger] builtin_not_bang_compat_post(args, (w, r)),
        Builtin::UnwrapOrCompat => exists|w: Warning| #[trigger] builtin_unwrap_or_compat_post(args, (w, r)),
        Builtin::Len => builtin_len_post(args, r),
        Builtin::Push => builtin_push_post(args, r),
        Builtin::Trim => builtin_trim_post(args, r),
        Builtin::TrimStart => builtin_trim_start_post(args, r),
        Builtin::TrimEnd => builtin_trim_end_post(args, r),
        Builtin::StartsWith => builtin_starts_with_post(args, r),
        Builtin::EndsWith => builtin_ends_with_post(args, r),
        Builtin::PadStart => builtin_pad_start_post(args, r),
        Builtin::PadEnd => builtin_pad_end_post(args, r),
        Builtin::Codepoints => builtin_codepoints_post(args, r),
        Builtin::FromCodepoints => builtin_from_codepoints_post(args, r),
        Builtin::IndexSet => builtin_index_set_post(args, r),
        Builtin::At => builtin_at_post(args, r),
        Builtin::RemoveKey => builtin_remove_key_post(args, r),
        Builtin::PopDict => builtin_pop_dict_post(args, r),
        Builtin::Bool => builtin_bool_post(args, r),
        Builtin::GetProp => builtin_get_prop_post(args, r),
        Builtin::SetProp => builtin_set_prop_post(args, r),
        Builtin::Keys => builtin_keys_post(args, r),
        Builtin::Values => builtin_values_post(args, r),
        Builtin::Has => builtin_has_post(args, r),
        Builtin::Merge => builtin_merge_post(args, r),
        Builtin::Upper => builtin_upper_post(args, r),
        Builtin::Lower => builtin_lower_post(args, r),
        Builtin::Substr => builtin_substr_post(args, r),
        Builtin::Replace => builtin_replace_post(args, r),
        Builtin::Split => builtin_split_post(args, r),
        Builtin::Shift => builtin_shift_post(args, r),
        Builtin::Unshift => builtin_unshift_post(args, r),
        Builtin::Slice => builtin_slice_post(args, r),
        Builtin::Concat => builtin_concat_post(args, r),
        Builtin::Contains => builtin_contains_post(args, r),
        Builtin::Reverse => builtin_reverse_post(args, r),
        Builtin::Equal => builtin_eq_post(args, r),
        Builtin::NotEqual => builtin_ne_post(args, r),
        Builtin::Less => builtin_lt_post(args, r),
        Builtin::Greater => builtin_gt_post(args, r),
        Builtin::LessEqual => builtin_le_post(args, r),
        Builtin::GreaterEqual => builtin_ge_post(args, r),
        Builtin::And => builtin_and_post(args, r),
        Builtin::Or => builtin_or_post(args, r),
        Builtin::Not => builtin_not_post(args, r),
        Builtin::UnwrapOr => builtin_unwrap_or_post(args, r),
        Builtin::Type => builtin_type_post(args, r),
        Builtin::Unwrap => builtin_unwrap_post(args, r),
        Builtin::ErrPayload => builtin_err_payload_post(args, r),
        Builtin::Wrap => builtin_wrap_post(args, r),
        Builtin::Neg => builtin_neg_post(args, r),
        Builtin::Call => builtin_call_post(args, r),
        Builtin::Float | Builtin::CallMethod => true,
    }
}

/// Calls the built-in `b` on `args` (see `builtin_outcome`). Saturated
/// arithmetic and deprecated aliases record their warnings; the console,
/// FLOAT arithmetic and text, `FORMAT` templates and module loading go
/// through `host`. `CALL_METHOD` calls back into the evaluator and is not
/// dispatched here.
pub(crate) fn call_builtin<H: Host>(b: Builtin, args: Vec<Value>, host: &mut H, warnings: &mut Vec<Warning>) -> (r: Result<
    Value,
    BuiltinError,
>)
    requires
        b != Builtin::CallMethod,
    ensures
        builtin_outcome(b, args@, r),
{
    let ghost a = args@;
    match b {
        Builtin::Print | Builtin::PrintErr => {
            let texts = float_texts(host, &args);
            let line = print_line(&args, &texts);
            host.write_line(line, b == Builtin::PrintErr);
            Ok(Value::Null)
        },
        Builtin::Input => {
            let prompt = match input_prompt(&args) {
                Ok(Some(p)) => Some(String::from_str(p)),
                Ok(None) => None,
                Err(e) => return Err(e),
            };
            Ok(input_value(host.read_line(prompt)))
        },
        Builtin::Int => {
            let text = if args.len() > 0 {
                match &args[0] {
                    Value::Float(bits) => host.plain_float_text(*bits),
                    _ => String::new(),
                }
            } else {
                String::new()
            };
            let r = builtin_int(args, text.as_str());
            assert(builtin_int_post(a, text@, r));
            r
        },
        Builtin::Float => host.float_of(args),
        Builtin::Str => {
            let texts = float_texts(host, &args);
            let r = builtin_str(args, &texts);
            assert(builtin_str_post(a, texts@, r));
            r
        },
        Builtin::IndexGet => {
            let texts = float_texts(host, &args);
            let r = builtin_index_get(args, &texts);
            assert(builtin_index_get_post(a, texts@, r));
            r
        },
        Builtin::Format => {
            let template = match format_template(&args) {
                Ok(t) => String::from_str(t),
                Err(e) => return Err(e),
            };
            let segs = match host.format_segments(template) {
                Ok(s) => s,
                Err(e) => return Err(e),
            };
            let texts = float_texts(host, &args);
            let s = render_after_template(&segs, args, &texts);
            assert(s@ == rendered(segs@, a.drop_first(), texts@));
            Ok(Value::String(s))
        },
        Builtin::ModuleRef => {
            let path = match module_ref_path(&args) {
                Ok(p) => p,
                Err(e) => return Err(e),
            };
            let exports = match host.load_module(path) {
                Ok(x) => x,
                Err(e) => return Err(e),
            };
            let ghost ex = exports@;
            let d = module_dict(exports);
            assert(d matches Value::Dict(entries) && sorted_exports(entries@, ex));
            Ok(d)
        },
        Builtin::CallMethod => vstd::pervasive::unreached(),
        Builtin::Add => {
            let x = builtin_add(args);
            let ghost g = x;
            let r = finish_arith(FloatOp::Add, x, host, warnings);
            assert(builtin_add_post(a, g) && arith_finished(g, r));
            r
        },
        Builtin::Subtract => {
            let x = builtin_sub(args);
            let ghost g = x;
            let r = finish_arith(FloatOp::Sub, x, host, warnings);
            assert(builtin_sub_post(a, g) && arith_finished(g, r));
            r
        },
        Builtin::Multiply => {
            let x = builtin_mul(args);
            let ghost g = x;
            let r = finish_arith(FloatOp::Mul, x, host, warnings);
            assert(builtin_mul_post(a, g) && arith_finished(g, r));
            r
        },
        Builtin::Divide => {
            if min_by_minus_one(&args) {
                return Err(quotient_overflow("/"));
            }
            let x = builtin_div(args);
            let ghost g = x;
            let r = finish_arith(FloatOp::Div, x, host, warnings);
            assert(builtin_div_post(a, g) && arith_finished(g, r));
            r
        },
        Builtin::Modulo => {
            if min_by_minus_one(&args) {
                return Err(quotient_overflow("%"));
            }
            builtin_mod(args)
        },
        Builtin::Repeat => {
            if !repeat_fits_check(&args) {
                return Err(builtin_error(ErrorCode::E0034, "REPEAT", "the repeated STRING does not fit in memory"));
            }
            builtin_repeat(args)
        },
        Builtin::Index => {
            if !index_fits_check(&args) {
                return Err(builtin_error(ErrorCode::E0034, "INDEX", "the STRING is too long to index"));
            }
            builtin_index(args)
        },
        Builtin::RemoveKeyCompat => {
            let x = builtin_remove_key_compat(args);
            let ghost g = x;
            let r = with_warning(x, warnings);
            assert(builtin_remove_key_compat_post(a, (g.0, r)));
            r
        },
        Builtin::NotBangCompat => {
            let x = builtin_not_bang_compat(args);
            let ghost g = x;
            let r = with_warning(x, warnings);
            assert(builtin_not_bang_compat_post(a, (g.0, r)));
            r
        },
        Builtin::UnwrapOrCompat => {
            let x = builtin_unwrap_or_compat(args);
            let ghost g = x;
            let r = with_warning(x, warnings);
            assert(builtin_unwrap_or_compat_post(a, (g.0, r)));
            r
        },
        Builtin::Len => builtin_len(args),
        Builtin::Push => builtin_push(args),
        Builtin::Trim => builtin_trim(args),
        Builtin::TrimStart => builtin_trim_start(args),
        Builtin::TrimEnd => builtin_trim_end(args),
        Builtin::StartsWith => builtin_starts_with(args),
        Builtin::EndsWith => builtin_ends_with(args),
        Builtin::PadStart => builtin_pad_start(args),
        Builtin::PadEnd => builtin_pad_end(args),
        Builtin::Codepoints => builtin_codepoints(args),
        Builtin::FromCodepoints => builtin_from_codepoints(args),
        Builtin::IndexSet => builtin_index_set(args),
        Builtin::At => builtin_at(args),
        Builtin::RemoveKey => builtin_remove_key(args),
        Builtin::PopDict => builtin_pop_dict(args),
        Builtin::Bool => builtin_bool(args),
        Builtin::GetProp => builtin_get_prop(args),
        Builtin::SetProp => builtin_set_prop(args),
        Builtin::Keys => builtin_keys(args),
        Builtin::Values => builtin_values(args),
        Builtin::Has => builtin_has(args),
        Builtin::Merge => builtin_merge(args),
        Builtin::Upper => builtin_upper(args),
        Builtin::Lower => builtin_lower(args),
        Builtin::Substr => builtin_substr(args),
        Builtin::Replace => builtin_replace(args),
        Builtin::Split => builtin_split(args),
        Builtin::Shift => builtin_shift(args),
        Builtin::Unshift => builtin_unshift(args),
        Builtin::Slice => builtin_slice(args),
        Builtin::Concat => builtin_concat(args),
        Builtin::Contains => builtin_contains(args),
        Builtin::Reverse => builtin_reverse(args),
        Builtin::Equal => builtin_eq(args),
        Builtin::NotEqual => builtin_ne(args),
        Builtin::Less => builtin_lt(args),
        Builtin::Greater => builtin_gt(args),
        Builtin::LessEqual => builtin_le(args),
        Builtin::GreaterEqual => builtin_ge(args),
        Builtin::And => builtin_and(args),
        Builtin::Or => builtin_or(args),
        Builtin::Not => builtin_not(args),
        Builtin::UnwrapOr => builtin_unwrap_or(args),
        Builtin::Type => builtin_type(args),
        Builtin::Unwrap => builtin_unwrap(args),
        Builtin::ErrPayload => builtin_err_payload(args),
        Builtin::Wrap => builtin_wrap(args),
        Builtin::Neg => builtin_neg(args),
        Builtin::Call => builtin_call(args),
    }
}

} // verus!
