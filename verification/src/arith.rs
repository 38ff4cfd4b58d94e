//! The arithmetic operators on INTEGER values (saturating on overflow),
//! string and array `+`, and the hand-off of FLOAT arithmetic.
use vstd::prelude::*;

use crate::builtins::{arity_failure, got};
use crate::text::{chars_of, concat2, decimal, int_text, string_from_chars};
use crate::value::{
    arity_error, builtin_error, is_arity_error, is_builtin_error, is_type_error, type_error, type_label,
    type_label_spec, BuiltinError, ErrorCode, Value, Warning, WarningCode,
};

verus! {

/// What an arithmetic operator gives back.
#[derive(Debug, PartialEq)]
pub enum Arith {
    /// The exact result.
    Exact(Value),
    /// INTEGER overflow: the result saturated to this bound, with a warning.
    Saturated(i64, Warning),
    /// Both operands are numbers and at least one is a FLOAT: the result is
    /// the IEEE 754 operation on the two operands (INTEGER widened to
    /// FLOAT), which the float layer computes.
    Floating(Value, Value),
}

/// `v` is a number (INTEGER or FLOAT).
pub open spec fn numeric(v: Value) -> bool {
    v is Integer || v is Float
}

fn is_numeric(v: &Value) -> (b: bool)
    ensures
        b == numeric(*v),
{
    match v {
        Value::Integer(_) => true,
        Value::Float(_) => true,
        _ => false,
    }
}

/// The arithmetic outcome `r` is the wrong-arity error of `name`.
pub open spec fn arith_arity(r: Result<Arith, BuiltinError>, name: Seq<char>, n: nat) -> bool {
    r matches Err(e) && is_arity_error(e, name, n, 2)
}

/// The arithmetic outcome `r` is the type error of `name` with `detail`.
pub open spec fn arith_type(r: Result<Arith, BuiltinError>, name: Seq<char>, detail: Seq<char>) -> bool {
    r matches Err(e) && is_type_error(e, name, detail)
}

/// "`verb` X and Y", naming the operand types.
pub open spec fn cannot(verb: Seq<char>, a: Value, b: Value) -> Seq<char> {
    verb + type_label_spec(&a)@ + " and "@ + type_label_spec(&b)@
}

/// `r` reports saturation to `bound` in the operator `op`.
pub open spec fn saturated_to(r: Result<Arith, BuiltinError>, op: Seq<char>, bound: i64) -> bool {
    r matches Ok(Arith::Saturated(v, w)) && v == bound && w.code == WarningCode::W0015 && w.message@
        == "integer overflow in `"@ + op + "`, saturated to "@ + decimal(bound as int)
}

fn cannot_text(verb: &str, a: &Value, b: &Value) -> (s: String)
    ensures
        s@ == cannot(verb@, *a, *b),
{
    let mut s = concat2(verb, type_label(a));
    s.append(" and ");
    s.append(type_label(b));
    s
}

fn overflow_warning(op: &str, bound: i64) -> (w: Warning)
    ensures
        w.code == WarningCode::W0015,
        w.message@ == "integer overflow in `"@ + op@ + "`, saturated to "@ + decimal(bound as int),
{
    let mut m = concat2("integer overflow in `", op);
    m.append("`, saturated to ");
    m.append(int_text(bound).as_str());
    Warning { code: WarningCode::W0015, message: m }
}

/// What `builtin_add` gives.
pub open spec fn builtin_add_post(args: Seq<Value>, r: Result<Arith, BuiltinError>) -> bool {
    &&& (args.len() != 2 ==> arith_arity(r, "+"@, args.len() as nat))
    &&& (args.len() == 2 ==> match (args[0], args[1]) {
        (Value::String(x), Value::String(y)) => r matches Ok(Arith::Exact(Value::String(s))) && s@ == x@ + y@,
        (Value::Array(x), Value::Array(y)) => r matches Ok(Arith::Exact(Value::Array(out))) && out@ == x@ + y@,
        (Value::Integer(x), Value::Integer(y)) => if i64::MIN <= x + y <= i64::MAX {
            r == Ok::<Arith, BuiltinError>(Arith::Exact(Value::Integer((x + y) as i64)))
        } else {
            saturated_to(r, "+"@, if x > 0 {
                i64::MAX
            } else {
                i64::MIN
            })
        },
        (a, b) => if numeric(a) && numeric(b) {
            r == Ok::<Arith, BuiltinError>(Arith::Floating(a, b))
        } else {
            arith_type(r, "+"@, cannot("cannot add "@, a, b))
        },
    })
}

/// `+(a, b)`: string and array concatenation, saturating INTEGER addition
/// (`W0015` on overflow), FLOAT addition handed to the float layer.
pub fn builtin_add(args: Vec<Value>) -> (r: Result<Arith, BuiltinError>)
    ensures
        builtin_add_post(args@, r),
{
    if args.len() != 2 {
        return Err(arity_error("+", args.len(), 2));
    }
    let mut args = args;
    let b = args.pop().unwrap();
    let a = args.pop().unwrap();
    match (a, b) {
        (Value::String(x), Value::String(y)) => {
            let mut s = x;
            s.append(y.as_str());
            Ok(Arith::Exact(Value::String(s)))
        },
        (Value::Array(x), Value::Array(y)) => {
            let mut out = x;
            let mut tail = y;
            out.append(&mut tail);
            Ok(Arith::Exact(Value::Array(out)))
        },
        (Value::Integer(x), Value::Integer(y)) => match x.checked_add(y) {
            Some(v) => Ok(Arith::Exact(Value::Integer(v))),
            None => {
                let bound = if x > 0 {
                    i64::MAX
                } else {
                    i64::MIN
                };
                Ok(Arith::Saturated(bound, overflow_warning("+", bound)))
            },
        },
        (a, b) => {
            if is_numeric(&a) && is_numeric(&b) {
                Ok(Arith::Floating(a, b))
            } else {
                let d = cannot_text("cannot add ", &a, &b);
                Err(type_error("+", d.as_str()))
            }
        },
    }
}


/// The message of the `E0034` error raised by `-(0, INTEGER_MIN)`.
pub open spec fn negate_min_detail() -> Seq<char> {
    "cannot negate INTEGER_MIN ("@ + decimal(i64::MIN as int)
        + "); use -INTEGER_MIN+1 or special-case"@
}

/// The `E0034` error for negating the least INTEGER.
fn neg_min_error() -> (e: BuiltinError)
    ensures
        is_builtin_error(e, ErrorCode::E0034, "NEG"@, negate_min_detail()),
{
    let mut d = concat2("cannot negate INTEGER_MIN (", int_text(i64::MIN).as_str());
    d.append("); use -INTEGER_MIN+1 or special-case");
    builtin_error(ErrorCode::E0034, "NEG", d.as_str())
}

/// What `builtin_sub` gives.
pub open spec fn builtin_sub_post(args: Seq<Value>, r: Result<Arith, BuiltinError>) -> bool {
    &&& (args.len() != 2 ==> arith_arity(r, "-"@, args.len() as nat))
    &&& (args.len() == 2 ==> match (args[0], args[1]) {
        (Value::Integer(x), Value::Integer(y)) => if x == 0 && y == i64::MIN {
            r matches Err(e) && is_builtin_error(e, ErrorCode::E0034, "NEG"@, negate_min_detail())
        } else if i64::MIN <= x - y <= i64::MAX {
            r == Ok::<Arith, BuiltinError>(Arith::Exact(Value::Integer((x - y) as i64)))
        } else {
            saturated_to( r, "-"@, if x > 0 || (x == 0 && y < 0) {
                i64::MAX
            } else {
                i64::MIN
            }, )
        },
        (a, b) => if numeric(a) && numeric(b) {
            r == Ok::<Arith, BuiltinError>(Arith::Floating(a, b))
        } else {
            arith_type(r, "-"@, cannot("cannot subtract "@, a, b))
        },
    })
}

/// `-(a, b)`: saturating INTEGER subtraction (`W0015` on overflow);
/// `-(0, INTEGER_MIN)` is the negation of the least INTEGER and raises
/// `E0034`; FLOAT subtraction is handed to the float layer.
pub fn builtin_sub(args: Vec<Value>) -> (r: Result<Arith, BuiltinError>)
    ensures
        builtin_sub_post(args@, r),
{
    if args.len() != 2 {
        return Err(arity_error("-", args.len(), 2));
    }
    let mut args = args;
    let b = args.pop().unwrap();
    let a = args.pop().unwrap();
    match (a, b) {
        (Value::Integer(x), Value::Integer(y)) => {
            if x == 0 && y == i64::MIN {
                return Err(neg_min_error());
            }
            match x.checked_sub(y) {
                Some(v) => Ok(Arith::Exact(Value::Integer(v))),
                None => {
                    let bound = if x > 0 || (x == 0 && y < 0) {
                        i64::MAX
                    } else {
                        i64::MIN
                    };
                    Ok(Arith::Saturated(bound, overflow_warning("-", bound)))
                },
            }
        },
        (a, b) => {
            if is_numeric(&a) && is_numeric(&b) {
                Ok(Arith::Floating(a, b))
            } else {
                let d = cannot_text("cannot subtract ", &a, &b);
                Err(type_error("-", d.as_str()))
            }
        },
    }
}

/// What `builtin_mul` gives.
pub open spec fn builtin_mul_post(args: Seq<Value>, r: Result<Arith, BuiltinError>) -> bool {
    &&& (args.len() != 2 ==> arith_arity(r, "*"@, args.len() as nat))
    &&& (args.len() == 2 ==> match (args[0], args[1]) {
        (Value::Integer(x), Value::Integer(y)) => if i64::MIN <= x * y <= i64::MAX {
            r == Ok::<Arith, BuiltinError>(Arith::Exact(Value::Integer((x * y) as i64)))
        } else {
            saturated_to( r, "*"@, if (x > 0 && y > 0) || (x < 0 && y < 0) {
                i64::MAX
            } else {
                i64::MIN
            }, )
        },
        (a, b) => if numeric(a) && numeric(b) {
            r == Ok::<Arith, BuiltinError>(Arith::Floating(a, b))
        } else {
            arith_type(r, "*"@, cannot("cannot multiply "@, a, b))
        },
    })
}

/// `*(a, b)`: saturating INTEGER multiplication (`W0015` on overflow, to
/// the bound of the product's sign); FLOAT multiplication is handed to the
/// float layer.
pub fn builtin_mul(args: Vec<Value>) -> (r: Result<Arith, BuiltinError>)
    ensures
        builtin_mul_post(args@, r),
{
    if args.len() != 2 {
        return Err(arity_error("*", args.len(), 2));
    }
    let mut args = args;
    let b = args.pop().unwrap();
    let a = args.pop().unwrap();
    match (a, b) {
        (Value::Integer(x), Value::Integer(y)) => match x.checked_mul(y) {
            Some(v) => Ok(Arith::Exact(Value::Integer(v))),
            None => {
                let bound = if (x > 0 && y > 0) || (x < 0 && y < 0) {
                    i64::MAX
                } else {
                    i64::MIN
                };
                Ok(Arith::Saturated(bound, overflow_warning("*", bound)))
            },
        },
        (a, b) => {
            if is_numeric(&a) && is_numeric(&b) {
                Ok(Arith::Floating(a, b))
            } else {
                let d = cannot_text("cannot multiply ", &a, &b);
                Err(type_error("*", d.as_str()))
            }
        },
    }
}

/// The bit pattern `bits` is a FLOAT zero (`0.0` or `-0.0`).
pub open spec fn float_is_zero(bits: u64) -> bool {
    bits == 0 || bits == 0x8000_0000_0000_0000u64
}

/// The number `v` is zero (INTEGER `0`, or a FLOAT zero of either sign).
pub open spec fn numeric_zero(v: Value) -> bool {
    v == Value::Integer(0) || (v matches Value::Float(bits) && float_is_zero(bits))
}

/// Integer division truncating toward zero.
pub open spec fn trunc_div(x: int, y: int) -> int {
    let q = (if x >= 0 { x } else { -x }) / (if y >= 0 { y } else { -y });
    if (x >= 0) == (y >= 0) {
        q
    } else {
        -q
    }
}

/// The remainder of `trunc_div`: it takes the sign of the dividend.
pub open spec fn trunc_rem(x: int, y: int) -> int {
    x - trunc_div(x, y) * y
}

/// What `builtin_div` gives.
pub open spec fn builtin_div_post(args: Seq<Value>, r: Result<Arith, BuiltinError>) -> bool {
    &&& (args.len() != 2 ==> arith_arity(r, "/"@, args.len() as nat))
    &&& (args.len() == 2 ==> match (args[0], args[1]) {
        (Value::Integer(x), Value::Integer(y)) => if y == 0 {
            r matches Err(e) && is_builtin_error(e, ErrorCode::E1003, "/"@, "division by zero"@)
        } else {
            r == Ok::<Arith, BuiltinError>( Arith::Exact(Value::Integer(trunc_div(x as int, y as int) as i64)), )
        },
        (a, b) => if numeric(a) && numeric(b) {
            if numeric_zero(b) {
                r matches Err(e) && is_builtin_error(e, ErrorCode::E1003, "/"@, "division by zero"@)
            } else {
                r == Ok::<Arith, BuiltinError>(Arith::Floating(a, b))
            }
        } else {
            arith_type(r, "/"@, cannot("cannot divide "@, a, b))
        },
    })
}

/// `/(a, b)`: INTEGER division truncating toward zero, `E1003` for a zero
/// divisor (INTEGER or FLOAT); other FLOAT division is handed to the float
/// layer.
pub fn builtin_div(args: Vec<Value>) -> (r: Result<Arith, BuiltinError>)
    requires
        !(args@.len() == 2 && args@[0] == Value::Integer(i64::MIN) && args@[1] == Value::Integer(-1i64)),
    ensures
        builtin_div_post(args@, r),
{
    if args.len() != 2 {
        return Err(arity_error("/", args.len(), 2));
    }
    let mut args = args;
    let b = args.pop().unwrap();
    let a = args.pop().unwrap();
    match (a, b) {
        (Value::Integer(x), Value::Integer(y)) => {
            if y == 0 {
                return Err(builtin_error(ErrorCode::E1003, "/", "division by zero"));
            }
            Ok(Arith::Exact(Value::Integer(int_div(x, y))))
        },
        (a, b) => {
            if is_numeric(&a) && is_numeric(&b) {
                let zero = match &b {
                    Value::Integer(y) => *y == 0,
                    Value::Float(bits) => *bits == 0 || *bits == 0x8000_0000_0000_0000u64,
                    _ => false,
                };
                if zero {
                    return Err(builtin_error(ErrorCode::E1003, "/", "division by zero"));
                }
                Ok(Arith::Floating(a, b))
            } else {
                let d = cannot_text("cannot divide ", &a, &b);
                Err(type_error("/", d.as_str()))
            }
        },
    }
}

fn magnitude(x: i64) -> (m: u64)
    ensures
        m as int == (if x >= 0 {
            x as int
        } else {
            -(x as int)
        }),
{
    if x >= 0 {
        x as u64
    } else if x == i64::MIN {
        9223372036854775808u64
    } else {
        (-x) as u64
    }
}

fn int_div(x: i64, y: i64) -> (q: i64)
    requires
        y != 0,
        !(x == i64::MIN && y == -1),
    ensures
        q == trunc_div(x as int, y as int),
{
    let mx = magnitude(x);
    let my = magnitude(y);
    let mq = mx / my;
    assert(mq <= mx);
    if (x >= 0) == (y >= 0) {
        assert(mq <= i64::MAX) by {
            if x == i64::MIN {
                assert(my >= 2);
                assert(mx / my <= mx / 2) by (nonlinear_arith)
                    requires
                        my >= 2,
                ;
            }
        }
        mq as i64
    } else {
        assert(mq <= 9223372036854775808u64);
        if mq == 9223372036854775808u64 {
            i64::MIN
        } else {
            -(mq as i64)
        }
    }
}

fn int_rem(x: i64, y: i64) -> (m: i64)
    requires
        y != 0,
        !(x == i64::MIN && y == -1),
    ensures
        m == trunc_rem(x as int, y as int),
{
    let q = int_div(x, y);
    let mx = magnitude(x);
    let my = magnitude(y);
    let mr = mx % my;
    assert(mx == (mx / my) * my + mr) by {
        vstd::arithmetic::div_mod::lemma_fundamental_div_mod(mx as int, my as int);
    }
    assert(mr < my);
    let ghost qi = trunc_div(x as int, y as int);
    assert(trunc_rem(x as int, y as int) == (if x >= 0 { mr as int } else { -(mr as int) })) by (nonlinear_arith)
        requires
            mx as int == (if x >= 0 { x as int } else { -(x as int) }),
            my as int == (if y >= 0 { y as int } else { -(y as int) }),
            mx == (mx / my) * my + mr,
            qi == (if (x >= 0) == (y >= 0) { (mx / my) as int } else { -((mx / my) as int) }),
            trunc_rem(x as int, y as int) == x - qi * y,
    ;
    if x >= 0 {
        mr as i64
    } else {
        -(mr as i64)
    }
}

/// What `builtin_mod` gives.
pub open spec fn builtin_mod_post(args: Seq<Value>, r: Result<Value, BuiltinError>) -> bool {
    &&& (args.len() != 2 ==> arity_failure(r, "%"@, args.len() as nat, 2))
    &&& (args.len() == 2 ==> match (args[0], args[1]) {
        (Value::Integer(x), Value::Integer(y)) => if y == 0 {
            r matches Err(e) && is_builtin_error(e, ErrorCode::E1003, "%"@, "modulo by zero"@)
        } else {
            r == Ok::<Value, BuiltinError>(Value::Integer(trunc_rem(x as int, y as int) as i64))
        },
        (a, b) => r matches Err(e) && is_type_error( e, "%"@, "expected two integers, got "@ + type_label_spec(&a)@ + " and "@ + type_label_spec(&b)@, ),
    })
}

/// `%(a, b)`: INTEGER remainder with the sign of the dividend; `E1003` for
/// a zero divisor; only INTEGER operands.
pub fn builtin_mod(args: Vec<Value>) -> (r: Result<Value, BuiltinError>)
    requires
        !(args@.len() == 2 && args@[0] == Value::Integer(i64::MIN) && args@[1] == Value::Integer(-1i64)),
    ensures
        builtin_mod_post(args@, r),
{
    if args.len() != 2 {
        return Err(arity_error("%", args.len(), 2));
    }
    let mut args = args;
    let b = args.pop().unwrap();
    let a = args.pop().unwrap();
    match (a, b) {
        (Value::Integer(x), Value::Integer(y)) => {
            if y == 0 {
                return Err(builtin_error(ErrorCode::E1003, "%", "modulo by zero"));
            }
            Ok(Value::Integer(int_rem(x, y)))
        },
        (a, b) => {
            let d = cannot_text("expected two integers, got ", &a, &b);
            Err(type_error("%", d.as_str()))
        },
    }
}

/// The sign bit of a FLOAT.
pub open spec fn sign_bit() -> u64 {
    0x8000_0000_0000_0000u64
}

/// What `builtin_neg` gives.
pub open spec fn builtin_neg_post(args: Seq<Value>, r: Result<Value, BuiltinError>) -> bool {
    &&& (args.len() != 1 ==> arity_failure(r, "NEG"@, args.len() as nat, 1))
    &&& (args.len() == 1 ==> match args[0] {
        Value::Integer(i) => if i == i64::MIN {
            r matches Err(e) && is_builtin_error(e, ErrorCode::E0034, "NEG"@, negate_min_detail())
        } else {
            r == Ok::<Value, BuiltinError>(Value::Integer((-i) as i64))
        },
        Value::Float(bits) => r == Ok::<Value, BuiltinError>(Value::Float(bits ^ sign_bit())),
        other => r matches Err(e) && is_type_error( e, "NEG"@, got("expected INTEGER or FLOAT, got "@, other), ),
    })
}

/// `NEG(x)`: INTEGER negation (`E0034` for the least INTEGER, which has no
/// negation), or the FLOAT with its sign flipped.
pub fn builtin_neg(args: Vec<Value>) -> (r: Result<Value, BuiltinError>)
    ensures
        builtin_neg_post(args@, r),
{
    if args.len() != 1 {
        return Err(arity_error("NEG", args.len(), 1));
    }
    let mut args = args;
    let v = args.pop().unwrap();
    match v {
        Value::Integer(i) => {
            if i == i64::MIN {
                return Err(neg_min_error());
            }
            Ok(Value::Integer(-i))
        },
        Value::Float(bits) => Ok(Value::Float(bits ^ 0x8000_0000_0000_0000u64)),
        other => Err(
            type_error("NEG", concat2("expected INTEGER or FLOAT, got ", type_label(&other)).as_str()),
        ),
    }
}

} // verus!
