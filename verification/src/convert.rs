//! `INT`: conversion of a value to an INTEGER.
use vstd::arithmetic::div_mod::lemma_div_denominator;
use vstd::arithmetic::power2::{lemma_pow2_unfold, pow2};
use vstd::prelude::*;

use crate::builtins::{arity_failure, got, type_failure};
use crate::double::{
    double_less, double_lt, excess_bits, int_double_bits, int_to_double_bits, round_div_pow2, two52,
    two53, two63,
};
use crate::text::concat2;
use crate::value::{
    arity_error, builtin_error, is_builtin_error, type_error, type_label, BuiltinError, ErrorCode,
    Value,
};

verus! {

/// The value of the ASCII digit `c`.
pub open spec fn digit_value(c: char) -> int {
    c as int - 48
}

/// `c` is an ASCII decimal digit.
pub open spec fn is_digit(c: char) -> bool {
    48 <= c as u32 <= 57
}

/// The number that the decimal digits `ds` write.
pub open spec fn digits_value(ds: Seq<char>) -> int
    decreases ds.len(),
{
    if ds.len() == 0 {
        0
    } else {
        digits_value(ds.drop_last()) * 10 + digit_value(ds.last())
    }
}

/// The INTEGER that `s` writes, when it is an optional `+` or `-` followed
/// by one or more decimal digits.
pub open spec fn int_literal(s: Seq<char>) -> Option<int> {
    let signed = s.len() > 0 && (s[0] == '+' || s[0] == '-');
    let ds = if signed {
        s.drop_first()
    } else {
        s
    };
    if ds.len() > 0 && forall|i: int| 0 <= i < ds.len() ==> is_digit(#[trigger] ds[i]) {
        Some(
            if signed && s[0] == '-' {
                -digits_value(ds)
            } else {
                digits_value(ds)
            },
        )
    } else {
        None
    }
}

/// `str::parse::<i64>`, with the error's text.
///
/// Trusted: std documents `i64::from_str` (radix 10) as accepting exactly
/// an optional `+` or `-` sign followed by one or more digits, and failing
/// when the number does not fit in an `i64`; the contract says that, and
/// leaves the text of the error (its `Display`) unsaid.
#[verifier::external_body]
fn parse_i64(s: &str) -> (r: Result<i64, String>)
    ensures
        r matches Ok(n) ==> int_literal(s@) == Some(n as int),
        r is Err ==> match int_literal(s@) {
            Some(n) => n < i64::MIN || n > i64::MAX,
            None => true,
        },
{
    s.parse::<i64>().map_err(|e| e.to_string())
}

/// The integer part (toward zero) of the magnitude of the finite double
/// with encoding `b`.
pub open spec fn truncated_magnitude(b: u64) -> nat {
    let e = ((b as nat / two52()) % 2048) as int;
    let f = b as nat % two52();
    if e == 0 {
        0
    } else if e >= 1075 {
        ((two52() + f) * pow2((e - 1075) as nat)) as nat
    } else {
        (two52() + f) / pow2((1075 - e) as nat)
    }
}

/// `f as i64` for a double between -2^63 and 2^63: the integer part toward
/// zero, 2^63 itself saturating to the largest INTEGER.
pub open spec fn truncated(b: u64) -> int {
    let m = truncated_magnitude(b);
    if b as nat >= two63() {
        -(m as int)
    } else if m > i64::MAX {
        i64::MAX as int
    } else {
        m as int
    }
}

/// The FLOAT with encoding `b` lies outside the INTEGER range: NaN, an
/// infinity, above `i64::MAX as f64` or below `i64::MIN as f64`.
pub open spec fn out_of_int_range(b: u64) -> bool {
    let e = (b as nat / two52()) % 2048;
    e == 2047 || double_lt(int_double_bits(i64::MAX as int) as u64, b) || double_lt(
        b,
        int_double_bits(i64::MIN as int) as u64,
    )
}

proof fn lemma_extreme_bits()
    ensures
        int_double_bits(i64::MAX as int) == 1086 * two52(),
        int_double_bits(i64::MIN as int) == two63() + 1086 * two52(),
{
    vstd::arithmetic::power2::lemma2_to64();
    assert(excess_bits(9007199254740991) == 0);
    assert(excess_bits(18014398509481983) == 1);
    assert(excess_bits(36028797018963967) == 2);
    assert(excess_bits(72057594037927935) == 3);
    assert(excess_bits(144115188075855871) == 4);
    assert(excess_bits(288230376151711743) == 5);
    assert(excess_bits(576460752303423487) == 6);
    assert(excess_bits(1152921504606846975) == 7);
    assert(excess_bits(2305843009213693951) == 8);
    assert(excess_bits(4611686018427387903) == 9);
    assert(excess_bits(9223372036854775807) == 10);
    assert(excess_bits(4503599627370496) == 0);
    assert(excess_bits(9007199254740992) == 1);
    assert(excess_bits(18014398509481984) == 2);
    assert(excess_bits(36028797018963968) == 3);
    assert(excess_bits(72057594037927936) == 4);
    assert(excess_bits(144115188075855872) == 5);
    assert(excess_bits(288230376151711744) == 6);
    assert(excess_bits(576460752303423488) == 7);
    assert(excess_bits(1152921504606846976) == 8);
    assert(excess_bits(2305843009213693952) == 9);
    assert(excess_bits(4611686018427387904) == 10);
    assert(excess_bits(9223372036854775808) == 11);
    assert(pow2(10) == 1024);
    assert(pow2(11) == 2048);
    assert(round_div_pow2(9223372036854775807, 10) == two53());
    assert(round_div_pow2(9223372036854775808, 11) == two52());
}


proof fn lemma_in_range_fields(b: u64)
    requires
        !out_of_int_range(b),
    ensures
        (b as nat / two52()) % 2048 <= 1086,
        (b as nat / two52()) % 2048 == 1086 ==> b as nat % two52() == 0,
{
    lemma_extreme_bits();
    let e = (b as nat / two52()) % 2048;
    let f = b as nat % two52();
    let m = b as nat % two63();
    assert(m == e * two52() + f) by (nonlinear_arith)
        requires
            two52() == 4503599627370496,
            two63() == 9223372036854775808,
            e == (b as nat / two52()) % 2048,
            f == b as nat % two52(),
            m == b as nat % two63(),
    ;
    assert(m <= 1086 * two52());
    assert(e <= 1086) by (nonlinear_arith)
        requires
            m == e * two52() + f,
            m <= 1086 * two52(),
            two52() == 4503599627370496,
    ;
}

/// `f as i64` for a FLOAT in the INTEGER range, given by its encoding.
pub fn truncate_double(b: u64) -> (r: i64)
    requires
        !out_of_int_range(b),
    ensures
        r as int == truncated(b),
{
    proof {
        lemma_in_range_fields(b);
        vstd::arithmetic::power2::lemma2_to64();
    }
    let e: u64 = (b / 4503599627370496) % 2048;
    let f: u64 = b % 4503599627370496;
    let mag: u64 = if e == 0 {
        0
    } else if e >= 1075 {
        let mut m: u64 = 4503599627370496 + f;
        let mut k: u64 = 0;
        while k < e - 1075
            invariant
                1075 <= e <= 1086,
                e == 1086 ==> f == 0,
                f < two52(),
                k <= e - 1075,
                m == (two52() + f) * pow2(k as nat),
            decreases e - 1075 - k,
        {
            proof {
                lemma_pow2_unfold((k + 1) as nat);
                vstd::arithmetic::power2::lemma2_to64();
                assert(pow2(10) == 1024);
                if k < 10 {
                    vstd::arithmetic::power2::lemma_pow2_strictly_increases(k as nat, 10);
                }
                assert(m * 2 < 18446744073709551616) by (nonlinear_arith)
                    requires
                        m == (two52() + f) * pow2(k as nat),
                        pow2(k as nat) <= 1024,
                        f < two52(),
                        two52() == 4503599627370496,
                ;
                assert((two52() + f) * pow2((k + 1) as nat) == 2 * ((two52() + f) * pow2(k as nat))) by (nonlinear_arith)
                    requires
                        pow2((k + 1) as nat) == 2 * pow2(k as nat),
                ;
            }
            m = m * 2;
            k = k + 1;
        }
        m
    } else {
        let mut t: u64 = 4503599627370496 + f;
        let mut k: u64 = 0;
        assert(pow2(0) == 1);
        while k < 1075 - e
            invariant
                0 < e < 1075,
                f < two52(),
                k <= 1075 - e,
                t == ((two52() + f) as nat) / pow2(k as nat),
            decreases 1075 - e - k,
        {
            proof {
                vstd::arithmetic::power2::lemma_pow2_pos(k as nat);
                lemma_div_denominator((two52() + f) as int, pow2(k as nat) as int, 2);
                lemma_pow2_unfold((k + 1) as nat);
            }
            t = t / 2;
            k = k + 1;
        }
        t
    };
    proof {
        if e >= 1075 {
            assert(mag <= two63()) by {
                if e == 1086 {
                    assert(mag == two52() * pow2(11));
                } else {
                    if e < 1085 {
                        vstd::arithmetic::power2::lemma_pow2_strictly_increases((e - 1075) as nat, 10);
                    }
                    assert(mag <= two63()) by (nonlinear_arith)
                        requires
                            mag == (two52() + f) * pow2((e - 1075) as nat),
                            pow2((e - 1075) as nat) <= 1024,
                            f < two52(),
                            two52() == 4503599627370496,
                            two63() == 9223372036854775808,
                    ;
                }
            }
        } else if e > 0 {
            assert(mag <= two52() + f) by {
                vstd::arithmetic::power2::lemma_pow2_pos((1075 - e) as nat);
                vstd::arithmetic::div_mod::lemma_div_is_ordered_by_denominator(
                    (two52() + f) as int,
                    1,
                    pow2((1075 - e) as nat) as int,
                );
            }
        }
    }
    if b >= 9223372036854775808 {
        if mag == 9223372036854775808 {
            i64::MIN
        } else {
            -(mag as i64)
        }
    } else if mag > 9223372036854775807 {
        i64::MAX
    } else {
        mag as i64
    }
}


/// `v` is a STRING whose text is `t`.
pub open spec fn is_text(v: Value, t: Seq<char>) -> bool {
    v matches Value::String(x) && x@ == t
}

/// `r` is `ERR(["kind": "ParseError", "input": input, "reason": ..])`, the
/// result of a STRING that does not parse.
pub open spec fn is_parse_error(r: Value, input: Seq<char>) -> bool {
    r matches Value::ErrValue(p) && *p matches Value::Dict(entries) && entries@.len() == 3 && is_text(
        entries@[0].0,
        "kind"@,
    ) && is_text(entries@[0].1, "ParseError"@) && is_text(entries@[1].0, "input"@) && is_text(
        entries@[1].1,
        input,
    ) && is_text(entries@[2].0, "reason"@) && entries@[2].1 is String
}

/// What `builtin_int` gives.
pub open spec fn builtin_int_post(args: Seq<Value>, float_text: Seq<char>, r: Result<Value, BuiltinError>) -> bool {
    &&& (args.len() != 1 ==> arity_failure(r, "INT"@, args.len() as nat, 1))
    &&& (args.len() == 1 ==> match args[0] {
        Value::Integer(i) => r == Ok::<Value, BuiltinError>(Value::Integer(i)),
        Value::Float(b) => if out_of_int_range(b) {
            r matches Err(e) && is_builtin_error( e, ErrorCode::E0035, "INT"@, "FLOAT value "@ + float_text + " out of INTEGER range"@, )
        } else {
            r matches Ok(Value::Integer(n)) && n == truncated(b)
        },
        Value::String(s) => match int_literal(s@) {
            Some(n) => if i64::MIN <= n <= i64::MAX {
                r matches Ok(Value::Integer(m)) && m == n
            } else {
                r matches Ok(v) && is_parse_error(v, s@)
            },
            None => r matches Ok(v) && is_parse_error(v, s@),
        },
        other => type_failure(r, "INT"@, "cannot convert "@ + crate::value::type_label_spec(&other)@ + " to INTEGER"@),
    })
}

/// `INT(x)`: an INTEGER as it is; a FLOAT truncated toward zero (`E0035`
/// when it is NaN, infinite or outside the INTEGER range, the error showing
/// the FLOAT as `float_text`); a STRING holding an optional sign and
/// decimal digits as that INTEGER, any other STRING as a `ParseError`
/// `ERR`; `E0030` for other values.
pub fn builtin_int(args: Vec<Value>, float_text: &str) -> (r: Result<Value, BuiltinError>)
    ensures
        builtin_int_post(args@, float_text@, r),
{
    if args.len() != 1 {
        return Err(arity_error("INT", args.len(), 1));
    }
    match &args[0] {
        Value::Integer(i) => Ok(Value::Integer(*i)),
        Value::Float(b) => {
            let b = *b;
            let nonfinite = (b / 4503599627370496) % 2048 == 2047;
            if nonfinite || double_less(int_to_double_bits(i64::MAX), b) || double_less(
                b,
                int_to_double_bits(i64::MIN),
            ) {
                let mut d = concat2("FLOAT value ", float_text);
                d.append(" out of INTEGER range");
                return Err(builtin_error(ErrorCode::E0035, "INT", d.as_str()));
            }
            Ok(Value::Integer(truncate_double(b)))
        },
        Value::String(s) => match parse_i64(s.as_str()) {
            Ok(n) => Ok(Value::Integer(n)),
            Err(reason) => Ok(parse_error_value(s.as_str(), reason)),
        },
        other => {
            let mut d = concat2("cannot convert ", type_label(other));
            d.append(" to INTEGER");
            Err(type_error("INT", d.as_str()))
        },
    }
}


/// `ERR(["kind": "ParseError", "input": input, "reason": reason])`: what
/// `INT` and `FLOAT` give for a STRING that does not parse.
pub fn parse_error_value(input: &str, reason: String) -> (r: Value)
    ensures
        is_parse_error(r, input@),
        r matches Value::ErrValue(p) && (*p matches Value::Dict(entries) && (entries@[2].1 matches Value::String(t)
            && t@ == reason@)),
{
    let entries = vec![
        (Value::String(String::from_str("kind")), Value::String(String::from_str("ParseError"))),
        (Value::String(String::from_str("input")), Value::String(String::from_str(input))),
        (Value::String(String::from_str("reason")), Value::String(reason)),
    ];
    Value::ErrValue(Box::new(Value::Dict(entries)))
}

} // verus!
