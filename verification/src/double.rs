//! IEEE 754 doubles held as their 64-bit encodings: equality, order, and
//! the conversion of an INTEGER to the nearest double, all on the bits.
use vstd::arithmetic::div_mod::{lemma_div_denominator, lemma_fundamental_div_mod};
use vstd::arithmetic::power2::{lemma_pow2_pos, lemma_pow2_strictly_increases, lemma_pow2_unfold, pow2};
use vstd::prelude::*;

verus! {

/// 2^52: the weight of the lowest exponent bit; below it lies the fraction.
pub open spec fn two52() -> nat {
    4503599627370496
}

/// 2^53: the first integer past the doubles' 53-bit significands.
pub open spec fn two53() -> nat {
    9007199254740992
}

/// 2^63: the sign bit.
pub open spec fn two63() -> nat {
    9223372036854775808
}

/// The biased exponent field of the encoding `b`.
pub open spec fn exponent_field(b: u64) -> nat {
    (b as nat / two52()) % 2048
}

/// The encoding `b` is a NaN: all exponent bits set and a non-zero fraction.
pub open spec fn is_nan(b: u64) -> bool {
    exponent_field(b) == 2047 && b as nat % two52() != 0
}

/// The encoding without its sign bit.
pub open spec fn magnitude(b: u64) -> nat {
    b as nat % two63()
}

/// The position of a non-NaN double in the order of the reals: IEEE 754
/// orders doubles by sign and then by magnitude of the encoding, with
/// +0 and -0 at the same place.
pub open spec fn order_key(b: u64) -> int {
    if b as nat >= two63() {
        -magnitude(b)
    } else {
        magnitude(b) as int
    }
}

/// IEEE 754 `==` on two doubles: false when either is NaN, otherwise
/// equal values (so +0 equals -0).
pub open spec fn double_eq(a: u64, b: u64) -> bool {
    !is_nan(a) && !is_nan(b) && order_key(a) == order_key(b)
}

/// IEEE 754 `<` on two doubles: false when either is NaN.
pub open spec fn double_lt(a: u64, b: u64) -> bool {
    !is_nan(a) && !is_nan(b) && order_key(a) < order_key(b)
}

/// How many halvings bring `a` below 2^53.
pub open spec fn excess_bits(a: nat) -> nat
    decreases a,
{
    if a < two53() {
        0
    } else {
        1 + excess_bits(a / 2)
    }
}

/// How many doublings bring a positive `a` to at least 2^52.
pub open spec fn missing_bits(a: nat) -> nat
    decreases two53() - a,
{
    if a == 0 || a >= two52() {
        0
    } else {
        1 + missing_bits(2 * a)
    }
}

/// The integer nearest to `a / 2^k`, ties going to the even one.
pub open spec fn round_div_pow2(a: nat, k: nat) -> nat {
    if k == 0 {
        a
    } else {
        let d = pow2(k);
        let q = a / d;
        let r = a % d;
        if r > d / 2 || (r == d / 2 && q % 2 == 1) {
            q + 1
        } else {
            q
        }
    }
}

/// The encoding of the double nearest to the positive integer `a`, ties
/// going to the even significand: a 53-bit significand `m` (its top bit
/// implicit) and the biased exponent `e`, for the value `m * 2^(e - 1075)`.
pub open spec fn nat_double_bits(a: nat) -> int {
    let k = excess_bits(a);
    if k == 0 {
        let j = missing_bits(a);
        (1075 - j) * two52() + (a * pow2(j) - two52())
    } else {
        let q = round_div_pow2(a, k);
        if q == two53() {
            ((1076 + k) * two52()) as int
        } else {
            (1075 + k) * two52() + (q - two52())
        }
    }
}

/// The encoding of `x as f64`: the double nearest to the integer `x`,
/// ties to even.
pub open spec fn int_double_bits(x: int) -> int {
    if x == 0 {
        0
    } else if x > 0 {
        nat_double_bits(x as nat)
    } else {
        two63() + nat_double_bits((-x) as nat)
    }
}

proof fn lemma_two_powers()
    ensures
        pow2(52) == two52(),
        pow2(53) == two53(),
{
    vstd::arithmetic::power2::lemma2_to64_rest();
}

/// The encoding of the double nearest to the positive integer `a`.
fn positive_double_bits(a: u64) -> (r: u64)
    requires
        a > 0,
    ensures
        r as int == nat_double_bits(a as nat),
        r < two63(),
{
    proof {
        lemma_two_powers();
    }
    if a < 9007199254740992 {
        let mut m: u64 = a;
        let mut j: u64 = 0;
        assert(pow2(0) == 1) by {
            vstd::arithmetic::power2::lemma2_to64();
        }
        while m < 4503599627370496
            invariant
                a > 0,
                a < two53(),
                pow2(52) == two52(),
                0 < m < two53(),
                j <= 52,
                m == a * pow2(j as nat),
                missing_bits(a as nat) == j + missing_bits(m as nat),
            decreases two53() - m,
        {
            proof {
                lemma_pow2_unfold((j + 1) as nat);
                lemma_pow2_pos(j as nat);
                if j >= 52 {
                    if j > 52 {
                        lemma_pow2_strictly_increases(52, j as nat);
                    }
                    assert(a * pow2(j as nat) >= pow2(j as nat)) by (nonlinear_arith)
                        requires
                            a >= 1,
                            pow2(j as nat) > 0,
                    ;
                }
                assert(a * pow2((j + 1) as nat) == 2 * (a * pow2(j as nat))) by (nonlinear_arith)
                    requires
                        pow2((j + 1) as nat) == 2 * pow2(j as nat),
                ;
            }
            m = m * 2;
            j = j + 1;
        }
        assert(excess_bits(a as nat) == 0);
        let e: u64 = 1075 - j;
        e * 4503599627370496 + (m - 4503599627370496)
    } else {
        let mut t: u64 = a;
        let mut d: u64 = 1;
        let mut k: u64 = 0;
        assert(pow2(0) == 1) by {
            vstd::arithmetic::power2::lemma2_to64();
        }
        while t >= 9007199254740992
            invariant
                pow2(52) == two52(),
                pow2(53) == two53(),
                a >= two53(),
                d == pow2(k as nat),
                d > 0,
                t == a as nat / d as nat,
                d * t <= a,
                k <= 11,
                t >= two52(),
                excess_bits(a as nat) == k + excess_bits(t as nat),
            decreases t,
        {
            proof {
                lemma_div_denominator(a as int, d as int, 2);
                lemma_pow2_unfold((k + 1) as nat);
                lemma_fundamental_div_mod(t as int, 2);
                lemma_fundamental_div_mod(a as int, (d * 2) as int);
                if k >= 11 {
                    // 2^11 * 2^53 > 2^64 > a, so t could not be this large.
                    vstd::arithmetic::power2::lemma2_to64();
                    if k > 11 {
                        lemma_pow2_strictly_increases(11, k as nat);
                    }
                    assert(d * t >= 2048 * two53()) by (nonlinear_arith)
                        requires
                            d >= 2048,
                            t >= two53(),
                    ;
                }
                assert(d * 2 <= d * t) by (nonlinear_arith)
                    requires
                        d > 0,
                        t >= 2,
                ;
                assert(d * 2 * (t / 2) <= d * t) by (nonlinear_arith)
                    requires
                        d > 0,
                        t >= 0,
                ;
            }
            t = t / 2;
            d = d * 2;
            k = k + 1;
        }
        let r = a % d;
        let h = d / 2;
        let q: u64 = if r > h || (r == h && t % 2 == 1) {
            t + 1
        } else {
            t
        };
        proof {
            assert(k > 0);
            assert(round_div_pow2(a as nat, k as nat) == q);
        }
        if q == 9007199254740992 {
            (1076 + k) * 4503599627370496
        } else {
            (1075 + k) * 4503599627370496 + (q - 4503599627370496)
        }
    }
}

/// The encoding of `x as f64`.
pub fn int_to_double_bits(x: i64) -> (r: u64)
    ensures
        r as int == int_double_bits(x as int),
{
    if x == 0 {
        0
    } else if x > 0 {
        positive_double_bits(x as u64)
    } else {
        let m: u64 = if x == i64::MIN {
            9223372036854775808u64
        } else {
            (-x) as u64
        };
        let b = positive_double_bits(m);
        9223372036854775808u64 + b
    }
}

/// IEEE 754 `==` on two doubles given by their encodings.
pub fn double_equal(a: u64, b: u64) -> (r: bool)
    ensures
        r == double_eq(a, b),
{
    let nan_a = (a / 4503599627370496) % 2048 == 2047 && a % 4503599627370496 != 0;
    let nan_b = (b / 4503599627370496) % 2048 == 2047 && b % 4503599627370496 != 0;
    if nan_a || nan_b {
        return false;
    }
    let ma = a % 9223372036854775808;
    let mb = b % 9223372036854775808;
    let na = a >= 9223372036854775808;
    let nb = b >= 9223372036854775808;
    if na == nb {
        ma == mb
    } else {
        ma == 0 && mb == 0
    }
}

/// IEEE 754 `<` on two doubles given by their encodings.
pub fn double_less(a: u64, b: u64) -> (r: bool)
    ensures
        r == double_lt(a, b),
{
    let nan_a = (a / 4503599627370496) % 2048 == 2047 && a % 4503599627370496 != 0;
    let nan_b = (b / 4503599627370496) % 2048 == 2047 && b % 4503599627370496 != 0;
    if nan_a || nan_b {
        return false;
    }
    let ma = a % 9223372036854775808;
    let mb = b % 9223372036854775808;
    let na = a >= 9223372036854775808;
    let nb = b >= 9223372036854775808;
    if !na && !nb {
        ma < mb
    } else if na && nb {
        mb < ma
    } else if na {
        ma != 0 || mb != 0
    } else {
        false
    }
}

} // verus!
