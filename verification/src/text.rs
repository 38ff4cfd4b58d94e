use vstd::prelude::*;

verus! {

/// The characters of `s`, in order.
pub(crate) fn chars_of(s: &str) -> (v: Vec<char>)
    ensures
        v@ == s@,
{
    broadcast use vstd::string::axiom_spec_iter;
    let mut v: Vec<char> = Vec::new();
    for c in it: s.chars()
        invariant
            it.seq() == s@,
            v@ == it.seq().take(it.index() as int),
    {
        v.push(c);
        assert(v@ =~= it.seq().take(it.index() + 1));
    }
    assert(v@ =~= s@);
    v
}

/// The string whose characters are `cs`, in order.
///
/// Trusted: collects the characters into a `String` through
/// `FromIterator<char>`; std documents that this appends each character.
#[verifier::external_body]
pub(crate) fn string_from_chars(cs: &[char]) -> (s: String)
    ensures
        s@ == cs@,
{
    cs.iter().collect()
}


/// String equality, compared through the strings' UTF-8 bytes.
pub(crate) fn str_eq(a: &str, b: &str) -> (r: bool)
    ensures
        r == (a@ == b@),
{
    let x = a.as_bytes();
    let y = b.as_bytes();
    proof {
        vstd::utf8::encode_utf8_decode_utf8(a@);
        vstd::utf8::encode_utf8_decode_utf8(b@);
    }
    if x.len() != y.len() {
        return false;
    }
    let mut i: usize = 0;
    while i < x.len()
        invariant
            x@.len() == y@.len(),
            x@ == vstd::utf8::encode_utf8(a@),
            y@ == vstd::utf8::encode_utf8(b@),
            i <= x@.len(),
            forall|k: int| 0 <= k < i ==> x@[k] == y@[k],
        decreases x@.len() - i,
    {
        if x[i] != y[i] {
            return false;
        }
        i = i + 1;
    }
    assert(x@ =~= y@);
    true
}


/// The decimal digit character for `d` (0 to 9).
pub open spec fn digit_char(d: nat) -> char {
    (48 + d) as char
}

/// The decimal digits of `n`, most significant first, without leading
/// zeros (`0` is written `0`).
pub open spec fn digits(n: nat) -> Seq<char>
    decreases n,
{
    if n < 10 {
        seq![digit_char(n)]
    } else {
        digits(n / 10).push(digit_char(n % 10))
    }
}

/// The decimal text of `n`, with a leading `-` when it is negative.
pub open spec fn decimal(n: int) -> Seq<char> {
    if n < 0 {
        seq!['-'] + digits((-n) as nat)
    } else {
        digits(n as nat)
    }
}

/// The decimal digits of `n`, most significant first.
fn digit_chars(n: u64) -> (v: Vec<char>)
    ensures
        v@ == digits(n as nat),
    decreases n,
{
    let d: u8 = (n % 10) as u8;
    let c: char = (48u8 + d) as char;
    if n < 10 {
        vec![c]
    } else {
        let mut v = digit_chars(n / 10);
        v.push(c);
        v
    }
}

/// The decimal text of an unsigned number.
pub fn u64_text(n: u64) -> (s: String)
    ensures
        s@ == decimal(n as int),
{
    let v = digit_chars(n);
    string_from_chars(v.as_slice())
}

/// The decimal text of an integer, with a leading `-` when it is negative.
pub fn int_text(n: i64) -> (s: String)
    ensures
        s@ == decimal(n as int),
{
    if n < 0 {
        let m: u64 = if n == i64::MIN { 9223372036854775808u64 } else { (-n) as u64 };
        let mut v = vec!['-'];
        let mut d = digit_chars(m);
        v.append(&mut d);
        assert(v@ =~= seq!['-'] + digits((-n) as nat));
        string_from_chars(v.as_slice())
    } else {
        u64_text(n as u64)
    }
}

/// The decimal text of a count.
pub fn count_text(n: usize) -> (s: String)
    ensures
        s@ == decimal(n as int),
{
    u64_text(n as u64)
}


/// `a` followed by `b`.
pub fn concat2(a: &str, b: &str) -> (s: String)
    ensures
        s@ == a@ + b@,
{
    let mut s = String::from_str(a);
    s.append(b);
    s
}


/// The upper-case hexadecimal digit for `d` (0 to 15).
pub open spec fn hex_char(d: nat) -> char {
    if d < 10 {
        (48 + d) as char
    } else {
        (55 + d) as char
    }
}

/// The upper-case hexadecimal digits of `n`, most significant first.
pub open spec fn hex_digits(n: nat) -> Seq<char>
    decreases n,
{
    if n < 16 {
        seq![hex_char(n)]
    } else {
        hex_digits(n / 16).push(hex_char(n % 16))
    }
}

/// The upper-case hexadecimal text of `n`, padded with `0` to at least
/// four digits.
pub open spec fn hex4(n: nat) -> Seq<char> {
    let d = hex_digits(n);
    if d.len() >= 4 {
        d
    } else {
        Seq::new((4 - d.len()) as nat, |i: int| '0') + d
    }
}

/// The upper-case hexadecimal digits of `n`.
fn hex_digit_chars(n: u64) -> (v: Vec<char>)
    ensures
        v@ == hex_digits(n as nat),
    decreases n,
{
    let d: u8 = (n % 16) as u8;
    let c: char = if d < 10 {
        (48u8 + d) as char
    } else {
        (55u8 + d) as char
    };
    if n < 16 {
        vec![c]
    } else {
        let mut v = hex_digit_chars(n / 16);
        v.push(c);
        v
    }
}

/// Upper-case hexadecimal text of `n`, at least four digits wide.
pub(crate) fn hex4_text(n: i64) -> (s: String)
    requires
        n >= 0,
    ensures
        s@ == hex4(n as nat),
{
    let digits = hex_digit_chars(n as u64);
    let mut v: Vec<char> = Vec::new();
    let mut k: usize = digits.len();
    while k < 4
        invariant
            digits.len() <= k <= 4 || (digits.len() > 4 && k == digits.len()),
            v@ == Seq::new((k - digits.len()) as nat, |i: int| '0'),
        decreases 4 - k,
    {
        v.push('0');
        assert(v@ =~= Seq::new((k + 1 - digits.len()) as nat, |i: int| '0'));
        k = k + 1;
    }
    let mut i: usize = 0;
    let ghost pad = v@;
    while i < digits.len()
        invariant
            i <= digits@.len(),
            v@ == pad + digits@.take(i as int),
        decreases digits@.len() - i,
    {
        v.push(digits[i]);
        assert(v@ =~= pad + digits@.take(i + 1));
        i = i + 1;
    }
    assert(digits@.take(digits@.len() as int) =~= digits@);
    proof {
        if digits@.len() >= 4 {
            assert(pad =~= Seq::<char>::empty());
            assert(v@ =~= hex4(n as nat));
        } else {
            assert(v@ =~= hex4(n as nat));
        }
    }
    string_from_chars(v.as_slice())
}

/// The character with code point `u`, if `u` is a Unicode scalar value.
///
/// Trusted: `char::from_u32`, which std documents as returning `None`
/// exactly for values above `0x10FFFF` and for the surrogates
/// `0xD800..=0xDFFF`, and otherwise the character with that code point.
#[verifier::external_body]
pub(crate) fn char_from_u32(u: u32) -> (r: Option<char>)
    ensures
        r is Some <==> (u <= 0x10FFFF && !(0xD800 <= u <= 0xDFFF)),
        r matches Some(c) ==> c as u32 == u,
{
    char::from_u32(u)
}

} // verus!
