//! Signed integers as ASCII decimal text.
//!
//! ```text
//! int    : (-)?(digit)+
//! digit  : 0 | 1 | 2 | 3 | 4 | 5 | 6 | 7 | 8 | 9
//! ```
//!
//! The text never carries the newline that ends a line on the wire; whoever
//! reads or writes a line strips or appends it.

use vstd::prelude::*;

verus! {

/// Why a text is not an integer.
#[derive(Debug, PartialEq, Eq, Clone, Copy, Structural)]
pub enum DecodeError {
    /// The text is empty, is a bare `-`, holds something that is no digit, or
    /// names a value that does not fit in 32 bits.
    Malformed,
}

/// The byte `-`.
pub const MINUS: u8 = 45;

/// The byte `0`.
pub const ZERO: u8 = 48;

/// The byte `9`.
pub const NINE: u8 = 57;

/// Whether `b` is an ASCII digit.
pub open spec fn is_digit(b: u8) -> bool {
    ZERO <= b <= NINE
}

/// The number a digit stands for; a byte that is no digit counts as zero.
pub open spec fn digit_value(b: u8) -> nat {
    if is_digit(b) {
        (b - ZERO) as nat
    } else {
        0
    }
}

/// The ASCII digit for `d`, for `d` from 0 to 9.
pub open spec fn digit_byte(d: nat) -> u8 {
    (ZERO + d) as u8
}

/// Whether `s` holds nothing but digits.
pub open spec fn all_digits(s: Seq<u8>) -> bool {
    forall|i: int| 0 <= i < s.len() ==> is_digit(#[trigger] s[i])
}

/// The digits of `n`, most significant first; no digit at all for zero.
pub open spec fn digits_of(n: nat) -> Seq<u8>
    decreases n,
{
    if n == 0 {
        Seq::empty()
    } else {
        digits_of(n / 10).push(digit_byte(n % 10))
    }
}

/// `n` in decimal without leading zeros: `"0"` for zero.
pub open spec fn decimal(n: nat) -> Seq<u8> {
    if n == 0 {
        seq![ZERO]
    } else {
        digits_of(n)
    }
}

/// The text of `x`: its magnitude in decimal, behind a `-` exactly when `x`
/// is negative.
pub open spec fn encoding(x: int) -> Seq<u8> {
    if x < 0 {
        seq![MINUS] + decimal((-x) as nat)
    } else {
        decimal(x as nat)
    }
}

/// The number that a run of digits denotes, most significant digit first.
pub open spec fn digits_value(s: Seq<u8>) -> nat
    decreases s.len(),
{
    if s.len() == 0 {
        0
    } else {
        digits_value(s.drop_last()) * 10 + digit_value(s.last())
    }
}

/// Whether `s` starts with `-`.
pub open spec fn has_sign(s: Seq<u8>) -> bool {
    s.len() > 0 && s[0] == MINUS
}

/// What follows the optional sign.
pub open spec fn digit_part(s: Seq<u8>) -> Seq<u8> {
    if has_sign(s) {
        s.skip(1)
    } else {
        s
    }
}

/// `s` matches `(-)?(digit)+`.
pub open spec fn is_integer_text(s: Seq<u8>) -> bool {
    digit_part(s).len() > 0 && all_digits(digit_part(s))
}

/// The value that `s` spells: that of its digits, negated behind a `-`.
pub open spec fn text_value(s: Seq<u8>) -> int {
    if has_sign(s) {
        -(digits_value(digit_part(s)) as int)
    } else {
        digits_value(digit_part(s)) as int
    }
}

/// The integer that `s` denotes, if `s` matches the grammar and the value
/// fits in 32 bits.
pub open spec fn decoding(s: Seq<u8>) -> Option<int> {
    if is_integer_text(s) && i32::MIN <= text_value(s) <= i32::MAX {
        Some(text_value(s))
    } else {
        None
    }
}

/// The ASCII digit for a number from 0 to 9.
pub fn encode_digit(x: i32) -> (b: u8)
    requires
        0 <= x <= 9,
    ensures
        b == digit_byte(x as nat),
        is_digit(b),
        digit_value(b) == x,
{
    match x {
        0 => 48u8,
        1 => 49u8,
        2 => 50u8,
        3 => 51u8,
        4 => 52u8,
        5 => 53u8,
        6 => 54u8,
        7 => 55u8,
        8 => 56u8,
        _ => 57u8,
    }
}

/// The magnitude of `x`. It is taken in 32 unsigned bits, where the negation
/// of the smallest value does not overflow.
fn magnitude(x: i32) -> (m: u32)
    ensures
        m == if x < 0 { -(x as int) } else { x as int },
{
    if x < 0 {
        let wide: i64 = 0 - (x as i64);
        wide as u32
    } else {
        x as u32
    }
}

/// Writes `x` as text: decimal, no leading zeros, a leading `-` exactly when
/// `x` is negative, and `0` for zero. No newline is appended.
pub fn format_i32(x: i32) -> (cs: Vec<u8>)
    ensures
        cs@ == encoding(x as int),
{
    let mut cs: Vec<u8> = Vec::new();
    if x == 0 {
        cs.push(ZERO);
        assert(cs@ =~= seq![ZERO]);
        return cs;
    }
    let whole: u32 = magnitude(x);
    let mut rest: u32 = whole;
    while rest > 0
        invariant
            digits_of(whole as nat) == digits_of(rest as nat) + cs@,
        decreases rest,
    {
        let min_digit: u32 = rest % 10;
        let b: u8 = encode_digit(min_digit as i32);
        proof {
            let shorter = digits_of((rest / 10) as nat);
            assert(digits_of(rest as nat) == shorter.push(b));
            assert(shorter.push(b) + cs@ =~= shorter + cs@.insert(0, b));
        }
        cs.insert(0, b);
        rest = rest / 10;
    }
    assert(cs@ =~= digits_of(whole as nat));
    if x < 0 {
        proof {
            assert(seq![MINUS] + cs@ =~= cs@.insert(0, MINUS));
        }
        cs.insert(0, MINUS);
    }
    cs
}

/// A run of digits is worth at least as much as any of its prefixes.
pub proof fn lemma_prefix_value(s: Seq<u8>, k: int)
    requires
        0 <= k <= s.len(),
    ensures
        digits_value(s.take(k)) <= digits_value(s),
    decreases s.len(),
{
    if k == s.len() {
        assert(s.take(k) =~= s);
    } else {
        assert(s.drop_last().take(k) =~= s.take(k));
        lemma_prefix_value(s.drop_last(), k);
    }
}

/// Reads the integer that `bytes` spells, by the grammar `(-)?(digit)+`.
/// The caller has taken off the newline that ended the line. Anything else is
/// malformed: the empty text, a bare `-`, a byte that is no digit (a `+`
/// too), and a value outside the 32-bit signed range.
pub fn decode(bytes: &[u8]) -> (r: Result<i32, DecodeError>)
    ensures
        match r {
            Ok(v) => decoding(bytes@) == Some(v as int),
            Err(e) => e == DecodeError::Malformed && decoding(bytes@) is None,
        },
{
    let n: usize = bytes.len();
    let negative: bool = n > 0 && bytes[0] == MINUS;
    let start: usize = if negative { 1 } else { 0 };
    if start >= n {
        return Err(DecodeError::Malformed);
    }
    let ghost body = digit_part(bytes@);
    let mut i: usize = start;
    let mut value: i64 = 0;
    while i < n
        invariant
            start <= i <= n,
            n == bytes@.len(),
            start == (if negative { 1int } else { 0int }),
            negative == has_sign(bytes@),
            body == digit_part(bytes@),
            body.len() == n - start,
            forall|j: int| 0 <= j < i - start ==> is_digit(#[trigger] body[j]),
            value == digits_value(body.take(i - start)),
            0 <= value <= 2147483648,
        decreases n - i,
    {
        let b: u8 = bytes[i];
        assert(b == body[i - start]);
        if b < ZERO || b > NINE {
            return Err(DecodeError::Malformed);
        }
        proof {
            assert(body.take(i - start + 1).drop_last() =~= body.take(i - start));
        }
        value = value * 10 + (b - ZERO) as i64;
        if value > 2147483648 {
            proof {
                lemma_prefix_value(body, i - start + 1);
            }
            return Err(DecodeError::Malformed);
        }
        i = i + 1;
    }
    assert(body.take(i - start) =~= body);
    if negative {
        Ok((0 - value) as i32)
    } else if value > 2147483647 {
        Err(DecodeError::Malformed)
    } else {
        Ok(value as i32)
    }
}

/// Reads the integer that `xs` spells, as [`decode`] does: by the grammar
/// `(-)?(digit)+`, with everything else malformed.
pub fn parse_i32(xs: Vec<u8>) -> (r: Result<i32, DecodeError>)
    ensures
        match r {
            Ok(v) => decoding(xs@) == Some(v as int),
            Err(e) => e == DecodeError::Malformed && decoding(xs@) is None,
        },
{
    decode(xs.as_slice())
}

/// The digits of a positive number: at least one, nothing but digits, the
/// first of them not `0`, and together worth the number.
pub proof fn lemma_digits_of(n: nat)
    requires
        n > 0,
    ensures
        digits_of(n).len() > 0,
        all_digits(digits_of(n)),
        digits_of(n)[0] != ZERO,
        digits_value(digits_of(n)) == n,
    decreases n,
{
    let shorter = digits_of(n / 10);
    let last = digit_byte(n % 10);
    assert(digits_of(n) == shorter.push(last));
    assert(digits_of(n).drop_last() =~= shorter);
    assert(is_digit(last) && digit_value(last) == n % 10);
    if n / 10 > 0 {
        lemma_digits_of(n / 10);
    } else {
        assert(shorter.len() == 0);
    }
    assert(digits_of(n).last() == last);
    assert(digits_value(digits_of(n)) == digits_value(shorter) * 10 + digit_value(last));
    assert(digits_value(shorter) == n / 10);
}

/// What the text of an integer looks like: it matches the grammar, it starts
/// with `-` exactly when the integer is negative, and its digits start with
/// `0` only when the integer is zero, whose text is `0` alone.
pub proof fn lemma_encoding_shape(x: int)
    ensures
        is_integer_text(encoding(x)),
        has_sign(encoding(x)) <==> x < 0,
        digit_part(encoding(x))[0] == ZERO <==> x == 0,
        encoding(0) == seq![ZERO],
        text_value(encoding(x)) == x,
{
    let magnitude: nat = if x < 0 { (-x) as nat } else { x as nat };
    if magnitude > 0 {
        lemma_digits_of(magnitude);
    } else {
        assert(digits_value(seq![ZERO].drop_last()) == 0);
    }
    if x < 0 {
        assert(encoding(x).skip(1) =~= decimal(magnitude));
    }
}

/// Writing an integer and reading the text back gives the integer again, for
/// every 32-bit value, the smallest included.
pub proof fn lemma_decode_encode(x: i32)
    ensures
        decoding(encoding(x as int)) == Some(x as int),
{
    lemma_encoding_shape(x as int);
}

} // verus!
