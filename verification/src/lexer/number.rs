//! Decimal numerals: what a byte sequence denotes as a signed 64-bit
//! integer, and a parser proved against that statement.

use vstd::prelude::*;

verus! {

/// True for the ASCII digits `0` to `9`.
pub open spec fn is_digit_byte(b: u8) -> bool {
    '0' as u8 <= b <= '9' as u8
}

/// True when every byte of `s` is an ASCII digit.
pub open spec fn all_digits(s: Seq<u8>) -> bool {
    forall|i: int| 0 <= i < s.len() ==> is_digit_byte(#[trigger] s[i])
}

/// What one digit counts for; a byte that is no digit counts for nothing.
pub open spec fn digit_value(b: u8) -> nat {
    if is_digit_byte(b) {
        (b - '0' as u8) as nat
    } else {
        0
    }
}

/// The number that a run of digits denotes in base ten; the empty run
/// denotes zero.
pub open spec fn digits_value(s: Seq<u8>) -> nat
    decreases s.len(),
{
    if s.len() == 0 {
        0
    } else {
        digits_value(s.drop_last()) * 10 + digit_value(s.last())
    }
}

/// True when `s` begins with a plus or minus sign.
pub open spec fn has_sign(s: Seq<u8>) -> bool {
    s.len() > 0 && (s[0] == '-' as u8 || s[0] == '+' as u8)
}

/// The digits of a numeral: what follows its sign, if it has one.
pub open spec fn numeral_digits(s: Seq<u8>) -> Seq<u8> {
    if has_sign(s) {
        s.subrange(1, s.len() as int)
    } else {
        s
    }
}

/// The integer that a numeral denotes, whether or not it fits in 64 bits.
pub open spec fn numeral_value(s: Seq<u8>) -> int {
    if s.len() > 0 && s[0] == '-' as u8 {
        -(digits_value(numeral_digits(s)) as int)
    } else {
        digits_value(numeral_digits(s)) as int
    }
}

/// What a byte sequence denotes as a signed 64-bit integer: an optional
/// sign followed by at least one digit and nothing else, with a value in
/// range. Anything else denotes nothing.
pub open spec fn parse_i64_spec(s: Seq<u8>) -> Option<i64> {
    if numeral_digits(s).len() > 0 && all_digits(numeral_digits(s)) && i64::MIN <= numeral_value(s)
        <= i64::MAX {
        Some(numeral_value(s) as i64)
    } else {
        None
    }
}

/// Appending one digit multiplies the value by ten and adds the digit.
pub proof fn lemma_digits_value_push(s: Seq<u8>, i: int)
    requires
        0 <= i < s.len(),
    ensures
        digits_value(s.take(i + 1)) == digits_value(s.take(i)) * 10 + digit_value(s[i]),
        all_digits(s.take(i)) && is_digit_byte(s[i]) ==> all_digits(s.take(i + 1)),
{
    assert(s.take(i + 1).drop_last() =~= s.take(i));
}

/// A run of digits denotes at least as much as any of its prefixes.
pub proof fn lemma_digits_value_prefix(s: Seq<u8>, i: int)
    requires
        0 <= i <= s.len(),
    ensures
        digits_value(s.take(i)) <= digits_value(s),
    decreases s.len() - i,
{
    if i == s.len() {
        assert(s.take(i) =~= s);
    } else {
        lemma_digits_value_push(s, i);
        lemma_digits_value_prefix(s, i + 1);
    }
}

/// Parses a decimal numeral as a signed 64-bit integer.
pub fn parse_i64(s: &[u8]) -> (res: Option<i64>)
    ensures
        res == parse_i64_spec(s@),
{
    let len: usize = s.len();
    let negative: bool = len > 0 && s[0] == '-' as u8;
    let start: usize = if len > 0 && (s[0] == '-' as u8 || s[0] == '+' as u8) {
        1
    } else {
        0
    };
    if start == len {
        return None;
    }
    let ghost digits = numeral_digits(s@);
    assert(digits =~= s@.subrange(start as int, len as int));
    let limit: i128 = if negative {
        0x8000_0000_0000_0000
    } else {
        0x7fff_ffff_ffff_ffff
    };
    let mut total: i128 = 0;
    let mut i: usize = start;
    while i < len
        invariant
            start <= i <= len,
            len == s@.len(),
            digits == numeral_digits(s@),
            digits == s@.subrange(start as int, len as int),
            negative == (len > 0 && s@[0] == '-' as u8),
            all_digits(digits.take(i - start)),
            total == digits_value(digits.take(i - start)),
            0 <= total <= limit,
            limit == if negative { -(i64::MIN as int) } else { i64::MAX as int },
        decreases len - i,
    {
        let b: u8 = s[i];
        if b < '0' as u8 || b > '9' as u8 {
            assert(digits[i - start] == b);
            return None;
        }
        let next: i128 = total * 10 + (b - '0' as u8) as i128;
        proof {
            lemma_digits_value_push(digits, i - start);
        }
        if next > limit {
            proof {
                lemma_digits_value_prefix(digits, i - start + 1);
            }
            return None;
        }
        total = next;
        i += 1;
    }
    assert(digits.take(len - start) =~= digits);
    if negative {
        Some((-total) as i64)
    } else {
        Some(total as i64)
    }
}

} // verus!
