//! Numbers in decimal notation.

use vstd::prelude::*;

verus! {

/// The character of a decimal digit.
pub open spec fn digit(d: int) -> char {
    if d == 0 {
        '0'
    } else if d == 1 {
        '1'
    } else if d == 2 {
        '2'
    } else if d == 3 {
        '3'
    } else if d == 4 {
        '4'
    } else if d == 5 {
        '5'
    } else if d == 6 {
        '6'
    } else if d == 7 {
        '7'
    } else if d == 8 {
        '8'
    } else {
        '9'
    }
}

/// The value of a digit character, if it is one.
pub open spec fn digit_value(c: char) -> Option<int> {
    if '0' <= c <= '9' {
        Some(c as int - '0' as int)
    } else {
        None
    }
}

/// `n` in decimal notation, without leading zeros.
pub open spec fn decimal(n: nat) -> Seq<char>
    decreases n,
{
    if n < 10 {
        seq![digit(n as int)]
    } else {
        decimal(n / 10).push(digit((n % 10) as int))
    }
}

/// `i` in decimal notation, with a minus sign if it is negative.
pub open spec fn signed_decimal(i: int) -> Seq<char> {
    if i < 0 {
        seq!['-'] + decimal((-i) as nat)
    } else {
        decimal(i as nat)
    }
}

/// The number that a sequence of digits denotes.
pub open spec fn digits_value(s: Seq<char>) -> nat
    decreases s.len(),
{
    if s.len() == 0 {
        0
    } else {
        (10 * digits_value(s.drop_last()) + digit_value(s.last()).unwrap_or(0)) as nat
    }
}

/// Every character of `s` is a decimal digit.
pub open spec fn all_digits(s: Seq<char>) -> bool {
    forall|i: int| 0 <= i < s.len() ==> digit_value(#[trigger] s[i]) is Some
}

/// The number that `s` denotes if it is written as a `u32` is: an optional
/// `+`, then one or more decimal digits, of a value that fits in 32 bits.
pub open spec fn parse_u32(s: Seq<char>) -> Option<u32> {
    let digits = if s.len() > 0 && s[0] == '+' {
        s.skip(1)
    } else {
        s
    };
    if digits.len() > 0 && all_digits(digits) && digits_value(digits) <= u32::MAX {
        Some(digits_value(digits) as u32)
    } else {
        None
    }
}

/// The character of a decimal digit.
fn digit_char(d: u64) -> (c: char)
    requires
        d < 10,
    ensures
        c == digit(d as int),
{
    if d == 0 {
        '0'
    } else if d == 1 {
        '1'
    } else if d == 2 {
        '2'
    } else if d == 3 {
        '3'
    } else if d == 4 {
        '4'
    } else if d == 5 {
        '5'
    } else if d == 6 {
        '6'
    } else if d == 7 {
        '7'
    } else if d == 8 {
        '8'
    } else {
        '9'
    }
}

/// Appends `n` in decimal notation to `out`.
pub fn push_decimal(out: &mut String, n: u64)
    ensures
        final(out)@ == old(out)@ + decimal(n as nat),
    decreases n,
{
    if n >= 10 {
        push_decimal(out, n / 10);
    }
    out.push(digit_char(n % 10));
    assert(final(out)@ =~= old(out)@ + decimal(n as nat));
}

/// `n` in decimal notation.
pub fn decimal_string(n: u64) -> (s: String)
    ensures
        s@ == decimal(n as nat),
{
    let mut s = String::new();
    push_decimal(&mut s, n);
    assert(s@ =~= decimal(n as nat));
    s
}

/// Appends `i` in decimal notation to `out`, with a minus sign if it is negative.
pub fn push_signed_decimal(out: &mut String, i: i64)
    ensures
        final(out)@ == old(out)@ + signed_decimal(i as int),
{
    if i < 0 {
        out.push('-');
        let magnitude: u64 = if i == i64::MIN {
            0x8000_0000_0000_0000u64
        } else {
            (-i) as u64
        };
        push_decimal(out, magnitude);
        assert(final(out)@ =~= old(out)@ + signed_decimal(i as int));
    } else {
        push_decimal(out, i as u64);
    }
}

/// Reads a number written as std reads a `u32`: an optional `+` and then
/// digits only, with a value that fits.
pub fn read_u32(s: &[char]) -> (r: Option<u32>)
    ensures
        r == parse_u32(s@),
{
    let start: usize = if s.len() > 0 && s[0] == '+' {
        1
    } else {
        0
    };
    let ghost digits = s@.skip(start as int);
    if start == s.len() {
        return None;
    }
    let mut value: u64 = 0;
    let mut i: usize = start;
    assert(digits.take(0) =~= Seq::<char>::empty());
    assert(s@.skip(0) =~= s@);
    assert(digits.len() > 0);
    while i < s.len()
        invariant
            start <= i <= s.len(),
            digits == s@.skip(start as int),
            parse_u32(s@) == (if all_digits(digits) && digits_value(digits) <= u32::MAX {
                Some(digits_value(digits) as u32)
            } else {
                None
            }),
            all_digits(digits.take(i - start)),
            value == digits_value(digits.take(i - start)),
            value <= u32::MAX,
        decreases s.len() - i,
    {
        let c = s[i];
        let ghost next = digits.take(i - start + 1);
        assert(next.drop_last() =~= digits.take(i - start));
        assert(next.last() == c);
        if c < '0' || c > '9' {
            assert(digit_value(digits[i - start]) is None);
            return None;
        }
        let d: u64 = (c as u32 - '0' as u32) as u64;
        assert(digit_value(c) == Some(d as int));
        value = value * 10 + d;
        assert(value == digits_value(next));
        assert(all_digits(next)) by {
            assert forall|k: int| 0 <= k < next.len() implies digit_value(#[trigger] next[k])
                is Some by {
                if k < next.len() - 1 {
                    assert(digits.take(i - start)[k] == next[k]);
                }
            }
        }
        if value > u32::MAX as u64 {
            proof {
                lemma_digits_value_grows(digits, i - start + 1);
            }
            return None;
        }
        i += 1;
    }
    assert(digits.take(i - start) =~= digits);
    Some(value as u32)
}

/// The value of a prefix of digits is at most the value of the whole.
pub proof fn lemma_digits_value_grows(s: Seq<char>, n: int)
    requires
        0 <= n <= s.len(),
    ensures
        digits_value(s.take(n)) <= digits_value(s),
    decreases s.len() - n,
{
    if n < s.len() {
        assert(s.take(n + 1).drop_last() =~= s.take(n));
        lemma_digits_value_grows(s, n + 1);
    } else {
        assert(s.take(n) =~= s);
    }
}

} // verus!
