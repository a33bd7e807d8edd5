//! Unsigned numbers written in decimal or hexadecimal digits.
//!
//! A number is an optional `+` followed by at least one digit of the radix;
//! nothing else may stand before, between or after the digits, and the value
//! must fit the target type.

use vstd::prelude::*;
use crate::text::chars_of;

verus! {

/// The value of `c` as a digit of `radix`: `0`-`9` count 0 to 9, letters of
/// either case count from 10; none where that is not below `radix`.
pub open spec fn digit_of(c: char, radix: nat) -> Option<nat> {
    let u = c as u32;
    let value: int = if 0x30 <= u <= 0x39 {
        u - 0x30
    } else if 0x61 <= u <= 0x7A {
        u - 0x61 + 10
    } else if 0x41 <= u <= 0x5A {
        u - 0x41 + 10
    } else {
        radix as int
    };
    if value < radix {
        Some(value as nat)
    } else {
        None
    }
}

/// Every character of `s` is a digit of `radix`.
pub open spec fn all_digits(s: Seq<char>, radix: nat) -> bool {
    forall|i: int| 0 <= i < s.len() ==> (#[trigger] digit_of(s[i], radix)) is Some
}

/// The number that the digits `s` write in `radix`, most significant first.
pub open spec fn digits_value(s: Seq<char>, radix: nat) -> nat
    decreases s.len(),
{
    if s.len() == 0 {
        0
    } else {
        digits_value(s.drop_last(), radix) * radix + digit_of(s.last(), radix).unwrap_or(0)
    }
}

/// `s` without one leading `+`.
pub open spec fn without_plus(s: Seq<char>) -> Seq<char> {
    if s.len() > 0 && s[0] == '+' {
        s.skip(1)
    } else {
        s
    }
}

/// The number that `s` writes in `radix`, where `s` is a well-formed number
/// no greater than `max`.
pub open spec fn unsigned_of(s: Seq<char>, radix: nat, max: nat) -> Option<nat> {
    let digits = without_plus(s);
    if digits.len() > 0 && all_digits(digits, radix) && digits_value(digits, radix) <= max {
        Some(digits_value(digits, radix))
    } else {
        None
    }
}

/// `s` without one leading `0x` or `0X`.
pub open spec fn without_hex_prefix(s: Seq<char>) -> Seq<char> {
    if s.len() >= 2 && s[0] == '0' && (s[1] == 'x' || s[1] == 'X') {
        s.skip(2)
    } else {
        s
    }
}

/// The decimal number below 2^32 that `s` writes.
pub open spec fn decimal_u32_of(s: Seq<char>) -> Option<nat> {
    unsigned_of(s, 10, u32::MAX as nat)
}

/// The hexadecimal number below 2^64 that `s` writes, with or without a
/// leading `0x`.
pub open spec fn hex_u64_of(s: Seq<char>) -> Option<nat> {
    unsigned_of(without_hex_prefix(s), 16, u64::MAX as nat)
}

/// A longer run of digits never writes a smaller number than its beginning.
pub proof fn lemma_digits_value_grows(s: Seq<char>, k: int, radix: nat)
    requires
        0 <= k <= s.len(),
        radix >= 1,
    ensures
        digits_value(s.take(k), radix) <= digits_value(s, radix),
    decreases s.len() - k,
{
    if k == s.len() {
        assert(s.take(k) =~= s);
    } else {
        let init = s.drop_last();
        lemma_digits_value_grows(init, k, radix);
        assert(init.take(k) =~= s.take(k));
        assert(digits_value(init, radix) <= digits_value(init, radix) * radix) by (nonlinear_arith)
            requires
                radix >= 1,
        ;
    }
}

/// With or without its `0x`, a run of hexadecimal digits writes the same number.
pub proof fn lemma_hex_prefix_optional(digits: Seq<char>, upper: bool)
    requires
        digits.len() > 0,
        all_digits(digits, 16),
    ensures
        hex_u64_of(seq!['0', if upper { 'X' } else { 'x' }] + digits) == hex_u64_of(digits),
        hex_u64_of(digits) == if digits_value(digits, 16) <= u64::MAX {
            Some(digits_value(digits, 16))
        } else {
            None
        },
{
    let marked = seq!['0', if upper { 'X' } else { 'x' }] + digits;
    assert(without_hex_prefix(marked) =~= digits);
    assert(digit_of(digits[0], 16) is Some);
    if digits.len() >= 2 {
        assert(digit_of(digits[1], 16) is Some);
    }
    assert(without_hex_prefix(digits) == digits);
    assert(without_plus(digits) == digits);
}

/// Reads `c` as a digit of `radix`.
fn digit(c: char, radix: u32) -> (d: Option<u32>)
    requires
        2 <= radix <= 36,
    ensures
        match d {
            Some(v) => digit_of(c, radix as nat) == Some(v as nat),
            None => digit_of(c, radix as nat) is None,
        },
{
    let u: u32 = c as u32;
    let value: u32 = if 0x30 <= u && u <= 0x39 {
        u - 0x30
    } else if 0x61 <= u && u <= 0x7A {
        u - 0x61 + 10
    } else if 0x41 <= u && u <= 0x5A {
        u - 0x41 + 10
    } else {
        radix
    };
    if value < radix {
        Some(value)
    } else {
        None
    }
}

/// Reads `s` as a number in `radix` no greater than `max`.
fn parse_unsigned(s: &str, radix: u32, max: u64) -> (n: Option<u64>)
    requires
        2 <= radix <= 36,
    ensures
        match n {
            Some(v) => unsigned_of(s@, radix as nat, max as nat) == Some(v as nat),
            None => unsigned_of(s@, radix as nat, max as nat) is None,
        },
{
    let text = chars_of(s);
    let len = text.len();
    let start: usize = if len > 0 && text[0] == '+' {
        1
    } else {
        0
    };
    let ghost digits = without_plus(text@);
    assert(digits =~= text@.skip(start as int));
    if start == len {
        return None;
    }
    let mut acc: u64 = 0;
    let mut i: usize = start;
    while i < len
        invariant
            2 <= radix <= 36,
            len == text@.len(),
            start <= i <= len,
            text@ == s@,
            digits == without_plus(s@),
            digits == text@.skip(start as int),
            all_digits(digits.take(i - start), radix as nat),
            acc == digits_value(digits.take(i - start), radix as nat),
            acc <= max,
        decreases len - i,
    {
        let ghost seen = digits.take(i - start);
        let ghost more = digits.take(i + 1 - start);
        proof {
            assert(more.drop_last() =~= seen);
            assert(more.last() == text@[i as int]);
        }
        match digit(text[i], radix) {
            None => {
                assert(digits[i - start] == text@[i as int]);
                assert(digit_of(digits[i - start], radix as nat) is None);
                return None;
            },
            Some(d) => {
                assert(acc as u128 * radix as u128 + d as u128 <= u64::MAX as u128 * 36 + 36)
                    by (nonlinear_arith)
                    requires
                        acc <= u64::MAX,
                        radix <= 36,
                        d < 36,
                ;
                let wide: u128 = acc as u128 * radix as u128 + d as u128;
                assert(wide == digits_value(more, radix as nat));
                if wide > max as u128 {
                    proof {
                        if all_digits(digits, radix as nat) {
                            lemma_digits_value_grows(digits, i + 1 - start, radix as nat);
                        }
                    }
                    return None;
                }
                proof {
                    assert forall|j: int| 0 <= j < more.len() implies (#[trigger] digit_of(
                        more[j],
                        radix as nat,
                    )) is Some by {
                        if j < seen.len() {
                            assert(more[j] == seen[j]);
                        }
                    }
                }
                acc = wide as u64;
            },
        }
        i += 1;
    }
    assert(digits.take(len - start) =~= digits);
    Some(acc)
}

/// Reads `s` as a decimal number below 2^32.
pub fn parse_u32(s: &str) -> (n: Option<u32>)
    ensures
        match n {
            Some(v) => decimal_u32_of(s@) == Some(v as nat),
            None => decimal_u32_of(s@) is None,
        },
{
    match parse_unsigned(s, 10, 0xFFFF_FFFF) {
        Some(v) => Some(v as u32),
        None => None,
    }
}

/// Removes one leading `0x` or `0X` from `s`.
pub fn strip_hex_prefix(s: &str) -> (rest: &str)
    ensures
        rest@ == without_hex_prefix(s@),
{
    let n = s.unicode_len();
    if n >= 2 && s.get_char(0) == '0' {
        let marker = s.get_char(1);
        if marker == 'x' || marker == 'X' {
            let rest = s.substring_char(2, n);
            assert(rest@ =~= s@.skip(2));
            return rest;
        }
    }
    s
}

/// Reads `s` as a hexadecimal number below 2^64, with or without a leading `0x`.
pub fn parse_hex_u64(s: &str) -> (n: Option<u64>)
    ensures
        match n {
            Some(v) => hex_u64_of(s@) == Some(v as nat),
            None => hex_u64_of(s@) is None,
        },
{
    parse_unsigned(strip_hex_prefix(s), 16, 0xFFFF_FFFF_FFFF_FFFF)
}

} // verus!
