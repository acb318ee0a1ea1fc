//! Decimal numerals: writing a `usize` in decimal and reading one back as
//! `str::parse::<usize>` does.

use vstd::prelude::*;
use crate::text::string_of;

verus! {

/// A decimal digit character.
pub open spec fn is_digit(c: char) -> bool {
    '0' <= c && c <= '9'
}

/// The value of a decimal digit character.
pub open spec fn digit_value(c: char) -> nat {
    (c as u32 - '0' as u32) as nat
}

/// The character of a decimal digit.
pub open spec fn digit_char(d: nat) -> char {
    (d + '0' as u32) as char
}

/// Every character of `s` is a decimal digit.
pub open spec fn all_digits(s: Seq<char>) -> bool {
    forall|i: int| 0 <= i < s.len() ==> is_digit(#[trigger] s[i])
}

/// The number that a string of decimal digits denotes.
pub open spec fn digits_value(s: Seq<char>) -> nat
    decreases s.len(),
{
    if s.len() == 0 {
        0
    } else {
        digits_value(s.drop_last()) * 10 + digit_value(s.last())
    }
}

/// The decimal numeral of `n`, without sign or leading zeros.
pub open spec fn decimal(n: nat) -> Seq<char>
    decreases n,
{
    if n < 10 {
        seq![digit_char(n)]
    } else {
        decimal(n / 10).push(digit_char(n % 10))
    }
}

/// `s` without one leading `+`.
pub open spec fn unsigned_digits(s: Seq<char>) -> Seq<char> {
    if s.len() > 0 && s[0] == '+' {
        s.drop_first()
    } else {
        s
    }
}

/// What `str::parse::<usize>` gives: an optional `+` followed by one or more
/// decimal digits whose value fits in a `usize`; nothing otherwise.
pub open spec fn parse_usize_spec(s: Seq<char>) -> Option<usize> {
    let digits = unsigned_digits(s);
    if digits.len() > 0 && all_digits(digits) && digits_value(digits) <= usize::MAX {
        Some(digits_value(digits) as usize)
    } else {
        None
    }
}

pub proof fn lemma_digit_char(d: nat)
    requires
        d < 10,
    ensures
        is_digit(digit_char(d)),
        digit_value(digit_char(d)) == d,
        digit_char(d) != '+',
{
    assert('0' as u32 == 48);
    assert((d + 48) as char as u32 == d + 48);
}

/// A numeral only grows when digits are appended.
pub proof fn lemma_digits_value_prefix(s: Seq<char>, k: int)
    requires
        0 <= k <= s.len(),
    ensures
        digits_value(s.take(k)) <= digits_value(s),
    decreases s.len() - k,
{
    if k < s.len() {
        lemma_digits_value_prefix(s, k + 1);
        assert(s.take(k + 1).drop_last() =~= s.take(k));
    } else {
        assert(s.take(k) =~= s);
    }
}

/// The numeral of `n` is made of digits, does not start with `+`, and denotes `n`.
pub proof fn lemma_decimal(n: nat)
    ensures
        decimal(n).len() > 0,
        all_digits(decimal(n)),
        decimal(n)[0] != '+',
        digits_value(decimal(n)) == n,
    decreases n,
{
    lemma_digit_char(n % 10);
    if n < 10 {
        assert(decimal(n) == seq![digit_char(n)]);
        assert(decimal(n).drop_last() =~= Seq::<char>::empty());
        assert(digits_value(Seq::<char>::empty()) == 0);
        assert(decimal(n).last() == digit_char(n));
    } else {
        lemma_decimal(n / 10);
        let d = decimal(n);
        assert(d.drop_last() =~= decimal(n / 10));
        assert forall|i: int| 0 <= i < d.len() implies is_digit(#[trigger] d[i]) by {
            if i < d.len() - 1 {
                assert(d[i] == decimal(n / 10)[i]);
            }
        }
        assert(d[0] == decimal(n / 10)[0]);
        assert(d.last() == digit_char(n % 10));
        assert(digits_value(d) == digits_value(decimal(n / 10)) * 10 + digit_value(d.last()));
        assert((n / 10) * 10 + n % 10 == n);
    }
}

/// Reading back the decimal numeral of a `usize` gives the same number.
pub proof fn lemma_parse_decimal(n: usize)
    ensures
        parse_usize_spec(decimal(n as nat)) == Some(n),
{
    lemma_decimal(n as nat);
}

/// The character of the decimal digit `d`.
fn digit_to_char(d: usize) -> (c: char)
    requires
        d < 10,
    ensures
        c == digit_char(d as nat),
{
    let b: u8 = 48u8 + d as u8;
    b as char
}

/// The decimal numeral of `n`, as characters.
pub fn decimal_chars(n: usize) -> (res: Vec<char>)
    ensures
        res@ == decimal(n as nat),
    decreases n,
{
    if n < 10 {
        let mut v: Vec<char> = Vec::new();
        v.push(digit_to_char(n));
        v
    } else {
        let mut v = decimal_chars(n / 10);
        v.push(digit_to_char(n % 10));
        v
    }
}

/// `str::parse::<usize>` on the string of characters `s`.
pub fn parse_usize(s: &Vec<char>) -> (res: Option<usize>)
    ensures
        res == parse_usize_spec(s@),
{
    let len = s.len();
    let start: usize = if len > 0 && s[0] == '+' {
        1
    } else {
        0
    };
    let ghost digits = s@.skip(start as int);
    assert(digits =~= unsigned_digits(s@));
    if start >= len {
        return None;
    }
    let mut acc: usize = 0;
    let mut i = start;
    while i < len
        invariant
            start <= i <= len == s@.len(),
            digits == s@.skip(start as int),
            digits == unsigned_digits(s@),
            all_digits(digits.take(i - start)),
            acc as nat == digits_value(digits.take(i - start)),
        decreases len - i,
    {
        let c = s[i];
        assert(digits[i - start] == c);
        if !('0' <= c && c <= '9') {
            assert(!all_digits(digits));
            return None;
        }
        let d: u32 = (c as u32) - 48u32;
        assert(digit_value(c) == d);
        assert(digits.take(i - start + 1).drop_last() =~= digits.take(i - start));
        assert(digits.take(i - start + 1).last() == c);
        match acc.checked_mul(10) {
            Some(m) => match m.checked_add(d as usize) {
                Some(a) => {
                    acc = a;
                },
                None => {
                    proof {
                        lemma_digits_value_prefix(digits, i - start + 1);
                    }
                    return None;
                },
            },
            None => {
                proof {
                    lemma_digits_value_prefix(digits, i - start + 1);
                }
                return None;
            },
        }
        assert forall|j: int| 0 <= j < i - start + 1 implies is_digit(
            #[trigger] digits.take(i - start + 1)[j],
        ) by {
            if j < i - start {
                assert(digits.take(i - start + 1)[j] == digits.take(i - start)[j]);
            }
        }
        i += 1;
    }
    assert(digits.take(len - start) =~= digits);
    Some(acc)
}

/// The decimal numeral of `n`, as a string.
pub fn decimal_string(n: usize) -> (res: String)
    ensures
        res@ == decimal(n as nat),
{
    string_of(&decimal_chars(n))
}

} // verus!
