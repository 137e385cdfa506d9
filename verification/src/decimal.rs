//! Decimal numerals: reading a term count and writing a length.

use crate::text::{leading, lemma_leading, lemma_leading_is};
use vstd::prelude::*;

verus! {

/// Why a piece of text is not the decimal numeral of a `usize`.
#[derive(Clone, Copy, Debug, PartialEq, Eq, Structural)]
pub enum IntError {
    /// The text has no characters.
    Empty,
    /// A character is not a decimal digit, or a sign stands alone.
    InvalidDigit,
    /// The digits denote a number above `usize::MAX`.
    TooLarge,
}

/// The ASCII decimal digits.
pub open spec fn is_digit(c: char) -> bool {
    '0' <= c <= '9'
}

/// `is_digit` as a predicate value.
pub open spec fn digit() -> spec_fn(char) -> bool {
    |c: char| is_digit(c)
}

/// The number a digit stands for; zero for any other character.
pub open spec fn digit_value(c: char) -> nat {
    if is_digit(c) {
        (c as u32 - '0' as u32) as nat
    } else {
        0
    }
}

/// The number that the digits of `s` denote in base ten.
pub open spec fn decimal_value(s: Seq<char>) -> nat
    decreases s.len(),
{
    if s.len() == 0 {
        0
    } else {
        decimal_value(s.drop_last()) * 10 + digit_value(s.last())
    }
}

/// A numeral proper: at least one character, and digits only.
pub open spec fn is_numeral(s: Seq<char>) -> bool {
    &&& s.len() > 0
    &&& forall|i: int| 0 <= i < s.len() ==> is_digit(#[trigger] s[i])
}

/// The text of `s` after one optional leading `+`.
pub open spec fn unsigned_part(s: Seq<char>) -> Seq<char> {
    if s.len() > 0 && s[0] == '+' {
        s.drop_first()
    } else {
        s
    }
}

/// What reading `s` as the decimal numeral of a `usize` yields.
///
/// The numeral is an optional `+` followed by at least one digit. Reading
/// goes from left to right and stops at the first fault: a character that is
/// no digit, or a digit with which the number would pass `usize::MAX`.
pub open spec fn parse_term_count(s: Seq<char>) -> Result<usize, IntError> {
    let digits = unsigned_part(s);
    let run = digits.take(leading(digits, digit()) as int);
    if s.len() == 0 {
        Err(IntError::Empty)
    } else if digits.len() == 0 {
        Err(IntError::InvalidDigit)
    } else if decimal_value(run) > usize::MAX {
        Err(IntError::TooLarge)
    } else if run.len() < digits.len() {
        Err(IntError::InvalidDigit)
    } else {
        Ok(decimal_value(digits) as usize)
    }
}

/// The character for a digit below ten.
pub open spec fn digit_char(d: nat) -> char {
    ('0' as u32 + d) as char
}

/// The decimal numeral of `n`, without sign or leading zeros.
pub open spec fn decimal(n: nat) -> Seq<char>
    decreases n,
{
    if n < 10 {
        seq![digit_char(n)]
    } else {
        decimal(n / 10).push(digit_char(n % 10))
    }
}

/// A numeral denotes at least as much as any of its prefixes.
pub proof fn lemma_decimal_value_prefix(s: Seq<char>, k: int)
    requires
        0 <= k <= s.len(),
    ensures
        decimal_value(s.take(k)) <= decimal_value(s),
    decreases s.len() - k,
{
    if k == s.len() {
        assert(s.take(k) == s);
    } else {
        lemma_decimal_value_prefix(s.drop_last(), k);
        assert(s.drop_last().take(k) == s.take(k));
    }
}

/// Reading the numeral of `n` gives `n` back.
pub proof fn lemma_decimal_round_trip(n: nat)
    ensures
        is_numeral(decimal(n)),
        decimal_value(decimal(n)) == n,
        n <= usize::MAX ==> parse_term_count(decimal(n)) == Ok::<usize, IntError>(n as usize),
    decreases n,
{
    let s = decimal(n);
    if n < 10 {
        assert(s.drop_last() == Seq::<char>::empty());
        assert(decimal_value(s.drop_last()) == 0);
    } else {
        lemma_decimal_round_trip(n / 10);
        assert(s.drop_last() == decimal(n / 10));
    }
    assert(s == unsigned_part(s));
    lemma_leading_is(s, digit(), s.len() as int);
    assert(s.take(s.len() as int) == s);
}

/// Reading succeeds on exactly the texts that are a numeral within the range
/// of `usize`, with or without a `+` before it, and then gives its value.
pub proof fn lemma_parse_succeeds_on_numerals(s: Seq<char>)
    ensures
        parse_term_count(s) is Ok <==> is_numeral(unsigned_part(s)) && decimal_value(
            unsigned_part(s),
        ) <= usize::MAX,
        parse_term_count(s) matches Ok(n) ==> n == decimal_value(unsigned_part(s)),
{
    let digits = unsigned_part(s);
    lemma_leading(digits, digit());
    let run_len = leading(digits, digit()) as int;
    if is_numeral(digits) {
        lemma_leading_is(digits, digit(), digits.len() as int);
        assert(digits.take(digits.len() as int) == digits);
    } else if digits.len() > 0 && run_len >= digits.len() {
        assert(forall|i: int| 0 <= i < digits.len() ==> (digit())(#[trigger] digits[i]));
    }
}

/// Decides whether `c` is a decimal digit.
pub fn char_is_digit(c: char) -> (b: bool)
    ensures
        b == is_digit(c),
{
    '0' <= c && c <= '9'
}

/// Reads `chars[from..]` as the decimal numeral of a `usize`.
pub fn read_term_count(chars: &Vec<char>, from: usize) -> (r: Result<usize, IntError>)
    requires
        from <= chars.len(),
    ensures
        r == parse_term_count(chars@.skip(from as int)),
{
    let n = chars.len();
    let ghost s = chars@.skip(from as int);
    if from == n {
        return Err(IntError::Empty);
    }
    let mut i: usize = from;
    if chars[i] == '+' {
        i += 1;
    }
    let start = i;
    let ghost digits = unsigned_part(s);
    assert(digits == chars@.skip(start as int));
    if start == n {
        return Err(IntError::InvalidDigit);
    }
    let mut acc: usize = 0;
    assert(chars@.subrange(start as int, start as int) == Seq::<char>::empty());
    while i < n
        invariant
            n == chars.len(),
            from <= start <= i <= n,
            start < n,
            s == chars@.skip(from as int),
            digits == unsigned_part(s),
            digits == chars@.skip(start as int),
            forall|k: int| start <= k < i ==> is_digit(#[trigger] chars@[k]),
            acc == decimal_value(chars@.subrange(start as int, i as int)),
        decreases n - i,
    {
        let c = chars[i];
        let ghost seen = chars@.subrange(start as int, i as int);
        if !char_is_digit(c) {
            proof {
                assert forall|k: int| 0 <= k < i - start implies (digit())(#[trigger] digits[k]) by {
                    assert(digits[k] == chars@[start + k]);
                }
                lemma_leading_is(digits, digit(), i - start);
                assert(digits.take(i - start) == seen);
            }
            return Err(IntError::InvalidDigit);
        }
        let d: usize = (c as u32 - '0' as u32) as usize;
        let ghost next = chars@.subrange(start as int, i + 1);
        proof {
            assert(next.drop_last() == seen);
            assert(decimal_value(next) == acc * 10 + d);
            lemma_leading(digits, digit());
            let run_len = leading(digits, digit()) as int;
            if run_len < i + 1 - start {
                assert(digits[run_len] == chars@[start + run_len]);
            }
            let run = digits.take(run_len);
            lemma_decimal_value_prefix(run, i + 1 - start);
            assert(run.take(i + 1 - start) == next);
        }
        let grown = match acc.checked_mul(10) {
            Some(m) => m.checked_add(d),
            None => None,
        };
        match grown {
            Some(v) => {
                acc = v;
            },
            None => {
                return Err(IntError::TooLarge);
            },
        }
        i += 1;
    }
    proof {
        assert forall|k: int| 0 <= k < n - start implies (digit())(#[trigger] digits[k]) by {
            assert(digits[k] == chars@[start + k]);
        }
        lemma_leading_is(digits, digit(), n - start);
        assert(digits.take(n - start) == digits);
        assert(chars@.subrange(start as int, n as int) == digits);
    }
    Ok(acc)
}

/// The character for the digit `d`.
fn digit_to_char(d: usize) -> (c: char)
    requires
        d < 10,
    ensures
        c == digit_char(d as nat),
{
    ('0' as u8 + d as u8) as char
}

/// Appends the decimal numeral of `n` to `out`.
pub fn push_decimal(out: &mut String, n: usize)
    ensures
        final(out)@ == old(out)@ + decimal(n as nat),
    decreases n,
{
    if n >= 10 {
        push_decimal(out, n / 10);
    }
    out.push(digit_to_char(n % 10));
}

} // verus!
