//! Unsigned integers as decimal text, both ways.

use crate::text::{char_code, chars_of, string_of};
use vstd::prelude::*;

verus! {

/// Whether `c` is one of `0` to `9`.
pub open spec fn is_digit(c: char) -> bool {
    '0' as int <= c as int <= '9' as int
}

/// The value of the digit `c`.
pub open spec fn digit_value(c: char) -> nat {
    (c as int - '0' as int) as nat
}

/// The digit that stands for `d`, for `d` below ten.
pub open spec fn digit_char(d: nat) -> char {
    (('0' as int + d) as u8) as char
}

/// Whether `s` is made of digits only.
pub open spec fn all_digits(s: Seq<char>) -> bool {
    forall|i: int| 0 <= i < s.len() ==> is_digit(#[trigger] s[i])
}

/// The number that the digits `s` write, most significant digit first.
pub open spec fn digits_value(s: Seq<char>) -> nat
    decreases s.len(),
{
    if s.len() == 0 {
        0
    } else {
        digits_value(s.drop_last()) * 10 + digit_value(s.last())
    }
}

/// `n` in decimal, without leading zeros.
pub open spec fn decimal(n: nat) -> Seq<char>
    decreases n,
{
    if n < 10 {
        seq![digit_char(n)]
    } else {
        decimal(n / 10).push(digit_char(n % 10))
    }
}

/// What a text means as a `u64`: an optional `+`, then at least one digit and digits only,
/// writing a number that fits.
pub open spec fn parsed_u64(s: Seq<char>) -> Option<u64> {
    let body = if s.len() > 0 && s[0] == '+' {
        s.drop_first()
    } else {
        s
    };
    if body.len() > 0 && all_digits(body) && digits_value(body) <= u64::MAX {
        Some(digits_value(body) as u64)
    } else {
        None
    }
}

/// The decimal text of a number is made of digits only, holds at least one, and writes the
/// number.
pub proof fn lemma_decimal_digits(n: nat)
    ensures
        decimal(n).len() >= 1,
        all_digits(decimal(n)),
        digits_value(decimal(n)) == n,
    decreases n,
{
    if n < 10 {
        let s = decimal(n);
        assert(s.drop_last() =~= Seq::<char>::empty());
        assert(digits_value(s.drop_last()) == 0);
        assert(s.last() == digit_char(n));
    } else {
        lemma_decimal_digits(n / 10);
        let s = decimal(n);
        assert(s.drop_last() =~= decimal(n / 10));
        assert(s.last() == digit_char(n % 10));
        assert forall|i: int| 0 <= i < s.len() implies is_digit(#[trigger] s[i]) by {
            if i < s.len() - 1 {
                assert(s[i] == decimal(n / 10)[i]);
            }
        }
    }
}

/// A number written in decimal and read back is the same number.
pub proof fn lemma_decimal_round_trip(n: u64)
    ensures
        parsed_u64(decimal(n as nat)) == Some(n),
{
    lemma_decimal_digits(n as nat);
    let s = decimal(n as nat);
    assert(is_digit(s[0]));
}

/// The digits read so far never write more than all the digits do.
pub proof fn lemma_digits_value_prefix(s: Seq<char>, k: int)
    requires
        0 <= k <= s.len(),
    ensures
        digits_value(s.take(k)) <= digits_value(s),
    decreases s.len(),
{
    if k == s.len() {
        assert(s.take(k) =~= s);
    } else {
        lemma_digits_value_prefix(s.drop_last(), k);
        assert(s.drop_last().take(k) =~= s.take(k));
    }
}

/// The decimal digits of `n`.
pub fn decimal_digits(n: u64) -> (digits: Vec<char>)
    ensures
        digits@ == decimal(n as nat),
{
    // Least significant digit first.
    let mut low_first: Vec<char> = Vec::new();
    let mut rest: u64 = n;
    low_first.push(((rest % 10) as u8 + 48) as char);
    rest = rest / 10;
    while rest > 0
        invariant
            low_first@.len() >= 1,
            decimal(n as nat) =~= (if rest > 0 {
                decimal(rest as nat)
            } else {
                Seq::<char>::empty()
            }) + Seq::new(low_first@.len(), |k: int| low_first@[low_first@.len() - 1 - k]),
        decreases rest,
    {
        low_first.push(((rest % 10) as u8 + 48) as char);
        rest = rest / 10;
    }
    let mut digits: Vec<char> = Vec::new();
    let mut i: usize = low_first.len();
    while i > 0
        invariant
            i <= low_first@.len(),
            digits@ =~= Seq::new(
                (low_first@.len() - i) as nat,
                |k: int| low_first@[low_first@.len() - 1 - k],
            ),
        decreases i,
    {
        i -= 1;
        digits.push(low_first[i]);
    }
    digits
}

/// `n` in decimal.
pub fn u64_to_decimal(n: u64) -> (s: String)
    ensures
        s@ == decimal(n as nat),
{
    string_of(&decimal_digits(n))
}

/// `n` in decimal.
pub fn usize_to_decimal(n: usize) -> (s: String)
    ensures
        s@ == decimal(n as nat),
{
    string_of(&decimal_digits(n as u64))
}

/// Reads `v[from..to]` as a `u64`.
pub fn parse_u64_range(v: &Vec<char>, from: usize, to: usize) -> (value: Option<u64>)
    requires
        from <= to <= v@.len(),
    ensures
        value == parsed_u64(v@.subrange(from as int, to as int)),
{
    let ghost text = v@.subrange(from as int, to as int);
    let mut i: usize = from;
    if i < to && v[i] == '+' {
        i += 1;
    }
    let first: usize = i;
    let ghost body = v@.subrange(first as int, to as int);
    proof {
        if first == from {
            assert(body =~= text);
        } else {
            assert(body =~= text.drop_first());
        }
    }
    assert(parsed_u64(text) == if body.len() > 0 && all_digits(body) && digits_value(body)
        <= u64::MAX {
        Some(digits_value(body) as u64)
    } else {
        None
    });
    if i == to {
        return None;
    }
    let mut acc: u64 = 0;
    while i < to
        invariant
            first <= i <= to,
            to <= v@.len(),
            body == v@.subrange(first as int, to as int),
            text == v@.subrange(from as int, to as int),
            parsed_u64(text) == if body.len() > 0 && all_digits(body) && digits_value(body)
                <= u64::MAX {
                Some(digits_value(body) as u64)
            } else {
                None
            },
            all_digits(body.take(i - first)),
            acc == digits_value(body.take(i - first)),
        decreases to - i,
    {
        let c = v[i];
        let code: u32 = char_code(c);
        assert(body[i - first] == c);
        assert('0' as int == 48 && '9' as int == 57);
        if code < 48 || code > 57 {
            assert(!is_digit(body[i - first]));
            return None;
        }
        let digit: u64 = (code - 48) as u64;
        let ghost next = body.take(i - first + 1);
        proof {
            assert(next.drop_last() =~= body.take(i - first));
            assert(next.last() == c);
            assert(digits_value(next) == acc * 10 + digit);
            lemma_digits_value_prefix(body, i - first + 1);
            assert forall|k: int| 0 <= k < next.len() implies is_digit(#[trigger] next[k]) by {
                if k < next.len() - 1 {
                    assert(next[k] == body.take(i - first)[k]);
                }
            }
        }
        match acc.checked_mul(10) {
            None => {
                return None;
            },
            Some(shifted) => {
                match shifted.checked_add(digit) {
                    None => {
                        return None;
                    },
                    Some(sum) => {
                        acc = sum;
                    },
                }
            },
        }
        i += 1;
    }
    assert(body.take(to - first) =~= body);
    Some(acc)
}

/// Reads `s` as a `u64`: an optional `+`, then digits that write a number that fits.
pub fn parse_u64(s: &str) -> (value: Option<u64>)
    ensures
        value == parsed_u64(s@),
{
    let v = chars_of(s);
    assert(v@.subrange(0, v@.len() as int) =~= v@);
    parse_u64_range(&v, 0, v.len())
}

} // verus!
