//! Unsigned integers as decimal numerals, written and read.

use vstd::prelude::*;
use crate::unicode::is_digit;

verus! {

/// The digit that writes `d`, for `d` below ten.
pub open spec fn digit_char(d: nat) -> char {
    if d == 0 {
        '0'
    } else if d == 1 {
        '1'
    } else if d == 2 {
        '2'
    } else if d == 3 {
        '3'
    } else if d == 4 {
        '4'
    } else if d == 5 {
        '5'
    } else if d == 6 {
        '6'
    } else if d == 7 {
        '7'
    } else if d == 8 {
        '8'
    } else {
        '9'
    }
}

/// The number that the digit `c` writes.
pub open spec fn digit_value(c: char) -> nat {
    (c as u32 - '0' as u32) as nat
}

/// The decimal numeral of `n`, without leading zeros.
pub open spec fn decimal(n: nat) -> Seq<char>
    decreases n,
{
    if n < 10 {
        seq![digit_char(n)]
    } else {
        decimal(n / 10).push(digit_char(n % 10))
    }
}

/// Whether every scalar of `s` is a decimal digit.
pub open spec fn all_digits(s: Seq<char>) -> bool {
    forall|i: int| 0 <= i < s.len() ==> is_digit(#[trigger] s[i])
}

/// The number that a sequence of digits writes in base ten.
pub open spec fn decimal_value(digits: Seq<char>) -> nat
    decreases digits.len(),
{
    if digits.len() == 0 {
        0
    } else {
        10 * decimal_value(digits.drop_last()) + digit_value(digits.last())
    }
}

/// The number that `s` writes as an unsigned numeral: an optional plus
/// sign, then one digit or more and nothing else.
pub open spec fn unsigned_of(s: Seq<char>) -> Option<nat> {
    let digits = if 0 < s.len() && s[0] == '+' {
        s.skip(1)
    } else {
        s
    };
    if 0 < digits.len() && all_digits(digits) {
        Some(decimal_value(digits))
    } else {
        None
    }
}

/// The number that `s` writes as an unsigned numeral, where it fits the
/// machine's word.
pub open spec fn usize_of(s: Seq<char>) -> Option<usize> {
    match unsigned_of(s) {
        Some(v) => if v <= usize::MAX {
            Some(v as usize)
        } else {
            None
        },
        None => None,
    }
}

/// Each digit writes its own number.
pub proof fn lemma_digit(d: nat)
    requires
        d < 10,
    ensures
        is_digit(digit_char(d)),
        digit_value(digit_char(d)) == d,
{
}

/// A decimal numeral reads back as the number that it writes.
pub proof fn decimal_reads_back(n: nat)
    ensures
        decimal(n).len() > 0,
        all_digits(decimal(n)),
        decimal_value(decimal(n)) == n,
        unsigned_of(decimal(n)) == Some(n),
    decreases n,
{
    let all = decimal(n);
    lemma_digit(n % 10);
    if n >= 10 {
        decimal_reads_back(n / 10);
        let front = decimal(n / 10);
        assert(all.drop_last() =~= front);
        assert(all.last() == digit_char(n % 10));
        assert forall|i: int| 0 <= i < all.len() implies is_digit(#[trigger] all[i]) by {
            if i < front.len() {
                assert(all[i] == front[i]);
            }
        }
        assert(all[0] == front[0]);
    } else {
        assert(all.drop_last() =~= Seq::<char>::empty());
        assert(decimal_value(all.drop_last()) == 0);
        assert(all.last() == digit_char(n));
    }
    assert(is_digit(all[0]));
}

fn digit_of(d: u64) -> (c: char)
    requires
        d < 10,
    ensures
        c == digit_char(d as nat),
{
    if d == 0 {
        '0'
    } else if d == 1 {
        '1'
    } else if d == 2 {
        '2'
    } else if d == 3 {
        '3'
    } else if d == 4 {
        '4'
    } else if d == 5 {
        '5'
    } else if d == 6 {
        '6'
    } else if d == 7 {
        '7'
    } else if d == 8 {
        '8'
    } else {
        '9'
    }
}

/// Appends the decimal numeral of `n` to `out`.
pub fn push_decimal(n: u64, out: &mut String)
    ensures
        final(out)@ == old(out)@ + decimal(n as nat),
    decreases n,
{
    if n >= 10 {
        push_decimal(n / 10, out);
    }
    out.push(digit_of(n % 10));
    assert(out@ =~= old(out)@ + decimal(n as nat));
}

/// The decimal numeral of `n`.
pub fn to_decimal(n: u64) -> (s: String)
    ensures
        s@ == decimal(n as nat),
{
    let mut s = String::new();
    push_decimal(n, &mut s);
    assert(Seq::<char>::empty() + decimal(n as nat) =~= decimal(n as nat));
    s
}

/// Reads `chars[from..to]` as an unsigned numeral that fits the machine's
/// word.
pub fn parse_usize(chars: &Vec<char>, from: usize, to: usize) -> (r: Option<usize>)
    requires
        from <= to <= chars.len(),
    ensures
        r == usize_of(chars@.subrange(from as int, to as int)),
{
    let ghost s = chars@.subrange(from as int, to as int);
    let mut i: usize = from;
    if i < to && chars[i] == '+' {
        i += 1;
    }
    let start = i;
    let ghost digits = chars@.subrange(start as int, to as int);
    assert(digits =~= if 0 < s.len() && s[0] == '+' {
        s.skip(1)
    } else {
        s
    });
    if i == to {
        return None;
    }
    let mut value: usize = 0;
    let mut fits = true;
    assert(chars@.subrange(start as int, i as int) =~= Seq::<char>::empty());
    while i < to
        invariant
            start <= i <= to <= chars.len(),
            from <= start,
            s == chars@.subrange(from as int, to as int),
            digits == chars@.subrange(start as int, to as int),
            digits == if 0 < s.len() && s[0] == '+' {
                s.skip(1)
            } else {
                s
            },
            all_digits(chars@.subrange(start as int, i as int)),
            fits ==> value == decimal_value(chars@.subrange(start as int, i as int)),
            !fits ==> decimal_value(chars@.subrange(start as int, i as int)) > usize::MAX,
        decreases to - i,
    {
        let c = chars[i];
        if !('0' <= c && c <= '9') {
            assert(digits[i - start] == c);
            return None;
        }
        let d = (c as u32 - '0' as u32) as usize;
        proof {
            let before = chars@.subrange(start as int, i as int);
            let now = chars@.subrange(start as int, i + 1);
            assert(now.drop_last() =~= before);
            assert(now.last() == c);
            assert(decimal_value(now) == 10 * decimal_value(before) + d);
        }
        if fits {
            if value > (usize::MAX - d) / 10 {
                fits = false;
            } else {
                value = value * 10 + d;
            }
        }
        i += 1;
    }
    assert(chars@.subrange(start as int, i as int) =~= digits);
    if fits {
        Some(value)
    } else {
        None
    }
}

} // verus!
