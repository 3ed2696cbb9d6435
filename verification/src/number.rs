//! Numbers as documents write them: decimal numerals, kept digit for
//! digit. Whether a span of text is a number is decided by the grammar of
//! decimal floating-point numerals; its value is never computed.

use vstd::prelude::*;
use crate::text::{chars_of, string_of};
use crate::unicode::is_digit;

verus! {

/// How many decimal digits stand in `s` from index `from` on, without a gap.
pub open spec fn digit_run(s: Seq<char>, from: int) -> nat
    decreases s.len() - from,
{
    if 0 <= from < s.len() && is_digit(s[from]) {
        1 + digit_run(s, from + 1)
    } else {
        0
    }
}

/// Whether `c` is a plus or a minus sign.
pub open spec fn is_sign(c: char) -> bool {
    c == '+' || c == '-'
}

/// Whether an exponent part starts at index `mark` of `s` and runs to its
/// end: the letter `e` in either case, an optional sign, one digit or more.
pub open spec fn exponent_at(s: Seq<char>, mark: int) -> bool {
    let sign: int = if mark + 1 < s.len() && is_sign(s[mark + 1]) { 1 } else { 0 };
    let digits = digit_run(s, mark + 1 + sign);
    &&& 0 <= mark < s.len()
    &&& (s[mark] == 'e' || s[mark] == 'E')
    &&& digits > 0
    &&& mark + 1 + sign + digits == s.len()
}

/// Whether `s` is a decimal numeral: an optional sign; digits with at most
/// one point among them, before them or after them, and at least one digit;
/// then an optional exponent part.
pub open spec fn is_decimal(s: Seq<char>) -> bool {
    let sign: int = if 0 < s.len() && is_sign(s[0]) { 1 } else { 0 };
    let whole = digit_run(s, sign);
    let point = sign + whole;
    let has_point = point < s.len() && s[point] == '.';
    let fraction = if has_point { digit_run(s, point + 1) } else { 0 };
    let mark = if has_point { point + 1 + fraction } else { point };
    &&& whole + fraction > 0
    &&& (mark == s.len() || exponent_at(s, mark))
}

/// Whether `s` can stand as a number in a document: a decimal numeral that
/// starts with a digit or a minus sign.
pub open spec fn is_number_literal(s: Seq<char>) -> bool {
    &&& 0 < s.len()
    &&& (is_digit(s[0]) || s[0] == '-')
    &&& is_decimal(s)
}

/// A digit run ends inside the sequence, at a scalar that is no digit.
pub proof fn lemma_digit_run(s: Seq<char>, from: int)
    requires
        0 <= from <= s.len(),
    ensures
        from + digit_run(s, from) <= s.len(),
        forall|i: int| from <= i < from + digit_run(s, from) ==> is_digit(#[trigger] s[i]),
        from + digit_run(s, from) < s.len() ==> !is_digit(s[from + digit_run(s, from)]),
    decreases s.len() - from,
{
    if from < s.len() && is_digit(s[from]) {
        lemma_digit_run(s, from + 1);
    }
}

fn is_digit_char(c: char) -> (r: bool)
    ensures
        r == is_digit(c),
{
    '0' <= c && c <= '9'
}

fn is_sign_char(c: char) -> (r: bool)
    ensures
        r == is_sign(c),
{
    c == '+' || c == '-'
}

/// The index just behind the digit run that starts at `from`.
fn skip_digits(chars: &Vec<char>, from: usize) -> (end: usize)
    requires
        from <= chars.len(),
    ensures
        end == from + digit_run(chars@, from as int),
        end <= chars.len(),
{
    let mut i: usize = from;
    while i < chars.len() && is_digit_char(chars[i])
        invariant
            from <= i <= chars.len(),
            i + digit_run(chars@, i as int) == from + digit_run(chars@, from as int),
        decreases chars.len() - i,
    {
        i += 1;
    }
    i
}

/// Decides whether `chars` is a number literal.
pub fn check_number_literal(chars: &Vec<char>) -> (r: bool)
    ensures
        r == is_number_literal(chars@),
{
    let n = chars.len();
    if n == 0 {
        return false;
    }
    if !(is_digit_char(chars[0]) || chars[0] == '-') {
        return false;
    }
    let sign: usize = if is_sign_char(chars[0]) { 1 } else { 0 };
    let point = skip_digits(chars, sign);
    let has_point = point < n && chars[point] == '.';
    let mark = if has_point { skip_digits(chars, point + 1) } else { point };
    let fraction = if has_point { mark - point - 1 } else { 0 };
    if point - sign + fraction == 0 {
        return false;
    }
    if mark == n {
        return true;
    }
    if !(chars[mark] == 'e' || chars[mark] == 'E') {
        return false;
    }
    let exp_sign: usize = if mark + 1 < n && is_sign_char(chars[mark + 1]) { 1 } else { 0 };
    let end = skip_digits(chars, mark + 1 + exp_sign);
    end > mark + 1 + exp_sign && end == n
}

/// A number as a document writes it: a decimal numeral, kept digit for digit.
#[derive(Debug, PartialEq, Eq)]
pub struct Number {
    text: String,
}

impl View for Number {
    type V = Seq<char>;

    closed spec fn view(&self) -> Seq<char> {
        self.text@
    }
}

impl Number {
    #[verifier::type_invariant]
    spec fn well_formed(&self) -> bool {
        is_number_literal(self.text@)
    }

    /// The number that `text` writes, if `text` is a number literal.
    pub fn new(text: &str) -> (r: Option<Number>)
        ensures
            r is Some <==> is_number_literal(text@),
            r matches Some(n) ==> n@ == text@,
    {
        let chars = chars_of(text);
        Number::from_chars(&chars)
    }

    /// The number that `chars` writes, if `chars` is a number literal.
    pub fn from_chars(chars: &Vec<char>) -> (r: Option<Number>)
        ensures
            r is Some <==> is_number_literal(chars@),
            r matches Some(n) ==> n@ == chars@,
    {
        if check_number_literal(chars) {
            let text = string_of(chars, 0, chars.len());
            assert(chars@.subrange(0, chars.len() as int) =~= chars@);
            Some(Number { text })
        } else {
            None
        }
    }

    /// Whether the two numbers are written alike.
    pub fn same_as(&self, other: &Number) -> (r: bool)
        ensures
            r == (self@ == other@),
    {
        self.text == other.text
    }

    /// The numeral, as written.
    pub fn as_str(&self) -> (s: &str)
        ensures
            s@ == self@,
            is_number_literal(self@),
    {
        proof {
            use_type_invariant(self);
        }
        self.text.as_str()
    }
}

impl Clone for Number {
    fn clone(&self) -> (r: Number)
        ensures
            r@ == self@,
            is_number_literal(r@),
    {
        proof {
            use_type_invariant(self);
        }
        Number { text: self.text.clone() }
    }
}

} // verus!
