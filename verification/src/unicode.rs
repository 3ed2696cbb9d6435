//! Classes of scalar values: whitespace and numerals.

use vstd::prelude::*;

verus! {

/// The White_Space property of a scalar value outside ASCII, as
/// `char::is_whitespace` reports it.
pub uninterp spec fn white_space_property(c: char) -> bool;

/// Membership of a scalar value outside ASCII in one of the general
/// categories for numbers, as `char::is_numeric` reports it.
pub uninterp spec fn number_category(c: char) -> bool;

/// Whether `c` lies in the ASCII range.
pub open spec fn is_ascii(c: char) -> bool {
    (c as u32) < 128
}

/// Whether `c` is one of the ten ASCII decimal digits.
pub open spec fn is_digit(c: char) -> bool {
    '0' <= c && c <= '9'
}

/// Whether `c` counts as whitespace: within ASCII these are the space and
/// the five controls from tab to carriage return.
pub open spec fn whitespace(c: char) -> bool {
    if is_ascii(c) {
        c == ' ' || ('\t' <= c && c <= '\r')
    } else {
        white_space_property(c)
    }
}

/// Whether `c` counts as numeric: within ASCII these are the decimal digits.
pub open spec fn numeric(c: char) -> bool {
    if is_ascii(c) {
        is_digit(c)
    } else {
        number_category(c)
    }
}

/// `char::is_whitespace` tells whether a scalar value has the White_Space
/// property: within ASCII that is the space and the controls from tab to
/// carriage return; of any other scalar the answer is only given a name.
pub assume_specification[ char::is_whitespace ](c: char) -> (r: bool)
    ensures
        r == whitespace(c),
        !is_ascii(c) ==> r == white_space_property(c),
;

/// `char::is_numeric` tells whether a scalar value lies in one of the
/// general categories for numbers: within ASCII those are the ten decimal
/// digits; of any other scalar the answer is only given a name.
pub assume_specification[ char::is_numeric ](c: char) -> (r: bool)
    ensures
        r == numeric(c),
        !is_ascii(c) ==> r == number_category(c),
;

} // verus!
