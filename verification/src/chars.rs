use vstd::prelude::*;
use vstd::std_specs::iter::IteratorSpec;

verus! {

/// Whether Unicode counts a character among the numbers. It stands for the
/// answer of `char::is_numeric`, which is a fixed table of the standard
/// library.
pub uninterp spec fn numeric_char(c: char) -> bool;

/// Whether Unicode gives a character the Alphabetic property. It stands for
/// the answer of `char::is_alphabetic`, which is a fixed table of the
/// standard library.
pub uninterp spec fn alphabetic_char(c: char) -> bool;

/// Whether Unicode gives a character the White_Space property. It stands
/// for the answer of `char::is_whitespace`, which is a fixed table of the
/// standard library.
pub uninterp spec fn whitespace_char(c: char) -> bool;

/// One of the ten ASCII digits.
pub open spec fn decimal_digit(c: char) -> bool {
    '0' <= c <= '9'
}

/// One of the fifty-two ASCII letters.
pub open spec fn ascii_letter(c: char) -> bool {
    'a' <= c <= 'z' || 'A' <= c <= 'Z'
}

/// One of the six blank ASCII characters: the space, the tab, the line
/// feed, the vertical tab, the form feed and the carriage return.
pub open spec fn ascii_blank(c: char) -> bool {
    c == ' ' || '\x09' <= c <= '\x0d'
}

/// `char::is_numeric` of the standard library. Taken on trust: the answer is
/// the table's, and of the ASCII characters the table holds the ten digits
/// and no other.
pub assume_specification[ char::is_numeric ](c: char) -> (b: bool)
    ensures
        b == numeric_char(c),
        c <= '\x7f' ==> b == decimal_digit(c),
;

/// `char::is_alphabetic` of the standard library. Taken on trust: the answer
/// is the table's, and of the ASCII characters the table holds the letters
/// and no other.
pub assume_specification[ char::is_alphabetic ](c: char) -> (b: bool)
    ensures
        b == alphabetic_char(c),
        c <= '\x7f' ==> b == ascii_letter(c),
;

/// `char::is_whitespace` of the standard library. Taken on trust: the answer
/// is the table's, and of the ASCII characters the table holds the six
/// blank ones and no other.
pub assume_specification[ char::is_whitespace ](c: char) -> (b: bool)
    ensures
        b == whitespace_char(c),
        c <= '\x7f' ==> b == ascii_blank(c),
;

/// A character that belongs to a number: a digit or the decimal point.
/// Within ASCII the digits are the ten decimal digits; beyond it, whatever
/// Unicode counts among the numbers.
pub open spec fn number_char(c: char) -> bool {
    c == '.' || if c <= '\x7f' {
        decimal_digit(c)
    } else {
        numeric_char(c)
    }
}

/// A character that belongs to a name: a letter. Within ASCII the letters
/// are `a` to `z` and `A` to `Z`; beyond it, whatever Unicode calls
/// alphabetic and does not count among the numbers.
pub open spec fn name_char(c: char) -> bool {
    !number_char(c) && if c <= '\x7f' {
        ascii_letter(c)
    } else {
        alphabetic_char(c)
    }
}

/// A character that parts tokens and is none itself: white space. Within
/// ASCII the space, the tab and the four characters that break a line;
/// beyond it, whatever Unicode calls white space.
pub open spec fn blank_char(c: char) -> bool {
    if c <= '\x7f' {
        ascii_blank(c)
    } else {
        whitespace_char(c)
    }
}

/// Tells whether a character belongs to a number.
pub fn is_number_char(c: char) -> (b: bool)
    ensures
        b == number_char(c),
{
    c.is_numeric() || c == '.'
}

/// Tells whether a character belongs to a name.
pub fn is_name_char(c: char) -> (b: bool)
    ensures
        b == name_char(c),
{
    !is_number_char(c) && c.is_alphabetic()
}

/// Tells whether a character is white space.
pub fn is_blank_char(c: char) -> (b: bool)
    ensures
        b == blank_char(c),
{
    c.is_whitespace()
}

/// Whether two texts are the same sequence of characters.
pub fn same_text(a: &str, b: &str) -> (same: bool)
    ensures
        same == (a@ == b@),
{
    broadcast use vstd::string::group_string_axioms;

    let mut left = a.chars();
    let mut right = b.chars();
    let ghost mut at: int = 0;
    loop
        invariant
            0 <= at <= a@.len(),
            at <= b@.len(),
            left.obeys_prophetic_iter_laws(),
            right.obeys_prophetic_iter_laws(),
            left.remaining() == a@.skip(at),
            right.remaining() == b@.skip(at),
            a@.take(at) == b@.take(at),
        decreases a@.len() - at,
    {
        match (left.next(), right.next()) {
            (None, None) => {
                assert(a@ == a@.take(at));
                assert(b@ == b@.take(at));
                return true;
            },
            (Some(x), Some(y)) => {
                if x != y {
                    assert(a@[at] != b@[at]);
                    return false;
                }
                proof {
                    assert(a@.take(at + 1) == a@.take(at).push(a@[at]));
                    assert(b@.take(at + 1) == b@.take(at).push(b@[at]));
                    at = at + 1;
                }
            },
            _ => {
                assert(a@.len() != b@.len());
                return false;
            },
        }
    }
}

} // verus!
