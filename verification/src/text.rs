//! Text as a sequence of characters, and the character classes.

use vstd::prelude::*;
use vstd::std_specs::iter::IteratorSpec;

verus! {

/// Whether `c` lies in one of the two ranges that hold every character.
pub open spec fn is_scalar_value(c: char) -> bool {
    0 <= c as int <= 0xD7FF || 0xE000 <= c as int <= 0x10FFFF
}

/// Every character lies in one of the two ranges. This holds of a `char` by
/// its type; the lemma makes it known of a character that was read out of a
/// sequence.
pub proof fn lemma_char_is_scalar_value(c: char)
    ensures
        is_scalar_value(c),
{
}

/// Whether `c` is one of the ten decimal digits.
pub open spec fn is_decimal_digit(c: char) -> bool {
    '0' <= c <= '9'
}

/// Whether `c` counts as alphanumeric: the answer of the standard library's
/// `char::is_alphanumeric`, which goes by Unicode's tables of letters and
/// numbers. Nothing more is known of it here.
pub uninterp spec fn is_alphanumeric_char(c: char) -> bool;

/// Trusted, not proved: `char::is_alphanumeric` of the standard library. The
/// contract claims that its answer depends on the character alone, and
/// calls that answer `is_alphanumeric_char`.
pub assume_specification[ char::is_alphanumeric ](c: char) -> (b: bool)
    ensures
        b == is_alphanumeric_char(c),
;

/// Whether `c` is a decimal digit.
pub fn is_digit(c: char) -> (b: bool)
    ensures
        b == is_decimal_digit(c),
{
    '0' <= c && c <= '9'
}

/// The characters of `s`, in order.
pub fn chars_of(s: &str) -> (v: Vec<char>)
    ensures
        v@ == s@,
{
    let mut it = s.chars();
    let mut v: Vec<char> = Vec::new();
    loop
        invariant
            it.obeys_prophetic_iter_laws(),
            it.decrease() is Some,
            v@ + it.remaining() == s@,
        ensures
            it.remaining().len() == 0,
        decreases it.decrease()->0,
    {
        match it.next() {
            Some(c) => {
                v.push(c);
            },
            None => {
                break ;
            },
        }
    }
    assert(v@ =~= v@ + it.remaining());
    v
}

} // verus!
