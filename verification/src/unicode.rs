//! The Unicode tables of the standard library, taken as they are.

use crate::text;
use vstd::prelude::*;

verus! {

/// What `char::is_alphanumeric` answers.
pub uninterp spec fn alphanumeric(c: char) -> bool;

/// What `char::is_uppercase` answers.
pub uninterp spec fn uppercase(c: char) -> bool;

/// What `str::to_lowercase` returns.
pub uninterp spec fn lower(s: Seq<char>) -> Seq<char>;

/// What `str::to_uppercase` returns.
pub uninterp spec fn upper(s: Seq<char>) -> Seq<char>;

/// The upper-case counterpart of an ASCII letter; every other character is itself.
pub open spec fn ascii_upper(c: char) -> char {
    if 'a' <= c <= 'z' {
        (c as u32 - 32) as char
    } else {
        c
    }
}

/// Every character is in the ASCII range.
pub open spec fn all_ascii(s: Seq<char>) -> bool {
    forall|i: int| 0 <= i < s.len() ==> (#[trigger] s[i] as u32) < 128
}

/// A letter or a digit, by ASCII's rule where the character is in its range.
pub open spec fn is_letter_or_digit(c: char) -> bool {
    if (c as u32) < 128 {
        text::is_ascii_word(c)
    } else {
        alphanumeric(c)
    }
}

/// A capital letter, by ASCII's rule where the character is in its range.
pub open spec fn is_capital(c: char) -> bool {
    if (c as u32) < 128 {
        text::is_ascii_upper(c)
    } else {
        uppercase(c)
    }
}

/// `s` in lower case, letter by letter where all of it is ASCII.
pub open spec fn lowered(s: Seq<char>) -> Seq<char> {
    if all_ascii(s) {
        s.map_values(|c: char| text::ascii_lower(c))
    } else {
        lower(s)
    }
}

/// `s` in upper case, letter by letter where all of it is ASCII.
pub open spec fn uppered(s: Seq<char>) -> Seq<char> {
    if all_ascii(s) {
        s.map_values(|c: char| ascii_upper(c))
    } else {
        upper(s)
    }
}

/// `char::is_alphanumeric`: a property of the character alone. Among the ASCII
/// characters it holds of the letters and the digits.
pub assume_specification[ char::is_alphanumeric ](c: char) -> (r: bool)
    ensures
        r == alphanumeric(c),
        (c as u32) < 128 ==> r == text::is_ascii_word(c),
;

/// `char::is_uppercase`: a property of the character alone. Among the ASCII
/// characters it holds of `A` to `Z`.
pub assume_specification[ char::is_uppercase ](c: char) -> (r: bool)
    ensures
        r == uppercase(c),
        (c as u32) < 128 ==> r == text::is_ascii_upper(c),
;

/// `str::to_lowercase`: a function of the text. On ASCII text it lower-cases each
/// letter and keeps the rest.
pub assume_specification[ str::to_lowercase ](s: &str) -> (r: String)
    ensures
        r@ == lower(s@),
        all_ascii(s@) ==> r@ == s@.map_values(|c: char| text::ascii_lower(c)),
;

/// `str::to_uppercase`: a function of the text. On ASCII text it upper-cases each
/// letter and keeps the rest.
pub assume_specification[ str::to_uppercase ](s: &str) -> (r: String)
    ensures
        r@ == upper(s@),
        all_ascii(s@) ==> r@ == s@.map_values(|c: char| ascii_upper(c)),
;

} // verus!
