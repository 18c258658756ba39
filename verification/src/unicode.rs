//! Unicode general categories, as the `regex` crate's Unicode tables give them.
use vstd::prelude::*;

verus! {

/// Whether `c` belongs to the Unicode general category Letter (`\p{L}`) or
/// Number (`\p{N}`) in the tables of the `regex` crate.
pub uninterp spec fn letter_or_number(c: char) -> bool;

/// ASCII letters and digits are letters or numbers; no other ASCII character is.
pub open spec fn ascii_letter_or_digit(c: char) -> bool {
    ('a' <= c && c <= 'z') || ('A' <= c && c <= 'Z') || ('0' <= c && c <= '9')
}

/// Tests `c` against the class `[\p{L}\p{N}]` with `regex::Regex::is_match`.
/// Claimed: the answer is the category membership named by `letter_or_number`,
/// and for ASCII characters it is exactly "ASCII letter or digit". The pattern
/// is a valid constant, so the error arm is never taken.
#[verifier::external_body]
pub(crate) fn is_letter_or_number(c: char) -> (b: bool)
    ensures
        b == letter_or_number(c),
        (c as u32) < 128 ==> (b == ascii_letter_or_digit(c)),
{
    match regex::Regex::new(r"^[\p{L}\p{N}]$") {
        Ok(pattern) => pattern.is_match(&String::from(c)),
        Err(_) => false,
    }
}

} // verus!
