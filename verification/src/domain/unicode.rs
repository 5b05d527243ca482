//! Unicode case mapping and character classes, as Rust's standard library
//! defines them. Their tables are long, so their results carry names.

use vstd::prelude::*;

verus! {

/// What `str::to_lowercase` returns for a string with these characters.
pub uninterp spec fn lowercase(s: Seq<char>) -> Seq<char>;

/// The first character of what `char::to_lowercase` yields for `c`.
pub uninterp spec fn lowercase_head(c: char) -> char;

/// Whether `c` has the Unicode `Alphabetic` property (`char::is_alphabetic`).
pub uninterp spec fn alphabetic(c: char) -> bool;

/// Lower-cases a string (std `str::to_lowercase`). The contract names the
/// result; the mapping is Unicode's and is not restated here.
#[verifier::external_body]
pub(crate) fn to_lowercase(s: &str) -> (res: String)
    ensures
        res@ == lowercase(s@),
{
    s.to_lowercase()
}

/// The first character of the lower-case mapping of `c`
/// (std `char::to_lowercase`, whose iterator always yields at least one
/// character).
#[verifier::external_body]
pub(crate) fn char_lowercase_head(c: char) -> (res: char)
    ensures
        res == lowercase_head(c),
{
    c.to_lowercase().next().unwrap_or(c)
}

/// Whether `c` is alphabetic (std `char::is_alphabetic`).
#[verifier::external_body]
pub(crate) fn is_alphabetic(c: char) -> (res: bool)
    ensures
        res == alphabetic(c),
{
    c.is_alphabetic()
}

} // verus!
