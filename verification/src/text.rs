//! Thin trusted layer over `str` operations that vstd does not specify.

use vstd::prelude::*;

verus! {

/// The character sequence of a string with leading and trailing Unicode
/// whitespace removed; the result of `str::trim`, which depends on the
/// characters alone.
pub uninterp spec fn trimmed_of(s: Seq<char>) -> Seq<char>;

/// Relies on `str::trim`: returns the slice with leading and trailing
/// whitespace removed.  The result carries no leading or trailing
/// whitespace of its own, so trimming it again changes nothing.
#[verifier::external_body]
pub fn trim_str(s: &str) -> (r: &str)
    ensures
        r@ == trimmed_of(s@),
        trimmed_of(r@) == r@,
{
    s.trim()
}

/// Relies on `str`'s `PartialEq`: two string slices are equal exactly when
/// their character sequences are equal.
#[verifier::external_body]
pub fn str_eq(a: &str, b: &str) -> (r: bool)
    ensures
        r == (a@ == b@),
{
    a == b
}

} // verus!
