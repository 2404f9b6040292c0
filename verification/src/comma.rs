//! Comma-grouped rendering of integers for the interface.

use vstd::prelude::*;
use num_format::{Locale, ToFormattedString};
use crate::digits::comma_grouped;

verus! {

/// Relies on num_format's `ToFormattedString` with the `en` locale: the
/// decimal digits grouped in threes by commas, with a leading minus for a
/// negative value.
#[verifier::external_body]
fn comma_format_i128(v: i128) -> (r: String)
    ensures
        v >= 0 ==> r@ == comma_grouped(v as int),
        v < 0 ==> r@ == seq!['-'] + comma_grouped(-(v as int)),
{
    v.to_formatted_string(&Locale::en)
}

/// Comma-grouped text for a number.
pub trait CommaDisplay {
    /// The character sequence this value renders to.
    spec fn comma_view(&self) -> Seq<char>;

    /// The value's digits with a comma before every group of three.
    fn to_comma(&self) -> (r: String)
        ensures
            r@ == self.comma_view(),
    ;

    /// The same text; integers have no fractional digits, so the requested
    /// precision is ignored.
    fn to_comma_fmt(&self, precision: usize) -> (r: String)
        ensures
            r@ == self.comma_view(),
    ;
}

impl CommaDisplay for i64 {
    open spec fn comma_view(&self) -> Seq<char> {
        if *self >= 0 {
            comma_grouped(*self as int)
        } else {
            seq!['-'] + comma_grouped(-(*self as int))
        }
    }

    fn to_comma(&self) -> (r: String) {
        comma_format_i128(*self as i128)
    }

    fn to_comma_fmt(&self, precision: usize) -> (r: String) {
        self.to_comma()
    }
}

impl CommaDisplay for u64 {
    open spec fn comma_view(&self) -> Seq<char> {
        comma_grouped(*self as int)
    }

    fn to_comma(&self) -> (r: String) {
        comma_format_i128(*self as i128)
    }

    fn to_comma_fmt(&self, precision: usize) -> (r: String) {
        self.to_comma()
    }
}

impl CommaDisplay for usize {
    open spec fn comma_view(&self) -> Seq<char> {
        comma_grouped(*self as int)
    }

    fn to_comma(&self) -> (r: String) {
        comma_format_i128(*self as i128)
    }

    fn to_comma_fmt(&self, precision: usize) -> (r: String) {
        self.to_comma()
    }
}

} // verus!
