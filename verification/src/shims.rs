//! Thin trusted wrappers around `std` string operations that vstd leaves
//! unspecified.

use vstd::prelude::*;

verus! {

/// Relies on `String::push`: appends exactly one character at the end of
/// the string.
#[verifier::external_body]
pub(crate) fn push_char(s: &mut String, c: char)
    ensures
        final(s)@ == old(s)@.push(c),
{
    s.push(c);
}

/// Relies on `<str as PartialEq>::eq`: two string slices are equal
/// exactly when their character sequences are.
#[verifier::external_body]
pub(crate) fn str_eq(a: &str, b: &str) -> (r: bool)
    ensures
        r == (a@ == b@),
{
    a == b
}

} // verus!
