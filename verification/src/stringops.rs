//! Trusted declarations for the few character and string operations of
//! std that the core needs and vstd does not specify.

use vstd::prelude::*;

verus! {

/// A Unicode scalar value: any code point that is not a surrogate.
/// Exactly these codes are inhabited by `char`.
pub open spec fn is_scalar_value(n: int) -> bool {
    (0 <= n < 0xD800) || (0xE000 <= n <= 0x10FFFF)
}

/// Relies on str's `==`: two string slices compare equal exactly when
/// their character sequences are equal.
#[verifier::external_body]
pub(crate) fn str_eq(a: &str, b: &str) -> (r: bool)
    ensures
        r == (a@ == b@),
{
    a == b
}

/// Relies on String::push: appends the one character to the end.
#[verifier::external_body]
pub(crate) fn push_char(s: &mut String, c: char)
    ensures
        final(s)@ == old(s)@.push(c),
{
    s.push(c);
}

/// Relies on char::from_u32: the character with that code for exactly
/// the scalar values, and nothing for surrogates and out-of-range codes.
#[verifier::external_body]
pub(crate) fn char_from_u32(n: u32) -> (r: Option<char>)
    ensures
        r matches Some(c) ==> is_scalar_value(n as int) && c as int == n as int,
        r is None ==> !is_scalar_value(n as int),
{
    char::from_u32(n)
}

} // verus!
