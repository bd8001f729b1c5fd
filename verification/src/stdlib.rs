//! Contracts for the few standard-library functions the crate relies on that
//! vstd leaves unspecified.

use vstd::prelude::*;

verus! {

/// Relies on char::from_u32: a conversion succeeds exactly for Unicode scalar
/// values (everything up to U+10FFFF except the surrogate range), and the
/// resulting character has the given code point.
pub assume_specification[ char::from_u32 ](i: u32) -> (r: Option<char>)
    ensures
        r is Some <==> (i < 0xD800 || (0xE000 <= i && i <= 0x10FFFF)),
        r is Some ==> r->0 as u32 == i,
;

/// Relies on String::push: appends the given character to the end of the
/// string.
pub assume_specification[ String::push ](s: &mut String, c: char)
    ensures
        final(s)@ == old(s)@.push(c),
;

} // verus!
