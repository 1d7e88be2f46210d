//! Contracts assumed of two std functions that vstd leaves unspecified.
use vstd::prelude::*;

verus! {

/// Relies on String::push: it appends exactly the given character.
pub assume_specification[ String::push ](s: &mut String, c: char)
    ensures
        final(s)@ == old(s)@.push(c),
;

/// Relies on char::from_u32: a surrogate value or one above U+10FFFF gives
/// nothing, and every other value gives the code point with that value.
pub assume_specification[ char::from_u32 ](v: u32) -> (r: Option<char>)
    ensures
        (0xd800 <= v <= 0xdfff) || v > 0x10ffff ==> r is None,
        !((0xd800 <= v <= 0xdfff) || v > 0x10ffff) ==> r == Some(v as char),
;

} // verus!
