//! Glyphs of code page 437, in which the tiles and entities are drawn.

use vstd::prelude::*;

verus! {

/// The code that code page 437 gives to the character `c`.
pub uninterp spec fn cp437_code(c: char) -> u16;

/// Calls `bracket_lib::prelude::to_cp437`, a table from characters to
/// codes. Trusted: the result is the table's entry for `c`, and the table
/// gives each printable ASCII character, from the space to the tilde, its
/// own code point.
#[verifier::external_body]
pub(crate) fn to_cp437(c: char) -> (glyph: u16)
    ensures
        glyph == cp437_code(c),
        32 <= c as u32 <= 126 ==> glyph == c as u32,
{
    bracket_lib::prelude::to_cp437(c)
}

} // verus!
