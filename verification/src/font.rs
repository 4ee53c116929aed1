//! The user interface font: a sheet of sixteen glyphs per row laid out in
//! ASCII order, of which the digits, the letters, the space and the colon are
//! drawn.

use vstd::prelude::*;

verus! {

/// The characters the font sheet has glyphs for.
pub open spec fn has_glyph(c: char) -> bool {
    ||| ('0' <= c && c <= ':')
    ||| ('A' <= c && c <= 'Z')
    ||| ('a' <= c && c <= 'z')
    ||| c == ' '
}

/// The (column, row) cell of a character's glyph on the sheet: its ASCII code
/// split into sixteen columns.
pub fn glyph_cell(c: char) -> (r: Option<(u32, u32)>)
    ensures
        r == if has_glyph(c) {
            Some(((c as u32) % 16, (c as u32) / 16))
        } else {
            None::<(u32, u32)>
        },
{
    if ('0' <= c && c <= ':') || ('A' <= c && c <= 'Z') || ('a' <= c && c <= 'z') || c == ' ' {
        let code = c as u32;
        Some((code % 16, code / 16))
    } else {
        None
    }
}

} // verus!
