//! How wide text is, in the units of a font.
//!
//! Advances are added up without kerning. A character that the font lacks is as
//! wide as the font is high.
use crate::text::to_chars;
use vstd::prelude::*;

verus! {

/// The units per em of a font, as `Face::units_per_em` of the `ttf-parser` crate
/// gives them, or nothing where `Face::parse` finds no font.
pub uninterp spec fn font_units_per_em(font: Seq<u8>) -> Option<u16>;

/// Calls `Face::parse` and `Face::units_per_em` of the `ttf-parser` crate, which
/// promises a value between 16 and 16384.
#[verifier::external_body]
fn face_units_per_em(font: &[u8]) -> (r: Option<u16>)
    ensures
        r == font_units_per_em(font@),
        r matches Some(u) ==> 16 <= u <= 16384,
{
    match ttf_parser::Face::parse(font, 0) {
        Ok(face) => Some(face.units_per_em()),
        Err(_) => None,
    }
}

/// The horizontal advance of a character in a font, as `Face::glyph_hor_advance`
/// of the `ttf-parser` crate gives it for the glyph that `Face::glyph_index`
/// finds, or nothing where there is no font, no glyph or no advance.
pub uninterp spec fn font_advance(font: Seq<u8>, c: char) -> Option<u16>;

/// Calls `Face::parse`, `Face::glyph_index` and `Face::glyph_hor_advance` of the
/// `ttf-parser` crate. Of the advance only that it follows from the font and the
/// character is claimed.
#[verifier::external_body]
fn face_advance(font: &[u8], c: char) -> (r: Option<u16>)
    ensures
        r == font_advance(font@, c),
{
    let face = ttf_parser::Face::parse(font, 0).ok()?;
    let glyph = face.glyph_index(c)?;
    face.glyph_hor_advance(glyph)
}

/// The advance, or the units per em where there is none.
pub open spec fn advance_or_em(advance: Option<u16>, units_per_em: u16) -> u16 {
    match advance {
        Some(a) => a,
        None => units_per_em,
    }
}

/// The advance, or the units per em where there is none.
pub fn advance_units(advance: Option<u16>, units_per_em: u16) -> (r: u16)
    ensures
        r == advance_or_em(advance, units_per_em),
{
    match advance {
        Some(a) => a,
        None => units_per_em,
    }
}

/// The advances of the characters of a text.
pub open spec fn advances_of(text: Seq<char>, font: Seq<u8>, units_per_em: u16) -> Seq<u16> {
    Seq::new(text.len(), |i: int| advance_or_em(font_advance(font, text[i]), units_per_em))
}

/// The advances of the characters of a text, and the units per em that they are
/// counted in. There are none where the bytes are no font.
pub fn advances(text: &str, font: &[u8]) -> (r: Option<(Vec<u16>, u16)>)
    ensures
        r is None <==> font_units_per_em(font@) is None,
        r matches Some(p) ==> font_units_per_em(font@) == Some(p.1) && 16 <= p.1 <= 16384 && p.0@
            == advances_of(text@, font@, p.1),
{
    let units_per_em: u16 = match face_units_per_em(font) {
        Some(u) => u,
        None => {
            return None;
        },
    };
    let s = to_chars(text);
    let mut out: Vec<u16> = Vec::new();
    let mut i: usize = 0;
    while i < s.len()
        invariant
            i <= s@.len(),
            out@.len() == i,
            forall|k: int|
                0 <= k < i ==> out@[k] == advance_or_em(font_advance(font@, s@[k]), units_per_em),
        decreases s@.len() - i,
    {
        out.push(advance_units(face_advance(font, s[i]), units_per_em));
        i = i + 1;
    }
    assert(out@ =~= advances_of(text@, font@, units_per_em));
    Some((out, units_per_em))
}

} // verus!
