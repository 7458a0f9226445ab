//! Character classes that the scanner distinguishes.
//!
//! Which characters are letters, numbers or white space is decided by the
//! Unicode tables of the standard library. The scanner does not look them up
//! itself: a text is first turned into glyphs, each a character with its
//! three classes, and the scanner reads the glyphs. What the scanner does is
//! thereby stated, and proved, for every way of classifying characters.

use vstd::prelude::*;

verus! {

/// Whether Unicode counts `c` as alphabetic or numeric.
pub uninterp spec fn unicode_alphanumeric(c: char) -> bool;

/// Whether Unicode counts `c` as a number character.
pub uninterp spec fn unicode_numeric(c: char) -> bool;

/// Whether Unicode counts `c` as white space.
pub uninterp spec fn unicode_whitespace(c: char) -> bool;

/// `char::is_alphanumeric` decides by the Unicode tables alone, so it is a
/// function of the character: its answer is given the name
/// `unicode_alphanumeric`. Nothing further is claimed of it.
pub assume_specification[ char::is_alphanumeric ](c: char) -> (r: bool)
    ensures
        r == unicode_alphanumeric(c),
;

/// `char::is_numeric` decides by the Unicode tables alone; its answer is
/// given the name `unicode_numeric`.
pub assume_specification[ char::is_numeric ](c: char) -> (r: bool)
    ensures
        r == unicode_numeric(c),
;

/// `char::is_whitespace` decides by the Unicode tables alone; its answer is
/// given the name `unicode_whitespace`.
pub assume_specification[ char::is_whitespace ](c: char) -> (r: bool)
    ensures
        r == unicode_whitespace(c),
;

/// `String::push` appends the given character to the end of the string.
pub assume_specification[ String::push ](s: &mut String, c: char)
    ensures
        final(s)@ == old(s)@.push(c),
;

/// One character of the source together with its classes. The scanner
/// believes the three flags as they are given.
#[derive(Clone, Copy, Debug, PartialEq, Eq, Structural)]
pub struct Glyph {
    pub ch: char,
    pub alphanumeric: bool,
    pub numeric: bool,
    pub whitespace: bool,
}

/// The character `c` with the classes that Unicode gives it.
pub open spec fn glyph_of(c: char) -> Glyph {
    Glyph {
        ch: c,
        alphanumeric: unicode_alphanumeric(c),
        numeric: unicode_numeric(c),
        whitespace: unicode_whitespace(c),
    }
}

/// Looks up the classes of `c`.
pub fn classify(c: char) -> (g: Glyph)
    ensures
        g == glyph_of(c),
{
    Glyph {
        ch: c,
        alphanumeric: c.is_alphanumeric(),
        numeric: c.is_numeric(),
        whitespace: c.is_whitespace(),
    }
}

/// Every character of a text with its classes, in order.
pub open spec fn classified(text: Seq<char>) -> Seq<Glyph> {
    text.map_values(|c: char| glyph_of(c))
}

/// Classifies every character of `text`.
pub fn classify_text(text: &str) -> (glyphs: Vec<Glyph>)
    ensures
        glyphs@ == classified(text@),
{
    let mut glyphs: Vec<Glyph> = Vec::new();
    let mut it = text.chars();
    for c in iter: it
        invariant
            glyphs@ == classified(iter.seq().take(iter.index())),
    {
        glyphs.push(classify(c));
    }
    glyphs
}

} // verus!
