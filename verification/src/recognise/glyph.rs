//! Characters, with what Unicode says of each of them.
//!
//! A title is read character by character, and what is asked of a character is
//! always one of two things: whether it belongs to a word, and whether it is
//! whitespace. Both answers are taken once and travel with the character, so
//! that everything that reads a title reads plain values.

use unicode_normalization::UnicodeNormalization;
use vstd::prelude::*;

#[allow(unused_imports)]
use crate::recognise::spelling::folded;
use crate::text::characters;

verus! {

/// One character of a title.
#[derive(Debug, Clone, Copy, PartialEq, Eq, Structural)]
pub struct Glyph {
    /// The character itself.
    pub c: char,
    /// Whether it is a letter or a digit of a name, or a mark sitting on one.
    pub letter: bool,
    /// Whether it is whitespace.
    pub space: bool,
}

/// What stands where something was taken out of a title: a space.
pub open spec fn gap() -> Glyph {
    Glyph { c: ' ', letter: false, space: true }
}

/// The space that stands where something was taken out of a title.
pub fn a_gap() -> (g: Glyph)
    ensures
        g == gap(),
{
    Glyph { c: ' ', letter: false, space: true }
}

/// Whether `char::is_alphanumeric` holds of a character.
pub uninterp spec fn alphanumeric(c: char) -> bool;

/// Whether Unicode counts a character as whitespace.
pub open spec fn white_space(c: char) -> bool {
    ||| '\u{9}' <= c <= '\u{D}'
    ||| c == ' '
    ||| c == '\u{85}'
    ||| c == '\u{A0}'
    ||| c == '\u{1680}'
    ||| '\u{2000}' <= c <= '\u{200A}'
    ||| c == '\u{2028}'
    ||| c == '\u{2029}'
    ||| c == '\u{202F}'
    ||| c == '\u{205F}'
    ||| c == '\u{3000}'
}

/// Whether `unicode_normalization::char::is_combining_mark` holds of a
/// character.
pub uninterp spec fn combining_mark(c: char) -> bool;

/// The text `UnicodeNormalization::nfkc` brings a piece of text to.
pub uninterp spec fn nfkc_form(text: Seq<char>) -> Seq<char>;

/// Whether a text holds nothing but ASCII.
pub open spec fn is_ascii(text: Seq<char>) -> bool {
    forall|i: int| 0 <= i < text.len() ==> #[trigger] text[i] <= '\u{7F}'
}

/// The text `str::to_lowercase` brings a text to that is not all ASCII.
pub uninterp spec fn unicode_lowercase(text: Seq<char>) -> Seq<char>;

/// A text in lowercase: letter by letter where it is ASCII, and by Unicode's
/// tables where it is not.
pub open spec fn lowercase_form(text: Seq<char>) -> Seq<char> {
    if is_ascii(text) {
        text.map_values(|c: char| folded(c))
    } else {
        unicode_lowercase(text)
    }
}

/// `char::is_alphanumeric` answers from the character alone. Which characters
/// Unicode counts as letters and numbers is left to it.
pub assume_specification[ char::is_alphanumeric ](c: char) -> (answer: bool)
    ensures
        answer == alphanumeric(c),
;

/// `char::is_whitespace` holds of exactly the characters that have Unicode's
/// White_Space property.
pub assume_specification[ char::is_whitespace ](c: char) -> (answer: bool)
    ensures
        answer == white_space(c),
;

/// `unicode_normalization::char::is_combining_mark` answers from the character
/// alone, out of a table of the characters in Unicode's category of marks.
pub assume_specification[ unicode_normalization::char::is_combining_mark ](c: char) -> (answer:
    bool)
    ensures
        answer == combining_mark(c),
;

/// `UnicodeNormalization::nfkc` brings text to Unicode's compatibility form,
/// which depends on the text alone. The tables behind it are left to it.
#[verifier::external_body]
pub(crate) fn nfkc(text: &str) -> (form: String)
    ensures
        form@ == nfkc_form(text@),
{
    text.nfkc().collect()
}

/// `str::to_lowercase` lowercases text, which depends on the text alone. Of ASCII
/// it turns the letters `A` to `Z` and nothing else. The tables behind every
/// other text are left to it.
#[verifier::external_body]
pub(crate) fn lowercase(text: &str) -> (form: String)
    ensures
        is_ascii(text@) ==> form@ == text@.map_values(|c: char| folded(c)),
        !is_ascii(text@) ==> form@ == unicode_lowercase(text@),
{
    text.to_lowercase()
}

/// A character with what is asked of it.
pub open spec fn glyph(c: char) -> Glyph {
    Glyph { c, letter: alphanumeric(c) || combining_mark(c), space: white_space(c) }
}

/// Every character of a text with what is asked of it.
pub open spec fn glyphs(text: Seq<char>) -> Seq<Glyph> {
    text.map_values(|c: char| glyph(c))
}

/// The characters alone.
pub open spec fn chars(text: Seq<Glyph>) -> Seq<char> {
    text.map_values(|g: Glyph| g.c)
}

/// Look each character of a text up once.
pub fn glyphs_of(text: &str) -> (read: Vec<Glyph>)
    ensures
        read@ == glyphs(text@),
{
    let characters = characters(text);
    let mut read: Vec<Glyph> = Vec::new();
    let mut i: usize = 0;
    while i < characters.len()
        invariant
            i <= characters@.len(),
            characters@ == text@,
            read@ == glyphs(text@.take(i as int)),
        decreases characters@.len() - i,
    {
        let c = characters[i];
        let letter = c.is_alphanumeric() || unicode_normalization::char::is_combining_mark(c);
        let space = c.is_whitespace();
        let ghost before = read@;
        read.push(Glyph { c, letter, space });
        assert(glyphs(text@.take(i + 1)).last() == glyph(c));
        assert(glyphs(text@.take(i + 1)).drop_last() =~= before);
        i += 1;
        assert(read@ =~= glyphs(text@.take(i as int)));
    }
    assert(text@.take(i as int) =~= text@);
    read
}

/// The text a run of glyphs spells.
pub fn text_of(run: &[Glyph]) -> (text: String)
    ensures
        text@ == chars(run@),
{
    let mut text = String::new();
    let mut i: usize = 0;
    while i < run.len()
        invariant
            i <= run@.len(),
            text@ == chars(run@.take(i as int)),
        decreases run@.len() - i,
    {
        text.push(run[i].c);
        i += 1;
        assert(text@ =~= chars(run@.take(i as int)));
    }
    assert(run@.take(i as int) =~= run@);
    text
}

/// What is asked of a character: whether it counts as a letter, as letters,
/// digits and the marks that sit on them do, and whether it is a space. What
/// stands where something was taken out is a space and no letter.
pub proof fn law_what_is_asked_of_a_character(text: Seq<char>, i: int)
    requires
        0 <= i < text.len(),
    ensures
        glyphs(text).len() == text.len(),
        glyphs(text)[i].c == text[i],
        glyphs(text)[i].letter <==> alphanumeric(text[i]) || combining_mark(text[i]),
        glyphs(text)[i].space <==> white_space(text[i]),
        chars(glyphs(text)) == text,
        gap().c == ' ' && gap().space && !gap().letter,
{
    assert(chars(glyphs(text)) =~= text);
}

/// A text in ASCII is lowercased letter by letter: a capital is the small letter
/// it is written like, thirty-two further on, and nothing else changes.
pub proof fn law_a_capital_becomes_a_small_letter(text: Seq<char>, i: int)
    requires
        is_ascii(text),
        0 <= i < text.len(),
    ensures
        lowercase_form(text).len() == text.len(),
        'A' <= text[i] <= 'Z' ==> lowercase_form(text)[i] as u32 == text[i] as u32 + 32,
        !('A' <= text[i] <= 'Z') ==> lowercase_form(text)[i] == text[i],
{
}

} // verus!
