//! The key a title is filed and looked up under.
//!
//! A list entry is text, and a filename is text the parser has already taken
//! apart, so neither is compared as it stands. Both are brought to a [`Key`],
//! so that a filename's key can be compared with the keys the list's entries
//! are filed under. A key forgives case, width, whitespace and punctuation
//! between words, the way a season or a part is spelled, a release group, and a
//! year or a type in brackets.
//!
//! **The marks at the very end of a title stay in the key.** `K-ON!` and
//! `K-ON!!` are different seasons, as are `Nisekoi` and `Nisekoi:`, and nothing
//! else tells them apart. The end is taken once the season, the part and the
//! year are out, so the `!!` of `Haikyuu!! 2nd Season` is a mark. Brackets and
//! dashes are not marks: `【Oshi no Ko】` reaches what the parser leaves of
//! `[Oshi no Ko]`, and the last dash of `Title -Subtitle-` closes the subtitle.
//!
//! **A season and a part are read out of the text**, because a list entry is
//! text that never meets the parser. `Season 2`, `2nd Season`, `Second Season`,
//! `Saison 2`, `S2`, `第2期` and a numeral from `II` to `IX` as the last word are
//! one season; `Part 2`, `Part II`, `Pt 2`, `Cour 2`, `2nd Cour`, `Parte 2`,
//! `Partie 2`, `P2` and `第2クール` are one part. `Part` and `Pt` are words with
//! other meanings, so beside a part in brackets, or one spelled beyond
//! mistaking, a bare `Part` stays part of the name. Standing alone it is still
//! read, because that is how a list spells a part; the parser is stricter and
//! counts a bare one only inside brackets. A part is never a season: AniList
//! lists the second half of some seasons as an entry of its own, spelled
//! `Part 2`, beside a whole second season spelled `Season 2`. A first season
//! and a first part carry no number, because `Show.S01E05` is the entry the
//! list calls `Show`.
//!
//! A numeral ending a title or following `Season` or `Saison` counts only in
//! uppercase, and `X` and `I` never count there: `X` ending a title is part of
//! its name rather than ten, `I` is a pronoun or a first film, and `Ii` is a
//! Japanese word. After `Part`, `Parte`, `Partie` or `Pt`, a numeral from `I`
//! to `X` counts in either case. A bare number at the end is not a season
//! either: the `0` of `Steins;Gate 0` is part of its name.
//!
//! Text is brought to NFKC first, so full-width letters and a numeral written
//! as one character, `Ⅱ`, reach their ordinary forms. `×` then becomes `x`, so
//! `HUNTER×HUNTER` meets `Hunter x Hunter`. A year in brackets or standing as a
//! word of its own is dropped wherever it stands, and so is a type in brackets,
//! because neither reaches the key from a filename: a list tells a series from
//! the film of its name by `(TV)` and `(Movie)`, and the parser takes the year
//! it reads, and a bracketed type, out of the title it reports. Case goes by
//! `str::to_lowercase` rather than full case folding, which differs on a few
//! letters such as German `ß` and Greek `ς`. A combining mark belongs to the
//! letter it sits on, so a Thai tone mark is neither erased nor taken for
//! punctuation.

use vstd::prelude::*;
use vstd::slice::slice_subrange;

#[allow(unused_imports)]
use crate::recognise::ending::marks_cut_off;
use crate::recognise::ending::with_marks;
use crate::recognise::glyph::{a_gap, glyphs_of, lowercase, nfkc, text_of, Glyph};
#[allow(unused_imports)]
use crate::recognise::glyph::{
    chars, gap, glyph, glyphs, lowercase_form, nfkc_form, white_space,
};
#[allow(unused_imports)]
use crate::recognise::numbering::{
    chosen, ending_numeral, law_a_numeral_that_ends_a_title, law_a_title_without_a_number_stays,
    law_the_first_number_beyond_doubt_counts, lemma_what_is_chosen_lies_within, next_word,
    number_of, reading_at, season_at, take, take_ending_numeral, without_ending_numeral,
    without_number, Numbering, Reading,
};
use crate::recognise::parse::Parsed;
#[allow(unused_imports)]
use crate::recognise::parse::ParsedView;
use crate::recognise::spelling::{
    breaks_tokens, breaks_words, closing_of, dashes, is_closing, is_opening, is_word,
};
#[allow(unused_imports)]
use crate::recognise::spelling::{
    alike_but_for_case, closes, closing, counted, folded, is_dash, is_digit, is_token_break,
    is_word_break, law_a_numeral_is_its_number, law_a_season_number_is_its_number,
    law_a_short_number_is_its_digits, opens, reads, rest_after, roman, season_number,
};
use crate::recognise::words::{take_out, word_of, words_of};
#[allow(unused_imports)]
use crate::recognise::words::{
    law_a_word_behind_a_break_is_one_more, law_words_are_the_runs_of_letters,
    lemma_words_lie_within, lie_in, taken_out, word_at, words,
};
use crate::text::{characters, same, spelled};
#[allow(unused_imports)]
use crate::text::texts;

verus! {

// Markers: the years and the types a title carries.

/// Four digits from 1900 to 2099.
pub open spec fn is_year(word: Seq<char>) -> bool {
    &&& word.len() == 4
    &&& forall|i: int| 0 <= i < 4 ==> is_digit(#[trigger] word[i])
    &&& (word[0] == '1' && word[1] == '9') || (word[0] == '2' && word[1] == '0')
}

/// A word the parser reads as the type of a release rather than as a name.
pub open spec fn is_type(word: Seq<char>) -> bool {
    ||| alike_but_for_case(word, "TV"@)
    ||| alike_but_for_case(word, "Movie"@)
    ||| alike_but_for_case(word, "Gekijouban"@)
    ||| alike_but_for_case(word, "OAD"@)
    ||| alike_but_for_case(word, "OAV"@)
    ||| alike_but_for_case(word, "OVA"@)
    ||| alike_but_for_case(word, "ONA"@)
    ||| alike_but_for_case(word, "SP"@)
    ||| alike_but_for_case(word, "Special"@)
    ||| alike_but_for_case(word, "Specials"@)
}

fn year(word: &[Glyph]) -> (answer: bool)
    ensures
        answer == is_year(chars(word@)),
{
    if word.len() != 4 {
        return false;
    }
    assert(forall|i: int| 0 <= i < 4 ==> chars(word@)[i] == (#[trigger] word@[i]).c);
    let (a, b, c, d) = (word[0].c, word[1].c, word[2].c, word[3].c);
    let digits = '0' <= a && a <= '9' && '0' <= b && b <= '9' && '0' <= c && c <= '9' && '0' <= d
        && d <= '9';
    assert(digits == (is_digit(chars(word@)[0]) && is_digit(chars(word@)[1]) && is_digit(
        chars(word@)[2],
    ) && is_digit(chars(word@)[3])));
    digits && ((a == '1' && b == '9') || (a == '2' && b == '0'))
}

fn type_of_release(word: &[Glyph]) -> (answer: bool)
    ensures
        answer == is_type(chars(word@)),
{
    is_word(word, "TV") || is_word(word, "Movie") || is_word(word, "Gekijouban") || is_word(
        word,
        "OAD",
    ) || is_word(word, "OAV") || is_word(word, "OVA") || is_word(word, "ONA") || is_word(
        word,
        "SP",
    ) || is_word(word, "Special") || is_word(word, "Specials")
}

/// The first place from here on that is not whitespace.
pub open spec fn past_spaces(text: Seq<Glyph>, from: int) -> int
    decreases text.len() - from,
{
    if from < text.len() && text[from].space {
        past_spaces(text, from + 1)
    } else {
        from
    }
}

/// Where the whitespace that ends at a place begins, and no sooner than `from`.
pub open spec fn before_spaces(text: Seq<Glyph>, from: int, to: int) -> int
    decreases to - from,
{
    if from < to && text[to - 1].space {
        before_spaces(text, from, to - 1)
    } else {
        to
    }
}

/// The first place from here on that holds a character, or the end.
pub open spec fn first_place(text: Seq<Glyph>, from: int, c: char) -> int
    decreases text.len() - from,
{
    if from < text.len() && text[from].c != c {
        first_place(text, from + 1, c)
    } else {
        from
    }
}

/// What follows a year or a type and its closing bracket, where `from` is what
/// stands after the opening bracket.
///
/// The search for `close` runs to the end of the text, which is safe because a
/// year and a type hold no bracket of their own: where the marker matches, the
/// `close` found is the one that closes the bracket this was given.
pub open spec fn marker_end(text: Seq<Glyph>, from: int, close: char) -> Option<int> {
    let start = past_spaces(text, from);
    let at = first_place(text, start, close);
    let marker = chars(text.subrange(start, before_spaces(text, start, at)));
    if at < text.len() && (is_year(marker) || is_type(marker)) {
        Some(at + 1)
    } else {
        None
    }
}

proof fn lemma_places_are_in_order(text: Seq<Glyph>, from: int, close: char)
    requires
        0 <= from <= text.len(),
    ensures
        from <= past_spaces(text, from) <= text.len(),
        from <= first_place(text, from, close) <= text.len(),
    decreases text.len() - from,
{
    if from < text.len() {
        lemma_places_are_in_order(text, from + 1, close);
    }
}

proof fn lemma_spaces_end_in_order(text: Seq<Glyph>, from: int, to: int)
    requires
        from <= to,
    ensures
        from <= before_spaces(text, from, to) <= to,
    decreases to - from,
{
    if from < to && text[to - 1].space {
        lemma_spaces_end_in_order(text, from, to - 1);
    }
}

fn marker_then(text: &[Glyph], from: usize, close: char) -> (after: Option<usize>)
    requires
        from <= text@.len(),
    ensures
        match (after, marker_end(text@, from as int, close)) {
            (Some(place), Some(expected)) => place == expected && from < place <= text@.len(),
            (None, None) => true,
            _ => false,
        },
{
    let mut start: usize = from;
    proof {
        lemma_places_are_in_order(text@, from as int, close);
    }
    while start < text.len() && text[start].space
        invariant
            from <= start <= text@.len(),
            past_spaces(text@, from as int) == past_spaces(text@, start as int),
        decreases text@.len() - start,
    {
        start += 1;
    }
    let mut at: usize = start;
    while at < text.len() && text[at].c != close
        invariant
            start <= at <= text@.len(),
            first_place(text@, start as int, close) == first_place(text@, at as int, close),
        decreases text@.len() - at,
    {
        at += 1;
    }
    if at >= text.len() {
        return None;
    }
    let mut end: usize = at;
    while end > start && text[end - 1].space
        invariant
            start <= end <= at < text@.len(),
            before_spaces(text@, start as int, at as int) == before_spaces(
                text@,
                start as int,
                end as int,
            ),
        decreases end,
    {
        end -= 1;
    }
    let marker = slice_subrange(text, start, end);
    if year(marker) || type_of_release(marker) {
        Some(at + 1)
    } else {
        None
    }
}

/// The text from a place on, with a space for every bracket that holds only a
/// year or a type.
pub open spec fn without_bracketed_markers(text: Seq<Glyph>, from: int) -> Seq<Glyph>
    decreases text.len() - from,
    when 0 <= from
    via a_marker_ends_after_it_begins
{
    if from >= text.len() {
        Seq::empty()
    } else {
        match closing(text[from].c) {
            Some(close) => match marker_end(text, from + 1, close) {
                Some(after) => seq![gap()] + without_bracketed_markers(text, after),
                None => seq![text[from]] + without_bracketed_markers(text, from + 1),
            },
            None => seq![text[from]] + without_bracketed_markers(text, from + 1),
        }
    }
}

#[via_fn]
proof fn a_marker_ends_after_it_begins(text: Seq<Glyph>, from: int) {
    if from < text.len() {
        if let Some(close) = closing(text[from].c) {
            lemma_places_are_in_order(text, from + 1, close);
            lemma_places_are_in_order(text, past_spaces(text, from + 1), close);
        }
    }
}

fn strip_bracketed_markers(text: &[Glyph]) -> (kept: Vec<Glyph>)
    ensures
        kept@ == without_bracketed_markers(text@, 0),
{
    let mut kept: Vec<Glyph> = Vec::new();
    let mut at: usize = 0;
    assert(kept@ + without_bracketed_markers(text@, 0) =~= without_bracketed_markers(text@, 0));
    while at < text.len()
        invariant
            at <= text@.len(),
            kept@ + without_bracketed_markers(text@, at as int) == without_bracketed_markers(
                text@,
                0,
            ),
        decreases text@.len() - at,
    {
        let ghost before = kept@;
        let ghost from = at as int;
        let marker = match closing_of(text[at].c) {
            Some(close) => marker_then(text, at + 1, close),
            None => None,
        };
        match marker {
            Some(after) => {
                kept.push(a_gap());
                at = after;
            },
            None => {
                kept.push(text[at]);
                at += 1;
            },
        }
        assert(kept@ + without_bracketed_markers(text@, at as int) =~= before
            + without_bracketed_markers(text@, from));
    }
    assert(kept@ + without_bracketed_markers(text@, at as int) =~= kept@);
    kept
}

/// Whether a word is a token of its own to the parser.
///
/// Digits joined to anything else are part of the name, as they are to the
/// parser, which reads a year only where the whole token is one: `Show/1999`
/// and `Maji LOVE 2000%` keep their digits.
pub open spec fn stands_alone(text: Seq<Glyph>, word: (int, int)) -> bool {
    &&& word.0 == 0 || is_token_break(text[word.0 - 1])
    &&& word.1 == text.len() || is_token_break(text[word.1])
}

/// The text with a space for every year standing as a word of its own, from one
/// word on.
pub open spec fn without_bare_years(text: Seq<Glyph>, at: int) -> Seq<Glyph>
    decreases words(text).len() - at,
{
    if at >= words(text).len() {
        text
    } else {
        let word = words(text)[at];
        let kept = without_bare_years(text, at + 1);
        if stands_alone(text, word) && is_year(word_at(text, word)) {
            taken_out(kept, word)
        } else {
            kept
        }
    }
}

/// What stands before the years that went has not moved.
proof fn lemma_the_front_stays(text: Seq<Glyph>, at: int)
    requires
        0 <= at <= words(text).len(),
    ensures
        at < words(text).len() ==> without_bare_years(text, at).len() >= words(text)[at].0,
        at > 0 ==> without_bare_years(text, at).len() >= words(text)[at - 1].1,
    decreases words(text).len() - at,
{
    law_words_are_the_runs_of_letters(text, text.len() as int);
    let all = words(text);
    if at > 0 {
        assert(all[at - 1].0 < all[at - 1].1);
    }
    if at < all.len() {
        assert(all[at].0 < all[at].1);
        lemma_the_front_stays(text, at + 1);
        if at > 0 {
            assert(all[at - 1].1 < all[at].0);
        }
    }
}

fn strip_bare_years(text: Vec<Glyph>) -> (kept: Vec<Glyph>)
    ensures
        kept@ == without_bare_years(text@, 0),
{
    let spans = words_of(&text);
    proof {
        lemma_words_lie_within(spans@, text@);
    }
    let mut kept: Vec<Glyph> = Vec::new();
    let mut i: usize = 0;
    while i < text.len()
        invariant
            i <= text@.len(),
            kept@ == text@.take(i as int),
        decreases text@.len() - i,
    {
        kept.push(text[i]);
        i += 1;
    }
    assert(text@.take(i as int) =~= text@);
    // From the end, so that a word's place still lines up once the years behind
    // it have gone.
    let mut at: usize = spans.len();
    while at > 0
        invariant
            lie_in(spans@, text@),
            spans@.len() == words(text@).len(),
            at <= spans@.len(),
            kept@ == without_bare_years(text@, at as int),
        decreases at,
    {
        proof {
            lemma_words_lie_within(spans@, text@);
            lemma_the_front_stays(text@, at as int);
        }
        at -= 1;
        let word = spans[at];
        assert(word@ == words(text@)[at as int]);
        let alone_before = word.start == 0 || breaks_tokens(text[word.start - 1]);
        let alone_after = word.end == text.len() || breaks_tokens(text[word.end]);
        if alone_before && alone_after && year(word_of(&text, word)) {
            kept = take_out(&kept, word.start, word.end);
        }
    }
    kept
}

/// The text with every year and every bracketed type taken out.
///
/// A year is four digits from 1900 to 2099, and a type is one of the words the
/// parser reads as one. A type counts only inside brackets, here as in the
/// parser: `Show (Movie)` is a film of `Show`, while a bare `TV` is part of a
/// name. Brackets alone are not enough either, so `[Oshi no Ko]` keeps its name
/// and `(12)` keeps its number. A year counts in brackets and as a word of its
/// own, because the parser reports one of either kind apart from the title.
/// The parser's own range is narrower, and a year outside it is dropped here
/// from a list entry and a filename's title alike, so the two still meet.
pub open spec fn without_markers(text: Seq<Glyph>) -> Seq<Glyph> {
    without_bare_years(without_bracketed_markers(text, 0), 0)
}

/// The text with every year and every bracketed type taken out.
pub fn strip_markers(text: &[Glyph]) -> (kept: Vec<Glyph>)
    ensures
        kept@ == without_markers(text@),
{
    strip_bare_years(strip_bracketed_markers(text))
}

// What a title spells.

/// Which of the season and the part the parser has already read.
#[derive(Debug, Clone, Copy, PartialEq, Eq, Structural)]
pub struct Reported {
    /// Whether it read a season.
    pub season: bool,
    /// Whether it read a part.
    pub part: bool,
}

/// A title whose season and part are still in its text.
pub open spec fn nothing_reported() -> Reported {
    Reported { season: false, part: false }
}

/// The part a title's text spells, unless the parser has read one.
pub open spec fn part_spelled(text: Seq<Glyph>, reported: Reported) -> Option<nat> {
    if reported.part {
        None
    } else {
        number_of(text, Numbering::Part)
    }
}

/// What is left once the part is out.
pub open spec fn without_part(text: Seq<Glyph>, reported: Reported) -> Seq<Glyph> {
    if reported.part {
        text
    } else {
        without_number(text, Numbering::Part)
    }
}

/// The season a title's text spells, unless the parser has read one: by a word
/// that marks it, or by a numeral that ends the title.
pub open spec fn season_spelled(text: Seq<Glyph>, reported: Reported) -> Option<nat> {
    if reported.season {
        None
    } else {
        match number_of(text, Numbering::Season) {
            Some(number) => Some(number),
            None => ending_numeral(text),
        }
    }
}

/// What is left once the season is out.
pub open spec fn without_season(text: Seq<Glyph>, reported: Reported) -> Seq<Glyph> {
    if reported.season {
        text
    } else if number_of(text, Numbering::Season) is Some {
        without_number(text, Numbering::Season)
    } else {
        without_ending_numeral(text)
    }
}

/// The name that is left of a title once its markers, its part and its season
/// are out of it.
pub open spec fn name_left(text: Seq<Glyph>, reported: Reported) -> Seq<Glyph> {
    without_season(without_part(without_markers(text), reported), reported)
}

/// A title's text, read for the season and the part it spells.
#[derive(Debug)]
pub struct Read {
    /// What is left of the text.
    pub name: Vec<Glyph>,
    /// The season it spells.
    pub season: Option<u32>,
    /// The part it spells.
    pub part: Option<u32>,
}

/// Read the season and the part out of a title's text.
///
/// The part goes first, so that the number of a part is never taken for a
/// season's.
pub fn read_out(text: &[Glyph], reported: Reported) -> (read: Read)
    ensures
        read.name@ == name_left(text@, reported),
        reads(read.part, part_spelled(without_markers(text@), reported)),
        reads(
            read.season,
            season_spelled(without_part(without_markers(text@), reported), reported),
        ),
{
    let text = strip_markers(text);
    let (text, part) = if reported.part {
        (text, None)
    } else {
        take(text, Numbering::Part)
    };
    let (text, season) = if reported.season {
        (text, None)
    } else {
        let (text, season) = take(text, Numbering::Season);
        match season {
            Some(number) => (text, Some(number)),
            None => take_ending_numeral(text),
        }
    };
    Read { name: text, season, part }
}

/// Where the last letter before a place has ended.
pub open spec fn name_end(text: Seq<Glyph>, n: int) -> int
    decreases n,
{
    if n <= 0 {
        0
    } else if text[n - 1].letter {
        n
    } else {
        name_end(text, n - 1)
    }
}

/// The letters and digits among some characters.
pub open spec fn letters_in(text: Seq<Glyph>) -> Seq<char>
    decreases text.len(),
{
    if text.len() == 0 {
        Seq::empty()
    } else if text.last().letter {
        letters_in(text.drop_last()).push(text.last().c)
    } else {
        letters_in(text.drop_last())
    }
}

/// The marks among some characters: what is no space, no bracket and no dash.
pub open spec fn marks_in(text: Seq<Glyph>) -> Seq<char>
    decreases text.len(),
{
    if text.len() == 0 {
        Seq::empty()
    } else if is_mark(text.last()) {
        marks_in(text.drop_last()).push(text.last().c)
    } else {
        marks_in(text.drop_last())
    }
}

/// A character that counts as a mark at the end of a title.
pub open spec fn is_mark(g: Glyph) -> bool {
    !is_word_break(g) && !opens(g.c) && !closes(g.c) && !is_dash(g.c)
}

/// The letters of a name, in lowercase.
pub open spec fn key_letters(name: Seq<Glyph>) -> Seq<char> {
    letters_in(glyphs(lowercase_form(chars(name.take(name_end(name, name.len() as int))))))
}

/// The marks a name ends in.
pub open spec fn key_marks(name: Seq<Glyph>) -> Seq<char> {
    marks_in(name.skip(name_end(name, name.len() as int)))
}

fn keep_letters(text: &[Glyph]) -> (kept: String)
    ensures
        kept@ == letters_in(text@),
{
    let mut kept = String::new();
    let mut i: usize = 0;
    while i < text.len()
        invariant
            i <= text@.len(),
            kept@ == letters_in(text@.take(i as int)),
        decreases text@.len() - i,
    {
        assert(text@.take(i + 1).drop_last() =~= text@.take(i as int));
        if text[i].letter {
            kept.push(text[i].c);
        }
        i += 1;
    }
    assert(text@.take(i as int) =~= text@);
    kept
}

fn keep_marks(text: &[Glyph]) -> (kept: String)
    ensures
        kept@ == marks_in(text@),
{
    let mut kept = String::new();
    let mut i: usize = 0;
    while i < text.len()
        invariant
            i <= text@.len(),
            kept@ == marks_in(text@.take(i as int)),
        decreases text@.len() - i,
    {
        assert(text@.take(i + 1).drop_last() =~= text@.take(i as int));
        let g = text[i];
        if !breaks_words(g) && !is_opening(g.c) && !is_closing(g.c) && !dashes(g.c) {
            kept.push(g.c);
        }
        i += 1;
    }
    assert(text@.take(i as int) =~= text@);
    kept
}

fn end_of_name(text: &[Glyph]) -> (end: usize)
    ensures
        end == name_end(text@, text@.len() as int),
        end <= text@.len(),
{
    let mut end: usize = text.len();
    while end > 0 && !text[end - 1].letter
        invariant
            end <= text@.len(),
            name_end(text@, text@.len() as int) == name_end(text@, end as int),
        decreases end,
    {
        end -= 1;
    }
    end
}

// The text of a title, before anything is read out of it.

/// A sign for times is the letter it is read as.
pub open spec fn times_as_letter(c: char) -> char {
    if c == '×' {
        'x'
    } else {
        c
    }
}

/// A title's text in the form it is read in.
pub open spec fn prepared(title: Seq<char>) -> Seq<Glyph> {
    glyphs(nfkc_form(title).map_values(|c: char| times_as_letter(c)))
}

fn prepare(title: &str) -> (text: Vec<Glyph>)
    ensures
        text@ == prepared(title@),
{
    let form = characters(nfkc(title).as_str());
    let mut letters: Vec<char> = Vec::new();
    let ghost all = nfkc_form(title@).map_values(|c: char| times_as_letter(c));
    let mut i: usize = 0;
    while i < form.len()
        invariant
            i <= form@.len(),
            form@ == nfkc_form(title@),
            all == nfkc_form(title@).map_values(|c: char| times_as_letter(c)),
            letters@ == all.take(i as int),
        decreases form@.len() - i,
    {
        let c = if form[i] == '×' {
            'x'
        } else {
            form[i]
        };
        letters.push(c);
        i += 1;
    }
    assert(all.take(i as int) =~= all);
    glyphs_of(spelled(letters.as_slice()).as_str())
}

/// The part a stretch of text spells, in any form a title's part is read in.
pub open spec fn part_in_text(text: Seq<char>) -> Option<nat> {
    number_of(glyphs(nfkc_form(text)), Numbering::Part)
}

/// The part a stretch of text spells, in any form a title's part is read in.
///
/// For the parse, which reads back a part the parser lost by the same rule a
/// list entry's text is read with.
pub fn part_in(text: &str) -> (part: Option<u32>)
    ensures
        reads(part, part_in_text(text@)),
{
    let text = glyphs_of(nfkc(text).as_str());
    let (_, part) = take(text, Numbering::Part);
    part
}

/// The words a title spells, in lowercase and in order, once its markers, its
/// part and its season are out of it.
pub open spec fn words_spelled(text: Seq<char>) -> Seq<Seq<char>> {
    words_of_name(name_left(prepared(text), nothing_reported()))
}

/// The words of a name, in lowercase and in order.
pub open spec fn words_of_name(name: Seq<Glyph>) -> Seq<Seq<char>> {
    words(name).map_values(|word: (int, int)| lowercase_form(word_at(name, word)))
}

/// The words of a piece of text, read by the rules a key is read by.
///
/// For the stages that compare words. They cannot be read out of a key, because
/// a key erases the breaks between words so that `Fate/Zero` and `Fate Zero`
/// reach one.
pub fn words_in(text: &str) -> (found: Vec<String>)
    ensures
        texts(found@) == words_spelled(text@),
{
    let prepared = prepare(text);
    let read = read_out(&prepared, Reported { season: false, part: false });
    let name = read.name;
    let spans = words_of(&name);
    proof {
        lemma_words_lie_within(spans@, name@);
    }
    let ghost all = words_of_name(name@);
    let mut found: Vec<String> = Vec::new();
    let mut i: usize = 0;
    while i < spans.len()
        invariant
            i <= spans@.len(),
            spans@.len() == words(name@).len(),
            lie_in(spans@, name@),
            all == words_of_name(name@),
            texts(found@) == all.take(i as int),
        decreases spans@.len() - i,
    {
        proof {
            lemma_words_lie_within(spans@, name@);
        }
        let span = spans[i];
        assert(span@ == words(name@)[i as int]);
        let word = text_of(word_of(&name, span));
        let ghost before = texts(found@);
        found.push(lowercase(word.as_str()));
        i += 1;
        assert(texts(found@) =~= before.push(all[i - 1]));
        assert(all.take(i as int) =~= all.take(i - 1).push(all[i - 1]));
    }
    assert(all.take(i as int) =~= all);
    found
}

// The key.

/// The form a title is compared in.
///
/// Built from a list entry's text by [`Key::from_title`] and from a parsed
/// filename by [`Key::from_parsed`], so that the two can be compared.
#[derive(Debug, PartialEq, Eq, Hash)]
pub struct Key {
    letters: String,
    marks: String,
    season: Option<u32>,
    part: Option<u32>,
}

/// The form a title is compared in, as contracts speak of it.
#[verifier::ext_equal]
pub struct KeyView {
    /// The letters and digits of the name, in lowercase.
    pub letters: Seq<char>,
    /// The marks the name ends in.
    pub marks: Seq<char>,
    /// The season, where it is not the first.
    pub season: Option<nat>,
    /// The part, where it is not the first.
    pub part: Option<nat>,
}

/// A number that may be missing, as a natural one.
pub open spec fn natural(number: Option<u32>) -> Option<nat> {
    match number {
        Some(n) => Some(n as nat),
        None => None,
    }
}

/// A first season or a first part carries no number.
pub open spec fn not_the_first(number: Option<nat>) -> Option<nat> {
    if number == Some(1nat) {
        None
    } else {
        number
    }
}

/// The first of two numbers that there is.
pub open spec fn either(one: Option<nat>, other: Option<nat>) -> Option<nat> {
    match one {
        Some(number) => Some(number),
        None => other,
    }
}

/// The key of a name and its numbers, where the name has a letter in it.
pub open spec fn key_of_name(name: Seq<Glyph>, season: Option<nat>, part: Option<nat>) -> Option<
    KeyView,
> {
    if key_letters(name).len() == 0 {
        None
    } else {
        Some(
            KeyView {
                letters: key_letters(name),
                marks: key_marks(name),
                season: not_the_first(season),
                part: not_the_first(part),
            },
        )
    }
}

/// The key of a title whose text is given, beside what the parser reported.
pub open spec fn key_of_text(
    text: Seq<Glyph>,
    season: Option<nat>,
    part: Option<nat>,
) -> Option<KeyView> {
    let reported = Reported { season: season is Some, part: part is Some };
    let stripped = without_markers(text);
    key_of_name(
        name_left(text, reported),
        either(season, season_spelled(without_part(stripped, reported), reported)),
        either(part, part_spelled(stripped, reported)),
    )
}

/// The key of a list entry's title.
pub open spec fn key_of_title(title: Seq<char>) -> Option<KeyView> {
    key_of_text(prepared(title), None, None)
}

/// The key of what a filename spells.
pub open spec fn key_of_parsed(parsed: ParsedView) -> Option<KeyView> {
    match parsed.title {
        None => None,
        Some(title) => key_of_text(
            prepared(title + marks_cut_off(parsed.text, title)),
            natural(parsed.season),
            natural(parsed.part),
        ),
    }
}

/// A key made by exec code is the one a contract speaks of.
pub open spec fn keys(made: Option<Key>, expected: Option<KeyView>) -> bool {
    match (made, expected) {
        (Some(key), Some(view)) => key@ == view,
        (None, None) => true,
        _ => false,
    }
}

impl View for Key {
    type V = KeyView;

    closed spec fn view(&self) -> KeyView {
        KeyView {
            letters: self.letters@,
            marks: self.marks@,
            season: natural(self.season),
            part: natural(self.part),
        }
    }
}

impl Key {
    /// The key a list entry spelled this way is filed under.
    ///
    /// Nothing where no letter or digit is left once the season, the part and
    /// the year are taken out: `Season 2` alone names no entry.
    pub fn from_title(title: &str) -> (key: Option<Self>)
        ensures
            keys(key, key_of_title(title@)),
    {
        Self::of_text(&prepare(title), None, None)
    }

    /// The key a filename is looked up by.
    ///
    /// Where the parser reported a season, the title left behind is not read
    /// for another: a numeral ending it is part of the name, as it is in the
    /// list entry that spells the season out. The same holds for a part. A mark
    /// the name ends the title in is in the key, though the parser took it for
    /// a break between words.
    pub fn from_parsed(parsed: &Parsed) -> (key: Option<Self>)
        ensures
            keys(key, key_of_parsed(parsed@)),
    {
        match &parsed.title {
            None => None,
            Some(title) => {
                let title = with_marks(parsed.text.as_str(), title.as_str());
                Self::of_text(&prepare(title.as_str()), parsed.season, parsed.part)
            },
        }
    }

    /// The key of a title's text, beside what the parser reported.
    pub fn of_text(text: &[Glyph], season: Option<u32>, part: Option<u32>) -> (key: Option<Self>)
        ensures
            keys(key, key_of_text(text@, natural(season), natural(part))),
    {
        let reported = Reported { season: season.is_some(), part: part.is_some() };
        let read = read_out(text, reported);
        let season = match season {
            Some(number) => Some(number),
            None => read.season,
        };
        let part = match part {
            Some(number) => Some(number),
            None => read.part,
        };
        Self::new(&read.name, season, part)
    }

    fn new(name: &[Glyph], season: Option<u32>, part: Option<u32>) -> (key: Option<Self>)
        ensures
            keys(key, key_of_name(name@, natural(season), natural(part))),
    {
        let end = end_of_name(name);
        let head = slice_subrange(name, 0, end);
        let tail = slice_subrange(name, end, name.len());
        assert(head@ =~= name@.take(end as int));
        assert(tail@ =~= name@.skip(end as int));
        let letters = keep_letters(&glyphs_of(lowercase(text_of(head).as_str()).as_str()));
        if letters.as_str().is_empty() {
            return None;
        }
        let marks = keep_marks(tail);
        Some(
            Self {
                letters,
                marks,
                season: if season == Some(1) { None } else { season },
                part: if part == Some(1) { None } else { part },
            },
        )
    }

    /// The season the key holds, where it is not the first.
    pub fn season(&self) -> (season: Option<u32>)
        ensures
            natural(season) == self@.season,
    {
        self.season
    }

    /// The part the key holds, where it is not the first.
    pub fn part(&self) -> (part: Option<u32>)
        ensures
            natural(part) == self@.part,
    {
        self.part
    }

    /// The marks the title ended in.
    pub fn marks(&self) -> (marks: &str)
        ensures
            marks@ == self@.marks,
    {
        self.marks.as_str()
    }

    /// The same key with its marks taken off.
    pub fn without_marks(&self) -> (key: Self)
        ensures
            key@ == unmarked(self@),
    {
        let key = Self {
            letters: self.letters.clone(),
            marks: String::new(),
            season: self.season,
            part: self.part,
        };
        assert(key@ =~= unmarked(self@));
        key
    }

    /// Whether two keys are one.
    pub fn is(&self, other: &Self) -> (answer: bool)
        ensures
            answer == (self@ == other@),
    {
        let answer = same(self.letters.as_str(), other.letters.as_str()) && same(
            self.marks.as_str(),
            other.marks.as_str(),
        ) && self.season == other.season && self.part == other.part;
        assert(answer ==> self@ =~= other@);
        answer
    }
}

impl Clone for Key {
    fn clone(&self) -> (copy: Self)
        ensures
            copy@ == self@,
    {
        Self {
            letters: self.letters.clone(),
            marks: self.marks.clone(),
            season: self.season,
            part: self.part,
        }
    }
}

/// A key with its marks taken off.
pub open spec fn unmarked(key: KeyView) -> KeyView {
    KeyView { letters: key.letters, marks: Seq::empty(), season: key.season, part: key.part }
}

// What keys promise.

/// A first season and a first part carry no number, so a name that spells them
/// out reaches the entry that does not.
pub proof fn law_a_first_season_carries_no_number(
    text: Seq<Glyph>,
    season: Option<nat>,
    part: Option<nat>,
)
    ensures
        key_of_text(text, season, part) matches Some(key) ==> key.season != Some(1nat) && key.part
            != Some(1nat),
{
}

/// A season or a part the parser reported is the one in the key, whatever the
/// title left behind spells.
pub proof fn law_what_was_reported_is_in_the_key(
    text: Seq<Glyph>,
    season: Option<nat>,
    part: Option<nat>,
)
    ensures
        key_of_text(text, season, part) matches Some(key) ==> (season is Some ==> key.season
            == not_the_first(season)) && (part is Some ==> key.part == not_the_first(part)),
{
}

/// A filename meets its list entry: where the parser reported no season and no
/// part, the key it is looked up by is the key of an entry spelled like its
/// title, with the marks the name ends the title in.
pub proof fn law_a_filename_meets_its_entry(parsed: ParsedView, title: Seq<char>)
    requires
        parsed.title == Some(title),
        parsed.season is None,
        parsed.part is None,
    ensures
        key_of_parsed(parsed) == key_of_title(title + marks_cut_off(parsed.text, title)),
        marks_cut_off(parsed.text, title).len() == 0 ==> key_of_parsed(parsed) == key_of_title(
            title,
        ),
{
    let marks = marks_cut_off(parsed.text, title);
    if marks.len() == 0 {
        assert(title + marks =~= title);
    }
}

/// A key has letters, every one of them a letter or a digit of a name. What it
/// keeps of the end is no letter, no break between words, no bracket and no
/// dash.
pub proof fn law_a_key_is_letters_and_marks(
    title: Seq<char>,
    season: Option<nat>,
    part: Option<nat>,
)
    ensures
        key_of_text(prepared(title), season, part) matches Some(key) ==> {
            &&& key.letters.len() > 0
            &&& forall|i: int|
                0 <= i < key.letters.len() ==> glyph(#[trigger] key.letters[i]).letter
            &&& forall|i: int| 0 <= i < key.marks.len() ==> is_ending_mark(#[trigger] key.marks[i])
        },
{
    let text = prepared(title);
    let reported = Reported { season: season is Some, part: part is Some };
    let name = name_left(text, reported);
    let end = name_end(name, name.len() as int);
    lemma_letters_are_letters(lowercase_form(chars(name.take(end))));
    lemma_a_name_is_of_its_text(text, reported);
    lemma_no_letter_follows_the_end(name, name.len() as int);
    assert forall|i: int| 0 <= i < name.skip(end).len() implies stands_for_itself(
        #[trigger] name.skip(end)[i],
    ) && !name.skip(end)[i].letter by {
        assert(name.skip(end)[i] == name[end + i]);
    }
    lemma_marks_are_marks(name.skip(end));
}

/// A character that may end a title and be kept: no letter or digit and no mark
/// sitting on one, no break between words, no bracket and no dash.
pub open spec fn is_ending_mark(c: char) -> bool {
    !glyph(c).letter && !white_space(c) && c != '_' && c != '\u{200B}' && !opens(c) && !closes(c)
        && !is_dash(c)
}

/// A glyph that says of its character what is true of it, or stands where
/// something was taken out.
spec fn stands_for_itself(g: Glyph) -> bool {
    g == glyph(g.c) || g == gap()
}

spec fn all_stand_for_themselves(text: Seq<Glyph>) -> bool {
    forall|i: int| 0 <= i < text.len() ==> stands_for_itself(#[trigger] text[i])
}

proof fn lemma_taking_out_keeps_the_rest(text: Seq<Glyph>, place: (int, int))
    requires
        all_stand_for_themselves(text),
        0 <= place.0 <= text.len(),
        0 <= place.1 <= text.len(),
    ensures
        all_stand_for_themselves(taken_out(text, place)),
{
    let left = taken_out(text, place);
    assert forall|i: int| 0 <= i < left.len() implies stands_for_itself(#[trigger] left[i]) by {
        if i < place.0 {
            assert(left[i] == text[i]);
        } else if i == place.0 {
            assert(left[i] == gap());
        } else {
            assert(left[i] == text[i - place.0 - 1 + place.1]);
        }
    }
}

proof fn lemma_brackets_go_and_the_rest_stays(text: Seq<Glyph>, from: int)
    requires
        all_stand_for_themselves(text),
        0 <= from,
    ensures
        all_stand_for_themselves(without_bracketed_markers(text, from)),
    decreases text.len() - from,
{
    if from < text.len() {
        let kept = without_bracketed_markers(text, from);
        let (first, after) = match closing(text[from].c) {
            Some(close) => match marker_end(text, from + 1, close) {
                Some(after) => {
                    lemma_places_are_in_order(text, from + 1, close);
                    lemma_places_are_in_order(text, past_spaces(text, from + 1), close);
                    (gap(), after)
                },
                None => (text[from], from + 1),
            },
            None => (text[from], from + 1),
        };
        lemma_brackets_go_and_the_rest_stays(text, after);
        let rest = without_bracketed_markers(text, after);
        assert(kept == seq![first] + rest);
        assert forall|i: int| 0 <= i < kept.len() implies stands_for_itself(#[trigger] kept[i]) by {
            if i > 0 {
                assert(kept[i] == rest[i - 1]);
            }
        }
    }
}

proof fn lemma_years_go_and_the_rest_stays(text: Seq<Glyph>, at: int)
    requires
        all_stand_for_themselves(text),
        0 <= at <= words(text).len(),
    ensures
        all_stand_for_themselves(without_bare_years(text, at)),
    decreases words(text).len() - at,
{
    if at < words(text).len() {
        let word = words(text)[at];
        lemma_years_go_and_the_rest_stays(text, at + 1);
        law_words_are_the_runs_of_letters(text, text.len() as int);
        assert(0 <= words(text)[at].0 < words(text)[at].1);
        lemma_the_front_stays(text, at + 1);
        if stands_alone(text, word) && is_year(word_at(text, word)) {
            lemma_taking_out_keeps_the_rest(without_bare_years(text, at + 1), word);
        }
    }
}

proof fn lemma_a_number_goes_and_the_rest_stays(text: Seq<Glyph>, what: Numbering)
    requires
        all_stand_for_themselves(text),
    ensures
        all_stand_for_themselves(without_number(text, what)),
{
    lemma_what_is_chosen_lies_within(text, what);
    if let Some(reading) = chosen(text, what) {
        lemma_taking_out_keeps_the_rest(text, reading.place);
    }
}

/// What is left of a title's text is of that text, but for the spaces that
/// stand where something was taken out.
proof fn lemma_a_name_is_of_its_text(text: Seq<Glyph>, reported: Reported)
    requires
        forall|i: int| 0 <= i < text.len() ==> (#[trigger] text[i]) == glyph(text[i].c),
    ensures
        all_stand_for_themselves(name_left(text, reported)),
{
    lemma_brackets_go_and_the_rest_stays(text, 0);
    lemma_years_go_and_the_rest_stays(without_bracketed_markers(text, 0), 0);
    let stripped = without_markers(text);
    lemma_a_number_goes_and_the_rest_stays(stripped, Numbering::Part);
    let left = without_part(stripped, reported);
    lemma_a_number_goes_and_the_rest_stays(left, Numbering::Season);
    if words(left).len() > 0 {
        law_words_are_the_runs_of_letters(left, left.len() as int);
        let last = words(left)[words(left).len() - 1];
        assert(0 <= last.0 < last.1 <= left.len());
        lemma_taking_out_keeps_the_rest(left, last);
    }
}

proof fn lemma_no_letter_follows_the_end(text: Seq<Glyph>, n: int)
    requires
        0 <= n <= text.len(),
    ensures
        0 <= name_end(text, n) <= n,
        forall|i: int| name_end(text, n) <= i < n ==> !(#[trigger] text[i]).letter,
    decreases n,
{
    if n > 0 && !text[n - 1].letter {
        lemma_no_letter_follows_the_end(text, n - 1);
    }
}

proof fn lemma_letters_are_letters(text: Seq<char>)
    ensures
        forall|i: int|
            0 <= i < letters_in(glyphs(text)).len() ==> glyph(
                #[trigger] letters_in(glyphs(text))[i],
            ).letter,
    decreases text.len(),
{
    if text.len() > 0 {
        let shorter = text.drop_last();
        lemma_letters_are_letters(shorter);
        let earlier = letters_in(glyphs(shorter));
        let all = letters_in(glyphs(text));
        assert(glyphs(text).drop_last() =~= glyphs(shorter));
        assert(glyphs(text).last() == glyph(text.last()));
        assert forall|i: int| 0 <= i < all.len() implies glyph(#[trigger] all[i]).letter by {
            if i < earlier.len() {
                assert(all[i] == earlier[i]);
            }
        }
    }
}

proof fn lemma_marks_are_marks(text: Seq<Glyph>)
    requires
        forall|i: int|
            0 <= i < text.len() ==> stands_for_itself(#[trigger] text[i]) && !text[i].letter,
    ensures
        forall|i: int|
            0 <= i < marks_in(text).len() ==> is_ending_mark(#[trigger] marks_in(text)[i]),
    decreases text.len(),
{
    if text.len() > 0 {
        let shorter = text.drop_last();
        assert forall|i: int| 0 <= i < shorter.len() implies stands_for_itself(
            #[trigger] shorter[i],
        ) && !shorter[i].letter by {
            assert(shorter[i] == text[i]);
        }
        lemma_marks_are_marks(shorter);
        let earlier = marks_in(shorter);
        let all = marks_in(text);
        let last = text[text.len() - 1];
        assert(stands_for_itself(last) && !last.letter);
        assert forall|i: int| 0 <= i < all.len() implies is_ending_mark(#[trigger] all[i]) by {
            if i < earlier.len() {
                assert(all[i] == earlier[i]);
            } else {
                assert(all[i] == last.c && is_mark(last));
            }
        }
    }
}

/// A year is four digits that come to a number from 1900 to 2099.
pub proof fn law_which_words_are_years(word: Seq<char>)
    ensures
        is_year(word) <==> {
            &&& word.len() == 4
            &&& forall|i: int| 0 <= i < 4 ==> '0' <= #[trigger] word[i] && word[i] <= '9'
            &&& 1900 <= 1000 * ((word[0] as u32) - 48) + 100 * ((word[1] as u32) - 48) + 10 * ((
            word[2] as u32) - 48) + ((word[3] as u32) - 48) <= 2099
        },
{
}

/// The types a release is told by, in any case.
pub proof fn law_which_words_are_types(word: Seq<char>)
    ensures
        is_type(word) <==> exists|i: int|
            0 <= i < types_of_release().len() && alike_but_for_case(
                word,
                #[trigger] types_of_release()[i],
            ),
{
    let all = types_of_release();
    assert(all[0] == "TV"@);
    assert(all[1] == "Movie"@);
    assert(all[2] == "Gekijouban"@);
    assert(all[3] == "OAD"@);
    assert(all[4] == "OAV"@);
    assert(all[5] == "OVA"@);
    assert(all[6] == "ONA"@);
    assert(all[7] == "SP"@);
    assert(all[8] == "Special"@);
    assert(all[9] == "Specials"@);
}

/// The types a release is told by.
pub open spec fn types_of_release() -> Seq<Seq<char>> {
    seq![
        "TV"@,
        "Movie"@,
        "Gekijouban"@,
        "OAD"@,
        "OAV"@,
        "OVA"@,
        "ONA"@,
        "SP"@,
        "Special"@,
        "Specials"@,
    ]
}

/// A text without a bracket keeps everything when bracketed markers are taken
/// out of it.
pub proof fn law_without_brackets_nothing_goes(text: Seq<Glyph>, from: int)
    requires
        0 <= from <= text.len(),
        forall|i: int| from <= i < text.len() ==> !opens((#[trigger] text[i]).c),
    ensures
        without_bracketed_markers(text, from) == text.skip(from),
    decreases text.len() - from,
{
    if from < text.len() {
        law_without_brackets_nothing_goes(text, from + 1);
        assert(!opens(text[from].c));
        assert(text.skip(from) =~= seq![text[from]] + text.skip(from + 1));
    } else {
        assert(text.skip(from) =~= Seq::<Glyph>::empty());
    }
}

/// A bracket that holds a year or a type and nothing else leaves a space. One
/// that holds anything else stays.
pub proof fn law_a_bracket_goes_with_its_marker(
    text: Seq<Glyph>,
    from: int,
    close: char,
    to: int,
)
    requires
        0 <= from,
        from + 1 < to < text.len(),
        closing(text[from].c) == Some(close),
        text[to].c == close,
        forall|i: int| from < i < to ==> (#[trigger] text[i]).c != close,
        !text[from + 1].space,
        !text[to - 1].space,
    ensures
        ({
            let held = chars(text.subrange(from + 1, to));
            &&& is_year(held) || is_type(held) ==> without_bracketed_markers(text, from) == seq![
                gap(),
            ] + without_bracketed_markers(text, to + 1)
            &&& !is_year(held) && !is_type(held) ==> without_bracketed_markers(text, from) == seq![
                text[from],
            ] + without_bracketed_markers(text, from + 1)
        }),
{
    lemma_first_place_is(text, from + 1, close, to);
    assert(past_spaces(text, from + 1) == from + 1);
    assert(before_spaces(text, from + 1, to) == to);
}

proof fn lemma_first_place_is(text: Seq<Glyph>, from: int, c: char, to: int)
    requires
        0 <= from <= to < text.len(),
        text[to].c == c,
        forall|i: int| from <= i < to ==> (#[trigger] text[i]).c != c,
    ensures
        first_place(text, from, c) == to,
    decreases to - from,
{
    if from < to {
        lemma_first_place_is(text, from + 1, c, to);
    }
}

/// A year that is a token of its own leaves a space, and every other word stays.
pub proof fn law_a_bare_year_goes(text: Seq<Glyph>, at: int)
    requires
        0 <= at < words(text).len(),
    ensures
        ({
            let word = words(text)[at];
            let alone = (word.0 == 0 || is_token_break(text[word.0 - 1])) && (word.1 == text.len()
                || is_token_break(text[word.1]));
            let rest = without_bare_years(text, at + 1);
            &&& alone && is_year(word_at(text, word)) ==> without_bare_years(text, at) == taken_out(
                rest,
                word,
            )
            &&& !alone || !is_year(word_at(text, word)) ==> without_bare_years(text, at) == rest
        }),
        without_bare_years(text, words(text).len() as int) == text,
{
}

/// A text without a year among its words keeps everything.
pub proof fn law_without_years_nothing_goes(text: Seq<Glyph>, at: int)
    requires
        0 <= at <= words(text).len(),
        forall|k: int| at <= k < words(text).len() ==> !is_year(word_at(text, #[trigger] words(text)[k])),
    ensures
        without_bare_years(text, at) == text,
    decreases words(text).len() - at,
{
    if at < words(text).len() {
        assert(!is_year(word_at(text, words(text)[at])));
        law_without_years_nothing_goes(text, at + 1);
    }
}

/// A name ending in the numeral of a number is the season of that number: it has
/// the key of the same name with `Season` and the number behind it, wherever the
/// name spells no season besides.
pub proof fn law_a_numeral_names_the_season_it_counts(
    name: Seq<Glyph>,
    between: Glyph,
    ending: Seq<Glyph>,
    season: Seq<Glyph>,
    then: Glyph,
    number: Seq<Glyph>,
    n: nat,
    part: Option<nat>,
)
    requires
        2 <= n <= 9,
        !between.letter,
        !then.letter,
        then.space || then.c == '.',
        chars(ending) == roman(n),
        alike_but_for_case(chars(season), "season"@),
        season_number(chars(number)) == Some(n),
        forall|i: int| 0 <= i < ending.len() ==> (#[trigger] ending[i]).letter,
        forall|i: int| 0 <= i < season.len() ==> (#[trigger] season[i]).letter,
        forall|i: int| 0 <= i < number.len() ==> (#[trigger] number[i]).letter,
        forall|k: int|
            0 <= k < words(name).len() ==> #[trigger] season_at(name.push(between) + ending, k) is None,
        forall|k: int|
            0 <= k < words(name).len() ==> #[trigger] season_at(
                (name.push(between) + season).push(then) + number,
                k,
            ) is None,
    ensures
        ({
            let ended = name.push(between) + ending;
            let counted = (name.push(between) + season).push(then) + number;
            &&& season_spelled(ended, nothing_reported()) == Some(n)
            &&& season_spelled(counted, nothing_reported()) == Some(n)
            &&& without_season(ended, nothing_reported()) == without_season(
                counted,
                nothing_reported(),
            )
            &&& key_of_name(
                without_season(ended, nothing_reported()),
                season_spelled(ended, nothing_reported()),
                part,
            ) == key_of_name(
                without_season(counted, nothing_reported()),
                season_spelled(counted, nothing_reported()),
                part,
            )
        }),
{
    let ended = name.push(between) + ending;
    let head = name.push(between) + season;
    let counted_out = head.push(then) + number;
    let m = words(name).len() as int;
    reveal_strlit("season");
    law_a_numeral_is_its_number(roman(n), n);
    lemma_a_numeral_has_letters(n);
    assert(ending.len() == chars(ending).len());
    assert(season.len() == chars(season).len());
    assert(number.len() == chars(number).len());
    law_a_season_number_is_its_number(chars(number), n);
    law_a_short_number_is_its_digits(chars(number), n);
    assert(number.len() > 0);
    law_a_word_behind_a_break_is_one_more(name, between, ending);
    law_a_word_behind_a_break_is_one_more(name, between, season);
    law_a_word_behind_a_break_is_one_more(head, then, number);
    let left = name.push(between).push(gap());
    // The numeral is no reading of its own, so that it ends the title.
    let last = words(ended)[m];
    assert(word_at(ended, last) == roman(n));
    lemma_a_numeral_is_no_marker(ended, m, n);
    assert forall|k: int| 0 <= k < words(ended).len() implies #[trigger] reading_at(
        ended,
        k,
        Numbering::Season,
    ) is None by {
        if k < m {
            assert(season_at(ended, k) is None);
        }
    }
    law_a_title_without_a_number_stays(ended, Numbering::Season);
    law_a_numeral_that_ends_a_title(ended, n);
    assert(taken_out(ended, last) =~= left);
    // The marker and the number behind it are the first reading there is.
    let here = words(counted_out)[m];
    let next = words(counted_out)[m + 1];
    assert(words(counted_out) =~= words(head).push((head.len() as int + 1, counted_out.len() as int)));
    assert(here == (name.len() as int + 1, head.len() as int));
    assert(word_at(counted_out, words(head)[m]) == word_at(head, words(head)[m]));
    assert(word_at(counted_out, here) == chars(season));
    assert(counted_out[head.len() as int] == then);
    assert(next_word(counted_out, m) == Some(next));
    let word = chars(season);
    assert(word.take("season"@.len() as int) =~= word);
    assert(rest_after(word, "season"@) is Some && rest_after(word, "season"@)->0.len() == 0);
    assert(season_at(counted_out, m) == Some(
        Reading { number: n, place: (here.0, next.1), ambiguous: false },
    ));
    assert forall|k: int| 0 <= k < m implies #[trigger] reading_at(
        counted_out,
        k,
        Numbering::Season,
    ) is None by {
        assert(season_at(counted_out, k) is None);
    }
    assert(reading_at(counted_out, m, Numbering::Season) is Some);
    law_the_first_number_beyond_doubt_counts(counted_out, Numbering::Season, m);
    assert(taken_out(counted_out, (here.0, next.1)) =~= left);
}

proof fn lemma_a_numeral_has_letters(n: nat)
    requires
        2 <= n <= 9,
    ensures
        1 <= roman(n).len(),
        roman(n)[0] == 'I' || roman(n)[0] == 'V',
        roman(n).last() == 'I' || roman(n).last() == 'V' || roman(n).last() == 'X',
{
    reveal_with_fuel(roman, 5);
}

proof fn lemma_a_numeral_is_no_marker(text: Seq<Glyph>, at: int, n: nat)
    requires
        2 <= n <= 9,
        at == words(text).len() - 1,
        0 <= at,
        word_at(text, words(text)[at]) == roman(n),
    ensures
        season_at(text, at) is None,
{
    let word = roman(n);
    lemma_a_numeral_has_letters(n);
    reveal_strlit("season");
    reveal_strlit("saison");
    reveal_strlit("s");
    reveal_strlit("期");
    assert(next_word(text, at) is None);
    if "season"@.len() <= word.len() {
        assert(word.take("season"@.len() as int)[0] == word[0]);
    }
    if "saison"@.len() <= word.len() {
        assert(word.take("saison"@.len() as int)[0] == word[0]);
    }
    assert(word.take("s"@.len() as int)[0] == word[0]);
    assert(folded('I') == 'i' && folded('V') == 'v' && folded('s') == 's');
    assert(rest_after(word, "season"@) is None);
    assert(rest_after(word, "saison"@) is None);
    assert(rest_after(word, "s"@) is None);
    assert(word.skip(word.len() - 1)[0] == word.last());
    assert(counted(word, "期"@) is None);
}

/// The letters and the marks of a text are those of its pieces, one after the
/// other, and a character is among them exactly where it counts as one.
pub proof fn law_letters_and_marks_are_kept_in_order(one: Seq<Glyph>, other: Seq<Glyph>, g: Glyph)
    ensures
        letters_in(one + other) == letters_in(one) + letters_in(other),
        marks_in(one + other) == marks_in(one) + marks_in(other),
        letters_in(seq![g]) == if g.letter {
            seq![g.c]
        } else {
            Seq::<char>::empty()
        },
        marks_in(seq![g]) == if g.space || g.c == '_' || g.c == '\u{200B}' || opens(g.c) || closes(g.c)
            || is_dash(g.c) {
            Seq::<char>::empty()
        } else {
            seq![g.c]
        },
    decreases other.len(),
{
    reveal_with_fuel(letters_in, 2);
    reveal_with_fuel(marks_in, 2);
    assert(seq![g].drop_last() =~= Seq::<Glyph>::empty());
    if other.len() == 0 {
        assert(one + other =~= one);
        assert(letters_in(one) + letters_in(other) =~= letters_in(one));
        assert(marks_in(one) + marks_in(other) =~= marks_in(one));
    } else {
        let shorter = other.drop_last();
        law_letters_and_marks_are_kept_in_order(one, shorter, g);
        assert((one + other).drop_last() =~= one + shorter);
        assert((one + other).last() == other.last());
        assert(letters_in(one + other) =~= letters_in(one) + letters_in(other));
        assert(marks_in(one + other) =~= marks_in(one) + marks_in(other));
    }
}

/// A name ends behind its last letter: the key has the letters up to there, in
/// lowercase, and the marks from there on.
pub proof fn law_where_a_name_ends(
    name: Seq<Glyph>,
    end: int,
    season: Option<nat>,
    part: Option<nat>,
)
    requires
        0 <= end <= name.len(),
        end > 0 ==> name[end - 1].letter,
        forall|i: int| end <= i < name.len() ==> !(#[trigger] name[i]).letter,
    ensures
        key_of_name(name, season, part) matches Some(key) ==> {
            &&& key.letters == letters_in(glyphs(lowercase_form(chars(name.take(end)))))
            &&& key.marks == marks_in(name.skip(end))
            &&& key.season == (if season == Some(1nat) {
                None
            } else {
                season
            })
            &&& key.part == (if part == Some(1nat) {
                None
            } else {
                part
            })
        },
        key_of_name(name, season, part) is None <==> letters_in(
            glyphs(lowercase_form(chars(name.take(end)))),
        ).len() == 0,
{
    lemma_a_name_ends_there(name, name.len() as int, end);
}

proof fn lemma_a_name_ends_there(name: Seq<Glyph>, n: int, end: int)
    requires
        0 <= end <= n <= name.len(),
        end > 0 ==> name[end - 1].letter,
        forall|i: int| end <= i < n ==> !(#[trigger] name[i]).letter,
    ensures
        name_end(name, n) == end,
    decreases n - end,
{
    if end < n {
        assert(!name[n - 1].letter);
        lemma_a_name_ends_there(name, n - 1, end);
    }
}

/// What a key is read from: the part first, then the season from what is left,
/// and neither where the parser reported it.
pub proof fn law_what_a_key_is_read_from(
    text: Seq<Glyph>,
    season: Option<nat>,
    part: Option<nat>,
)
    ensures
        ({
            let stripped = without_bare_years(without_bracketed_markers(text, 0), 0);
            let left = if part is Some {
                stripped
            } else {
                without_number(stripped, Numbering::Part)
            };
            let told = number_of(left, Numbering::Season);
            &&& key_of_text(text, season, part) == key_of_name(
                if season is Some {
                    left
                } else if told is Some {
                    without_number(left, Numbering::Season)
                } else {
                    without_ending_numeral(left)
                },
                if season is Some {
                    season
                } else if told is Some {
                    told
                } else {
                    ending_numeral(left)
                },
                if part is Some {
                    part
                } else {
                    number_of(stripped, Numbering::Part)
                },
            )
        }),
{
}

/// A title is read with the sign for times as the letter `x` and with every other
/// character of its compatibility form as it stands.
pub proof fn law_what_a_title_is_read_as(title: Seq<char>, i: int)
    requires
        0 <= i < nfkc_form(title).len(),
    ensures
        prepared(title).len() == nfkc_form(title).len(),
        nfkc_form(title)[i] == '\u{D7}' ==> prepared(title)[i].c == 'x',
        nfkc_form(title)[i] != '\u{D7}' ==> prepared(title)[i].c == nfkc_form(title)[i],
        prepared(title)[i] == glyph(prepared(title)[i].c),
{
}

/// The words compared are the words of what is left of a text once its markers,
/// its part and its season are out, each in lowercase and in order.
pub proof fn law_which_words_are_compared(text: Seq<char>, k: int)
    ensures
        ({
            let name = name_left(prepared(text), nothing_reported());
            &&& words_spelled(text).len() == words(name).len()
            &&& 0 <= k < words(name).len() ==> words_spelled(text)[k] == lowercase_form(
                chars(name.subrange(words(name)[k].0, words(name)[k].1)),
            )
        }),
{
}

/// A key is made exactly where one is due, and then that one.
pub proof fn law_the_key_made_is_the_one_due(made: Option<Key>, expected: Option<KeyView>)
    requires
        keys(made, expected),
    ensures
        made is Some <==> expected is Some,
        expected matches Some(due) ==> made->Some_0@ == due,
{
}

} // verus!
