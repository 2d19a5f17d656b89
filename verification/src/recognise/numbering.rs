//! The season and the part a title spells, and where.

use vstd::prelude::*;

use crate::recognise::glyph::Glyph;
#[allow(unused_imports)]
use crate::recognise::glyph::chars;
#[allow(unused_imports)]
use crate::recognise::spelling::{
    closes, counted, law_a_numeral_is_its_number, numeral, opens, ordinal, part_number, reads,
    rest_after, roman, season_number, short_number, alike_but_for_case,
};
use crate::recognise::spelling::{
    after_prefix, is_closing, is_opening, is_word, read_counted, read_numeral, read_ordinal,
    read_part_number, read_season_number, read_short_number,
};
#[allow(unused_imports)]
use crate::recognise::words::{lemma_words_lie_within, lie_in, taken_out, word_at, words};
use crate::recognise::words::{take_out, word_of, words_of, Span};

verus! {

/// What is looked for in a title.
#[derive(Debug, Clone, Copy, PartialEq, Eq, Structural)]
pub enum Numbering {
    /// Which season a title names.
    Season,
    /// Which part of a season it names.
    Part,
}

/// How the number after a marker may be written.
#[derive(Debug, Clone, Copy, PartialEq, Eq, Structural)]
pub enum Digits {
    /// In one or two digits.
    Short,
    /// In digits, or in an uppercase numeral.
    Season,
    /// In digits, or in a numeral of either case.
    Part,
}

/// A number a title spells, and where it is spelled.
#[derive(Debug, Clone, Copy, PartialEq, Eq, Structural)]
pub struct Found {
    /// The number.
    pub number: u32,
    /// Where the words that spell it begin.
    pub start: usize,
    /// Where they have ended.
    pub end: usize,
    /// Whether the word that marks it has other meanings, as `Part` has.
    pub ambiguous: bool,
}

/// A number a title spells, as contracts speak of it.
pub struct Reading {
    /// The number.
    pub number: nat,
    /// Where the words that spell it lie.
    pub place: (int, int),
    /// Whether the word that marks it has other meanings.
    pub ambiguous: bool,
}

/// A number found by exec code is the one a contract speaks of.
pub open spec fn finds(found: Option<Found>, expected: Option<Reading>) -> bool {
    match (found, expected) {
        (Some(read), Some(reading)) => {
            &&& read.number == reading.number
            &&& (read.start as int, read.end as int) == reading.place
            &&& read.ambiguous == reading.ambiguous
        },
        (None, None) => true,
        _ => false,
    }
}

/// The first of two readings that there is.
pub open spec fn or(one: Option<Reading>, other: Option<Reading>) -> Option<Reading> {
    match one {
        Some(reading) => Some(reading),
        None => other,
    }
}

/// The number a word spells, in the way that is asked for.
pub open spec fn number_in(word: Seq<char>, digits: Digits) -> Option<nat> {
    match digits {
        Digits::Short => short_number(word),
        Digits::Season => season_number(word),
        Digits::Part => part_number(word),
    }
}

fn read_number(word: &[Glyph], digits: Digits) -> (number: Option<u32>)
    ensures
        reads(number, number_in(chars(word@), digits)),
{
    match digits {
        Digits::Short => read_short_number(word),
        Digits::Season => read_season_number(word),
        Digits::Part => read_part_number(word),
    }
}

/// The word after this one, where nothing but whitespace and dots stands
/// between.
pub open spec fn next_word(text: Seq<Glyph>, at: int) -> Option<(int, int)> {
    let all = words(text);
    if at + 1 < all.len() && forall|i: int|
        all[at].1 <= i < all[at + 1].0 ==> (#[trigger] text[i]).space || text[i].c == '.' {
        Some(all[at + 1])
    } else {
        None
    }
}

fn word_after(text: &[Glyph], spans: &[Span], at: usize) -> (next: Option<Span>)
    requires
        lie_in(spans@, text@),
        at < spans@.len(),
    ensures
        match (next, next_word(text@, at as int)) {
            (Some(span), Some(word)) => span@ == word && spans@[at + 1] == span && at + 1
                < spans@.len(),
            (None, None) => true,
            _ => false,
        },
{
    proof {
        lemma_words_lie_within(spans@, text@);
    }
    if spans.len() - at <= 1 {
        return None;
    }
    let next = spans[at + 1];
    let mut i: usize = spans[at].end;
    assert(spans@[at as int]@ == words(text@)[at as int]);
    assert(next@ == words(text@)[at + 1]);
    while i < next.start
        invariant
            at + 1 < words(text@).len(),
            spans@[at as int]@ == words(text@)[at as int],
            next@ == words(text@)[at + 1],
            spans@[at as int].end <= i <= next.start <= text@.len(),
            forall|j: int|
                spans@[at as int].end <= j < i ==> (#[trigger] text@[j]).space || text@[j].c
                    == '.',
        decreases next.start - i,
    {
        if !(text[i].space || text[i].c == '.') {
            assert(!(text@[i as int].space || text@[i as int].c == '.'));
            assert(next_word(text@, at as int) is None);
            return None;
        }
        i += 1;
    }
    Some(next)
}

/// `Season 2`, `Season.2` or `Season2`.
pub open spec fn marker_and_number(
    text: Seq<Glyph>,
    at: int,
    marker: Seq<char>,
    digits: Digits,
    ambiguous: bool,
) -> Option<Reading> {
    let here = words(text)[at];
    match rest_after(word_at(text, here), marker) {
        None => None,
        Some(joined) => if joined.len() > 0 {
            match short_number(joined) {
                None => None,
                Some(number) => Some(Reading { number, place: here, ambiguous }),
            }
        } else {
            match next_word(text, at) {
                None => None,
                Some(next) => match number_in(word_at(text, next), digits) {
                    None => None,
                    Some(number) => Some(
                        Reading { number, place: (here.0, next.1), ambiguous },
                    ),
                },
            }
        },
    }
}

fn read_marker_and_number(
    text: &[Glyph],
    spans: &[Span],
    at: usize,
    marker: &str,
    digits: Digits,
    ambiguous: bool,
) -> (found: Option<Found>)
    requires
        lie_in(spans@, text@),
        at < spans@.len(),
    ensures
        finds(found, marker_and_number(text@, at as int, marker@, digits, ambiguous)),
{
    proof {
        lemma_words_lie_within(spans@, text@);
    }
    let here = spans[at];
    assert(here@ == words(text@)[at as int]);
    let joined = match after_prefix(word_of(text, here), marker) {
        None => return None,
        Some(joined) => joined,
    };
    if joined.len() > 0 {
        assert(chars(joined@).len() > 0);
        return match read_short_number(joined) {
            None => None,
            Some(number) => Some(
                Found { number, start: here.start, end: here.end, ambiguous },
            ),
        };
    }
    assert(chars(joined@).len() == 0);
    match word_after(text, spans, at) {
        None => None,
        Some(next) => match read_number(word_of(text, next), digits) {
            None => None,
            Some(number) => Some(Found { number, start: here.start, end: next.end, ambiguous }),
        },
    }
}

/// `2nd Season` or `Second Season`.
pub open spec fn ordinal_and_marker(
    text: Seq<Glyph>,
    at: int,
    marker: Seq<char>,
    ambiguous: bool,
) -> Option<Reading> {
    let here = words(text)[at];
    match (ordinal(word_at(text, here)), next_word(text, at)) {
        (Some(number), Some(next)) => if alike_but_for_case(word_at(text, next), marker) {
            Some(Reading { number, place: (here.0, next.1), ambiguous })
        } else {
            None
        },
        _ => None,
    }
}

fn read_ordinal_and_marker(
    text: &[Glyph],
    spans: &[Span],
    at: usize,
    marker: &str,
    ambiguous: bool,
) -> (found: Option<Found>)
    requires
        lie_in(spans@, text@),
        at < spans@.len(),
    ensures
        finds(found, ordinal_and_marker(text@, at as int, marker@, ambiguous)),
{
    proof {
        lemma_words_lie_within(spans@, text@);
    }
    let here = spans[at];
    assert(here@ == words(text@)[at as int]);
    match (read_ordinal(word_of(text, here)), word_after(text, spans, at)) {
        (Some(number), Some(next)) => if is_word(word_of(text, next), marker) {
            Some(Found { number, start: here.start, end: next.end, ambiguous })
        } else {
            None
        },
        _ => None,
    }
}

/// A number spelled by one word alone: `S2`, `P2`, `第2期`.
pub open spec fn one_word(text: Seq<Glyph>, at: int, number: Option<nat>) -> Option<Reading> {
    match number {
        None => None,
        Some(number) => Some(Reading { number, place: words(text)[at], ambiguous: false }),
    }
}

/// The number after a one-letter marker, as in `S2`.
pub open spec fn after_letter(word: Seq<char>, letter: Seq<char>) -> Option<nat> {
    match rest_after(word, letter) {
        None => None,
        Some(rest) => short_number(rest),
    }
}

fn read_one_word(
    text: &[Glyph],
    spans: &[Span],
    at: usize,
    letter: &str,
    counter: &str,
) -> (found: Option<Found>)
    requires
        lie_in(spans@, text@),
        at < spans@.len(),
    ensures
        finds(
            found,
            or(
                one_word(
                    text@,
                    at as int,
                    after_letter(word_at(text@, words(text@)[at as int]), letter@),
                ),
                one_word(
                    text@,
                    at as int,
                    counted(word_at(text@, words(text@)[at as int]), counter@),
                ),
            ),
        ),
{
    proof {
        lemma_words_lie_within(spans@, text@);
    }
    let here = spans[at];
    assert(here@ == words(text@)[at as int]);
    let word = word_of(text, here);
    let lettered = match after_prefix(word, letter) {
        None => None,
        Some(rest) => read_short_number(rest),
    };
    let number = match lettered {
        Some(number) => Some(number),
        None => read_counted(word, counter),
    };
    match number {
        None => None,
        Some(number) => Some(
            Found { number, start: here.start, end: here.end, ambiguous: false },
        ),
    }
}

/// The part spelled at one word of a title, if one is.
///
/// `Part` stands for something else in `Extra Part` and `Part-Timer`, and `Pt`
/// opens the language tag `pt-BR`, so both are ambiguous. The parser marks them
/// so too and counts them only inside brackets, while it counts `Cour` and
/// `Parte` anywhere.
pub open spec fn part_at(text: Seq<Glyph>, at: int) -> Option<Reading> {
    let word = word_at(text, words(text)[at]);
    or(
        marker_and_number(text, at, "part"@, Digits::Part, true),
        or(
            marker_and_number(text, at, "parte"@, Digits::Part, false),
            or(
                marker_and_number(text, at, "partie"@, Digits::Part, false),
                or(
                    marker_and_number(text, at, "pt"@, Digits::Part, true),
                    or(
                        marker_and_number(text, at, "cour"@, Digits::Short, false),
                        or(
                            ordinal_and_marker(text, at, "cour"@, false),
                            or(
                                ordinal_and_marker(text, at, "part"@, true),
                                or(
                                    ordinal_and_marker(text, at, "parte"@, false),
                                    or(
                                        ordinal_and_marker(text, at, "partie"@, false),
                                        or(
                                            one_word(text, at, after_letter(word, "p"@)),
                                            one_word(text, at, counted(word, "クール"@)),
                                        ),
                                    ),
                                ),
                            ),
                        ),
                    ),
                ),
            ),
        ),
    )
}

/// The season spelled at one word of a title, if one is.
pub open spec fn season_at(text: Seq<Glyph>, at: int) -> Option<Reading> {
    let word = word_at(text, words(text)[at]);
    or(
        marker_and_number(text, at, "season"@, Digits::Season, false),
        or(
            ordinal_and_marker(text, at, "season"@, false),
            or(
                marker_and_number(text, at, "saison"@, Digits::Season, false),
                or(
                    ordinal_and_marker(text, at, "saison"@, false),
                    or(
                        one_word(text, at, after_letter(word, "s"@)),
                        one_word(text, at, counted(word, "期"@)),
                    ),
                ),
            ),
        ),
    )
}

/// The number spelled at one word of a title, if one is.
pub open spec fn reading_at(text: Seq<Glyph>, at: int, what: Numbering) -> Option<Reading> {
    match what {
        Numbering::Season => season_at(text, at),
        Numbering::Part => part_at(text, at),
    }
}

fn read_part_at(text: &[Glyph], spans: &[Span], at: usize) -> (found: Option<Found>)
    requires
        lie_in(spans@, text@),
        at < spans@.len(),
    ensures
        finds(found, part_at(text@, at as int)),
{
    if let Some(found) = read_marker_and_number(text, spans, at, "part", Digits::Part, true) {
        return Some(found);
    }
    if let Some(found) = read_marker_and_number(text, spans, at, "parte", Digits::Part, false) {
        return Some(found);
    }
    if let Some(found) = read_marker_and_number(text, spans, at, "partie", Digits::Part, false) {
        return Some(found);
    }
    if let Some(found) = read_marker_and_number(text, spans, at, "pt", Digits::Part, true) {
        return Some(found);
    }
    if let Some(found) = read_marker_and_number(text, spans, at, "cour", Digits::Short, false) {
        return Some(found);
    }
    if let Some(found) = read_ordinal_and_marker(text, spans, at, "cour", false) {
        return Some(found);
    }
    if let Some(found) = read_ordinal_and_marker(text, spans, at, "part", true) {
        return Some(found);
    }
    if let Some(found) = read_ordinal_and_marker(text, spans, at, "parte", false) {
        return Some(found);
    }
    if let Some(found) = read_ordinal_and_marker(text, spans, at, "partie", false) {
        return Some(found);
    }
    read_one_word(text, spans, at, "p", "クール")
}

fn read_season_at(text: &[Glyph], spans: &[Span], at: usize) -> (found: Option<Found>)
    requires
        lie_in(spans@, text@),
        at < spans@.len(),
    ensures
        finds(found, season_at(text@, at as int)),
{
    if let Some(found) = read_marker_and_number(text, spans, at, "season", Digits::Season, false) {
        return Some(found);
    }
    if let Some(found) = read_ordinal_and_marker(text, spans, at, "season", false) {
        return Some(found);
    }
    if let Some(found) = read_marker_and_number(text, spans, at, "saison", Digits::Season, false) {
        return Some(found);
    }
    if let Some(found) = read_ordinal_and_marker(text, spans, at, "saison", false) {
        return Some(found);
    }
    read_one_word(text, spans, at, "s", "期")
}

fn read_at(text: &[Glyph], spans: &[Span], at: usize, what: Numbering) -> (found: Option<Found>)
    requires
        lie_in(spans@, text@),
        at < spans@.len(),
    ensures
        finds(found, reading_at(text@, at as int, what)),
{
    match what {
        Numbering::Season => read_season_at(text, spans, at),
        Numbering::Part => read_part_at(text, spans, at),
    }
}

/// How many brackets open before a place in a text.
pub open spec fn opened_before(text: Seq<Glyph>, at: int) -> nat
    decreases at,
{
    if at <= 0 {
        0
    } else {
        opened_before(text, at - 1) + if opens(text[at - 1].c) {
            1nat
        } else {
            0nat
        }
    }
}

/// How many brackets close before a place in a text.
pub open spec fn closed_before(text: Seq<Glyph>, at: int) -> nat
    decreases at,
{
    if at <= 0 {
        0
    } else {
        closed_before(text, at - 1) + if closes(text[at - 1].c) {
            1nat
        } else {
            0nat
        }
    }
}

/// Whether more brackets open than close before a place in a text.
pub open spec fn inside_brackets(text: Seq<Glyph>, at: int) -> bool {
    opened_before(text, at) > closed_before(text, at)
}

fn is_inside_brackets(text: &[Glyph], at: usize) -> (answer: bool)
    requires
        at <= text@.len(),
    ensures
        answer == inside_brackets(text@, at as int),
{
    let mut opened: usize = 0;
    let mut closed: usize = 0;
    let mut i: usize = 0;
    while i < at
        invariant
            i <= at <= text@.len(),
            opened == opened_before(text@, i as int),
            closed == closed_before(text@, i as int),
            opened <= i,
            closed <= i,
        decreases at - i,
    {
        if is_opening(text[i].c) {
            opened += 1;
        }
        if is_closing(text[i].c) {
            closed += 1;
        }
        i += 1;
    }
    opened > closed
}

/// A number whose marker means nothing else, or stands inside brackets.
pub open spec fn beyond_mistaking(text: Seq<Glyph>, reading: Reading) -> bool {
    !reading.ambiguous || inside_brackets(text, reading.place.0)
}

/// The first number spelled from a word of a title on.
pub open spec fn first_reading(text: Seq<Glyph>, at: int, what: Numbering) -> Option<Reading>
    decreases words(text).len() - at,
{
    if at >= words(text).len() {
        None
    } else {
        or(reading_at(text, at, what), first_reading(text, at + 1, what))
    }
}

/// The first number spelled beyond mistaking from a word of a title on.
pub open spec fn first_sure_reading(text: Seq<Glyph>, at: int, what: Numbering) -> Option<Reading>
    decreases words(text).len() - at,
{
    if at >= words(text).len() {
        None
    } else {
        match reading_at(text, at, what) {
            Some(reading) if beyond_mistaking(text, reading) => Some(reading),
            _ => first_sure_reading(text, at + 1, what),
        }
    }
}

/// The number a title spells: the first one whose marker means nothing else or
/// stands inside brackets. Where every marker is a bare `Part` or `Pt`, the
/// first one there is.
pub open spec fn chosen(text: Seq<Glyph>, what: Numbering) -> Option<Reading> {
    or(first_sure_reading(text, 0, what), first_reading(text, 0, what))
}

/// What is left of a title once the number it spells is out of it.
pub open spec fn without_number(text: Seq<Glyph>, what: Numbering) -> Seq<Glyph> {
    match chosen(text, what) {
        Some(reading) => taken_out(text, reading.place),
        None => text,
    }
}

/// The number a title spells.
pub open spec fn number_of(text: Seq<Glyph>, what: Numbering) -> Option<nat> {
    match chosen(text, what) {
        Some(reading) => Some(reading.number),
        None => None,
    }
}

/// A number is spelled by whole words, so it can be cut out of the text.
pub proof fn lemma_a_reading_lies_within(text: Seq<Glyph>, at: int, what: Numbering)
    requires
        0 <= at < words(text).len(),
    ensures
        reading_at(text, at, what) matches Some(reading) ==> 0 <= reading.place.0
            < reading.place.1 <= text.len(),
{
    crate::recognise::words::law_words_are_the_runs_of_letters(text, text.len() as int);
    let all = words(text);
    assert(all[at].0 < all[at].1);
    if at + 1 < all.len() {
        assert(all[at + 1].0 < all[at + 1].1);
        assert(all[at].1 < all[at + 1].0);
    }
}

proof fn lemma_readings_lie_within(text: Seq<Glyph>, at: int, what: Numbering)
    requires
        0 <= at <= words(text).len(),
    ensures
        first_reading(text, at, what) matches Some(reading) ==> 0 <= reading.place.0
            < reading.place.1 <= text.len(),
        first_sure_reading(text, at, what) matches Some(reading) ==> 0 <= reading.place.0
            < reading.place.1 <= text.len(),
    decreases words(text).len() - at,
{
    if at < words(text).len() {
        lemma_a_reading_lies_within(text, at, what);
        lemma_readings_lie_within(text, at + 1, what);
    }
}

/// The number a title spells can be cut out of the text.
pub proof fn lemma_what_is_chosen_lies_within(text: Seq<Glyph>, what: Numbering)
    ensures
        chosen(text, what) matches Some(reading) ==> 0 <= reading.place.0 < reading.place.1
            <= text.len(),
{
    lemma_readings_lie_within(text, 0, what);
}

/// Take the number a title spells out of it.
pub fn take(text: Vec<Glyph>, what: Numbering) -> (read: (Vec<Glyph>, Option<u32>))
    ensures
        read.0@ == without_number(text@, what),
        reads(read.1, number_of(text@, what)),
{
    let spans = words_of(&text);
    let mut first: Option<Found> = None;
    let mut at: usize = 0;
    proof {
        lemma_words_lie_within(spans@, text@);
    }
    while at < spans.len()
        invariant
            lie_in(spans@, text@),
            spans@.len() == words(text@).len(),
            at <= spans@.len(),
            first_sure_reading(text@, 0, what) == first_sure_reading(text@, at as int, what),
            match first {
                Some(found) => {
                    &&& finds(first, first_reading(text@, 0, what))
                    &&& found.start < found.end <= text@.len()
                },
                None => first_reading(text@, 0, what) == first_reading(text@, at as int, what),
            },
        decreases spans@.len() - at,
    {
        proof {
            lemma_a_reading_lies_within(text@, at as int, what);
        }
        if let Some(found) = read_at(&text, spans.as_slice(), at, what) {
            let ghost reading = reading_at(text@, at as int, what)->0;
            if !found.ambiguous || is_inside_brackets(&text, found.start) {
                assert(beyond_mistaking(text@, reading));
                return (take_out(&text, found.start, found.end), Some(found.number));
            }
            if first.is_none() {
                first = Some(found);
            }
        }
        at += 1;
    }
    match first {
        Some(found) => (take_out(&text, found.start, found.end), Some(found.number)),
        None => (text, None),
    }
}

/// The title's last word, taken off as its season where it is a numeral.
pub open spec fn ending_numeral(text: Seq<Glyph>) -> Option<nat> {
    if words(text).len() == 0 {
        None
    } else {
        numeral(word_at(text, words(text).last()))
    }
}

/// What is left of a title once an ending numeral is off it.
pub open spec fn without_ending_numeral(text: Seq<Glyph>) -> Seq<Glyph> {
    if ending_numeral(text) is Some {
        taken_out(text, words(text).last())
    } else {
        text
    }
}

/// Take a numeral that ends a title off it.
pub fn take_ending_numeral(text: Vec<Glyph>) -> (read: (Vec<Glyph>, Option<u32>))
    ensures
        read.0@ == without_ending_numeral(text@),
        reads(read.1, ending_numeral(text@)),
{
    let spans = words_of(&text);
    proof {
        lemma_words_lie_within(spans@, text@);
    }
    if spans.len() == 0 {
        return (text, None);
    }
    let last = spans[spans.len() - 1];
    assert(last@ == words(text@).last());
    match read_numeral(word_of(&text, last)) {
        Some(number) => (take_out(&text, last.start, last.end), Some(number)),
        None => (text, None),
    }
}

// How numbers are spelled in a title.

/// Whether a word is a marker and something joined to it, which may be nothing.
pub open spec fn is_marked(word: Seq<char>, marker: Seq<char>, joined: Seq<char>) -> bool {
    &&& marker.len() <= word.len()
    &&& alike_but_for_case(word.take(marker.len() as int), marker)
    &&& joined == word.skip(marker.len() as int)
}

/// Whether a word of a title is followed by another with nothing but whitespace
/// and dots between them.
pub open spec fn is_followed_by(text: Seq<Glyph>, at: int, next: Seq<char>) -> bool {
    &&& at + 1 < words(text).len()
    &&& forall|i: int|
        words(text)[at].1 <= i < words(text)[at + 1].0 ==> (#[trigger] text[i]).space || text[i].c
            == '.'
    &&& next == word_at(text, words(text)[at + 1])
}

/// Whether a word of a title spells a number with a marker before it: joined to
/// it in digits, or in the word that follows.
pub open spec fn spells_after(
    text: Seq<Glyph>,
    at: int,
    marker: Seq<char>,
    digits: Digits,
    n: nat,
) -> bool {
    let word = word_at(text, words(text)[at]);
    ||| exists|joined: Seq<char>|
        joined.len() > 0 && #[trigger] is_marked(word, marker, joined) && short_number(joined)
            == Some(n)
    ||| alike_but_for_case(word, marker) && exists|next: Seq<char>| #[trigger]
        is_followed_by(text, at, next) && number_in(next, digits) == Some(n)
}

/// Whether a word of a title is an ordinal with a marker after it.
pub open spec fn spells_before(text: Seq<Glyph>, at: int, marker: Seq<char>, n: nat) -> bool {
    ordinal(word_at(text, words(text)[at])) == Some(n) && exists|next: Seq<char>| #[trigger]
        is_followed_by(text, at, next) && alike_but_for_case(next, marker)
}

proof fn lemma_a_marker_and_a_number(
    text: Seq<Glyph>,
    at: int,
    marker: Seq<char>,
    digits: Digits,
    ambiguous: bool,
    n: nat,
)
    requires
        0 <= at < words(text).len(),
    ensures
        (marker_and_number(text, at, marker, digits, ambiguous) matches Some(reading)
            && reading.number == n) <==> spells_after(text, at, marker, digits, n),
        marker_and_number(text, at, marker, digits, ambiguous) matches Some(reading)
            ==> reading.ambiguous == ambiguous && reading.place.0 == words(text)[at].0,
{
    let word = word_at(text, words(text)[at]);
    if alike_but_for_case(word, marker) {
        assert(word.take(marker.len() as int) =~= word);
        assert(word.skip(marker.len() as int).len() == 0);
    }
    match rest_after(word, marker) {
        None => {
            assert forall|joined: Seq<char>| !#[trigger] is_marked(word, marker, joined) by {}
        },
        Some(joined) => {
            assert(is_marked(word, marker, joined));
            if joined.len() == 0 {
                assert(word.take(marker.len() as int) =~= word);
                if at + 1 < words(text).len() {
                    let next = word_at(text, words(text)[at + 1]);
                    assert(next_word(text, at) is Some <==> is_followed_by(text, at, next));
                }
            }
        },
    }
}

proof fn lemma_an_ordinal_and_a_marker(
    text: Seq<Glyph>,
    at: int,
    marker: Seq<char>,
    ambiguous: bool,
    n: nat,
)
    requires
        0 <= at < words(text).len(),
    ensures
        (ordinal_and_marker(text, at, marker, ambiguous) matches Some(reading) && reading.number
            == n) <==> spells_before(text, at, marker, n),
        ordinal_and_marker(text, at, marker, ambiguous) matches Some(reading)
            ==> reading.ambiguous == ambiguous && reading.place.0 == words(text)[at].0,
{
    if at + 1 < words(text).len() {
        let next = word_at(text, words(text)[at + 1]);
        assert(next_word(text, at) is Some <==> is_followed_by(text, at, next));
    }
}

/// A season is spelled by `Season` or `Saison` and a number, by an ordinal and
/// one of these words, by `S` and digits, or by a Japanese count of seasons, and
/// by nothing else. It is never in doubt.
pub proof fn law_how_a_season_is_spelled(text: Seq<Glyph>, at: int)
    requires
        0 <= at < words(text).len(),
    ensures
        season_at(text, at) matches Some(reading) ==> {
            let n = reading.number;
            let word = word_at(text, words(text)[at]);
            &&& !reading.ambiguous
            &&& reading.place.0 == words(text)[at].0
            &&& {
                ||| spells_after(text, at, "season"@, Digits::Season, n)
                ||| spells_after(text, at, "saison"@, Digits::Season, n)
                ||| spells_before(text, at, "season"@, n)
                ||| spells_before(text, at, "saison"@, n)
                ||| exists|joined: Seq<char>| #[trigger]
                    is_marked(word, "s"@, joined) && short_number(joined) == Some(n)
                ||| counted(word, "期"@) == Some(n)
            }
        },
        season_at(text, at) is None ==> {
            let word = word_at(text, words(text)[at]);
            &&& forall|n: nat| !#[trigger] spells_after(text, at, "season"@, Digits::Season, n)
            &&& forall|n: nat| !#[trigger] spells_after(text, at, "saison"@, Digits::Season, n)
            &&& forall|n: nat| !#[trigger] spells_before(text, at, "season"@, n)
            &&& forall|n: nat| !#[trigger] spells_before(text, at, "saison"@, n)
            &&& forall|joined: Seq<char>| #[trigger]
                is_marked(word, "s"@, joined) ==> short_number(joined) is None
            &&& counted(word, "期"@) is None
        },
{
    let word = word_at(text, words(text)[at]);
    assert forall|n: nat| true implies (#[trigger] spells_after(
        text,
        at,
        "season"@,
        Digits::Season,
        n,
    ) <==> (marker_and_number(text, at, "season"@, Digits::Season, false) matches Some(r)
        && r.number == n)) by {
        lemma_a_marker_and_a_number(text, at, "season"@, Digits::Season, false, n);
    }
    assert forall|n: nat| true implies (#[trigger] spells_after(
        text,
        at,
        "saison"@,
        Digits::Season,
        n,
    ) <==> (marker_and_number(text, at, "saison"@, Digits::Season, false) matches Some(r)
        && r.number == n)) by {
        lemma_a_marker_and_a_number(text, at, "saison"@, Digits::Season, false, n);
    }
    assert forall|n: nat| true implies (#[trigger] spells_before(text, at, "season"@, n) <==> (
    ordinal_and_marker(text, at, "season"@, false) matches Some(r) && r.number == n)) by {
        lemma_an_ordinal_and_a_marker(text, at, "season"@, false, n);
    }
    assert forall|n: nat| true implies (#[trigger] spells_before(text, at, "saison"@, n) <==> (
    ordinal_and_marker(text, at, "saison"@, false) matches Some(r) && r.number == n)) by {
        lemma_an_ordinal_and_a_marker(text, at, "saison"@, false, n);
    }
    if let Some(reading) = season_at(text, at) {
        let n = reading.number;
        lemma_a_marker_and_a_number(text, at, "season"@, Digits::Season, false, n);
        lemma_a_marker_and_a_number(text, at, "saison"@, Digits::Season, false, n);
        lemma_an_ordinal_and_a_marker(text, at, "season"@, false, n);
        lemma_an_ordinal_and_a_marker(text, at, "saison"@, false, n);
        if let Some(rest) = rest_after(word, "s"@) {
            assert(is_marked(word, "s"@, rest));
        }
    } else {
        assert forall|joined: Seq<char>| #[trigger] is_marked(word, "s"@, joined) implies short_number(
            joined,
        ) is None by {
            assert(rest_after(word, "s"@) == Some(joined));
        }
    }
}

/// A part is spelled by `Part`, `Parte`, `Partie` or `Pt` and a number, by `Cour`
/// and digits, by an ordinal and one of `Cour`, `Part`, `Parte` or `Partie`, by
/// `P` and digits, or by a Japanese count of cours, and by nothing else. Only
/// `Part` and `Pt` are in doubt.
pub proof fn law_how_a_part_is_spelled(text: Seq<Glyph>, at: int)
    requires
        0 <= at < words(text).len(),
    ensures
        part_at(text, at) matches Some(reading) ==> {
            let n = reading.number;
            let word = word_at(text, words(text)[at]);
            &&& reading.place.0 == words(text)[at].0
            &&& reading.ambiguous ==> {
                ||| spells_after(text, at, "part"@, Digits::Part, n)
                ||| spells_after(text, at, "pt"@, Digits::Part, n)
                ||| spells_before(text, at, "part"@, n)
            }
            &&& !reading.ambiguous ==> {
                ||| spells_after(text, at, "parte"@, Digits::Part, n)
                ||| spells_after(text, at, "partie"@, Digits::Part, n)
                ||| spells_after(text, at, "cour"@, Digits::Short, n)
                ||| spells_before(text, at, "cour"@, n)
                ||| spells_before(text, at, "parte"@, n)
                ||| spells_before(text, at, "partie"@, n)
                ||| exists|joined: Seq<char>| #[trigger]
                    is_marked(word, "p"@, joined) && short_number(joined) == Some(n)
                ||| counted(word, "クール"@) == Some(n)
            }
        },
        part_at(text, at) is None ==> {
            let word = word_at(text, words(text)[at]);
            &&& forall|n: nat| !#[trigger] spells_after(text, at, "part"@, Digits::Part, n)
            &&& forall|n: nat| !#[trigger] spells_after(text, at, "parte"@, Digits::Part, n)
            &&& forall|n: nat| !#[trigger] spells_after(text, at, "partie"@, Digits::Part, n)
            &&& forall|n: nat| !#[trigger] spells_after(text, at, "pt"@, Digits::Part, n)
            &&& forall|n: nat| !#[trigger] spells_after(text, at, "cour"@, Digits::Short, n)
            &&& forall|n: nat| !#[trigger] spells_before(text, at, "cour"@, n)
            &&& forall|n: nat| !#[trigger] spells_before(text, at, "part"@, n)
            &&& forall|n: nat| !#[trigger] spells_before(text, at, "parte"@, n)
            &&& forall|n: nat| !#[trigger] spells_before(text, at, "partie"@, n)
            &&& forall|joined: Seq<char>| #[trigger]
                is_marked(word, "p"@, joined) ==> short_number(joined) is None
            &&& counted(word, "クール"@) is None
        },
{
    let word = word_at(text, words(text)[at]);
    if let Some(reading) = part_at(text, at) {
        let n = reading.number;
        lemma_a_marker_and_a_number(text, at, "part"@, Digits::Part, true, n);
        lemma_a_marker_and_a_number(text, at, "parte"@, Digits::Part, false, n);
        lemma_a_marker_and_a_number(text, at, "partie"@, Digits::Part, false, n);
        lemma_a_marker_and_a_number(text, at, "pt"@, Digits::Part, true, n);
        lemma_a_marker_and_a_number(text, at, "cour"@, Digits::Short, false, n);
        lemma_an_ordinal_and_a_marker(text, at, "cour"@, false, n);
        lemma_an_ordinal_and_a_marker(text, at, "part"@, true, n);
        lemma_an_ordinal_and_a_marker(text, at, "parte"@, false, n);
        lemma_an_ordinal_and_a_marker(text, at, "partie"@, false, n);
        if let Some(rest) = rest_after(word, "p"@) {
            assert(is_marked(word, "p"@, rest));
        }
    } else {
        assert forall|n: nat| !#[trigger] spells_after(text, at, "part"@, Digits::Part, n) by {
            lemma_a_marker_and_a_number(text, at, "part"@, Digits::Part, true, n);
        }
        assert forall|n: nat| !#[trigger] spells_after(text, at, "parte"@, Digits::Part, n) by {
            lemma_a_marker_and_a_number(text, at, "parte"@, Digits::Part, false, n);
        }
        assert forall|n: nat| !#[trigger] spells_after(text, at, "partie"@, Digits::Part, n) by {
            lemma_a_marker_and_a_number(text, at, "partie"@, Digits::Part, false, n);
        }
        assert forall|n: nat| !#[trigger] spells_after(text, at, "pt"@, Digits::Part, n) by {
            lemma_a_marker_and_a_number(text, at, "pt"@, Digits::Part, true, n);
        }
        assert forall|n: nat| !#[trigger] spells_after(text, at, "cour"@, Digits::Short, n) by {
            lemma_a_marker_and_a_number(text, at, "cour"@, Digits::Short, false, n);
        }
        assert forall|n: nat| !#[trigger] spells_before(text, at, "cour"@, n) by {
            lemma_an_ordinal_and_a_marker(text, at, "cour"@, false, n);
        }
        assert forall|n: nat| !#[trigger] spells_before(text, at, "part"@, n) by {
            lemma_an_ordinal_and_a_marker(text, at, "part"@, true, n);
        }
        assert forall|n: nat| !#[trigger] spells_before(text, at, "parte"@, n) by {
            lemma_an_ordinal_and_a_marker(text, at, "parte"@, false, n);
        }
        assert forall|n: nat| !#[trigger] spells_before(text, at, "partie"@, n) by {
            lemma_an_ordinal_and_a_marker(text, at, "partie"@, false, n);
        }
        assert forall|joined: Seq<char>| #[trigger] is_marked(word, "p"@, joined) implies short_number(
            joined,
        ) is None by {
            assert(rest_after(word, "p"@) == Some(joined));
        }
    }
}

/// Of the numbers a title spells, the first beyond doubt is the one that counts.
/// One is beyond doubt where its marker means nothing else, or where more
/// brackets open than close before it. Where all are in doubt, the first counts,
/// and where there is none, none does and the text stays as it is.
pub proof fn law_the_first_number_beyond_doubt_counts(
    text: Seq<Glyph>,
    what: Numbering,
    at: int,
)
    requires
        0 <= at < words(text).len(),
        reading_at(text, at, what) is Some,
    ensures
        ({
            let reading = reading_at(text, at, what)->0;
            let sure = |r: Reading| !r.ambiguous || inside_brackets(text, r.place.0);
            &&& sure(reading) && (forall|j: int|
                0 <= j < at ==> (#[trigger] reading_at(text, j, what) is None || !sure(
                    reading_at(text, j, what)->0,
                ))) ==> number_of(text, what) == Some(reading.number) && without_number(text, what)
                == taken_out(text, reading.place)
            &&& (forall|j: int|
                0 <= j < words(text).len() ==> (#[trigger] reading_at(text, j, what) is None
                    || !sure(reading_at(text, j, what)->0))) && (forall|j: int|
                0 <= j < at ==> #[trigger] reading_at(text, j, what) is None) ==> number_of(
                text,
                what,
            ) == Some(reading.number) && without_number(text, what) == taken_out(
                text,
                reading.place,
            )
            &&& number_of(text, what) is Some
        }),
{
    let sure = |r: Reading| !r.ambiguous || inside_brackets(text, r.place.0);
    if sure(reading_at(text, at, what)->0) && (forall|j: int|
        0 <= j < at ==> (#[trigger] reading_at(text, j, what) is None || !sure(
            reading_at(text, j, what)->0,
        ))) {
        lemma_first_sure(text, 0, what, at);
    }
    lemma_some_reading(text, 0, what, at);
    if (forall|j: int|
        0 <= j < words(text).len() ==> (#[trigger] reading_at(text, j, what) is None || !sure(
            reading_at(text, j, what)->0,
        ))) && (forall|j: int| 0 <= j < at ==> #[trigger] reading_at(text, j, what) is None) {
        lemma_none_sure(text, 0, what);
        lemma_first_of_all(text, 0, what, at);
    }
}

proof fn lemma_first_sure(text: Seq<Glyph>, from: int, what: Numbering, at: int)
    requires
        0 <= from <= at < words(text).len(),
        reading_at(text, at, what) is Some,
        beyond_mistaking(text, reading_at(text, at, what)->0),
        forall|j: int|
            0 <= j < at ==> (#[trigger] reading_at(text, j, what) is None || !beyond_mistaking(
                text,
                reading_at(text, j, what)->0,
            )),
    ensures
        first_sure_reading(text, from, what) == reading_at(text, at, what),
    decreases at - from,
{
    if from < at {
        assert(reading_at(text, from, what) is None || !beyond_mistaking(
            text,
            reading_at(text, from, what)->0,
        ));
        lemma_first_sure(text, from + 1, what, at);
    }
}

proof fn lemma_none_sure(text: Seq<Glyph>, from: int, what: Numbering)
    requires
        0 <= from <= words(text).len(),
        forall|j: int|
            0 <= j < words(text).len() ==> (#[trigger] reading_at(text, j, what) is None
                || !beyond_mistaking(text, reading_at(text, j, what)->0)),
    ensures
        first_sure_reading(text, from, what) is None,
    decreases words(text).len() - from,
{
    if from < words(text).len() {
        assert(reading_at(text, from, what) is None || !beyond_mistaking(
            text,
            reading_at(text, from, what)->0,
        ));
        lemma_none_sure(text, from + 1, what);
    }
}

proof fn lemma_first_of_all(text: Seq<Glyph>, from: int, what: Numbering, at: int)
    requires
        0 <= from <= at < words(text).len(),
        reading_at(text, at, what) is Some,
        forall|j: int| 0 <= j < at ==> #[trigger] reading_at(text, j, what) is None,
    ensures
        first_reading(text, from, what) == reading_at(text, at, what),
    decreases at - from,
{
    if from < at {
        assert(reading_at(text, from, what) is None);
        lemma_first_of_all(text, from + 1, what, at);
    }
}

proof fn lemma_some_reading(text: Seq<Glyph>, from: int, what: Numbering, at: int)
    requires
        0 <= from <= at < words(text).len(),
        reading_at(text, at, what) is Some,
    ensures
        first_reading(text, from, what) is Some,
    decreases at - from,
{
    if from < at {
        lemma_some_reading(text, from + 1, what, at);
    }
}

/// A title that spells no number at any word has none, and stays as it is.
pub proof fn law_a_title_without_a_number_stays(text: Seq<Glyph>, what: Numbering)
    requires
        forall|j: int|
            0 <= j < words(text).len() ==> #[trigger] reading_at(text, j, what) is None,
    ensures
        number_of(text, what) is None,
        without_number(text, what) == text,
{
    lemma_no_reading(text, 0, what);
    lemma_none_sure(text, 0, what);
}

proof fn lemma_no_reading(text: Seq<Glyph>, from: int, what: Numbering)
    requires
        0 <= from <= words(text).len(),
        forall|j: int|
            0 <= j < words(text).len() ==> #[trigger] reading_at(text, j, what) is None,
    ensures
        first_reading(text, from, what) is None,
    decreases words(text).len() - from,
{
    if from < words(text).len() {
        assert(reading_at(text, from, what) is None);
        lemma_no_reading(text, from + 1, what);
    }
}

/// A title's last word is its season exactly where it is the uppercase numeral
/// of a number from two to nine, and is then taken off it.
pub proof fn law_a_numeral_that_ends_a_title(text: Seq<Glyph>, n: nat)
    ensures
        ending_numeral(text) == Some(n) <==> words(text).len() > 0 && 2 <= n <= 9 && word_at(
            text,
            words(text)[words(text).len() - 1],
        ) == roman(n),
        ending_numeral(text) is Some ==> without_ending_numeral(text) == taken_out(
            text,
            words(text)[words(text).len() - 1],
        ),
        ending_numeral(text) is None ==> without_ending_numeral(text) == text,
{
    if words(text).len() > 0 {
        law_a_numeral_is_its_number(word_at(text, words(text).last()), n);
    }
}

/// Brackets are counted one by one: a place is inside them exactly where more of
/// them open than close before it.
pub proof fn law_brackets_are_counted(text: Seq<Glyph>, at: int)
    requires
        0 <= at < text.len(),
    ensures
        opened_before(text, 0) == 0,
        closed_before(text, 0) == 0,
        opened_before(text, at + 1) - closed_before(text, at + 1) == opened_before(text, at)
            - closed_before(text, at) + if opens(text[at].c) {
            1int
        } else if closes(text[at].c) {
            -1
        } else {
            0
        },
        inside_brackets(text, at) <==> opened_before(text, at) > closed_before(text, at),
{
}

/// What is found is a reading exactly where one is due, and then with its number,
/// its place and its doubt.
pub proof fn law_what_is_found_is_what_is_due(found: Option<Found>, expected: Option<Reading>)
    requires
        finds(found, expected),
    ensures
        found is Some <==> expected is Some,
        expected matches Some(due) ==> found->Some_0.number == due.number && found->Some_0.start
            == due.place.0 && found->Some_0.end == due.place.1 && found->Some_0.ambiguous
            == due.ambiguous,
{
}

} // verus!
