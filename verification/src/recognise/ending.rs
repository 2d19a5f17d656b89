//! The marks a title ends in, where the parser cut them off.
//!
//! The parser ends a title before what stands between words, and it counts a
//! colon, a comma, an ampersand, a plus and a bar among that. In
//! `Nisekoi: - 03.mkv` the colon is the last character of the name, and it is
//! the whole difference between two entries of a list, so it is read back from
//! the name the title was taken out of.

use vstd::prelude::*;

use crate::text::{characters, spelled};

verus! {

/// Whether a character is a mark the parser takes for the end of a title.
pub open spec fn is_cut_off(c: char) -> bool {
    c == ':' || c == ',' || c == '&' || c == '+' || c == '|'
}

/// Whether the parser takes a character for a space.
pub open spec fn is_spacing(c: char) -> bool {
    c == ' ' || c == '\t' || c == '_' || c == '\u{a0}' || c == '\u{200b}' || c == '\u{3000}'
}

/// Whether the parser may have put a space into a title for a character.
pub open spec fn is_between_words(c: char) -> bool {
    is_spacing(c) || is_cut_off(c) || c == '.' || c == '~' || c == '-' || c == '\u{ad}' || (
    0x2010 <= c as u32 && c as u32 <= 0x2015)
}

fn cut_off(c: char) -> (answer: bool)
    ensures
        answer == is_cut_off(c),
{
    c == ':' || c == ',' || c == '&' || c == '+' || c == '|'
}

fn spacing(c: char) -> (answer: bool)
    ensures
        answer == is_spacing(c),
{
    c == ' ' || c == '\t' || c == '_' || c == '\u{a0}' || c == '\u{200b}' || c == '\u{3000}'
}

fn between_words(c: char) -> (answer: bool)
    ensures
        answer == is_between_words(c),
{
    spacing(c) || cut_off(c) || c == '.' || c == '~' || c == '-' || c == '\u{ad}' || (0x2010
        <= c as u32 && c as u32 <= 0x2015)
}

/// Whether a character of a title may have been read from a character of a name.
pub open spec fn is_read_from(titled: char, named: char) -> bool {
    titled == named || (titled == ' ' && is_between_words(named))
}

/// Whether a name spells a title at a place.
pub open spec fn stands_at(name: Seq<char>, title: Seq<char>, at: int) -> bool {
    at + title.len() <= name.len() && forall|k: int|
        0 <= k < title.len() ==> is_read_from(#[trigger] title[k], name[at + k])
}

/// The first place from one on at which a name spells a title.
pub open spec fn place_of(name: Seq<char>, title: Seq<char>, from: int) -> Option<int>
    decreases name.len() - from,
{
    if from < 0 || from >= name.len() {
        None
    } else if stands_at(name, title, from) {
        Some(from)
    } else {
        place_of(name, title, from + 1)
    }
}

/// Where a run of marks that begins at a place ends.
pub open spec fn run_of_marks(name: Seq<char>, from: int) -> int
    decreases name.len() - from,
{
    if 0 <= from < name.len() && is_cut_off(name[from]) {
        run_of_marks(name, from + 1)
    } else {
        from
    }
}

/// The marks that end a title in the name it was taken out of: those directly
/// after it, where a space or the end of the name follows them.
pub open spec fn marks_cut_off(name: Seq<char>, title: Seq<char>) -> Seq<char> {
    match place_of(name, title, 0) {
        None => Seq::empty(),
        Some(at) => {
            let end = at + title.len();
            let stop = run_of_marks(name, end);
            if stop >= name.len() || is_spacing(name[stop]) {
                name.subrange(end, stop)
            } else {
                Seq::empty()
            }
        },
    }
}

proof fn lemma_a_run_of_marks_goes_forward(name: Seq<char>, from: int)
    requires
        0 <= from <= name.len(),
    ensures
        from <= run_of_marks(name, from) <= name.len(),
    decreases name.len() - from,
{
    if from < name.len() && is_cut_off(name[from]) {
        lemma_a_run_of_marks_goes_forward(name, from + 1);
    }
}

fn spells_at(name: &[char], title: &[char], at: usize) -> (answer: bool)
    requires
        at <= name@.len(),
    ensures
        answer == stands_at(name@, title@, at as int),
{
    let length = name.len();
    if title.len() > length - at {
        return false;
    }
    let mut k: usize = 0;
    while k < title.len()
        invariant
            k <= title@.len(),
            length == name@.len(),
            at + title@.len() <= name@.len(),
            forall|j: int| 0 <= j < k ==> is_read_from(#[trigger] title@[j], name@[at + j]),
        decreases title@.len() - k,
    {
        let titled = title[k];
        let named = name[at + k];
        if titled != named && !(titled == ' ' && between_words(named)) {
            assert(!is_read_from(title@[k as int], name@[at + k]));
            return false;
        }
        k += 1;
    }
    true
}

/// A title with the marks the parser cut off it, read back from the name.
pub fn with_marks(name: &str, title: &str) -> (whole: String)
    ensures
        whole@ == title@ + marks_cut_off(name@, title@),
{
    let letters = characters(name);
    let titled = characters(title);
    let mut at: usize = 0;
    while at < letters.len() && !spells_at(letters.as_slice(), titled.as_slice(), at)
        invariant
            at <= letters@.len(),
            letters@ == name@,
            titled@ == title@,
            place_of(name@, title@, 0) == place_of(name@, title@, at as int),
        decreases letters@.len() - at,
    {
        at += 1;
    }
    let mut whole = String::from_str(title);
    if at < letters.len() {
        let end = at + titled.len();
        let mut stop: usize = end;
        while stop < letters.len() && cut_off(letters[stop])
            invariant
                end <= stop <= letters@.len(),
                letters@ == name@,
                run_of_marks(name@, end as int) == run_of_marks(name@, stop as int),
            decreases letters@.len() - stop,
        {
            stop += 1;
        }
        if stop >= letters.len() || spacing(letters[stop]) {
            whole.append(
                spelled(vstd::slice::slice_subrange(letters.as_slice(), end, stop)).as_str(),
            );
            return whole;
        }
    }
    assert(title@ + Seq::<char>::empty() =~= title@);
    whole
}

/// A title a name spells is given back the marks it ends in there, and nothing
/// else: what is added is marks alone.
pub proof fn law_only_marks_are_given_back(name: Seq<char>, title: Seq<char>)
    ensures
        forall|i: int|
            0 <= i < marks_cut_off(name, title).len() ==> is_cut_off(
                #[trigger] marks_cut_off(name, title)[i],
            ),
{
    if let Some(at) = place_of(name, title, 0) {
        lemma_a_place_is_where_it_stands(name, title, 0);
        lemma_a_run_is_marks(name, at + title.len());
        lemma_a_run_of_marks_goes_forward(name, at + title.len());
    }
}

proof fn lemma_a_place_is_where_it_stands(name: Seq<char>, title: Seq<char>, from: int)
    requires
        0 <= from,
    ensures
        place_of(name, title, from) matches Some(at) ==> 0 <= at && stands_at(name, title, at),
    decreases if from >= name.len() { 0 } else { name.len() - from },
{
    if from < name.len() && !stands_at(name, title, from) {
        lemma_a_place_is_where_it_stands(name, title, from + 1);
    }
}

proof fn lemma_a_run_is_marks(name: Seq<char>, from: int)
    requires
        0 <= from <= name.len(),
    ensures
        forall|i: int| from <= i < run_of_marks(name, from) ==> is_cut_off(#[trigger] name[i]),
    decreases name.len() - from,
{
    if from < name.len() && is_cut_off(name[from]) {
        lemma_a_run_is_marks(name, from + 1);
    }
}

/// Which marks are given back to a title: the colons, commas, ampersands, pluses
/// and bars that stand directly behind the first place the name spells it at, as
/// far as they go without a break, where a space or the end of the name follows
/// them, and none where anything else does.
pub proof fn law_which_marks_are_given_back(
    name: Seq<char>,
    title: Seq<char>,
    at: int,
    stop: int,
)
    requires
        0 <= at < name.len(),
        at + title.len() <= stop <= name.len(),
        stands_at(name, title, at),
        forall|i: int| 0 <= i < at ==> !#[trigger] stands_at(name, title, i),
        forall|i: int|
            at + title.len() <= i < stop ==> seq![':', ',', '&', '+', '|'].contains(
                #[trigger] name[i],
            ),
        stop < name.len() ==> !seq![':', ',', '&', '+', '|'].contains(name[stop]),
    ensures
        stop == name.len() || seq![' ', '\t', '_', '\u{a0}', '\u{200b}', '\u{3000}'].contains(
            name[stop],
        ) ==> marks_cut_off(name, title) == name.subrange(at + title.len(), stop),
        stop < name.len() && !seq![' ', '\t', '_', '\u{a0}', '\u{200b}', '\u{3000}'].contains(
            name[stop],
        ) ==> marks_cut_off(name, title).len() == 0,
{
    lemma_the_first_place(name, title, 0, at);
    assert forall|c: char| #[trigger] is_cut_off(c) <==> seq![':', ',', '&', '+', '|'].contains(
        c,
    ) by {
        lemma_marks_and_spaces(c);
    }
    lemma_the_run_stops(name, at + title.len(), stop);
    if stop < name.len() {
        lemma_marks_and_spaces(name[stop]);
    }
}

proof fn lemma_marks_and_spaces(c: char)
    ensures
        is_cut_off(c) <==> seq![':', ',', '&', '+', '|'].contains(c),
        is_spacing(c) <==> seq![' ', '\t', '_', '\u{a0}', '\u{200b}', '\u{3000}'].contains(c),
{
    let marks = seq![':', ',', '&', '+', '|'];
    let spaces = seq![' ', '\t', '_', '\u{a0}', '\u{200b}', '\u{3000}'];
    assert(marks[0] == ':' && marks[1] == ',' && marks[2] == '&' && marks[3] == '+' && marks[4]
        == '|');
    assert(spaces[0] == ' ' && spaces[1] == '\t' && spaces[2] == '_' && spaces[3] == '\u{a0}');
    assert(spaces[4] == '\u{200b}' && spaces[5] == '\u{3000}');
}

proof fn lemma_the_first_place(name: Seq<char>, title: Seq<char>, from: int, at: int)
    requires
        0 <= from <= at < name.len(),
        stands_at(name, title, at),
        forall|i: int| 0 <= i < at ==> !#[trigger] stands_at(name, title, i),
    ensures
        place_of(name, title, from) == Some(at),
    decreases at - from,
{
    if from < at {
        assert(!stands_at(name, title, from));
        lemma_the_first_place(name, title, from + 1, at);
    }
}

proof fn lemma_the_run_stops(name: Seq<char>, from: int, stop: int)
    requires
        0 <= from <= stop <= name.len(),
        forall|i: int| from <= i < stop ==> is_cut_off(#[trigger] name[i]),
        stop < name.len() ==> !is_cut_off(name[stop]),
    ensures
        run_of_marks(name, from) == stop,
    decreases stop - from,
{
    if from < stop {
        lemma_the_run_stops(name, from + 1, stop);
    }
}

/// A title that the name spells nowhere is given nothing.
pub proof fn law_a_title_spelled_nowhere_is_given_nothing(name: Seq<char>, title: Seq<char>)
    requires
        forall|i: int| 0 <= i < name.len() ==> !#[trigger] stands_at(name, title, i),
    ensures
        marks_cut_off(name, title).len() == 0,
{
    lemma_a_place_is_where_it_stands(name, title, 0);
    lemma_a_place_is_within(name, title, 0);
}

proof fn lemma_a_place_is_within(name: Seq<char>, title: Seq<char>, from: int)
    requires
        0 <= from,
    ensures
        place_of(name, title, from) matches Some(at) ==> 0 <= at < name.len(),
    decreases if from >= name.len() { 0 } else { name.len() - from },
{
    if from < name.len() && !stands_at(name, title, from) {
        lemma_a_place_is_within(name, title, from + 1);
    }
}

/// A name spells a title at a place exactly where each of its characters stands
/// there, or is a space the parser put for something between words.
pub proof fn law_where_a_name_spells_a_title(name: Seq<char>, title: Seq<char>, at: int)
    requires
        0 <= at,
    ensures
        stands_at(name, title, at) <==> at + title.len() <= name.len() && forall|k: int|
            0 <= k < title.len() ==> #[trigger] title[k] == name[at + k] || (title[k] == ' '
                && is_between_words(name[at + k])),
{
}

/// A space of a title may stand for a space, for a mark that is given back, for
/// a full stop, a tilde or a dash, and for nothing else.
pub proof fn law_what_a_space_may_stand_for(c: char)
    ensures
        is_between_words(c) <==> seq![
            ' ',
            '\t',
            '_',
            '\u{a0}',
            '\u{200b}',
            '\u{3000}',
            ':',
            ',',
            '&',
            '+',
            '|',
            '.',
            '~',
            '-',
            '\u{ad}',
        ].contains(c) || '\u{2010}' <= c <= '\u{2015}',
{
    let marks = seq![
        ' ',
        '\t',
        '_',
        '\u{a0}',
        '\u{200b}',
        '\u{3000}',
        ':',
        ',',
        '&',
        '+',
        '|',
        '.',
        '~',
        '-',
        '\u{ad}',
    ];
    assert(marks[0] == ' ' && marks[1] == '\t' && marks[2] == '_' && marks[3] == '\u{a0}');
    assert(marks[4] == '\u{200b}' && marks[5] == '\u{3000}' && marks[6] == ':' && marks[7] == ',');
    assert(marks[8] == '&' && marks[9] == '+' && marks[10] == '|' && marks[11] == '.');
    assert(marks[12] == '~' && marks[13] == '-' && marks[14] == '\u{ad}');
}

} // verus!
