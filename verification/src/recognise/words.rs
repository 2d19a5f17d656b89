//! Where the words of a title lie.

use vstd::prelude::*;
use vstd::slice::slice_subrange;

use crate::recognise::glyph::{a_gap, Glyph};
#[allow(unused_imports)]
use crate::recognise::glyph::{chars, gap};

verus! {

/// Where one word of a title begins, and where it has ended.
#[derive(Debug, Clone, Copy, PartialEq, Eq, Structural)]
pub struct Span {
    /// The first character of the word.
    pub start: usize,
    /// The first character after it.
    pub end: usize,
}

impl View for Span {
    type V = (int, int);

    open spec fn view(&self) -> (int, int) {
        (self.start as int, self.end as int)
    }
}

/// Where the words lie, as numbers.
pub open spec fn places(spans: Seq<Span>) -> Seq<(int, int)> {
    spans.map_values(|span: Span| span@)
}

/// Where each run of letters lies in the first characters of a text.
pub open spec fn words_before(text: Seq<Glyph>, n: int) -> Seq<(int, int)>
    decreases n,
{
    if n <= 0 {
        Seq::empty()
    } else {
        let earlier = words_before(text, n - 1);
        if !text[n - 1].letter {
            earlier
        } else if n >= 2 && text[n - 2].letter {
            earlier.drop_last().push((earlier.last().0, n))
        } else {
            earlier.push((n - 1, n))
        }
    }
}

/// Where each run of letters lies in a text.
pub open spec fn words(text: Seq<Glyph>) -> Seq<(int, int)> {
    words_before(text, text.len() as int)
}

/// The characters of a word.
pub open spec fn word_at(text: Seq<Glyph>, word: (int, int)) -> Seq<char> {
    chars(text.subrange(word.0, word.1))
}

/// The text with a space where a stretch of it stood.
pub open spec fn taken_out(text: Seq<Glyph>, place: (int, int)) -> Seq<Glyph> {
    text.take(place.0).push(gap()) + text.skip(place.1)
}

/// Spans found by exec code are where the words of the text lie.
pub open spec fn lie_in(spans: Seq<Span>, text: Seq<Glyph>) -> bool {
    places(spans) == words(text)
}

/// What is known of the words in the first characters of a text.
pub open spec fn runs_of_letters(text: Seq<Glyph>, n: int, found: Seq<(int, int)>) -> bool {
    &&& forall|k: int|
        0 <= k < found.len() ==> {
            &&& 0 <= #[trigger] found[k].0 < found[k].1 <= n
            &&& found[k].0 == 0 || !text[found[k].0 - 1].letter
            &&& found[k].1 == n || !text[found[k].1].letter
        }
    &&& forall|k: int, i: int|
        0 <= k < found.len() && #[trigger] found[k].0 <= i < found[k].1 ==> #[trigger] text[i].letter
    &&& forall|j: int, k: int|
        0 <= j < k < found.len() ==> #[trigger] found[j].1 < #[trigger] found[k].0
    &&& forall|i: int|
        0 <= i < n && #[trigger] text[i].letter ==> exists|k: int|
            0 <= k < found.len() && #[trigger] found[k].0 <= i < found[k].1
}

/// The words of a text are its runs of letters, whole and in order: nothing but
/// letters stands in a word, no letter stands beside one, no two words meet, and
/// every letter is in one.
pub proof fn law_words_are_the_runs_of_letters(text: Seq<Glyph>, n: int)
    requires
        0 <= n <= text.len(),
    ensures
        runs_of_letters(text, n, words_before(text, n)),
        n > 0 && text[n - 1].letter ==> words_before(text, n).len() > 0 && words_before(
            text,
            n,
        ).last().1 == n,
        n > 0 && !text[n - 1].letter ==> forall|k: int|
            0 <= k < words_before(text, n).len() ==> #[trigger] words_before(text, n)[k].1 < n,
    decreases n,
{
    if n > 0 {
        law_words_are_the_runs_of_letters(text, n - 1);
        let earlier = words_before(text, n - 1);
        let found = words_before(text, n);
        if !text[n - 1].letter {
            assert forall|i: int| 0 <= i < n && #[trigger] text[i].letter implies exists|k: int|
                0 <= k < found.len() && #[trigger] found[k].0 <= i < found[k].1 by {
                assert(i < n - 1);
                let k = choose|k: int|
                    0 <= k < earlier.len() && #[trigger] earlier[k].0 <= i < earlier[k].1;
                assert(found[k].0 <= i < found[k].1);
            }
        } else if n >= 2 && text[n - 2].letter {
            let last = earlier.len() - 1;
            assert(forall|k: int| 0 <= k < last ==> found[k] == earlier[k]);
            assert(found[last] == (earlier[last].0, n));
            assert forall|k: int, i: int|
                0 <= k < found.len() && #[trigger] found[k].0 <= i < found[k].1 implies
                #[trigger] text[i].letter by {
                if k == last {
                    if i < n - 1 {
                        assert(earlier[k].0 <= i < earlier[k].1);
                    }
                } else {
                    assert(earlier[k].0 <= i < earlier[k].1);
                }
            }
            assert forall|i: int| 0 <= i < n && #[trigger] text[i].letter implies exists|k: int|
                0 <= k < found.len() && #[trigger] found[k].0 <= i < found[k].1 by {
                if i == n - 1 {
                    assert(found[last].0 <= i < found[last].1);
                } else {
                    let k = choose|k: int|
                        0 <= k < earlier.len() && #[trigger] earlier[k].0 <= i < earlier[k].1;
                    assert(found[k].0 <= i < found[k].1);
                }
            }
        } else {
            let last = earlier.len() as int;
            assert(forall|k: int| 0 <= k < last ==> found[k] == earlier[k]);
            assert(found[last] == (n - 1, n));
            assert forall|k: int, i: int|
                0 <= k < found.len() && #[trigger] found[k].0 <= i < found[k].1 implies
                #[trigger] text[i].letter by {
                if k < last {
                    assert(earlier[k].0 <= i < earlier[k].1);
                }
            }
            assert forall|i: int| 0 <= i < n && #[trigger] text[i].letter implies exists|k: int|
                0 <= k < found.len() && #[trigger] found[k].0 <= i < found[k].1 by {
                if i == n - 1 {
                    assert(found[last].0 <= i < found[last].1);
                } else {
                    let k = choose|k: int|
                        0 <= k < earlier.len() && #[trigger] earlier[k].0 <= i < earlier[k].1;
                    assert(found[k].0 <= i < found[k].1);
                }
            }
        }
    }
}

/// Where each run of letters in the text lies.
pub fn words_of(text: &[Glyph]) -> (found: Vec<Span>)
    ensures
        lie_in(found@, text@),
{
    let mut found: Vec<Span> = Vec::new();
    let mut i: usize = 0;
    while i < text.len()
        invariant
            i <= text@.len(),
            places(found@) == words_before(text@, i as int),
        decreases text@.len() - i,
    {
        let ghost earlier = found@;
        proof {
            law_words_are_the_runs_of_letters(text@, i as int);
        }
        if text[i].letter {
            if i > 0 && text[i - 1].letter {
                let last = found.len() - 1;
                assert(places(earlier).last() == earlier[last as int]@);
                let start = found[last].start;
                found.set(last, Span { start, end: i + 1 });
                assert(places(found@) =~= places(earlier).drop_last().push((start as int, i + 1)));
            } else {
                found.push(Span { start: i, end: i + 1 });
                assert(places(found@) =~= places(earlier).push((i as int, i + 1)));
            }
        }
        i += 1;
    }
    found
}

/// Spans that lie in a text can be cut out of it.
pub proof fn lemma_words_lie_within(spans: Seq<Span>, text: Seq<Glyph>)
    requires
        lie_in(spans, text),
    ensures
        spans.len() == words(text).len(),
        forall|k: int|
            0 <= k < spans.len() ==> {
                &&& (#[trigger] spans[k])@ == words(text)[k]
                &&& spans[k].start < spans[k].end <= text.len()
            },
        forall|j: int, k: int|
            0 <= j < k < spans.len() ==> (#[trigger] spans[j]).end < (#[trigger] spans[k]).start,
{
    law_words_are_the_runs_of_letters(text, text.len() as int);
    assert forall|k: int| 0 <= k < spans.len() implies {
        &&& (#[trigger] spans[k])@ == words(text)[k]
        &&& spans[k].start < spans[k].end <= text.len()
    } by {
        assert(places(spans)[k] == spans[k]@);
        assert(words(text)[k].0 < words(text)[k].1);
    }
    assert forall|j: int, k: int| 0 <= j < k < spans.len() implies (#[trigger] spans[j]).end < (
    #[trigger] spans[k]).start by {
        assert(places(spans)[j] == spans[j]@);
        assert(places(spans)[k] == spans[k]@);
        assert(words(text)[j].1 < words(text)[k].0);
    }
}

/// The glyphs of one word.
pub(crate) fn word_of<'a>(text: &'a [Glyph], span: Span) -> (word: &'a [Glyph])
    requires
        span.start <= span.end <= text@.len(),
    ensures
        word@ == text@.subrange(span.start as int, span.end as int),
        chars(word@) == word_at(text@, span@),
{
    slice_subrange(text, span.start, span.end)
}

/// The text with a space where a stretch of it stood.
pub(crate) fn take_out(text: &[Glyph], start: usize, end: usize) -> (kept: Vec<Glyph>)
    requires
        start <= end <= text@.len(),
    ensures
        kept@ == taken_out(text@, (start as int, end as int)),
{
    let mut kept: Vec<Glyph> = Vec::new();
    let mut i: usize = 0;
    while i < start
        invariant
            i <= start <= text@.len(),
            kept@ == text@.take(i as int),
        decreases start - i,
    {
        kept.push(text[i]);
        i += 1;
    }
    kept.push(a_gap());
    let mut j: usize = end;
    let ghost head = kept@;
    assert(head + text@.subrange(end as int, j as int) =~= head);
    while j < text.len()
        invariant
            end <= j <= text@.len(),
            kept@ == head + text@.subrange(end as int, j as int),
        decreases text@.len() - j,
    {
        kept.push(text[j]);
        j += 1;
        assert(kept@ =~= head + text@.subrange(end as int, j as int));
    }
    assert(kept@ =~= taken_out(text@, (start as int, end as int)));
    kept
}

proof fn lemma_the_front_has_its_own_words(front: Seq<Glyph>, rest: Seq<Glyph>, n: int)
    requires
        n <= front.len(),
    ensures
        words_before(front + rest, n) == words_before(front, n),
    decreases n,
{
    if n > 0 {
        lemma_the_front_has_its_own_words(front, rest, n - 1);
        assert((front + rest)[n - 1] == front[n - 1]);
        if n >= 2 {
            assert((front + rest)[n - 2] == front[n - 2]);
        }
    }
}

/// A run of letters behind something that is no letter is one word more, and the
/// words before it stay where they were.
pub proof fn law_a_word_behind_a_break_is_one_more(
    front: Seq<Glyph>,
    between: Glyph,
    word: Seq<Glyph>,
)
    requires
        !between.letter,
        word.len() > 0,
        forall|i: int| 0 <= i < word.len() ==> (#[trigger] word[i]).letter,
    ensures
        ({
            let text = front.push(between) + word;
            &&& words(text) == words(front).push((front.len() as int + 1, text.len() as int))
            &&& word_at(text, (front.len() as int + 1, text.len() as int)) == chars(word)
            &&& forall|k: int|
                0 <= k < words(front).len() ==> word_at(text, #[trigger] words(front)[k]) == word_at(
                    front,
                    words(front)[k],
                )
        }),
{
    let head = front.push(between);
    let text = head + word;
    let from = front.len() as int;
    assert(text =~= front + (seq![between] + word));
    lemma_the_front_has_its_own_words(front, seq![between] + word, from);
    assert(text[from] == between);
    assert(words_before(text, from + 1) == words(front));
    lemma_a_run_grows(text, from, word.len() as int, words(front));
    assert(text.subrange(from + 1, text.len() as int) =~= word);
    law_words_are_the_runs_of_letters(front, from);
    assert forall|k: int| 0 <= k < words(front).len() implies word_at(
        text,
        #[trigger] words(front)[k],
    ) == word_at(front, words(front)[k]) by {
        let place = words(front)[k];
        assert(0 <= place.0 < place.1 <= from);
        assert(text.subrange(place.0, place.1) =~= front.subrange(place.0, place.1));
    }
}

proof fn lemma_a_run_grows(text: Seq<Glyph>, at: int, length: int, earlier: Seq<(int, int)>)
    requires
        0 <= at,
        1 <= length,
        at + 1 + length <= text.len(),
        !text[at].letter,
        words_before(text, at + 1) == earlier,
        forall|i: int| at < i <= at + length ==> (#[trigger] text[i]).letter,
    ensures
        words_before(text, at + 1 + length) == earlier.push((at + 1, at + 1 + length)),
    decreases length,
{
    assert(text[at + length].letter);
    if length > 1 {
        lemma_a_run_grows(text, at, length - 1, earlier);
        assert(text[at + length - 1].letter);
        let before = words_before(text, at + length);
        assert(before.drop_last() =~= earlier);
    }
}

/// Words are told by letters alone: where each lies depends on nothing else.
pub proof fn law_words_depend_on_letters_alone(one: Seq<Glyph>, other: Seq<Glyph>, n: int)
    requires
        0 <= n <= one.len(),
        n <= other.len(),
        forall|i: int| 0 <= i < n ==> (#[trigger] one[i]).letter == other[i].letter,
    ensures
        words_before(one, n) == words_before(other, n),
    decreases n,
{
    if n > 0 {
        law_words_depend_on_letters_alone(one, other, n - 1);
        assert(one[n - 1].letter == other[n - 1].letter);
        if n >= 2 {
            assert(one[n - 2].letter == other[n - 2].letter);
        }
    }
}

/// What is taken out of a text leaves one space, and all that stood before it
/// and after it.
pub proof fn law_taking_out_leaves_the_rest(text: Seq<Glyph>, from: int, to: int)
    requires
        0 <= from <= to <= text.len(),
    ensures
        taken_out(text, (from, to)).len() == text.len() - (to - from) + 1,
        forall|i: int| 0 <= i < from ==> taken_out(text, (from, to))[i] == #[trigger] text[i],
        taken_out(text, (from, to))[from].c == ' ',
        taken_out(text, (from, to))[from].space,
        !taken_out(text, (from, to))[from].letter,
        forall|i: int|
            to <= i < text.len() ==> taken_out(text, (from, to))[i - to + from + 1]
                == #[trigger] text[i],
{
}

} // verus!
