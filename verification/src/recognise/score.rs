//! Which of a handful of candidates the name is about, where one stands out.
//!
//! The fourth stage, and the last that can answer. It is given the candidates
//! the index narrowed to and decides between them, or decides that it cannot,
//! and that second answer is the sequence's refusal: it says how close the best
//! candidate came and never which candidate it was.
//!
//! **The text it scores is the whole name**, through
//! [`Parsed::text`](super::parse::Parsed::text), which is the filename with the
//! release's own words struck out. A title ends at the first thing the parser
//! recognises, so a file of a special whose name extends a series' name reports
//! the series and nothing of the subtitle that tells the two apart.
//!
//! **A candidate is judged by how much of the name it accounts for**, as the
//! words the two share against the words they spell between them, and an entry
//! is judged by its best spelling. A file named in English and an entry filed
//! under romaji, English and native spellings meet on whichever of them the
//! name is closest to.
//!
//! **A candidate answers by the distance it puts between itself and the next
//! one.** Two entries of one franchise both score highly against a name
//! carrying the franchise's words, and a hair between the first two is an
//! ambiguity.
//!
//! **The margin is wider where what is compared is short**, because the
//! arithmetic is coarser there. A score is the shared words over the words the
//! two spell between them, so each word counts for more the fewer of them there
//! are: where the winner spells two words of a name that spells three, a
//! runner-up adding a word of its own and sharing no more of the name lands
//! 0.13 behind, which the ordinary margin reads as a decision. The same
//! runner-up lands 0.06 behind a winner of seven words. What counts as short is
//! the shorter of the name and the spelling that won.

use vstd::prelude::*;

use crate::recognise::corpus::Corpus;
#[allow(unused_imports)]
use crate::recognise::corpus::{spellings_filed, FiledView};
use crate::recognise::normalise::words_in;
#[allow(unused_imports)]
use crate::recognise::normalise::words_spelled;
#[allow(unused_imports)]
use crate::recognise::order::ordered;
use crate::recognise::parse::Parsed;
#[allow(unused_imports)]
use crate::recognise::parse::ParsedView;
use crate::recognise::proportion::{leads_by_less, proportion};
#[allow(unused_imports)]
use crate::recognise::proportion::{
    law_the_nearest_double_is_a_proportion, leads_by_less_than, lemma_magnitude_is_monotone,
    magnitude, nearest_double, FRACTIONS, ONE,
};
use crate::recognise::{Match, Recognition, Refusal, Score, Stage};
#[allow(unused_imports)]
use crate::recognise::{MatchView, RecognitionView, RefusalView, StageView};
use crate::text::same;
#[allow(unused_imports)]
use crate::text::{str_texts, texts};

pub use crate::recognise::proportion::NEAR_ENOUGH;

verus! {

/// How many words a comparison has to spell before the ordinary margin applies.
///
/// Counted on the shorter of the two sides: the name, and the spelling the best
/// candidate won with.
pub const SHORT: usize = 3;

/// How far the best candidate has to be ahead of the next one, as the bits of a
/// double: 0.10.
pub const AHEAD: u64 = 0x3fb9_9999_9999_999a;

/// How far ahead the best candidate has to be where what is compared is short,
/// as the bits of a double: 0.20.
pub const AHEAD_SHORT: u64 = 0x3fc9_9999_9999_999a;

// Likeness.

/// How many words two lists share.
pub open spec fn shared_words(name: Seq<Seq<char>>, spelling: Seq<Seq<char>>) -> nat {
    name.to_set().intersect(spelling.to_set()).len()
}

/// How many words two lists spell between them.
pub open spec fn words_between(name: Seq<Seq<char>>, spelling: Seq<Seq<char>>) -> nat {
    name.to_set().len() + spelling.to_set().len()
}

/// How much of the two a name and a spelling have in common, as the bits of a
/// double: twice the words they share over the words they spell between them.
pub open spec fn likeness(name: Seq<Seq<char>>, spelling: Seq<Seq<char>>) -> int {
    if words_between(name, spelling) == 0 {
        0
    } else {
        nearest_double(2 * shared_words(name, spelling), words_between(name, spelling))
    }
}

/// Whether some words hold one.
fn holds(words: &[String], upto: usize, word: &str) -> (answer: bool)
    requires
        upto <= words@.len(),
    ensures
        answer == texts(words@).take(upto as int).contains(word@),
{
    let ghost all = texts(words@);
    let mut i: usize = 0;
    while i < upto
        invariant
            i <= upto <= words@.len(),
            all == texts(words@),
            forall|j: int| 0 <= j < i ==> #[trigger] all[j] != word@,
        decreases upto - i,
    {
        if same(words[i].as_str(), word) {
            assert(all.take(upto as int)[i as int] == word@);
            return true;
        }
        i += 1;
    }
    false
}

/// How many words there are once repeats are left out.
fn distinct(words: &[String]) -> (count: usize)
    ensures
        count == texts(words@).to_set().len(),
{
    let ghost all = texts(words@);
    let mut count: usize = 0;
    let mut i: usize = 0;
    assert(all.take(0).to_set() =~= Set::<Seq<char>>::empty());
    while i < words.len()
        invariant
            i <= words@.len(),
            count <= i,
            all == texts(words@),
            count == all.take(i as int).to_set().len(),
        decreases words@.len() - i,
    {
        proof {
            lemma_one_more_word_in_the_set(all, i as int);
        }
        if !holds(words, i, words[i].as_str()) {
            count += 1;
        }
        i += 1;
    }
    assert(all.take(i as int) =~= all);
    count
}

/// How many words two lists share once repeats are left out.
fn shared(name: &[String], spelling: &[String]) -> (count: usize)
    ensures
        count == shared_words(texts(name@), texts(spelling@)),
{
    let ghost all = texts(name@);
    let ghost others = texts(spelling@);
    let mut count: usize = 0;
    let mut i: usize = 0;
    assert(all.take(0).to_set().intersect(others.to_set()) =~= Set::<Seq<char>>::empty());
    while i < name.len()
        invariant
            i <= name@.len(),
            count <= i,
            all == texts(name@),
            others == texts(spelling@),
            count == all.take(i as int).to_set().intersect(others.to_set()).len(),
        decreases name@.len() - i,
    {
        proof {
            lemma_one_more_word_in_the_set(all, i as int);
            let before = all.take(i as int).to_set();
            let now = all.take(i + 1).to_set();
            let word = all[i as int];
            vstd::seq_lib::seq_to_set_is_finite(all.take(i as int));
            if others.contains(word) {
                assert(now.intersect(others.to_set()) =~= before.intersect(
                    others.to_set(),
                ).insert(word));
            } else {
                assert(now.intersect(others.to_set()) =~= before.intersect(others.to_set()));
            }
            assert(others.take(spelling@.len() as int) =~= others);
            vstd::set_lib::lemma_len_intersect(before, others.to_set());
        }
        if !holds(name, i, name[i].as_str()) && holds(
            spelling,
            spelling.len(),
            name[i].as_str(),
        ) {
            count += 1;
        }
        i += 1;
    }
    assert(all.take(i as int) =~= all);
    count
}

proof fn lemma_one_more_word_in_the_set(words: Seq<Seq<char>>, n: int)
    requires
        0 <= n < words.len(),
    ensures
        words.take(n + 1).to_set() == words.take(n).to_set().insert(words[n]),
        words.take(n).to_set().finite(),
        words.take(n).to_set().contains(words[n]) == words.take(n).contains(words[n]),
{
    vstd::seq_lib::seq_to_set_is_finite(words.take(n));
    assert(words.take(n + 1) =~= words.take(n).push(words[n]));
    words.take(n).lemma_push_to_set_commute(words[n]);
}

/// What two lists share is no more than either of them holds.
proof fn lemma_shared_is_a_part(name: Seq<Seq<char>>, spelling: Seq<Seq<char>>)
    ensures
        2 * shared_words(name, spelling) <= words_between(name, spelling),
        name.to_set().finite(),
        spelling.to_set().finite(),
{
    vstd::seq_lib::seq_to_set_is_finite(name);
    vstd::seq_lib::seq_to_set_is_finite(spelling);
    vstd::set_lib::lemma_len_intersect(name.to_set(), spelling.to_set());
    vstd::set_lib::lemma_len_intersect(spelling.to_set(), name.to_set());
    assert(name.to_set().intersect(spelling.to_set()) =~= spelling.to_set().intersect(
        name.to_set(),
    ));
}

/// How much of the two the name and the spelling have in common.
///
/// The words they share against the words they spell between them, so that
/// neither a long entry nor a long name is favoured by its length alone. Two
/// sets cannot share more than they hold between them, so the share is always a
/// proportion.
pub fn alike(name: &[String], spelling: &[String]) -> (score: Score)
    ensures
        score@ == likeness(texts(name@), texts(spelling@)),
        score@ <= ONE,
{
    let held = distinct(name);
    let spelled = distinct(spelling);
    let between: u128 = held as u128 + spelled as u128;
    let common = shared(name, spelling);
    proof {
        lemma_shared_is_a_part(texts(name@), texts(spelling@));
    }
    if between == 0 {
        return proportion(0, 1);
    }
    proof {
        law_the_nearest_double_is_a_proportion(
            2 * shared_words(texts(name@), texts(spelling@)),
            words_between(texts(name@), texts(spelling@)),
        );
    }
    proportion(2 * (common as u128), between)
}

/// How alike two lists of words are is the same whichever is asked about. It is
/// nought exactly for lists that share no word, and one exactly for lists that
/// spell the same words and at least one, up to more words than doubles tell
/// apart.
pub proof fn law_likeness(name: Seq<Seq<char>>, spelling: Seq<Seq<char>>)
    requires
        words_between(name, spelling) <= 0x3_ffff_ffff_ffff_ffff,
    ensures
        likeness(name, spelling) == likeness(spelling, name),
        0 <= likeness(name, spelling) <= ONE,
        name.to_set() == spelling.to_set() && name.len() > 0 ==> likeness(name, spelling) == ONE,
        words_between(name, spelling) < 4 * FRACTIONS && likeness(name, spelling) == ONE
            ==> name.to_set() == spelling.to_set() && name.len() > 0,
        likeness(name, spelling) == 0 <==> name.to_set().disjoint(spelling.to_set()),
{
    lemma_shared_is_a_part(name, spelling);
    assert(name.to_set().intersect(spelling.to_set()) =~= spelling.to_set().intersect(
        name.to_set(),
    ));
    if words_between(name, spelling) > 0 {
        law_the_nearest_double_is_a_proportion(
            2 * shared_words(name, spelling),
            words_between(name, spelling),
        );
    }
    if name.to_set() == spelling.to_set() && name.len() > 0 {
        assert(name.to_set().intersect(spelling.to_set()) =~= name.to_set());
        assert(name.contains(name[0]));
        assert(name.to_set().contains(name[0]));
        if name.to_set().len() == 0 {
            name.to_set().lemma_len0_is_empty();
        }
    }
    if name.to_set().disjoint(spelling.to_set()) {
        assert(name.to_set().intersect(spelling.to_set()) =~= Set::<Seq<char>>::empty());
    }
    let both = name.to_set().intersect(spelling.to_set());
    if shared_words(name, spelling) == 0 {
        assert(both.finite());
        both.lemma_len0_is_empty();
        assert forall|word: Seq<char>| name.to_set().contains(word) implies !spelling.to_set().contains(
            word,
        ) by {
            if spelling.to_set().contains(word) {
                assert(both.contains(word));
            }
        }
    }
    if words_between(name, spelling) == 0 {
        name.to_set().lemma_len0_is_empty();
    } else if 2 * shared_words(name, spelling) == words_between(name, spelling) {
        vstd::set_lib::lemma_len_intersect(name.to_set(), spelling.to_set());
        vstd::set_lib::lemma_len_intersect(spelling.to_set(), name.to_set());
        vstd::set_lib::lemma_subset_equality(both, name.to_set());
        vstd::set_lib::lemma_subset_equality(both, spelling.to_set());
        if name.len() == 0 {
            assert(name.to_set() =~= Set::<Seq<char>>::empty());
        }
    }
}

/// Repeating a word changes nothing: lists that spell the same words are as
/// alike to any other list.
pub proof fn law_repeating_a_word_changes_nothing(
    name: Seq<Seq<char>>,
    again: Seq<Seq<char>>,
    spelling: Seq<Seq<char>>,
)
    requires
        name.to_set() == again.to_set(),
    ensures
        likeness(name, spelling) == likeness(again, spelling),
        likeness(spelling, name) == likeness(spelling, again),
{
}

// Judging.

/// How close an entry came to a name, and how many words the spelling it came
/// closest by has.
#[derive(Debug)]
pub struct Judged {
    /// How close it came.
    pub score: Score,
    /// How many words the spelling has.
    pub words: usize,
    /// The entry's title.
    pub title: String,
}

/// An entry judged, as contracts speak of it: its score, its words, its title.
pub type JudgedView = (int, nat, Seq<char>);

impl View for Judged {
    type V = (int, nat, Seq<char>);

    open spec fn view(&self) -> (int, nat, Seq<char>) {
        (self.score@ as int, self.words as nat, self.title@)
    }
}

/// Each of some entries judged, as contracts speak of it.
pub open spec fn judged_views(judged: Seq<Judged>) -> Seq<JudgedView> {
    judged.map_values(|one: Judged| one@)
}

/// How close a name comes to the closest of some spellings, and how many words
/// that spelling has. Of two that come equally close, the later one counts.
pub open spec fn closest(name: Seq<Seq<char>>, spellings: Seq<Seq<char>>) -> Option<(int, nat)>
    decreases spellings.len(),
{
    if spellings.len() == 0 {
        None
    } else {
        let spelled = words_spelled(spellings.last());
        let score = likeness(name, spelled);
        match closest(name, spellings.drop_last()) {
            Some(best) if best.0 > score => Some(best),
            _ => Some((score, spelled.len())),
        }
    }
}

/// Each candidate that has a spelling, judged by the closest of them.
pub open spec fn judge_all(
    name: Seq<Seq<char>>,
    candidates: Seq<Seq<char>>,
    filed: Seq<FiledView>,
) -> Seq<JudgedView>
    decreases candidates.len(),
{
    if candidates.len() == 0 {
        Seq::empty()
    } else {
        let earlier = judge_all(name, candidates.drop_last(), filed);
        let title = candidates.last();
        match closest(name, ordered(spellings_filed(filed, title))) {
            Some((score, words)) => earlier.push((score, words, title)),
            None => earlier,
        }
    }
}

/// The first of the entries that scored highest.
pub open spec fn best_place(judged: Seq<JudgedView>) -> int
    decreases judged.len(),
{
    if judged.len() <= 1 {
        0
    } else {
        let earlier = best_place(judged.drop_last());
        if judged.last().0 > judged[earlier].0 {
            judged.len() - 1
        } else {
            earlier
        }
    }
}

/// The highest score among the first entries but one, or nought where there is
/// no other.
pub open spec fn highest_but(judged: Seq<JudgedView>, but: int, n: int) -> int
    decreases n,
{
    if n <= 0 {
        0
    } else {
        let earlier = highest_but(judged, but, n - 1);
        if n - 1 != but && judged[n - 1].0 > earlier {
            judged[n - 1].0
        } else {
            earlier
        }
    }
}

/// How far ahead the best has to be: further where what is compared is short.
pub open spec fn lead_wanted(spelling_words: nat, name_words: nat) -> u64 {
    if spelling_words < SHORT || name_words < SHORT {
        AHEAD_SHORT
    } else {
        AHEAD
    }
}

/// What the entries judged come to.
///
/// A refusal where the best two run level: entries of one franchise score
/// alike against a name carrying the franchise's words, and picking the higher
/// of two that are neck and neck is guessing. It carries how close the best
/// candidate came rather than which it was: a near miss travels as a score, and
/// nothing downstream can read it as a title. Where there was no candidate to
/// score, the refusal carries no score at all.
pub open spec fn standing_out(
    name_words: nat,
    judged: Seq<JudgedView>,
    parsed: ParsedView,
) -> RecognitionView {
    let title = match parsed.title {
        Some(held) => held,
        None => Seq::empty(),
    };
    if judged.len() == 0 {
        RecognitionView::Unrecognised(RefusalView { parsed: title, best: None })
    } else {
        let at = best_place(judged);
        let best = judged[at];
        let next = highest_but(judged, at, judged.len() as int);
        if best.0 < NEAR_ENOUGH || leads_by_less_than(
            best.0 as u64,
            next as u64,
            lead_wanted(best.1, name_words),
        ) {
            RecognitionView::Unrecognised(RefusalView { parsed: title, best: Some(best.0) })
        } else {
            RecognitionView::Recognised(
                MatchView {
                    title: best.2,
                    episode: parsed.episode,
                    stage: StageView::Scored(best.0),
                },
            )
        }
    }
}

/// What scoring the candidates of a name comes to.
pub open spec fn scored(
    parsed: ParsedView,
    candidates: Seq<Seq<char>>,
    filed: Seq<FiledView>,
) -> RecognitionView {
    let name = words_spelled(parsed.text);
    standing_out(name.len(), judge_all(name, candidates, filed), parsed)
}

/// The best place holds a score as high as any.
proof fn lemma_the_best_is_highest(judged: Seq<JudgedView>)
    requires
        judged.len() > 0,
    ensures
        0 <= best_place(judged) < judged.len(),
        forall|i: int|
            0 <= i < judged.len() ==> (#[trigger] judged[i]).0 <= judged[best_place(judged)].0,
    decreases judged.len(),
{
    if judged.len() > 1 {
        let shorter = judged.drop_last();
        lemma_the_best_is_highest(shorter);
        assert forall|i: int| 0 <= i < judged.len() implies (#[trigger] judged[i]).0
            <= judged[best_place(judged)].0 by {
            if i < shorter.len() {
                assert(shorter[i] == judged[i]);
            }
        }
    }
}

proof fn lemma_the_next_is_no_higher(judged: Seq<JudgedView>, but: int, n: int, most: int)
    requires
        0 <= n <= judged.len(),
        0 <= most,
        forall|i: int| 0 <= i < judged.len() ==> (#[trigger] judged[i]).0 <= most,
    ensures
        0 <= highest_but(judged, but, n) <= most,
    decreases n,
{
    if n > 0 {
        lemma_the_next_is_no_higher(judged, but, n - 1, most);
    }
}

/// An entry judged by the closest of its spellings, where it has one.
fn judge(name: &[String], title: &str, corpus: &Corpus) -> (judged: Option<Judged>)
    ensures
        match (
            judged,
            closest(texts(name@), ordered(spellings_filed(corpus@, title@))),
        ) {
            (Some(one), Some((score, words))) => one@ == (score, words, title@) && one.score@
                <= ONE,
            (None, None) => true,
            _ => false,
        },
{
    let spellings = corpus.spellings_of(title);
    let ghost all = str_texts(spellings@);
    let mut best: Option<(Score, usize)> = None;
    let mut i: usize = 0;
    assert(all.take(0) =~= Seq::empty());
    while i < spellings.len()
        invariant
            i <= spellings@.len(),
            all == str_texts(spellings@),
            match (best, closest(texts(name@), all.take(i as int))) {
                (Some((score, words)), Some(expected)) => (score@ as int, words as nat) == expected
                    && score@ <= ONE,
                (None, None) => true,
                _ => false,
            },
        decreases spellings@.len() - i,
    {
        assert(all.take(i + 1).drop_last() =~= all.take(i as int));
        assert(all.take(i + 1).last() == spellings@[i as int]@);
        let spelled = words_in(spellings[i]);
        assert(texts(spelled@).len() == spelled@.len());
        let score = alike(name, &spelled);
        let keep = match best {
            Some((held, _)) => held.value() > score.value(),
            None => false,
        };
        if !keep {
            best = Some((score, spelled.len()));
        }
        i += 1;
    }
    assert(all.take(i as int) =~= all);
    match best {
        Some((score, words)) => Some(Judged { score, words, title: title.to_owned() }),
        None => None,
    }
}

/// What the entries judged come to.
pub fn stand_out(name_words: usize, judged: &[Judged], parsed: &Parsed) -> (answer: Recognition)
    requires
        forall|i: int| 0 <= i < judged@.len() ==> (#[trigger] judged@[i]).score@ <= ONE,
    ensures
        answer@ == standing_out(name_words as nat, judged_views(judged@), parsed@),
{
    let title = match &parsed.title {
        Some(held) => held.clone(),
        None => String::new(),
    };
    if judged.len() == 0 {
        return Recognition::Unrecognised(Refusal { parsed: title, best: None });
    }
    let ghost all = judged_views(judged@);
    let mut at: usize = 0;
    let mut i: usize = 1;
    assert(best_place(all.take(1)) == 0);
    while i < judged.len()
        invariant
            1 <= i <= judged@.len(),
            at < i,
            all == judged_views(judged@),
            at == best_place(all.take(i as int)),
        decreases judged@.len() - i,
    {
        assert(all.take(i + 1).drop_last() =~= all.take(i as int));
        assert(all[i as int] == judged@[i as int]@);
        assert(all[at as int] == judged@[at as int]@);
        if judged[i].score.value() > judged[at].score.value() {
            at = i;
        }
        i += 1;
    }
    assert(all.take(i as int) =~= all);
    let best = judged[at].score;
    let mut next: u64 = 0;
    let mut j: usize = 0;
    while j < judged.len()
        invariant
            j <= judged@.len(),
            all == judged_views(judged@),
            next == highest_but(all, at as int, j as int),
        decreases judged@.len() - j,
    {
        assert(all[j as int] == judged@[j as int]@);
        if j != at && judged[j].score.value() > next {
            next = judged[j].score.value();
        }
        j += 1;
    }
    proof {
        lemma_the_best_is_highest(all);
        assert(all[at as int] == judged@[at as int]@);
        lemma_the_next_is_no_higher(all, at as int, all.len() as int, all[at as int].0);
    }
    let lead = if judged[at].words < SHORT || name_words < SHORT {
        AHEAD_SHORT
    } else {
        AHEAD
    };
    if best.value() < NEAR_ENOUGH || leads_by_less(best.value(), next, lead) {
        return Recognition::Unrecognised(Refusal { parsed: title, best: Some(best) });
    }
    Recognition::Recognised(
        Match {
            title: judged[at].title.clone(),
            episode: parsed.episode,
            stage: Stage::Scored(best),
        },
    )
}

/// The entry a name is about, where one candidate stands out from the next.
///
/// No stage runs after this one, so its refusal is the sequence's.
pub fn by_score(parsed: &Parsed, candidates: &[&str], corpus: &Corpus) -> (answer: Recognition)
    ensures
        answer@ == scored(parsed@, str_texts(candidates@), corpus@),
{
    let name = words_in(parsed.text.as_str());
    let ghost all = str_texts(candidates@);
    let mut judged: Vec<Judged> = Vec::new();
    let mut i: usize = 0;
    assert(all.take(0) =~= Seq::empty());
    assert(judged_views(judged@) =~= judge_all(texts(name@), all.take(0), corpus@));
    while i < candidates.len()
        invariant
            i <= candidates@.len(),
            all == str_texts(candidates@),
            forall|k: int| 0 <= k < judged@.len() ==> (#[trigger] judged@[k]).score@ <= ONE,
            judged_views(judged@) == judge_all(texts(name@), all.take(i as int), corpus@),
        decreases candidates@.len() - i,
    {
        assert(all.take(i + 1).drop_last() =~= all.take(i as int));
        assert(all.take(i + 1).last() == candidates@[i as int]@);
        let ghost before = judged_views(judged@);
        if let Some(one) = judge(&name, candidates[i], corpus) {
            let ghost view = one@;
            judged.push(one);
            assert(judged_views(judged@) =~= before.push(view));
        }
        i += 1;
    }
    assert(all.take(i as int) =~= all);
    assert(texts(name@).len() == name@.len());
    stand_out(name.len(), judged.as_slice(), parsed)
}

// What scoring promises.

/// What is answered stood out: it scored near enough, and every other candidate
/// that was judged scored less by the lead that was wanted.
pub proof fn law_what_is_answered_stood_out(
    name_words: nat,
    judged: Seq<JudgedView>,
    parsed: ParsedView,
    i: int,
)
    requires
        forall|k: int| 0 <= k < judged.len() ==> 0 <= (#[trigger] judged[k]).0 <= ONE,
        standing_out(name_words, judged, parsed) is Recognised,
        0 <= i < judged.len(),
        i != best_place(judged),
    ensures
        judged[best_place(judged)].0 >= NEAR_ENOUGH,
        judged[i].0 <= highest_but(judged, best_place(judged), judged.len() as int),
        !leads_by_less_than(
            judged[best_place(judged)].0 as u64,
            highest_but(judged, best_place(judged), judged.len() as int) as u64,
            lead_wanted(judged[best_place(judged)].1, name_words),
        ),
{
    lemma_highest_is_no_lower(judged, best_place(judged), judged.len() as int, i);
}

proof fn lemma_highest_is_no_lower(judged: Seq<JudgedView>, but: int, n: int, i: int)
    requires
        0 <= i < n <= judged.len(),
        i != but,
    ensures
        judged[i].0 <= highest_but(judged, but, n),
    decreases n,
{
    if i < n - 1 {
        lemma_highest_is_no_lower(judged, but, n - 1, i);
    }
}

/// A refusal names no candidate, and carries no score exactly where nothing was
/// judged.
pub proof fn law_a_refusal_carries_a_score_only_where_one_was_made(
    name_words: nat,
    judged: Seq<JudgedView>,
    parsed: ParsedView,
)
    ensures
        standing_out(name_words, judged, parsed) matches RecognitionView::Unrecognised(refused) ==> (
        refused.best is None <==> judged.len() == 0),
        !(standing_out(name_words, judged, parsed) is Ambiguous),
{
}

/// How close a name comes to one spelling, and how many words the spelling has.
#[verifier::opaque]
spec fn close_to(name: Seq<Seq<char>>, spelling: Seq<char>) -> (int, nat) {
    (likeness(name, words_spelled(spelling)), words_spelled(spelling).len())
}

proof fn lemma_one_more_spelling(name: Seq<Seq<char>>, spellings: Seq<Seq<char>>)
    requires
        spellings.len() > 0,
    ensures
        ({
            let last = close_to(name, spellings[spellings.len() - 1]);
            match closest(name, spellings.drop_last()) {
                Some(best) => closest(name, spellings) == Some(
                    if best.0 > last.0 {
                        best
                    } else {
                        last
                    },
                ),
                None => closest(name, spellings) == Some(last),
            }
        }),
{
    reveal(close_to);
}

proof fn lemma_the_closest_spelling(name: Seq<Seq<char>>, spellings: Seq<Seq<char>>)
    ensures
        closest(name, spellings) is None <==> spellings.len() == 0,
        closest(name, spellings) matches Some(best) ==> {
            &&& forall|i: int|
                0 <= i < spellings.len() ==> best.0 >= close_to(name, #[trigger] spellings[i]).0
            &&& exists|i: int|
                0 <= i < spellings.len() && best == close_to(name, #[trigger] spellings[i])
        },
    decreases spellings.len(),
{
    if spellings.len() > 0 {
        let shorter = spellings.drop_last();
        let last = spellings.len() - 1;
        lemma_the_closest_spelling(name, shorter);
        lemma_one_more_spelling(name, spellings);
        let best = closest(name, spellings)->0;
        assert forall|i: int| 0 <= i < spellings.len() implies best.0 >= close_to(
            name,
            #[trigger] spellings[i],
        ).0 by {
            if i < last {
                assert(shorter[i] == spellings[i]);
            }
        }
        if best != close_to(name, spellings[last]) {
            let i = choose|i: int|
                0 <= i < shorter.len() && best == close_to(name, #[trigger] shorter[i]);
            assert(spellings[i] == shorter[i]);
        }
    }
}

/// An entry is judged by its best spelling: its score is as high as that of any
/// of them, and is that of one of them, with as many words as that one has. Only
/// an entry without a spelling is not judged.
pub proof fn law_an_entry_is_judged_by_its_best_spelling(
    name: Seq<Seq<char>>,
    spellings: Seq<Seq<char>>,
)
    ensures
        closest(name, spellings) is None <==> spellings.len() == 0,
        closest(name, spellings) matches Some(best) ==> {
            &&& forall|i: int|
                0 <= i < spellings.len() ==> best.0 >= likeness(
                    name,
                    words_spelled(#[trigger] spellings[i]),
                )
            &&& exists|i: int|
                0 <= i < spellings.len() && best.0 == likeness(
                    name,
                    words_spelled(#[trigger] spellings[i]),
                ) && best.1 == words_spelled(spellings[i]).len()
        },
{
    lemma_the_closest_spelling(name, spellings);
    reveal(close_to);
    if let Some(best) = closest(name, spellings) {
        let i = choose|i: int|
            0 <= i < spellings.len() && best == close_to(name, #[trigger] spellings[i]);
        assert(best.0 == likeness(name, words_spelled(spellings[i])));
    }
}

/// Every candidate that has a spelling is judged, and no other: one more
/// candidate adds its own judgement at the end, or nothing where it has no
/// spelling. What it scores is as high as any spelling filed under its title and
/// is that of one of them.
pub proof fn law_every_candidate_is_judged(
    name: Seq<Seq<char>>,
    candidates: Seq<Seq<char>>,
    title: Seq<char>,
    filed: Seq<FiledView>,
)
    ensures
        judge_all(name, Seq::empty(), filed).len() == 0,
        (forall|i: int| 0 <= i < filed.len() ==> (#[trigger] filed[i]).title != title) ==> judge_all(
            name,
            candidates.push(title),
            filed,
        ) == judge_all(name, candidates, filed),
        (exists|i: int| 0 <= i < filed.len() && (#[trigger] filed[i]).title == title) ==> {
            let judged = judge_all(name, candidates.push(title), filed);
            &&& judged.len() == judge_all(name, candidates, filed).len() + 1
            &&& judged.drop_last() == judge_all(name, candidates, filed)
            &&& judged.last().2 == title
            &&& forall|i: int|
                0 <= i < filed.len() && (#[trigger] filed[i]).title == title ==> judged.last().0
                    >= likeness(name, words_spelled(filed[i].spelled))
            &&& exists|i: int|
                0 <= i < filed.len() && (#[trigger] filed[i]).title == title && judged.last().0
                    == likeness(name, words_spelled(filed[i].spelled)) && judged.last().1
                    == words_spelled(filed[i].spelled).len()
        },
{
    let spellings = ordered(spellings_filed(filed, title));
    assert(candidates.push(title).drop_last() =~= candidates);
    assert(candidates.push(title).last() == title);
    lemma_spellings_are_those_filed(filed, title);
    crate::recognise::order::law_any_list_has_an_order(spellings_filed(filed, title));
    law_an_entry_is_judged_by_its_best_spelling(name, spellings);
    if forall|i: int| 0 <= i < filed.len() ==> (#[trigger] filed[i]).title != title {
        let list = spellings_filed(filed, title);
        if list.len() > 0 {
            assert(list.contains(list[0]));
        }
    }
    if exists|i: int| 0 <= i < filed.len() && (#[trigger] filed[i]).title == title {
        let i = choose|i: int| 0 <= i < filed.len() && (#[trigger] filed[i]).title == title;
        assert(spellings_filed(filed, title).contains(filed[i].spelled));
        assert(spellings.contains(filed[i].spelled));
        let judged = judge_all(name, candidates.push(title), filed);
        assert(judged.drop_last() =~= judge_all(name, candidates, filed));
        assert forall|i: int|
            0 <= i < filed.len() && (#[trigger] filed[i]).title == title implies judged.last().0
            >= likeness(name, words_spelled(filed[i].spelled)) by {
            assert(spellings_filed(filed, title).contains(filed[i].spelled));
            assert(spellings.contains(filed[i].spelled));
            let k = choose|k: int| 0 <= k < spellings.len() && spellings[k] == filed[i].spelled;
            assert(judged.last().0 >= likeness(name, words_spelled(spellings[k])));
        }
        let best = closest(name, spellings)->0;
        let k = choose|k: int|
            0 <= k < spellings.len() && best.0 == likeness(
                name,
                words_spelled(#[trigger] spellings[k]),
            ) && best.1 == words_spelled(spellings[k]).len();
        assert(spellings.contains(spellings[k]));
        assert(spellings_filed(filed, title).contains(spellings[k]));
        let j = choose|j: int|
            0 <= j < filed.len() && (#[trigger] filed[j]).title == title && filed[j].spelled
                == spellings[k];
        assert(judged.last().0 == likeness(name, words_spelled(filed[j].spelled)));
    }
}

/// The spellings of an entry are those filed under its title.
proof fn lemma_spellings_are_those_filed(filed: Seq<FiledView>, title: Seq<char>)
    ensures
        forall|spelled: Seq<char>| #[trigger]
            spellings_filed(filed, title).contains(spelled) <==> exists|i: int|
                0 <= i < filed.len() && (#[trigger] filed[i]).title == title && filed[i].spelled
                    == spelled,
    decreases filed.len(),
{
    if filed.len() > 0 {
        let shorter = filed.drop_last();
        let earlier = spellings_filed(shorter, title);
        let now = spellings_filed(filed, title);
        let last = filed.len() - 1;
        lemma_spellings_are_those_filed(shorter, title);
        assert forall|spelled: Seq<char>| #[trigger] now.contains(spelled) <==> exists|i: int|
            0 <= i < filed.len() && (#[trigger] filed[i]).title == title && filed[i].spelled
                == spelled by {
            if now.contains(spelled) {
                let k = choose|k: int| 0 <= k < now.len() && now[k] == spelled;
                if k < earlier.len() {
                    assert(earlier[k] == spelled);
                    assert(earlier.contains(spelled));
                    let i = choose|i: int|
                        0 <= i < shorter.len() && (#[trigger] shorter[i]).title == title
                            && shorter[i].spelled == spelled;
                    assert(filed[i] == shorter[i]);
                } else {
                    assert(filed[last].title == title && filed[last].spelled == spelled);
                }
            }
            if exists|i: int|
                0 <= i < filed.len() && (#[trigger] filed[i]).title == title && filed[i].spelled
                    == spelled {
                let i = choose|i: int|
                    0 <= i < filed.len() && (#[trigger] filed[i]).title == title
                        && filed[i].spelled == spelled;
                if i < last {
                    assert(shorter[i] == filed[i]);
                    assert(earlier.contains(spelled));
                    let k = choose|k: int| 0 <= k < earlier.len() && earlier[k] == spelled;
                    assert(now[k] == spelled);
                } else {
                    assert(now[now.len() - 1] == spelled);
                }
            }
        }
    }
}

/// How far one entry has to be ahead of every other, in the smallest steps of a
/// double: a fifth where its spelling or the name has fewer than three words,
/// and a tenth elsewhere.
pub open spec fn lead_owed(entry: JudgedView, name_words: nat) -> nat {
    if entry.1 < 3 || name_words < 3 {
        magnitude(0x3fc9_9999_9999_999a)
    } else {
        magnitude(0x3fb9_9999_9999_999a)
    }
}

/// Whether one of the entries judged stands out: it scored seven tenths or more,
/// and is ahead of every other and of nought by what it owes.
pub open spec fn stands_out(name_words: nat, judged: Seq<JudgedView>, i: int) -> bool {
    &&& 0 <= i < judged.len()
    &&& judged[i].0 >= 0x3fe6_6666_6666_6666
    &&& magnitude(judged[i].0 as u64) >= lead_owed(judged[i], name_words)
    &&& forall|j: int|
        0 <= j < judged.len() && j != i ==> magnitude(judged[i].0 as u64) - magnitude(
            (#[trigger] judged[j]).0 as u64,
        ) >= lead_owed(judged[i], name_words)
}

proof fn lemma_leads_are_something()
    ensures
        magnitude(0x3fc9_9999_9999_999a) > 0,
        magnitude(0x3fb9_9999_9999_999a) > 0,
        magnitude(0) == 0,
{
    let e = 0x3fc9_9999_9999_999au64 / FRACTIONS;
    let f = 0x3fb9_9999_9999_999au64 / FRACTIONS;
    vstd::arithmetic::power2::lemma_pow2_pos((e - 1) as nat);
    vstd::arithmetic::power2::lemma_pow2_pos((f - 1) as nat);
    let a = FRACTIONS + 0x3fc9_9999_9999_999au64 % FRACTIONS;
    let b = FRACTIONS + 0x3fb9_9999_9999_999au64 % FRACTIONS;
    let x = vstd::arithmetic::power2::pow2((e - 1) as nat);
    let y = vstd::arithmetic::power2::pow2((f - 1) as nat);
    assert(a * x > 0) by (nonlinear_arith)
        requires
            a > 0,
            x > 0,
    ;
    assert(b * y > 0) by (nonlinear_arith)
        requires
            b > 0,
            y > 0,
    ;
}

/// An entry is answered exactly where it stands out from all the others, with
/// its own title and score and the episode the name spelled. Where none stands
/// out nothing is answered, and the refusal carries the highest score there was
/// and the title the name spelled.
pub proof fn law_who_stands_out_is_answered(
    name_words: nat,
    judged: Seq<JudgedView>,
    parsed: ParsedView,
    i: int,
)
    requires
        forall|k: int| 0 <= k < judged.len() ==> 0 <= (#[trigger] judged[k]).0 <= ONE,
    ensures
        stands_out(name_words, judged, i) ==> standing_out(name_words, judged, parsed)
            == RecognitionView::Recognised(
            MatchView {
                title: judged[i].2,
                episode: parsed.episode,
                stage: StageView::Scored(judged[i].0),
            },
        ),
        (forall|k: int| !#[trigger] stands_out(name_words, judged, k)) ==> {
            &&& standing_out(name_words, judged, parsed) matches RecognitionView::Unrecognised(
                refused,
            )
            &&& refused.parsed == (match parsed.title {
                Some(title) => title,
                None => Seq::<char>::empty(),
            })
            &&& judged.len() == 0 ==> refused.best is None
            &&& judged.len() > 0 ==> (match refused.best {
                Some(best) => (forall|k: int|
                    0 <= k < judged.len() ==> (#[trigger] judged[k]).0 <= best) && (exists|k: int|
                    0 <= k < judged.len() && (#[trigger] judged[k]).0 == best),
                None => false,
            })
        },
{
    lemma_leads_are_something();
    if judged.len() > 0 {
        let at = best_place(judged);
        let next = highest_but(judged, at, judged.len() as int);
        lemma_the_best_is_highest(judged);
        lemma_the_next_is_no_higher(judged, at, judged.len() as int, judged[at].0);
        lemma_the_next_is_held(judged, at, judged.len() as int);
        assert forall|j: int| 0 <= j < judged.len() && j != at implies magnitude(
            (#[trigger] judged[j]).0 as u64,
        ) <= magnitude(next as u64) by {
            lemma_highest_is_no_lower(judged, at, judged.len() as int, j);
            lemma_magnitude_is_monotone(judged[j].0 as u64, next as u64);
        }
        if stands_out(name_words, judged, i) {
            if i != at {
                lemma_magnitude_is_monotone(judged[i].0 as u64, judged[at].0 as u64);
                assert(magnitude(judged[i].0 as u64) - magnitude(judged[at].0 as u64) >= lead_owed(
                    judged[i],
                    name_words,
                ));
            }
            if next != 0 {
                let j = choose|j: int|
                    0 <= j < judged.len() && j != at && (#[trigger] judged[j]).0 == next;
                assert(magnitude(judged[at].0 as u64) - magnitude(judged[j].0 as u64) >= lead_owed(
                    judged[at],
                    name_words,
                ));
            }
        }
        if forall|k: int| !#[trigger] stands_out(name_words, judged, k) {
            assert(!stands_out(name_words, judged, at));
            if !(judged[at].0 < NEAR_ENOUGH || leads_by_less_than(
                judged[at].0 as u64,
                next as u64,
                lead_wanted(judged[at].1, name_words),
            )) {
                assert forall|j: int| 0 <= j < judged.len() && j != at implies magnitude(
                    judged[at].0 as u64,
                ) - magnitude((#[trigger] judged[j]).0 as u64) >= lead_owed(
                    judged[at],
                    name_words,
                ) by {
                    assert(magnitude(judged[j].0 as u64) <= magnitude(next as u64));
                }
                assert(stands_out(name_words, judged, at));
            }
        }
    }
}

proof fn lemma_the_next_is_held(judged: Seq<JudgedView>, but: int, n: int)
    requires
        0 <= n <= judged.len(),
        forall|k: int| 0 <= k < judged.len() ==> 0 <= (#[trigger] judged[k]).0,
    ensures
        highest_but(judged, but, n) == 0 || exists|j: int|
            0 <= j < n && j != but && (#[trigger] judged[j]).0 == highest_but(judged, but, n),
    decreases n,
{
    if n > 0 {
        lemma_the_next_is_held(judged, but, n - 1);
        assert(judged[n - 1].0 >= 0);
    }
}

/// One spelling more is the one that counts where it comes as close as the best
/// before it or closer, and changes nothing where it does not.
pub proof fn law_a_later_spelling_wins_a_tie(
    name: Seq<Seq<char>>,
    spellings: Seq<Seq<char>>,
    spelling: Seq<char>,
)
    ensures
        ({
            let words = words_spelled(spelling);
            let score = likeness(name, words);
            match closest(name, spellings) {
                Some(best) if score < best.0 => closest(name, spellings.push(spelling)) == Some(
                    best,
                ),
                _ => closest(name, spellings.push(spelling)) == Some((score, words.len())),
            }
        }),
{
    assert(spellings.push(spelling).drop_last() =~= spellings);
}

/// How alike two lists are is the double nearest to twice the words they share
/// against the words of the one and the words of the other, each counted once.
pub proof fn law_a_shared_word_counts_for_both(name: Seq<Seq<char>>, spelling: Seq<Seq<char>>)
    requires
        name.len() > 0 || spelling.len() > 0,
    ensures
        ({
            let one = name.to_set();
            let other = spelling.to_set();
            likeness(name, spelling) == nearest_double(
                2 * one.intersect(other).len(),
                one.len() + other.len(),
            )
        }),
{
    vstd::seq_lib::seq_to_set_is_finite(name);
    vstd::seq_lib::seq_to_set_is_finite(spelling);
    if name.len() > 0 {
        assert(name.to_set().contains(name[0]));
        if name.to_set().len() == 0 {
            name.to_set().lemma_len0_is_empty();
        }
    }
    if spelling.len() > 0 {
        assert(spelling.to_set().contains(spelling[0]));
        if spelling.to_set().len() == 0 {
            spelling.to_set().lemma_len0_is_empty();
        }
    }
}

/// The whole name is scored and not its title alone: two readings of one name
/// that differ in the title come equally close to every candidate.
pub proof fn law_the_whole_name_is_scored(
    one: ParsedView,
    other: ParsedView,
    candidates: Seq<Seq<char>>,
    filed: Seq<FiledView>,
)
    requires
        one.text == other.text,
        one.episode == other.episode,
    ensures
        match (scored(one, candidates, filed), scored(other, candidates, filed)) {
            (RecognitionView::Recognised(found), RecognitionView::Recognised(also)) => found
                == also,
            (RecognitionView::Unrecognised(refused), RecognitionView::Unrecognised(also)) =>
                refused.best == also.best,
            _ => false,
        },
{
}

} // verus!
