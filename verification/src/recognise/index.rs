//! The entries a name's words reach, for a stage that decides nothing.
//!
//! The third stage narrows the corpus to a handful and hands them to the scorer.
//! It answers no name by itself: the claim it makes is that the right entry is
//! among the few it returns, and the scorer is what picks one.
//!
//! **It is what a name that misses the exact key still reaches.** A key hits or
//! misses whole, so a name the parser shortened, a name carrying a subtitle the
//! list does not spell, and a name spelled a way the list does not carry all
//! miss it. Their words do not miss.
//!
//! **The words are read by the key's own rules** through
//! [`words_in`](super::normalise::words_in), so everything a key forgives is
//! gone from them as well and this stage repeats none of it.
//!
//! **A word that too many entries carry narrows nothing and is dropped.** The
//! crowded words are the joins of Japanese and English titles rather than
//! names: in a list of five thousand entries, `no` is carried by 1542 and `the`
//! by 1616, so searching by either answers a third of the list.
//!
//! **A candidate shares two of the name's words**, or the only word there was.
//! One is not enough, because a word that narrows can still reach as many
//! entries as [`CROWDED`] allows.

use vstd::prelude::*;

use crate::recognise::corpus::Corpus;
#[allow(unused_imports)]
use crate::recognise::corpus::{filed_views, FiledView};
use crate::recognise::normalise::words_in;
#[allow(unused_imports)]
use crate::recognise::normalise::words_spelled;
use crate::recognise::order::insert_in_order;
#[allow(unused_imports)]
use crate::recognise::order::{in_order, lemma_that_is_the_order, ordered};
use crate::text::same;
#[allow(unused_imports)]
use crate::text::{str_texts, texts};

verus! {

/// A word narrows nothing once more than one entry in this many carries it.
///
/// A share rather than a count, because the list is the user's and its size is
/// not known here: what makes a word useless is the part of the list it
/// answers, and one count is a different part of every list.
pub const CROWDED: usize = 200;

/// How many of a name's words a candidate carries, where the name has that
/// many words that narrow anything.
///
/// One is not enough. A word narrows while no more than one entry in
/// [`CROWDED`] carries it, so a candidate set built on one shared word is the
/// union of what the name's words reach.
pub const SHARED: usize = 2;

/// One word, and the entries that carry it.
#[derive(Debug)]
struct Reach {
    word: String,
    entries: Vec<usize>,
}

/// The entries each word reaches.
#[derive(Debug)]
pub struct Index {
    /// Every entry, once.
    entries: Vec<String>,
    /// Which entries a word reaches, by their place in `entries`.
    reached: Vec<Reach>,
}

/// The entries each word reaches, as contracts speak of it.
#[verifier::ext_equal]
pub struct IndexView {
    /// Every entry, by title.
    pub entries: Seq<Seq<char>>,
    /// Every word, and the places of the entries that carry it.
    pub reached: Seq<(Seq<char>, Seq<int>)>,
}

/// Numbers of a machine, as whole numbers.
pub open spec fn whole(numbers: Seq<usize>) -> Seq<int> {
    numbers.map_values(|number: usize| number as int)
}

spec fn reach_views(reached: Seq<Reach>) -> Seq<(Seq<char>, Seq<int>)> {
    reached.map_values(|reach: Reach| (reach.word@, whole(reach.entries@)))
}

impl View for Index {
    type V = IndexView;

    closed spec fn view(&self) -> IndexView {
        IndexView { entries: texts(self.entries@), reached: reach_views(self.reached@) }
    }
}

/// Whether a word is said to reach an entry.
pub open spec fn places(reached: Seq<(Seq<char>, Seq<int>)>, word: Seq<char>, entry: int) -> bool {
    exists|k: int|
        0 <= k < reached.len() && (#[trigger] reached[k]).0 == word && reached[k].1.contains(entry)
}

/// Whether one of the first spellings filed for a title has a word in it.
pub open spec fn spells(filed: Seq<FiledView>, n: int, title: Seq<char>, word: Seq<char>) -> bool {
    exists|i: int|
        0 <= i < n && (#[trigger] filed[i]).title == title && words_spelled(
            filed[i].spelled,
        ).contains(word)
}

/// Every word once, and under it every entry that carries it once.
pub open spec fn tidy(reached: Seq<(Seq<char>, Seq<int>)>, entries: int) -> bool {
    &&& forall|j: int, k: int|
        0 <= j < k < reached.len() ==> (#[trigger] reached[j]).0 != (#[trigger] reached[k]).0
    &&& forall|k: int|
        0 <= k < reached.len() ==> {
            &&& (#[trigger] reached[k]).1.no_duplicates()
            &&& reached[k].1.len() > 0
            &&& forall|i: int| 0 <= i < reached[k].1.len() ==> 0 <= #[trigger] reached[k].1[i]
                < entries
        }
}

/// Whether an index is the index of a corpus: it holds every entry once, and a
/// word reaches an entry exactly where one of the entry's spellings has it.
pub open spec fn is_index_of(index: IndexView, filed: Seq<FiledView>) -> bool {
    &&& index.entries.no_duplicates()
    &&& tidy(index.reached, index.entries.len() as int)
    &&& forall|title: Seq<char>| #[trigger]
        index.entries.contains(title) <==> exists|i: int|
            0 <= i < filed.len() && (#[trigger] filed[i]).title == title
    &&& forall|e: int, word: Seq<char>|
        0 <= e < index.entries.len() ==> (#[trigger] places(index.reached, word, e) <==> spells(
            filed,
            filed.len() as int,
            index.entries[e],
            word,
        ))
}

/// Where a text stands in a list of texts, or the length of the list.
fn find(list: &Vec<String>, text: &str) -> (at: usize)
    ensures
        at <= list@.len(),
        at < list@.len() ==> texts(list@)[at as int] == text@,
        at == list@.len() ==> !texts(list@).contains(text@),
{
    let mut at: usize = 0;
    while at < list.len()
        invariant
            at <= list@.len(),
            forall|j: int| 0 <= j < at ==> #[trigger] texts(list@)[j] != text@,
        decreases list@.len() - at,
    {
        if same(list[at].as_str(), text) {
            return at;
        }
        at += 1;
    }
    at
}

/// Whether some numbers hold one.
fn holds(numbers: &Vec<usize>, number: usize) -> (answer: bool)
    ensures
        answer == whole(numbers@).contains(number as int),
{
    let mut i: usize = 0;
    while i < numbers.len()
        invariant
            i <= numbers@.len(),
            forall|j: int| 0 <= j < i ==> #[trigger] whole(numbers@)[j] != number,
        decreases numbers@.len() - i,
    {
        if numbers[i] == number {
            assert(whole(numbers@)[i as int] == number);
            return true;
        }
        i += 1;
    }
    false
}

/// Where a word stands among those that reach anything, or their number.
fn find_word(reached: &Vec<Reach>, word: &str) -> (at: usize)
    ensures
        at <= reached@.len(),
        at < reached@.len() ==> reach_views(reached@)[at as int].0 == word@,
        at == reached@.len() ==> forall|k: int|
            0 <= k < reached@.len() ==> (#[trigger] reach_views(reached@)[k]).0 != word@,
{
    let mut at: usize = 0;
    while at < reached.len()
        invariant
            at <= reached@.len(),
            forall|j: int| 0 <= j < at ==> (#[trigger] reach_views(reached@)[j]).0 != word@,
        decreases reached@.len() - at,
    {
        if same(reached[at].word.as_str(), word) {
            return at;
        }
        at += 1;
    }
    at
}

/// Say that a word reaches an entry.
fn reach(reached: &mut Vec<Reach>, word: String, entry: usize, entries: usize)
    requires
        tidy(reach_views(old(reached)@), entries as int),
        entry < entries,
    ensures
        tidy(reach_views(final(reached)@), entries as int),
        forall|w: Seq<char>, e: int| #[trigger]
            places(reach_views(final(reached)@), w, e) <==> places(
                reach_views(old(reached)@),
                w,
                e,
            ) || (w == word@ && e == entry),
{
    let ghost before = reach_views(reached@);
    let ghost spelled = word@;
    let at = find_word(reached, word.as_str());
    if at < reached.len() {
        assert(before[at as int] == (
            reached@[at as int].word@,
            whole(reached@[at as int].entries@),
        ));
        if holds(&reached[at].entries, entry) {
            assert(places(before, spelled, entry as int));
        } else {
            let ghost listed = whole(reached@[at as int].entries@);
            let mut entries_now: Vec<usize> = Vec::new();
            std::mem::swap(&mut entries_now, &mut reached[at].entries);
            entries_now.push(entry);
            assert(whole(entries_now@) =~= listed.push(entry as int));
            reached[at].entries = entries_now;
            proof {
                let after = reach_views(reached@);
                assert(after =~= before.update(at as int, (spelled, listed.push(entry as int))));
                lemma_one_more_place(before, after, at as int, entry as int, entries as int);
            }
        }
    } else {
        let mut list: Vec<usize> = Vec::new();
        list.push(entry);
        assert(whole(list@) =~= seq![entry as int]);
        reached.push(Reach { word, entries: list });
        proof {
            let after = reach_views(reached@);
            assert(after =~= before.push((spelled, seq![entry as int])));
            lemma_one_more_word(before, after, spelled, entry as int, entries as int);
        }
    }
}

proof fn lemma_one_more_place(
    before: Seq<(Seq<char>, Seq<int>)>,
    after: Seq<(Seq<char>, Seq<int>)>,
    at: int,
    entry: int,
    entries: int,
)
    requires
        tidy(before, entries),
        0 <= at < before.len(),
        0 <= entry < entries,
        !before[at].1.contains(entry),
        after == before.update(at, (before[at].0, before[at].1.push(entry))),
    ensures
        tidy(after, entries),
        forall|w: Seq<char>, e: int| #[trigger]
            places(after, w, e) <==> places(before, w, e) || (w == before[at].0 && e == entry),
{
    let word = before[at].0;
    assert forall|w: Seq<char>, e: int| #[trigger] places(after, w, e) <==> places(before, w, e)
        || (w == word && e == entry) by {
        if places(after, w, e) {
            let k = choose|k: int|
                0 <= k < after.len() && (#[trigger] after[k]).0 == w && after[k].1.contains(e);
            assert(before[k].0 == w);
            if k == at {
                if e != entry {
                    let i = choose|i: int| 0 <= i < after[at].1.len() && after[at].1[i] == e;
                    assert(before[at].1[i] == e);
                    assert(before[at].1.contains(e));
                }
            }
        }
        if places(before, w, e) {
            let k = choose|k: int|
                0 <= k < before.len() && (#[trigger] before[k]).0 == w && before[k].1.contains(e);
            assert(after[k].0 == w);
            if k == at {
                let i = choose|i: int| 0 <= i < before[at].1.len() && before[at].1[i] == e;
                assert(after[at].1[i] == e);
            }
        }
        if w == word && e == entry {
            assert(after[at].1.last() == entry);
            assert(after[at].0 == w && after[at].1.contains(e));
        }
    }
    assert forall|k: int| 0 <= k < after.len() implies {
        &&& (#[trigger] after[k]).1.no_duplicates()
        &&& after[k].1.len() > 0
        &&& forall|i: int| 0 <= i < after[k].1.len() ==> 0 <= #[trigger] after[k].1[i] < entries
    } by {
        assert(before[k].1.no_duplicates());
    }
    assert forall|j: int, k: int| 0 <= j < k < after.len() implies (#[trigger] after[j]).0 != (
    #[trigger] after[k]).0 by {
        assert(before[j].0 != before[k].0);
    }
}

proof fn lemma_one_more_word(
    before: Seq<(Seq<char>, Seq<int>)>,
    after: Seq<(Seq<char>, Seq<int>)>,
    word: Seq<char>,
    entry: int,
    entries: int,
)
    requires
        tidy(before, entries),
        0 <= entry < entries,
        forall|k: int| 0 <= k < before.len() ==> (#[trigger] before[k]).0 != word,
        after == before.push((word, seq![entry])),
    ensures
        tidy(after, entries),
        forall|w: Seq<char>, e: int| #[trigger]
            places(after, w, e) <==> places(before, w, e) || (w == word && e == entry),
{
    let at = before.len() as int;
    assert forall|w: Seq<char>, e: int| #[trigger] places(after, w, e) <==> places(before, w, e)
        || (w == word && e == entry) by {
        if places(after, w, e) {
            let k = choose|k: int|
                0 <= k < after.len() && (#[trigger] after[k]).0 == w && after[k].1.contains(e);
            if k < at {
                assert(before[k] == after[k]);
            }
        }
        if places(before, w, e) {
            let k = choose|k: int|
                0 <= k < before.len() && (#[trigger] before[k]).0 == w && before[k].1.contains(e);
            assert(after[k] == before[k]);
        }
        if w == word && e == entry {
            assert(after[at].1[0] == entry);
            assert(after[at].0 == w && after[at].1.contains(e));
        }
    }
    assert forall|k: int| 0 <= k < after.len() implies {
        &&& (#[trigger] after[k]).1.no_duplicates()
        &&& after[k].1.len() > 0
        &&& forall|i: int| 0 <= i < after[k].1.len() ==> 0 <= #[trigger] after[k].1[i] < entries
    } by {
        if k < at {
            assert(before[k].1.no_duplicates());
        }
    }
    assert forall|j: int, k: int| 0 <= j < k < after.len() implies (#[trigger] after[j]).0 != (
    #[trigger] after[k]).0 by {
        assert(before[j].0 != word);
    }
}

// What a name reaches.

/// The entries a word reaches, by their places.
pub open spec fn reached_by(reached: Seq<(Seq<char>, Seq<int>)>, word: Seq<char>) -> Seq<int>
    decreases reached.len(),
{
    if reached.len() == 0 {
        Seq::empty()
    } else if reached.last().0 == word {
        reached.last().1
    } else {
        reached_by(reached.drop_last(), word)
    }
}

/// The entries reached by each word that is known at all, in the order of the
/// words.
pub open spec fn known(
    reached: Seq<(Seq<char>, Seq<int>)>,
    words: Seq<Seq<char>>,
) -> Seq<Seq<int>>
    decreases words.len(),
{
    if words.len() == 0 {
        Seq::empty()
    } else {
        let earlier = known(reached, words.drop_last());
        let entries = reached_by(reached, words.last());
        if entries.len() > 0 {
            earlier.push(entries)
        } else {
            earlier
        }
    }
}

/// Those of some lists that are no longer than a number.
pub open spec fn no_longer(lists: Seq<Seq<int>>, most: nat) -> Seq<Seq<int>>
    decreases lists.len(),
{
    if lists.len() == 0 {
        Seq::empty()
    } else if lists.last().len() <= most {
        no_longer(lists.drop_last(), most).push(lists.last())
    } else {
        no_longer(lists.drop_last(), most)
    }
}

/// The length of the shortest of some lists, where there is one.
pub open spec fn shortest(lists: Seq<Seq<int>>) -> nat
    decreases lists.len(),
{
    if lists.len() == 0 {
        0
    } else if lists.len() == 1 || lists.last().len() <= shortest(lists.drop_last()) {
        lists.last().len()
    } else {
        shortest(lists.drop_last())
    }
}

/// How many entries a word may reach and still narrow anything.
pub open spec fn ceiling(entries: nat) -> nat {
    if entries / (CROWDED as nat) > 1 {
        entries / (CROWDED as nat)
    } else {
        1
    }
}

/// The entries reached by each word that narrows anything.
///
/// Where every word the corpus knows is crowded, the least crowded of them are
/// used anyway: they narrow badly, and dropping them would lose the name
/// altogether.
pub open spec fn narrowing(index: IndexView, words: Seq<Seq<char>>) -> Seq<Seq<int>> {
    let all = known(index.reached, words);
    let uncrowded = no_longer(all, ceiling(index.entries.len()));
    if uncrowded.len() > 0 {
        uncrowded
    } else {
        no_longer(all, shortest(all))
    }
}

/// How many of the words asked about an entry carries.
pub open spec fn carried(asked: Seq<Seq<int>>, entry: int) -> nat
    decreases asked.len(),
{
    if asked.len() == 0 {
        0
    } else {
        carried(asked.drop_last(), entry) + if asked.last().contains(entry) {
            1nat
        } else {
            0nat
        }
    }
}

/// Whether an entry carries enough of the words asked about: two of them, or
/// the only one there was.
pub open spec fn shares_enough(asked: Seq<Seq<int>>, entry: int) -> bool {
    carried(asked, entry) >= 1 && (carried(asked, entry) >= SHARED || carried(asked, entry)
        >= asked.len())
}

/// The first entries that carry enough of the words asked about.
pub open spec fn picked(
    entries: Seq<Seq<char>>,
    asked: Seq<Seq<int>>,
    n: int,
) -> Seq<Seq<char>>
    decreases n,
{
    if n <= 0 {
        Seq::empty()
    } else if shares_enough(asked, n - 1) {
        picked(entries, asked, n - 1).push(entries[n - 1])
    } else {
        picked(entries, asked, n - 1)
    }
}

/// The entries some words reach, by title and in one order.
pub open spec fn reached_titles(index: IndexView, words: Seq<Seq<char>>) -> Seq<Seq<char>> {
    ordered(picked(index.entries, narrowing(index, words), index.entries.len() as int))
}

/// The lists at some places.
spec fn lists_at(reached: Seq<(Seq<char>, Seq<int>)>, at: Seq<usize>) -> Seq<Seq<int>> {
    at.map_values(|k: usize| reached[k as int].1)
}

/// A word stands in one place, and what it reaches is what stands there.
proof fn lemma_reached_by_is_what_stands_there(
    reached: Seq<(Seq<char>, Seq<int>)>,
    entries: int,
    word: Seq<char>,
    k: int,
)
    requires
        tidy(reached, entries),
        0 <= k < reached.len(),
        reached[k].0 == word,
    ensures
        reached_by(reached, word) == reached[k].1,
    decreases reached.len(),
{
    if k < reached.len() - 1 {
        let shorter = reached.drop_last();
        assert(reached[k].0 != reached[reached.len() - 1].0);
        assert(tidy(shorter, entries)) by {
            assert(forall|i: int| 0 <= i < shorter.len() ==> shorter[i] == reached[i]);
        }
        lemma_reached_by_is_what_stands_there(shorter, entries, word, k);
    }
}

/// A word that stands nowhere reaches nothing.
proof fn lemma_an_unknown_word_reaches_nothing(
    reached: Seq<(Seq<char>, Seq<int>)>,
    word: Seq<char>,
)
    requires
        forall|k: int| 0 <= k < reached.len() ==> (#[trigger] reached[k]).0 != word,
    ensures
        reached_by(reached, word).len() == 0,
    decreases reached.len(),
{
    if reached.len() > 0 {
        assert(reached[reached.len() - 1].0 != word);
        lemma_an_unknown_word_reaches_nothing(reached.drop_last(), word);
    }
}

impl Index {
    #[verifier::type_invariant]
    spec fn is_tidy(self) -> bool {
        tidy(reach_views(self.reached@), self.entries@.len() as int)
    }

    /// The index of a corpus, built from the same spellings it files.
    ///
    /// Built from the corpus rather than beside it, so that the two stages
    /// cannot be given different lists.
    pub fn of(corpus: &Corpus) -> (index: Self)
        ensures
            is_index_of(index@, corpus@),
    {
        let filed = corpus.filed();
        let ghost all = corpus@;
        let mut entries: Vec<String> = Vec::new();
        let mut reached: Vec<Reach> = Vec::new();
        let mut i: usize = 0;
        while i < filed.len()
            invariant
                i <= filed@.len(),
                all == filed_views(filed@),
                texts(entries@).no_duplicates(),
                tidy(reach_views(reached@), entries@.len() as int),
                forall|title: Seq<char>| #[trigger]
                    texts(entries@).contains(title) <==> exists|k: int|
                        0 <= k < i && (#[trigger] all[k]).title == title,
                forall|e: int, word: Seq<char>|
                    0 <= e < entries@.len() ==> (#[trigger] places(
                        reach_views(reached@),
                        word,
                        e,
                    ) <==> spells(all, i as int, texts(entries@)[e], word)),
            decreases filed@.len() - i,
        {
            let one = &filed[i];
            assert(all[i as int] == one@);
            let ghost titles = texts(entries@);
            let ghost reaches = reach_views(reached@);
            let entry = find(&entries, one.title());
            if entry == entries.len() {
                entries.push(one.title().to_owned());
                proof {
                    let now = texts(entries@);
                    assert(now =~= titles.push(one@.title));
                    assert(tidy(reaches, now.len() as int));
                    assert forall|e: int, word: Seq<char>| 0 <= e < now.len() implies (
                    #[trigger] places(reaches, word, e) <==> spells(
                        all,
                        i as int,
                        now[e],
                        word,
                    )) by {
                        if e == titles.len() {
                            lemma_nothing_reaches_beyond(reaches, e, word);
                            if spells(all, i as int, now[e], word) {
                                let k = choose|k: int|
                                    0 <= k < i && (#[trigger] all[k]).title == now[e]
                                        && words_spelled(all[k].spelled).contains(word);
                                assert(titles.contains(now[e]));
                            }
                        } else {
                            assert(now[e] == titles[e]);
                        }
                    }
                }
            }
            let ghost now = texts(entries@);
            assert(now[entry as int] == one@.title);
            let words = words_in(one.spelled());
            let ghost spelled = texts(words@);
            let mut j: usize = 0;
            while j < words.len()
                invariant
                    j <= words@.len(),
                    spelled == texts(words@),
                    entry < entries@.len(),
                    now == texts(entries@),
                    tidy(reach_views(reached@), entries@.len() as int),
                    forall|e: int, word: Seq<char>|
                        0 <= e < entries@.len() ==> (#[trigger] places(
                            reach_views(reached@),
                            word,
                            e,
                        ) <==> spells(all, i as int, now[e], word) || (e == entry
                            && spelled.take(j as int).contains(word))),
                decreases words@.len() - j,
            {
                assert(spelled[j as int] == words@[j as int]@);
                let ghost before = reach_views(reached@);
                reach(&mut reached, words[j].clone(), entry, entries.len());
                proof {
                    assert forall|e: int, word: Seq<char>| 0 <= e < entries@.len() implies (
                    #[trigger] places(reach_views(reached@), word, e) <==> spells(
                        all,
                        i as int,
                        now[e],
                        word,
                    ) || (e == entry && spelled.take(j + 1).contains(word))) by {
                        assert(places(before, word, e) <==> spells(all, i as int, now[e], word)
                            || (e == entry && spelled.take(j as int).contains(word)));
                        lemma_one_more_is_held(spelled, j as int, word);
                    }
                }
                j += 1;
            }
            proof {
                assert(spelled.take(j as int) =~= spelled);
                assert(spelled == words_spelled(one@.spelled));
                assert forall|e: int, word: Seq<char>| 0 <= e < entries@.len() implies (
                #[trigger] places(reach_views(reached@), word, e) <==> spells(
                    all,
                    i + 1,
                    now[e],
                    word,
                )) by {
                    lemma_spelled_by_one_more(all, i as int, now[e], word);
                    if e != entry && now[e] == one@.title {
                        assert(now[e] == now[entry as int]);
                    }
                }
                assert forall|title: Seq<char>| #[trigger]
                    now.contains(title) <==> exists|k: int|
                        0 <= k < i + 1 && (#[trigger] all[k]).title == title by {
                    if now.contains(title) {
                        if title == one@.title {
                            assert(all[i as int].title == title);
                        } else {
                            let e = choose|e: int| 0 <= e < now.len() && now[e] == title;
                            assert(titles[e] == title);
                            assert(titles.contains(title));
                        }
                    }
                    if exists|k: int| 0 <= k < i + 1 && (#[trigger] all[k]).title == title {
                        let k = choose|k: int|
                            0 <= k < i + 1 && (#[trigger] all[k]).title == title;
                        if k == i {
                            assert(now[entry as int] == title);
                        } else {
                            assert(titles.contains(title));
                            let e = choose|e: int| 0 <= e < titles.len() && titles[e] == title;
                            assert(now[e] == title);
                        }
                    }
                }
            }
            i += 1;
        }
        Self { entries, reached }
    }

    /// The entries a name reaches, by title, in one order.
    ///
    /// Empty where the name spells no word the corpus knows, which is not a
    /// refusal: this stage decides nothing, and a name it cannot narrow is a
    /// name the scorer is not asked about.
    pub fn candidates(&self, spelled: &str) -> (found: Vec<&str>)
        ensures
            str_texts(found@) == reached_titles(self@, words_spelled(spelled@)),
    {
        self.reached_by_words(&words_in(spelled))
    }

    /// The entries some words reach, by title, in one order.
    pub fn reached_by_words(&self, words: &[String]) -> (found: Vec<&str>)
        ensures
            str_texts(found@) == reached_titles(self@, texts(words@)),
    {
        let asked = self.narrow(words);
        let ghost reached = reach_views(self.reached@);
        let ghost lists = lists_at(reached, asked@);
        let ghost titles = texts(self.entries@);
        let mut found: Vec<&str> = Vec::new();
        let mut e: usize = 0;
        assert(str_texts(found@) =~= picked(titles, lists, 0));
        while e < self.entries.len()
            invariant
                e <= self.entries@.len(),
                titles == texts(self.entries@),
                reached == reach_views(self.reached@),
                lists == lists_at(reached, asked@),
                forall|k: int|
                    0 <= k < asked@.len() ==> (#[trigger] asked@[k]) < self.reached@.len(),
                in_order(str_texts(found@)),
                str_texts(found@).to_multiset() == picked(titles, lists, e as int).to_multiset(),
            decreases self.entries@.len() - e,
        {
            broadcast use vstd::seq_lib::group_to_multiset_ensures;

            let count = self.count(&asked, e);
            assert(lists.len() == asked@.len());
            if count >= 1 && (count >= SHARED || count >= asked.len()) {
                insert_in_order(&mut found, self.entries[e].as_str());
            }
            e += 1;
        }
        proof {
            lemma_that_is_the_order(str_texts(found@), picked(titles, lists, e as int));
        }
        found
    }

    /// How many of the words at these places an entry carries.
    fn count(&self, asked: &Vec<usize>, entry: usize) -> (count: usize)
        requires
            forall|k: int| 0 <= k < asked@.len() ==> (#[trigger] asked@[k]) < self.reached@.len(),
        ensures
            count == carried(lists_at(reach_views(self.reached@), asked@), entry as int),
    {
        let ghost lists = lists_at(reach_views(self.reached@), asked@);
        let mut count: usize = 0;
        let mut k: usize = 0;
        assert(lists.take(0) =~= Seq::empty());
        while k < asked.len()
            invariant
                k <= asked@.len(),
                count <= k,
                lists == lists_at(reach_views(self.reached@), asked@),
                forall|k: int|
                    0 <= k < asked@.len() ==> (#[trigger] asked@[k]) < self.reached@.len(),
                count == carried(lists.take(k as int), entry as int),
            decreases asked@.len() - k,
        {
            assert(lists.take(k + 1).drop_last() =~= lists.take(k as int));
            assert(lists[k as int] == whole(self.reached@[asked@[k as int] as int].entries@));
            if holds(&self.reached[asked[k]].entries, entry) {
                count += 1;
            }
            k += 1;
        }
        assert(lists.take(k as int) =~= lists);
        count
    }

    /// The places of the words that narrow anything.
    fn narrow(&self, words: &[String]) -> (asked: Vec<usize>)
        ensures
            forall|k: int| 0 <= k < asked@.len() ==> (#[trigger] asked@[k]) < self.reached@.len(),
            lists_at(reach_views(self.reached@), asked@) == narrowing(self@, texts(words@)),
    {
        proof {
            use_type_invariant(self);
        }
        let ghost reached = reach_views(self.reached@);
        let ghost all = texts(words@);
        let mut found: Vec<usize> = Vec::new();
        let mut i: usize = 0;
        assert(all.take(0) =~= Seq::empty());
        assert(lists_at(reached, found@) =~= known(reached, all.take(0)));
        while i < words.len()
            invariant
                i <= words@.len(),
                all == texts(words@),
                reached == reach_views(self.reached@),
                tidy(reached, self.entries@.len() as int),
                forall|k: int|
                    0 <= k < found@.len() ==> (#[trigger] found@[k]) < self.reached@.len(),
                lists_at(reached, found@) == known(reached, all.take(i as int)),
            decreases words@.len() - i,
        {
            assert(all.take(i + 1).drop_last() =~= all.take(i as int));
            assert(all.take(i + 1).last() == words@[i as int]@);
            let at = find_word(&self.reached, words[i].as_str());
            if at < self.reached.len() {
                let ghost before = lists_at(reached, found@);
                proof {
                    lemma_reached_by_is_what_stands_there(
                        reached,
                        self.entries@.len() as int,
                        words@[i as int]@,
                        at as int,
                    );
                    assert(reached[at as int].1.len() > 0);
                }
                found.push(at);
                assert(lists_at(reached, found@) =~= before.push(reached[at as int].1));
            } else {
                proof {
                    lemma_an_unknown_word_reaches_nothing(reached, words@[i as int]@);
                }
            }
            i += 1;
        }
        assert(all.take(i as int) =~= all);
        let share = self.entries.len() / CROWDED;
        let most = if share > 1 { share } else { 1 };
        let uncrowded = self.up_to(&found, most);
        assert(lists_at(reached, uncrowded@).len() == uncrowded@.len());
        if uncrowded.len() > 0 {
            return uncrowded;
        }
        let least = self.least(&found);
        self.up_to(&found, least)
    }

    /// Those of some words that reach no more entries than a number.
    fn up_to(&self, asked: &Vec<usize>, most: usize) -> (kept: Vec<usize>)
        requires
            forall|k: int| 0 <= k < asked@.len() ==> (#[trigger] asked@[k]) < self.reached@.len(),
        ensures
            forall|k: int| 0 <= k < kept@.len() ==> (#[trigger] kept@[k]) < self.reached@.len(),
            lists_at(reach_views(self.reached@), kept@) == no_longer(
                lists_at(reach_views(self.reached@), asked@),
                most as nat,
            ),
    {
        let ghost reached = reach_views(self.reached@);
        let ghost lists = lists_at(reached, asked@);
        let mut kept: Vec<usize> = Vec::new();
        let mut k: usize = 0;
        assert(lists.take(0) =~= Seq::empty());
        assert(lists_at(reached, kept@) =~= no_longer(lists.take(0), most as nat));
        while k < asked.len()
            invariant
                k <= asked@.len(),
                reached == reach_views(self.reached@),
                lists == lists_at(reached, asked@),
                forall|k: int|
                    0 <= k < asked@.len() ==> (#[trigger] asked@[k]) < self.reached@.len(),
                forall|k: int|
                    0 <= k < kept@.len() ==> (#[trigger] kept@[k]) < self.reached@.len(),
                lists_at(reached, kept@) == no_longer(lists.take(k as int), most as nat),
            decreases asked@.len() - k,
        {
            assert(lists.take(k + 1).drop_last() =~= lists.take(k as int));
            assert(lists[k as int] == whole(self.reached@[asked@[k as int] as int].entries@));
            if self.reached[asked[k]].entries.len() <= most {
                let ghost before = lists_at(reached, kept@);
                kept.push(asked[k]);
                assert(lists_at(reached, kept@) =~= before.push(lists[k as int]));
            }
            k += 1;
        }
        assert(lists.take(k as int) =~= lists);
        kept
    }

    /// How many entries the least crowded of some words reaches.
    fn least(&self, asked: &Vec<usize>) -> (least: usize)
        requires
            forall|k: int| 0 <= k < asked@.len() ==> (#[trigger] asked@[k]) < self.reached@.len(),
        ensures
            least == shortest(lists_at(reach_views(self.reached@), asked@)),
    {
        let ghost lists = lists_at(reach_views(self.reached@), asked@);
        let mut least: usize = 0;
        let mut k: usize = 0;
        assert(lists.take(0) =~= Seq::empty());
        while k < asked.len()
            invariant
                k <= asked@.len(),
                lists == lists_at(reach_views(self.reached@), asked@),
                forall|k: int|
                    0 <= k < asked@.len() ==> (#[trigger] asked@[k]) < self.reached@.len(),
                least == shortest(lists.take(k as int)),
            decreases asked@.len() - k,
        {
            assert(lists.take(k + 1).drop_last() =~= lists.take(k as int));
            assert(lists[k as int] == whole(self.reached@[asked@[k as int] as int].entries@));
            let length = self.reached[asked[k]].entries.len();
            if k == 0 || length <= least {
                least = length;
            }
            k += 1;
        }
        assert(lists.take(k as int) =~= lists);
        least
    }
}

proof fn lemma_nothing_reaches_beyond(
    reached: Seq<(Seq<char>, Seq<int>)>,
    entries: int,
    word: Seq<char>,
)
    requires
        tidy(reached, entries),
    ensures
        !places(reached, word, entries),
{
    if places(reached, word, entries) {
        let k = choose|k: int|
            0 <= k < reached.len() && (#[trigger] reached[k]).0 == word && reached[k].1.contains(
                entries,
            );
        let i = choose|i: int| 0 <= i < reached[k].1.len() && reached[k].1[i] == entries;
        assert(reached[k].1[i] < entries);
    }
}

proof fn lemma_one_more_is_held(words: Seq<Seq<char>>, n: int, word: Seq<char>)
    requires
        0 <= n < words.len(),
    ensures
        words.take(n + 1).contains(word) <==> words.take(n).contains(word) || words[n] == word,
{
    let now = words.take(n + 1);
    let before = words.take(n);
    if now.contains(word) {
        let i = choose|i: int| 0 <= i < now.len() && now[i] == word;
        if i < n {
            assert(before[i] == word);
        }
    }
    if before.contains(word) {
        let i = choose|i: int| 0 <= i < before.len() && before[i] == word;
        assert(now[i] == word);
    }
    if words[n] == word {
        assert(now[n] == word);
    }
}

proof fn lemma_spelled_by_one_more(
    filed: Seq<FiledView>,
    n: int,
    title: Seq<char>,
    word: Seq<char>,
)
    requires
        0 <= n < filed.len(),
    ensures
        spells(filed, n + 1, title, word) <==> spells(filed, n, title, word) || (filed[n].title
            == title && words_spelled(filed[n].spelled).contains(word)),
{
    if spells(filed, n + 1, title, word) {
        let i = choose|i: int|
            0 <= i < n + 1 && (#[trigger] filed[i]).title == title && words_spelled(
                filed[i].spelled,
            ).contains(word);
        if i < n {
            assert(spells(filed, n, title, word));
        }
    }
    if spells(filed, n, title, word) {
        let i = choose|i: int|
            0 <= i < n && (#[trigger] filed[i]).title == title && words_spelled(
                filed[i].spelled,
            ).contains(word);
        assert(filed[i].title == title);
    }
    if filed[n].title == title && words_spelled(filed[n].spelled).contains(word) {
        assert(spells(filed, n + 1, title, word));
    }
}

// What the index promises.

/// What is picked out of the first entries is picked from among them, and is
/// picked because it carries enough of the words.
proof fn lemma_picked_is_an_entry(entries: Seq<Seq<char>>, asked: Seq<Seq<int>>, n: int)
    requires
        0 <= n <= entries.len(),
        entries.no_duplicates(),
    ensures
        forall|title: Seq<char>| #[trigger]
            picked(entries, asked, n).contains(title) <==> exists|e: int|
                0 <= e < n && #[trigger] entries[e] == title && shares_enough(asked, e),
        picked(entries, asked, n).no_duplicates(),
    decreases n,
{
    if n > 0 {
        lemma_picked_is_an_entry(entries, asked, n - 1);
        let earlier = picked(entries, asked, n - 1);
        let now = picked(entries, asked, n);
        assert forall|title: Seq<char>| #[trigger] now.contains(title) <==> exists|e: int|
            0 <= e < n && #[trigger] entries[e] == title && shares_enough(asked, e) by {
            if now.contains(title) {
                if !earlier.contains(title) {
                    assert(entries[n - 1] == title && shares_enough(asked, n - 1));
                }
            }
            if exists|e: int|
                0 <= e < n && #[trigger] entries[e] == title && shares_enough(asked, e) {
                let e = choose|e: int|
                    0 <= e < n && #[trigger] entries[e] == title && shares_enough(asked, e);
                if e < n - 1 {
                    assert(earlier.contains(title));
                    let i = choose|i: int| 0 <= i < earlier.len() && earlier[i] == title;
                    assert(now[i] == title);
                } else {
                    assert(now.last() == title);
                }
            }
        }
        if shares_enough(asked, n - 1) {
            assert(!earlier.contains(entries[n - 1])) by {
                if earlier.contains(entries[n - 1]) {
                    let e = choose|e: int|
                        0 <= e < n - 1 && #[trigger] entries[e] == entries[n - 1]
                            && shares_enough(asked, e);
                }
            }
        }
    }
}

/// A name reaches exactly the entries that carry enough of its words, each once
/// and in one order.
pub proof fn law_candidates_carry_the_words(
    index: IndexView,
    filed: Seq<FiledView>,
    words: Seq<Seq<char>>,
)
    requires
        is_index_of(index, filed),
    ensures
        forall|title: Seq<char>| #[trigger]
            reached_titles(index, words).contains(title) <==> exists|e: int|
                0 <= e < index.entries.len() && #[trigger] index.entries[e] == title
                    && shares_enough(narrowing(index, words), e),
        reached_titles(index, words).no_duplicates(),
        in_order(reached_titles(index, words)),
{
    let asked = narrowing(index, words);
    let all = index.entries.len() as int;
    lemma_picked_is_an_entry(index.entries, asked, all);
    let list = picked(index.entries, asked, all);
    crate::recognise::order::law_any_list_has_an_order(list);
    assert forall|title: Seq<char>| #[trigger]
        reached_titles(index, words).contains(title) <==> exists|e: int|
            0 <= e < index.entries.len() && #[trigger] index.entries[e] == title
                && shares_enough(asked, e) by {
        assert(ordered(list).contains(title) <==> list.contains(title));
    }
}

/// A name reaches no entry the corpus does not hold.
pub proof fn law_a_candidate_is_on_the_list(
    index: IndexView,
    filed: Seq<FiledView>,
    words: Seq<Seq<char>>,
    title: Seq<char>,
)
    requires
        is_index_of(index, filed),
        reached_titles(index, words).contains(title),
    ensures
        exists|i: int| 0 <= i < filed.len() && (#[trigger] filed[i]).title == title,
{
    law_candidates_carry_the_words(index, filed, words);
    assert(index.entries.contains(title));
}

/// A name that spells no word the corpus knows reaches nothing.
pub proof fn law_unknown_words_reach_nothing(
    index: IndexView,
    filed: Seq<FiledView>,
    words: Seq<Seq<char>>,
)
    requires
        is_index_of(index, filed),
        known(index.reached, words).len() == 0,
    ensures
        reached_titles(index, words).len() == 0,
{
    law_candidates_carry_the_words(index, filed, words);
    let asked = narrowing(index, words);
    assert(asked.len() == 0);
    let found = reached_titles(index, words);
    if found.len() > 0 {
        assert(found.contains(found[0]));
    }
}

// One answer, however the corpus was filled.

/// Whether an entry is filed under a spelling.
pub open spec fn is_filed(filed: Seq<FiledView>, title: Seq<char>, spelled: Seq<char>) -> bool {
    exists|i: int|
        0 <= i < filed.len() && (#[trigger] filed[i]).title == title && filed[i].spelled == spelled
}

/// Whether two corpora hold the same entries under the same spellings, in
/// whatever order and however often each was filed.
pub open spec fn same_filing(one: Seq<FiledView>, other: Seq<FiledView>) -> bool {
    &&& forall|i: int|
        0 <= i < one.len() ==> is_filed(other, (#[trigger] one[i]).title, one[i].spelled)
    &&& forall|i: int|
        0 <= i < other.len() ==> is_filed(one, (#[trigger] other[i]).title, other[i].spelled)
}

/// Whether two lists of places, each in a list of titles of its own, are of the
/// same titles.
spec fn level(
    titles: Seq<Seq<char>>,
    places: Seq<int>,
    others: Seq<Seq<char>>,
    elsewhere: Seq<int>,
) -> bool {
    &&& places.len() == elsewhere.len()
    &&& forall|e: int, f: int|
        0 <= e < titles.len() && 0 <= f < others.len() && #[trigger] titles[e]
            == #[trigger] others[f] ==> (places.contains(e) <==> elsewhere.contains(f))
}

/// Whether lists of places are level one by one.
spec fn all_level(
    titles: Seq<Seq<char>>,
    lists: Seq<Seq<int>>,
    others: Seq<Seq<char>>,
    elsewhere: Seq<Seq<int>>,
) -> bool {
    &&& lists.len() == elsewhere.len()
    &&& forall|i: int|
        0 <= i < lists.len() ==> level(titles, #[trigger] lists[i], others, elsewhere[i])
}

/// A list of texts, each once, is as long as another that holds the same.
proof fn lemma_as_many(one: Seq<Seq<char>>, other: Seq<Seq<char>>)
    requires
        one.no_duplicates(),
        other.no_duplicates(),
        forall|text: Seq<char>| #[trigger] one.contains(text) <==> other.contains(text),
    ensures
        one.len() == other.len(),
        one.to_multiset() == other.to_multiset(),
{
    assert(one.to_set() =~= other.to_set()) by {
        assert forall|text: Seq<char>| one.to_set().contains(text) <==> other.to_set().contains(
            text,
        ) by {
            assert(one.contains(text) <==> other.contains(text));
        }
    }
    one.unique_seq_to_set();
    other.unique_seq_to_set();
    one.lemma_multiset_has_no_duplicates();
    other.lemma_multiset_has_no_duplicates();
    assert forall|text: Seq<char>| one.to_multiset().count(text) == other.to_multiset().count(
        text,
    ) by {
        vstd::seq_lib::to_multiset_contains(one, text);
        vstd::seq_lib::to_multiset_contains(other, text);
        assert(one.contains(text) <==> other.contains(text));
        assert(one.to_multiset().contains(text) <==> one.contains(text));
        assert(other.to_multiset().contains(text) <==> other.contains(text));
    }
    assert(one.to_multiset() =~= other.to_multiset());
}

/// What a word reaches is what is said to be reached by it, each entry once.
proof fn lemma_a_word_reaches_its_places(
    reached: Seq<(Seq<char>, Seq<int>)>,
    entries: int,
    word: Seq<char>,
)
    requires
        tidy(reached, entries),
    ensures
        reached_by(reached, word).no_duplicates(),
        forall|i: int|
            0 <= i < reached_by(reached, word).len() ==> 0 <= #[trigger] reached_by(
                reached,
                word,
            )[i] < entries,
        forall|e: int| #[trigger]
            reached_by(reached, word).contains(e) <==> places(reached, word, e),
{
    if exists|k: int| 0 <= k < reached.len() && (#[trigger] reached[k]).0 == word {
        let k = choose|k: int| 0 <= k < reached.len() && (#[trigger] reached[k]).0 == word;
        lemma_reached_by_is_what_stands_there(reached, entries, word, k);
        assert forall|e: int| #[trigger]
            reached_by(reached, word).contains(e) <==> places(reached, word, e) by {
            if places(reached, word, e) {
                let j = choose|j: int|
                    0 <= j < reached.len() && (#[trigger] reached[j]).0 == word
                        && reached[j].1.contains(e);
                if j < k {
                    assert(reached[j].0 != reached[k].0);
                } else if k < j {
                    assert(reached[k].0 != reached[j].0);
                }
            }
        }
    } else {
        lemma_an_unknown_word_reaches_nothing(reached, word);
    }
}

/// The titles a word reaches, each once.
proof fn lemma_titles_a_word_reaches(index: IndexView, filed: Seq<FiledView>, word: Seq<char>)
    requires
        is_index_of(index, filed),
    ensures
        ({
            let titles = reached_by(index.reached, word).map_values(|e: int| index.entries[e]);
            &&& titles.no_duplicates()
            &&& forall|title: Seq<char>| #[trigger]
                titles.contains(title) <==> spells(filed, filed.len() as int, title, word)
        }),
{
    let list = reached_by(index.reached, word);
    let titles = list.map_values(|e: int| index.entries[e]);
    lemma_a_word_reaches_its_places(index.reached, index.entries.len() as int, word);
    assert forall|title: Seq<char>| #[trigger]
        titles.contains(title) <==> spells(filed, filed.len() as int, title, word) by {
        if titles.contains(title) {
            let i = choose|i: int| 0 <= i < titles.len() && titles[i] == title;
            assert(list.contains(list[i]));
            assert(places(index.reached, word, list[i]));
        }
        if spells(filed, filed.len() as int, title, word) {
            assert(index.entries.contains(title));
            let e = choose|e: int| 0 <= e < index.entries.len() && index.entries[e] == title;
            assert(places(index.reached, word, e));
            assert(list.contains(e));
            let i = choose|i: int| 0 <= i < list.len() && list[i] == e;
            assert(titles[i] == title);
        }
    }
    assert forall|i: int, j: int| 0 <= i < titles.len() && 0 <= j < titles.len() && i != j implies
        titles[i] != titles[j] by {
        assert(list[i] != list[j]);
        assert(titles[i] == index.entries[list[i]] && titles[j] == index.entries[list[j]]);
    }
}

proof fn lemma_spelled_in_both(one: Seq<FiledView>, other: Seq<FiledView>)
    requires
        same_filing(one, other),
    ensures
        forall|title: Seq<char>, word: Seq<char>| #[trigger]
            spells(one, one.len() as int, title, word) ==> spells(
                other,
                other.len() as int,
                title,
                word,
            ),
{
    assert forall|title: Seq<char>, word: Seq<char>| #[trigger]
        spells(one, one.len() as int, title, word) implies spells(
        other,
        other.len() as int,
        title,
        word,
    ) by {
        let i = choose|i: int|
            0 <= i < one.len() && (#[trigger] one[i]).title == title && words_spelled(
                one[i].spelled,
            ).contains(word);
        assert(is_filed(other, one[i].title, one[i].spelled));
        let j = choose|j: int|
            0 <= j < other.len() && (#[trigger] other[j]).title == one[i].title
                && other[j].spelled == one[i].spelled;
        assert(other[j].title == title);
    }
}

/// Two indexes of one filing hold the same entries.
proof fn lemma_entries_of_both(
    index: IndexView,
    filed: Seq<FiledView>,
    another: IndexView,
    others: Seq<FiledView>,
)
    requires
        is_index_of(index, filed),
        is_index_of(another, others),
        same_filing(filed, others),
    ensures
        forall|title: Seq<char>| #[trigger]
            index.entries.contains(title) <==> another.entries.contains(title),
        index.entries.len() == another.entries.len(),
{
    assert forall|title: Seq<char>| #[trigger]
        index.entries.contains(title) <==> another.entries.contains(title) by {
        if index.entries.contains(title) {
            let i = choose|i: int| 0 <= i < filed.len() && (#[trigger] filed[i]).title == title;
            assert(is_filed(others, filed[i].title, filed[i].spelled));
        }
        if another.entries.contains(title) {
            let i = choose|i: int| 0 <= i < others.len() && (#[trigger] others[i]).title == title;
            assert(is_filed(filed, others[i].title, others[i].spelled));
        }
    }
    lemma_as_many(index.entries, another.entries);
}

/// A word reaches the same titles through two indexes of one filing.
proof fn lemma_a_word_is_level(
    index: IndexView,
    filed: Seq<FiledView>,
    another: IndexView,
    others: Seq<FiledView>,
    word: Seq<char>,
)
    requires
        is_index_of(index, filed),
        is_index_of(another, others),
        same_filing(filed, others),
    ensures
        level(
            index.entries,
            reached_by(index.reached, word),
            another.entries,
            reached_by(another.reached, word),
        ),
{
    let here = reached_by(index.reached, word);
    let there = reached_by(another.reached, word);
    let titles = here.map_values(|e: int| index.entries[e]);
    let also = there.map_values(|e: int| another.entries[e]);
    lemma_spelled_in_both(filed, others);
    lemma_spelled_in_both(others, filed);
    lemma_titles_a_word_reaches(index, filed, word);
    lemma_titles_a_word_reaches(another, others, word);
    assert forall|title: Seq<char>| #[trigger] titles.contains(title) <==> also.contains(title) by {
        assert(titles.contains(title) <==> spells(filed, filed.len() as int, title, word));
        assert(also.contains(title) <==> spells(others, others.len() as int, title, word));
    }
    lemma_as_many(titles, also);
    lemma_a_word_reaches_its_places(index.reached, index.entries.len() as int, word);
    lemma_a_word_reaches_its_places(another.reached, another.entries.len() as int, word);
    assert forall|e: int, f: int|
        0 <= e < index.entries.len() && 0 <= f < another.entries.len()
            && #[trigger] index.entries[e] == #[trigger] another.entries[f] implies (here.contains(
        e,
    ) <==> there.contains(f)) by {
        assert(here.contains(e) <==> places(index.reached, word, e));
        assert(there.contains(f) <==> places(another.reached, word, f));
    }
}

/// The words that are known are known to both, and level.
proof fn lemma_what_is_known_is_level(
    index: IndexView,
    filed: Seq<FiledView>,
    another: IndexView,
    others: Seq<FiledView>,
    words: Seq<Seq<char>>,
)
    requires
        is_index_of(index, filed),
        is_index_of(another, others),
        same_filing(filed, others),
    ensures
        all_level(
            index.entries,
            known(index.reached, words),
            another.entries,
            known(another.reached, words),
        ),
    decreases words.len(),
{
    if words.len() > 0 {
        lemma_what_is_known_is_level(index, filed, another, others, words.drop_last());
        lemma_a_word_is_level(index, filed, another, others, words.last());
    }
}

/// What is no longer than a number is so of both, and the shortest are as short.
proof fn lemma_lengths_are_level(
    titles: Seq<Seq<char>>,
    lists: Seq<Seq<int>>,
    others: Seq<Seq<char>>,
    elsewhere: Seq<Seq<int>>,
    most: nat,
)
    requires
        all_level(titles, lists, others, elsewhere),
    ensures
        all_level(titles, no_longer(lists, most), others, no_longer(elsewhere, most)),
        shortest(lists) == shortest(elsewhere),
    decreases lists.len(),
{
    if lists.len() > 0 {
        let last = lists.len() - 1;
        assert(level(titles, lists[last], others, elsewhere[last]));
        assert forall|i: int| 0 <= i < lists.drop_last().len() implies level(
            titles,
            #[trigger] lists.drop_last()[i],
            others,
            elsewhere.drop_last()[i],
        ) by {
            assert(level(titles, lists[i], others, elsewhere[i]));
        }
        lemma_lengths_are_level(titles, lists.drop_last(), others, elsewhere.drop_last(), most);
    }
}

/// An entry carries as many of the words through either index.
proof fn lemma_as_much_is_carried(
    titles: Seq<Seq<char>>,
    asked: Seq<Seq<int>>,
    others: Seq<Seq<char>>,
    elsewhere: Seq<Seq<int>>,
    e: int,
    f: int,
)
    requires
        all_level(titles, asked, others, elsewhere),
        0 <= e < titles.len(),
        0 <= f < others.len(),
        titles[e] == others[f],
    ensures
        carried(asked, e) == carried(elsewhere, f),
    decreases asked.len(),
{
    if asked.len() > 0 {
        let last = asked.len() - 1;
        assert(level(titles, asked[last], others, elsewhere[last]));
        assert forall|i: int| 0 <= i < asked.drop_last().len() implies level(
            titles,
            #[trigger] asked.drop_last()[i],
            others,
            elsewhere.drop_last()[i],
        ) by {
            assert(level(titles, asked[i], others, elsewhere[i]));
        }
        lemma_as_much_is_carried(titles, asked.drop_last(), others, elsewhere.drop_last(), e, f);
    }
}

/// A name that reaches an entry through one index reaches it through the other.
proof fn lemma_reached_through_both(
    index: IndexView,
    filed: Seq<FiledView>,
    another: IndexView,
    others: Seq<FiledView>,
    words: Seq<Seq<char>>,
    title: Seq<char>,
)
    requires
        is_index_of(index, filed),
        is_index_of(another, others),
        same_filing(filed, others),
    ensures
        reached_titles(index, words).contains(title) ==> reached_titles(another, words).contains(
            title,
        ),
{
    law_candidates_carry_the_words(index, filed, words);
    law_candidates_carry_the_words(another, others, words);
    lemma_entries_of_both(index, filed, another, others);
    let here = known(index.reached, words);
    let there = known(another.reached, words);
    lemma_what_is_known_is_level(index, filed, another, others, words);
    lemma_lengths_are_level(
        index.entries,
        here,
        another.entries,
        there,
        ceiling(index.entries.len()),
    );
    lemma_lengths_are_level(index.entries, here, another.entries, there, shortest(here));
    let asked = narrowing(index, words);
    let elsewhere = narrowing(another, words);
    assert(all_level(index.entries, asked, another.entries, elsewhere));
    if reached_titles(index, words).contains(title) {
        let e = choose|e: int|
            0 <= e < index.entries.len() && #[trigger] index.entries[e] == title
                && shares_enough(asked, e);
        assert(index.entries.contains(title));
        assert(another.entries.contains(title));
        let f = choose|f: int| 0 <= f < another.entries.len() && another.entries[f] == title;
        lemma_as_much_is_carried(index.entries, asked, another.entries, elsewhere, e, f);
        assert(another.entries[f] == title && shares_enough(elsewhere, f));
    }
}

/// A name reaches the same entries in the same order however the corpus was
/// filled: two corpora that hold the same entries under the same spellings
/// answer alike, in whatever order and however often each was filed.
pub proof fn law_filing_order_changes_no_answer(
    index: IndexView,
    filed: Seq<FiledView>,
    another: IndexView,
    others: Seq<FiledView>,
    words: Seq<Seq<char>>,
)
    requires
        is_index_of(index, filed),
        is_index_of(another, others),
        same_filing(filed, others),
    ensures
        reached_titles(index, words) == reached_titles(another, words),
{
    let here = reached_titles(index, words);
    let there = reached_titles(another, words);
    law_candidates_carry_the_words(index, filed, words);
    law_candidates_carry_the_words(another, others, words);
    assert forall|title: Seq<char>| #[trigger] here.contains(title) <==> there.contains(title) by {
        lemma_reached_through_both(index, filed, another, others, words, title);
        lemma_reached_through_both(another, others, index, filed, words, title);
    }
    lemma_as_many(here, there);
    crate::recognise::order::law_one_order(here, there);
}

/// An entry filed under several spellings that share a word is credited with
/// that word once.
pub proof fn law_a_word_is_credited_once(
    index: IndexView,
    filed: Seq<FiledView>,
    word: Seq<char>,
    e: int,
)
    requires
        is_index_of(index, filed),
        0 <= e < index.entries.len(),
    ensures
        reached_by(index.reached, word).no_duplicates(),
        reached_by(index.reached, word).contains(e) <==> spells(
            filed,
            filed.len() as int,
            index.entries[e],
            word,
        ),
{
    lemma_a_word_reaches_its_places(index.reached, index.entries.len() as int, word);
    assert(places(index.reached, word, e) <==> spells(
        filed,
        filed.len() as int,
        index.entries[e],
        word,
    ));
}

// Which words narrow, and who carries enough of them.

/// Whether a list is what one of some words reaches.
pub open spec fn is_reached(
    reached: Seq<(Seq<char>, Seq<int>)>,
    words: Seq<Seq<char>>,
    list: Seq<int>,
) -> bool {
    list.len() > 0 && exists|i: int|
        0 <= i < words.len() && reached_by(reached, #[trigger] words[i]) == list
}

proof fn lemma_what_is_known(
    reached: Seq<(Seq<char>, Seq<int>)>,
    words: Seq<Seq<char>>,
    list: Seq<int>,
)
    ensures
        known(reached, words).contains(list) <==> is_reached(reached, words, list),
    decreases words.len(),
{
    if words.len() > 0 {
        let shorter = words.drop_last();
        let earlier = known(reached, shorter);
        let now = known(reached, words);
        let last = words.len() - 1;
        lemma_what_is_known(reached, shorter, list);
        if now.contains(list) {
            let k = choose|k: int| 0 <= k < now.len() && now[k] == list;
            if k < earlier.len() {
                assert(earlier[k] == list);
                assert(earlier.contains(list));
                let i = choose|i: int|
                    0 <= i < shorter.len() && reached_by(reached, #[trigger] shorter[i]) == list;
                assert(words[i] == shorter[i]);
            } else {
                assert(reached_by(reached, words[last]) == list);
            }
        }
        if is_reached(reached, words, list) {
            let i = choose|i: int|
                0 <= i < words.len() && reached_by(reached, #[trigger] words[i]) == list;
            if i < last {
                assert(shorter[i] == words[i]);
                assert(earlier.contains(list));
                let k = choose|k: int| 0 <= k < earlier.len() && earlier[k] == list;
                assert(now[k] == list);
            } else {
                assert(now[now.len() - 1] == list);
            }
        }
    }
}

proof fn lemma_what_is_no_longer(lists: Seq<Seq<int>>, most: nat, list: Seq<int>)
    ensures
        no_longer(lists, most).contains(list) <==> lists.contains(list) && list.len() <= most,
    decreases lists.len(),
{
    if lists.len() > 0 {
        let shorter = lists.drop_last();
        let earlier = no_longer(shorter, most);
        let now = no_longer(lists, most);
        let last = lists.len() - 1;
        lemma_what_is_no_longer(shorter, most, list);
        if now.contains(list) {
            let k = choose|k: int| 0 <= k < now.len() && now[k] == list;
            if k < earlier.len() {
                assert(earlier[k] == list);
                let i = choose|i: int| 0 <= i < shorter.len() && shorter[i] == list;
                assert(lists[i] == list);
            } else {
                assert(lists[last] == list);
            }
        }
        if lists.contains(list) && list.len() <= most {
            let i = choose|i: int| 0 <= i < lists.len() && lists[i] == list;
            if i < last {
                assert(shorter[i] == list);
                assert(earlier.contains(list));
                let k = choose|k: int| 0 <= k < earlier.len() && earlier[k] == list;
                assert(now[k] == list);
            } else {
                assert(now[now.len() - 1] == list);
            }
        }
    }
}

proof fn lemma_the_shortest(lists: Seq<Seq<int>>)
    ensures
        forall|i: int| 0 <= i < lists.len() ==> shortest(lists) <= (#[trigger] lists[i]).len(),
        lists.len() > 0 ==> exists|i: int|
            0 <= i < lists.len() && (#[trigger] lists[i]).len() == shortest(lists),
    decreases lists.len(),
{
    if lists.len() > 0 {
        let shorter = lists.drop_last();
        let last = lists.len() - 1;
        lemma_the_shortest(shorter);
        assert forall|i: int| 0 <= i < lists.len() implies shortest(lists) <= (
        #[trigger] lists[i]).len() by {
            if i < last {
                assert(shorter[i] == lists[i]);
            }
        }
        if lists[last].len() != shortest(lists) {
            let i = choose|i: int|
                0 <= i < shorter.len() && (#[trigger] shorter[i]).len() == shortest(shorter);
            assert(lists[i] == shorter[i]);
        }
    }
}

/// The words that narrow are those that reach no more than one entry in two
/// hundred, or one where the list is shorter. Where every word that reaches
/// anything reaches more, the ones that reach the fewest narrow instead.
pub proof fn law_which_words_narrow(index: IndexView, words: Seq<Seq<char>>, list: Seq<int>)
    ensures
        ({
            let most = if index.entries.len() >= 400 {
                index.entries.len() / 200
            } else {
                1
            };
            let some = exists|other: Seq<int>| #[trigger]
                is_reached(index.reached, words, other) && other.len() <= most;
            &&& some ==> (narrowing(index, words).contains(list) <==> is_reached(
                index.reached,
                words,
                list,
            ) && list.len() <= most)
            &&& !some ==> (narrowing(index, words).contains(list) <==> is_reached(
                index.reached,
                words,
                list,
            ) && forall|other: Seq<int>| #[trigger]
                is_reached(index.reached, words, other) ==> list.len() <= other.len())
        }),
{
    let all = known(index.reached, words);
    let most = ceiling(index.entries.len());
    let uncrowded = no_longer(all, most);
    lemma_what_is_known(index.reached, words, list);
    lemma_what_is_no_longer(all, most, list);
    lemma_what_is_no_longer(all, shortest(all), list);
    lemma_the_shortest(all);
    if uncrowded.len() > 0 {
        let one = uncrowded[0];
        assert(uncrowded.contains(one));
        lemma_what_is_no_longer(all, most, one);
        lemma_what_is_known(index.reached, words, one);
        assert(is_reached(index.reached, words, one) && one.len() <= most);
    } else {
        assert forall|other: Seq<int>| #[trigger] is_reached(index.reached, words, other) implies
            other.len() > most by {
            lemma_what_is_known(index.reached, words, other);
            lemma_what_is_no_longer(all, most, other);
            if other.len() <= most {
                assert(uncrowded.contains(other));
            }
        }
        if is_reached(index.reached, words, list) {
            assert forall|other: Seq<int>| #[trigger] is_reached(index.reached, words, other)
                implies shortest(all) <= other.len() by {
                lemma_what_is_known(index.reached, words, other);
                let k = choose|k: int| 0 <= k < all.len() && all[k] == other;
                assert(shortest(all) <= all[k].len());
            }
            if forall|other: Seq<int>| #[trigger]
                is_reached(index.reached, words, other) ==> list.len() <= other.len() {
                assert(all.contains(list));
                assert(all.len() > 0);
                let k = choose|k: int|
                    0 <= k < all.len() && (#[trigger] all[k]).len() == shortest(all);
                assert(all.contains(all[k]));
                lemma_what_is_known(index.reached, words, all[k]);
                assert(list.len() <= all[k].len());
            }
        }
    }
}

/// Each word that is asked about counts once: an entry carries one more of them
/// exactly where the word reaches it.
pub proof fn law_carried_words_are_counted(asked: Seq<Seq<int>>, list: Seq<int>, entry: int)
    ensures
        carried(Seq::empty(), entry) == 0,
        carried(asked.push(list), entry) == carried(asked, entry) + if list.contains(entry) {
            1nat
        } else {
            0nat
        },
{
    assert(asked.push(list).drop_last() =~= asked);
}

/// An entry is a candidate exactly where it carries two of the words that
/// narrow, or the only one there is.
pub proof fn law_two_shared_words_make_a_candidate(
    index: IndexView,
    filed: Seq<FiledView>,
    words: Seq<Seq<char>>,
    e: int,
)
    requires
        is_index_of(index, filed),
        0 <= e < index.entries.len(),
    ensures
        reached_titles(index, words).contains(index.entries[e]) <==> {
            ||| carried(narrowing(index, words), e) >= 2
            ||| carried(narrowing(index, words), e) == 1 && narrowing(index, words).len() == 1
        },
{
    let asked = narrowing(index, words);
    law_candidates_carry_the_words(index, filed, words);
    lemma_no_more_is_carried_than_asked(asked, e);
    if reached_titles(index, words).contains(index.entries[e]) {
        let f = choose|f: int|
            0 <= f < index.entries.len() && #[trigger] index.entries[f] == index.entries[e]
                && shares_enough(asked, f);
        assert(f == e);
    }
}

proof fn lemma_no_more_is_carried_than_asked(asked: Seq<Seq<int>>, entry: int)
    ensures
        carried(asked, entry) <= asked.len(),
    decreases asked.len(),
{
    if asked.len() > 0 {
        lemma_no_more_is_carried_than_asked(asked.drop_last(), entry);
    }
}

} // verus!
