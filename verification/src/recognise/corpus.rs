//! The entries a name reaches, filed under the key each spelling reaches.
//!
//! The second stage is an exact match on the normalised key, and this is what
//! it matches against. **The caller builds it**, because this crate performs no
//! I/O and a list of entries comes from somewhere that does.
//!
//! **A key with marks matches exactly, and a key without them matches every
//! entry with the same letters, season and part, whatever their marks.** A
//! filename loses marks its entry carries, because a name written for Windows
//! cannot hold `:` or `?`. A file of `Nisekoi:` is named `Nisekoi - 03.mkv`,
//! and so is a file of `Nisekoi`. Both are candidates, and two candidates are
//! an ambiguity that is reported rather than guessed at. A key that does carry
//! marks is never widened the other way, because its own entry may simply be
//! missing from the list, and a widened match would hand the file to the season
//! before it.
//!
//! **An entry filed under several spellings is one candidate.** Two spellings
//! of one entry reach one key when the title is repeated among them, or when
//! they differ only in the marks a lookup widens over. One entry reached twice
//! is not two entries.

use vstd::prelude::*;

use crate::recognise::normalise::Key;
#[allow(unused_imports)]
use crate::recognise::normalise::{key_of_title, unmarked, KeyView};
use crate::recognise::order::insert_in_order;
#[allow(unused_imports)]
use crate::recognise::order::{in_order, lemma_that_is_the_order, ordered};
use crate::text::same;
#[allow(unused_imports)]
use crate::text::str_texts;

verus! {

/// One spelling of one entry.
#[derive(Debug)]
pub struct Filed {
    /// The key the spelling reaches.
    key: Key,
    /// The spelling itself, which the key cannot be read back into: a key
    /// erases the breaks between words, and a stage that compares words needs
    /// them.
    spelled: String,
    /// The entry's title, which is what an answer names.
    title: String,
}

/// One spelling of one entry, as contracts speak of it.
#[verifier::ext_equal]
pub struct FiledView {
    /// The key the spelling reaches.
    pub key: KeyView,
    /// The spelling itself.
    pub spelled: Seq<char>,
    /// The entry's title.
    pub title: Seq<char>,
}

impl View for Filed {
    type V = FiledView;

    closed spec fn view(&self) -> FiledView {
        FiledView { key: self.key@, spelled: self.spelled@, title: self.title@ }
    }
}

impl Filed {
    /// The spelling itself.
    pub fn spelled(&self) -> (spelled: &str)
        ensures
            spelled@ == self@.spelled,
    {
        self.spelled.as_str()
    }

    /// The entry's title.
    pub fn title(&self) -> (title: &str)
        ensures
            title@ == self@.title,
    {
        self.title.as_str()
    }
}

/// The titles recognition matches against.
///
/// Every spelling of an entry is filed under its own key, and every key answers
/// with the entry's title rather than with the spelling that was reached.
#[derive(Debug)]
pub struct Corpus {
    /// Every spelling, in the order it was filed.
    filed: Vec<Filed>,
}

impl View for Corpus {
    type V = Seq<FiledView>;

    closed spec fn view(&self) -> Seq<FiledView> {
        filed_views(self.filed@)
    }
}

/// Each of some spellings, as contracts speak of it.
pub open spec fn filed_views(filed: Seq<Filed>) -> Seq<FiledView> {
    filed.map_values(|one: Filed| one@)
}

/// A corpus with one more spelling of one entry in it.
///
/// A spelling with no letters in it is filed nowhere: nothing could look it up,
/// because a name spelling no letters has no key either.
pub open spec fn with_spelling(
    filed: Seq<FiledView>,
    spelling: Seq<char>,
    title: Seq<char>,
) -> Seq<FiledView> {
    match key_of_title(spelling) {
        Some(key) => filed.push(FiledView { key, spelled: spelling, title }),
        None => filed,
    }
}

/// A corpus with some more spellings of one entry in it.
pub open spec fn with_spellings(
    filed: Seq<FiledView>,
    spellings: Seq<Seq<char>>,
    title: Seq<char>,
) -> Seq<FiledView>
    decreases spellings.len(),
{
    if spellings.len() == 0 {
        filed
    } else {
        with_spelling(
            with_spellings(filed, spellings.drop_last(), title),
            spellings.last(),
            title,
        )
    }
}

/// A corpus with some entries in it that are spelled one way each.
pub open spec fn with_titles(filed: Seq<FiledView>, titles: Seq<Seq<char>>) -> Seq<FiledView>
    decreases titles.len(),
{
    if titles.len() == 0 {
        filed
    } else {
        with_spelling(with_titles(filed, titles.drop_last()), titles.last(), titles.last())
    }
}

/// Whether a key reaches a spelling: by the whole key, or by all of it but the
/// marks where the key has none.
pub open spec fn reaches(key: KeyView, filed: FiledView) -> bool {
    &&& unmarked(key) == unmarked(filed.key)
    &&& key.marks.len() == 0 || key.marks == filed.key.marks
}

/// The entries a key reaches, each once, in the order they were filed.
pub open spec fn candidates_of(filed: Seq<FiledView>, key: KeyView) -> Seq<Seq<char>>
    decreases filed.len(),
{
    if filed.len() == 0 {
        Seq::empty()
    } else {
        let earlier = candidates_of(filed.drop_last(), key);
        let last = filed.last();
        if reaches(key, last) && !earlier.contains(last.title) {
            earlier.push(last.title)
        } else {
            earlier
        }
    }
}

/// The spellings one entry is filed under, in the order they were filed.
pub open spec fn spellings_filed(filed: Seq<FiledView>, title: Seq<char>) -> Seq<Seq<char>>
    decreases filed.len(),
{
    if filed.len() == 0 {
        Seq::empty()
    } else if filed.last().title == title {
        spellings_filed(filed.drop_last(), title).push(filed.last().spelled)
    } else {
        spellings_filed(filed.drop_last(), title)
    }
}

/// Whether some borrowed strings hold a piece of text.
fn holds(found: &Vec<&str>, text: &str) -> (answer: bool)
    ensures
        answer == str_texts(found@).contains(text@),
{
    let mut i: usize = 0;
    while i < found.len()
        invariant
            i <= found@.len(),
            forall|j: int| 0 <= j < i ==> #[trigger] str_texts(found@)[j] != text@,
        decreases found@.len() - i,
    {
        if same(found[i], text) {
            assert(str_texts(found@)[i as int] == text@);
            return true;
        }
        i += 1;
    }
    false
}

impl Corpus {
    /// An empty corpus, to file entries into.
    pub fn new() -> (corpus: Self)
        ensures
            corpus@ == Seq::<FiledView>::empty(),
    {
        let corpus = Self { filed: Vec::new() };
        assert(corpus@ =~= Seq::<FiledView>::empty());
        corpus
    }

    /// A corpus of entries spelled one way each.
    pub fn of(titles: &[&str]) -> (corpus: Self)
        ensures
            corpus@ == with_titles(Seq::empty(), str_texts(titles@)),
    {
        let mut corpus = Self::new();
        let ghost all = str_texts(titles@);
        let mut i: usize = 0;
        assert(all.take(0) =~= Seq::empty());
        while i < titles.len()
            invariant
                i <= titles@.len(),
                all == str_texts(titles@),
                corpus@ == with_titles(Seq::empty(), all.take(i as int)),
            decreases titles@.len() - i,
        {
            assert(all.take(i + 1).drop_last() =~= all.take(i as int));
            assert(all.take(i + 1).last() == titles@[i as int]@);
            corpus.put(titles[i], titles[i]);
            i += 1;
        }
        assert(all.take(i as int) =~= all);
        corpus
    }

    /// File an entry under its title and under every other spelling it carries.
    ///
    /// A spelling with no letters in it is filed nowhere: nothing could look it
    /// up, because a name spelling no letters has no key either.
    pub fn file(&mut self, title: &str, also_spelled: &[&str])
        ensures
            final(self)@ == with_spellings(
                with_spelling(old(self)@, title@, title@),
                str_texts(also_spelled@),
                title@,
            ),
    {
        self.put(title, title);
        let ghost first = self@;
        let ghost all = str_texts(also_spelled@);
        let mut i: usize = 0;
        assert(all.take(0) =~= Seq::empty());
        while i < also_spelled.len()
            invariant
                i <= also_spelled@.len(),
                all == str_texts(also_spelled@),
                self@ == with_spellings(first, all.take(i as int), title@),
            decreases also_spelled@.len() - i,
        {
            assert(all.take(i + 1).drop_last() =~= all.take(i as int));
            assert(all.take(i + 1).last() == also_spelled@[i as int]@);
            self.put(also_spelled[i], title);
            i += 1;
        }
        assert(all.take(i as int) =~= all);
    }

    /// File one spelling of one entry.
    fn put(&mut self, spelling: &str, title: &str)
        ensures
            final(self)@ == with_spelling(old(self)@, spelling@, title@),
    {
        if let Some(key) = Key::from_title(spelling) {
            let ghost before = self@;
            let one = Filed { key, spelled: spelling.to_owned(), title: title.to_owned() };
            let ghost view = one@;
            self.filed.push(one);
            assert(self@ =~= before.push(view));
        }
    }

    /// Every spelling filed, in the order it was filed.
    ///
    /// For the stage that compares words rather than keys, so that one corpus
    /// answers both and the two cannot be filed differently.
    pub fn filed(&self) -> (filed: &[Filed])
        ensures
            filed_views(filed@) == self@,
    {
        self.filed.as_slice()
    }

    /// Every spelling one entry is filed under, in one order.
    ///
    /// For the stage that compares an entry against a name word by word: an
    /// entry filed under romaji, English and native spellings meets the name on
    /// whichever of them is closest, and the title it answers with is not
    /// necessarily the one that matched.
    pub fn spellings_of(&self, title: &str) -> (found: Vec<&str>)
        ensures
            str_texts(found@) == ordered(spellings_filed(self@, title@)),
            found@.len() == spellings_filed(self@, title@).len(),
    {
        let mut found: Vec<&str> = Vec::new();
        let ghost all = self@;
        let mut i: usize = 0;
        assert(all.take(0) =~= Seq::empty());
        assert(str_texts(found@) =~= spellings_filed(all.take(0), title@));
        while i < self.filed.len()
            invariant
                i <= self.filed@.len(),
                all == self@,
                all == filed_views(self.filed@),
                in_order(str_texts(found@)),
                str_texts(found@).to_multiset() == spellings_filed(
                    all.take(i as int),
                    title@,
                ).to_multiset(),
            decreases self.filed@.len() - i,
        {
            broadcast use vstd::seq_lib::group_to_multiset_ensures;

            assert(all.take(i + 1).drop_last() =~= all.take(i as int));
            assert(all.take(i + 1).last() == self.filed@[i as int]@);
            if same(self.filed[i].title.as_str(), title) {
                insert_in_order(&mut found, self.filed[i].spelled.as_str());
            }
            i += 1;
        }
        assert(all.take(i as int) =~= all);
        proof {
            lemma_that_is_the_order(str_texts(found@), spellings_filed(all, title@));
        }
        found
    }

    /// The entries a key reaches, in the order they were filed.
    ///
    /// Empty where nothing is filed under it, which is not a refusal: an exact
    /// key either hits or misses, and the stages below are what answer a name
    /// that misses.
    pub fn candidates(&self, key: &Key) -> (found: Vec<&str>)
        ensures
            str_texts(found@) == candidates_of(self@, key@),
    {
        let mut found: Vec<&str> = Vec::new();
        let bare = key.without_marks();
        let unmarked_key = key.marks().is_empty();
        let ghost all = self@;
        let mut i: usize = 0;
        assert(all.take(0) =~= Seq::empty());
        assert(str_texts(found@) =~= candidates_of(all.take(0), key@));
        while i < self.filed.len()
            invariant
                i <= self.filed@.len(),
                all == self@,
                all == filed_views(self.filed@),
                bare@ == unmarked(key@),
                unmarked_key == (key@.marks.len() == 0),
                str_texts(found@) == candidates_of(all.take(i as int), key@),
            decreases self.filed@.len() - i,
        {
            assert(all.take(i + 1).drop_last() =~= all.take(i as int));
            assert(all.take(i + 1).last() == self.filed@[i as int]@);
            let one = &self.filed[i];
            let reached = one.key.without_marks().is(&bare) && (unmarked_key || same(
                one.key.marks(),
                key.marks(),
            ));
            if reached && !holds(&found, one.title.as_str()) {
                let ghost before = str_texts(found@);
                found.push(one.title.as_str());
                assert(str_texts(found@) =~= before.push(one@.title));
            }
            i += 1;
        }
        assert(all.take(i as int) =~= all);
        found
    }
}

impl Default for Corpus {
    fn default() -> (corpus: Self)
        ensures
            corpus@ == Seq::<FiledView>::empty(),
    {
        Self::new()
    }
}

// What a lookup promises.

/// A key reaches exactly the entries that have a spelling it reaches, and none
/// of them twice.
pub proof fn law_candidates_are_the_entries_reached(filed: Seq<FiledView>, key: KeyView)
    ensures
        forall|title: Seq<char>| #[trigger]
            candidates_of(filed, key).contains(title) <==> exists|i: int|
                0 <= i < filed.len() && reaches(key, #[trigger] filed[i]) && filed[i].title
                    == title,
        candidates_of(filed, key).no_duplicates(),
    decreases filed.len(),
{
    if filed.len() > 0 {
        let shorter = filed.drop_last();
        let earlier = candidates_of(shorter, key);
        let last = filed.last();
        let found = candidates_of(filed, key);
        law_candidates_are_the_entries_reached(shorter, key);
        assert forall|title: Seq<char>| #[trigger] found.contains(title) <==> exists|i: int|
            0 <= i < filed.len() && reaches(key, #[trigger] filed[i]) && filed[i].title
                == title by {
            if found.contains(title) {
                if earlier.contains(title) {
                    let i = choose|i: int|
                        0 <= i < shorter.len() && reaches(key, #[trigger] shorter[i])
                            && shorter[i].title == title;
                    assert(filed[i] == shorter[i]);
                } else {
                    assert(title == last.title);
                    assert(filed[filed.len() - 1] == last);
                }
            }
            if exists|i: int|
                0 <= i < filed.len() && reaches(key, #[trigger] filed[i]) && filed[i].title
                    == title {
                let i = choose|i: int|
                    0 <= i < filed.len() && reaches(key, #[trigger] filed[i]) && filed[i].title
                        == title;
                if i < shorter.len() {
                    assert(shorter[i] == filed[i]);
                    assert(earlier.contains(title));
                    let j = choose|j: int| 0 <= j < earlier.len() && earlier[j] == title;
                    assert(found[j] == title);
                } else if earlier.contains(title) {
                    let j = choose|j: int| 0 <= j < earlier.len() && earlier[j] == title;
                    assert(found[j] == title);
                } else {
                    assert(found.last() == title);
                }
            }
        }
    }
}

/// A key that carries marks reaches an entry only under the whole of the key.
pub proof fn law_a_key_with_marks_is_never_widened(
    filed: Seq<FiledView>,
    key: KeyView,
    title: Seq<char>,
)
    requires
        key.marks.len() > 0,
        candidates_of(filed, key).contains(title),
    ensures
        exists|i: int|
            0 <= i < filed.len() && (#[trigger] filed[i]).key == key && filed[i].title == title,
{
    law_candidates_are_the_entries_reached(filed, key);
    let i = choose|i: int|
        0 <= i < filed.len() && reaches(key, #[trigger] filed[i]) && filed[i].title == title;
    assert(filed[i].key =~= key);
}

/// A key that carries no marks reaches every entry whose key is its own but for
/// the marks.
pub proof fn law_a_key_without_marks_reaches_every_mark(
    filed: Seq<FiledView>,
    key: KeyView,
    i: int,
)
    requires
        key.marks.len() == 0,
        0 <= i < filed.len(),
        unmarked(filed[i].key) == unmarked(key),
    ensures
        candidates_of(filed, key).contains(filed[i].title),
{
    law_candidates_are_the_entries_reached(filed, key);
    assert(reaches(key, filed[i]));
}

/// What was filed stays filed where it was.
proof fn lemma_filed_stays_filed(
    filed: Seq<FiledView>,
    spellings: Seq<Seq<char>>,
    title: Seq<char>,
)
    ensures
        filed.len() <= with_spellings(filed, spellings, title).len(),
        forall|i: int|
            0 <= i < filed.len() ==> #[trigger] with_spellings(filed, spellings, title)[i]
                == filed[i],
    decreases spellings.len(),
{
    if spellings.len() > 0 {
        lemma_filed_stays_filed(filed, spellings.drop_last(), title);
    }
}

/// A spelling that has a key is filed.
proof fn lemma_a_spelling_is_filed(
    filed: Seq<FiledView>,
    spellings: Seq<Seq<char>>,
    title: Seq<char>,
    k: int,
) -> (i: int)
    requires
        0 <= k < spellings.len(),
        key_of_title(spellings[k]) is Some,
    ensures
        0 <= i < with_spellings(filed, spellings, title).len(),
        with_spellings(filed, spellings, title)[i] == (FiledView {
            key: key_of_title(spellings[k])->0,
            spelled: spellings[k],
            title,
        }),
    decreases spellings.len(),
{
    let now = with_spellings(filed, spellings, title);
    if k < spellings.len() - 1 {
        lemma_a_spelling_is_filed(filed, spellings.drop_last(), title, k)
    } else {
        now.len() - 1
    }
}

/// An entry answers to its own title, wherever the title has a key at all.
pub proof fn law_an_entry_answers_to_its_title(
    filed: Seq<FiledView>,
    title: Seq<char>,
    also_spelled: Seq<Seq<char>>,
    key: KeyView,
)
    requires
        key_of_title(title) == Some(key),
    ensures
        candidates_of(
            with_spellings(with_spelling(filed, title, title), also_spelled, title),
            key,
        ).contains(title),
{
    let first = with_spelling(filed, title, title);
    let now = with_spellings(first, also_spelled, title);
    lemma_filed_stays_filed(first, also_spelled, title);
    law_candidates_are_the_entries_reached(now, key);
    let at = first.len() - 1;
    assert(now[at] == first[at]);
    assert(reaches(key, now[at]));
}

/// An entry answers to every other spelling it is filed under, wherever the
/// spelling has a key at all.
pub proof fn law_an_entry_answers_to_its_spellings(
    filed: Seq<FiledView>,
    title: Seq<char>,
    also_spelled: Seq<Seq<char>>,
    k: int,
    key: KeyView,
)
    requires
        0 <= k < also_spelled.len(),
        key_of_title(also_spelled[k]) == Some(key),
    ensures
        candidates_of(
            with_spellings(with_spelling(filed, title, title), also_spelled, title),
            key,
        ).contains(title),
{
    let first = with_spelling(filed, title, title);
    let now = with_spellings(first, also_spelled, title);
    let i = lemma_a_spelling_is_filed(first, also_spelled, title, k);
    law_candidates_are_the_entries_reached(now, key);
    assert(reaches(key, now[i]));
}

/// Filing more entries takes no candidate away from a key.
pub proof fn law_filing_takes_no_candidate_away(
    filed: Seq<FiledView>,
    title: Seq<char>,
    also_spelled: Seq<Seq<char>>,
    key: KeyView,
    candidate: Seq<char>,
)
    requires
        candidates_of(filed, key).contains(candidate),
    ensures
        candidates_of(
            with_spellings(with_spelling(filed, title, title), also_spelled, title),
            key,
        ).contains(candidate),
{
    let first = with_spelling(filed, title, title);
    let now = with_spellings(first, also_spelled, title);
    lemma_filed_stays_filed(first, also_spelled, title);
    law_candidates_are_the_entries_reached(filed, key);
    law_candidates_are_the_entries_reached(now, key);
    let i = choose|i: int|
        0 <= i < filed.len() && reaches(key, #[trigger] filed[i]) && filed[i].title == candidate;
    assert(first[i] == filed[i]);
    assert(now[i] == first[i]);
}

/// Whether an entry was filed under a spelling that a key reaches before another
/// ever was.
pub open spec fn filed_before(
    filed: Seq<FiledView>,
    key: KeyView,
    title: Seq<char>,
    other: Seq<char>,
) -> bool {
    exists|i: int|
        0 <= i < filed.len() && reaches(key, #[trigger] filed[i]) && filed[i].title == title
            && forall|j: int|
            0 <= j < filed.len() && reaches(key, #[trigger] filed[j]) && filed[j].title == other
                ==> i < j
}

/// Candidates stand in the order in which they were first filed under a spelling
/// the key reaches.
pub proof fn law_candidates_stand_as_they_were_filed(
    filed: Seq<FiledView>,
    key: KeyView,
    a: int,
    b: int,
)
    requires
        0 <= a < b < candidates_of(filed, key).len(),
    ensures
        filed_before(filed, key, candidates_of(filed, key)[a], candidates_of(filed, key)[b]),
    decreases filed.len(),
{
    let shorter = filed.drop_last();
    let earlier = candidates_of(shorter, key);
    let found = candidates_of(filed, key);
    law_candidates_are_the_entries_reached(shorter, key);
    if b < earlier.len() {
        law_candidates_stand_as_they_were_filed(shorter, key, a, b);
        let i = choose|i: int|
            0 <= i < shorter.len() && reaches(key, #[trigger] shorter[i]) && shorter[i].title
                == earlier[a] && forall|j: int|
                0 <= j < shorter.len() && reaches(key, #[trigger] shorter[j]) && shorter[j].title
                    == earlier[b] ==> i < j;
        assert(filed[i] == shorter[i]);
        assert forall|j: int|
            0 <= j < filed.len() && reaches(key, #[trigger] filed[j]) && filed[j].title
                == found[b] implies i < j by {
            if j < shorter.len() {
                assert(shorter[j] == filed[j]);
            }
        }
    } else {
        assert(earlier.contains(earlier[a]));
        let i = choose|i: int|
            0 <= i < shorter.len() && reaches(key, #[trigger] shorter[i]) && shorter[i].title
                == earlier[a];
        assert(filed[i] == shorter[i]);
        assert forall|j: int|
            0 <= j < filed.len() && reaches(key, #[trigger] filed[j]) && filed[j].title
                == found[b] implies i < j by {
            if j < shorter.len() {
                assert(shorter[j] == filed[j]);
                assert(earlier.contains(found[b]));
            }
        }
    }
}

/// A key reaches a spelling exactly where the letters, the season and the part
/// are the same and the key has no marks or the same ones.
pub proof fn law_what_a_key_reaches(key: KeyView, filed: FiledView)
    ensures
        reaches(key, filed) <==> key.letters == filed.key.letters && key.season == filed.key.season
            && key.part == filed.key.part && (key.marks.len() == 0 || key.marks == filed.key.marks),
{
    if key.letters == filed.key.letters && key.season == filed.key.season && key.part
        == filed.key.part {
        assert(unmarked(key) =~= unmarked(filed.key));
    }
}

/// A spelling is filed behind all that was filed, under the key of its own text
/// and as it is spelled, and nowhere where it has no key.
pub proof fn law_what_is_filed(filed: Seq<FiledView>, spelling: Seq<char>, title: Seq<char>)
    ensures
        match key_of_title(spelling) {
            None => with_spelling(filed, spelling, title) == filed,
            Some(key) => {
                let now = with_spelling(filed, spelling, title);
                &&& now.len() == filed.len() + 1
                &&& forall|i: int| 0 <= i < filed.len() ==> #[trigger] now[i] == filed[i]
                &&& now[filed.len() as int].key == key
                &&& now[filed.len() as int].spelled == spelling
                &&& now[filed.len() as int].title == title
            },
        },
{
}

/// Entries are filed one after the other, each under its spellings in order.
pub proof fn law_entries_are_filed_in_order(
    filed: Seq<FiledView>,
    spellings: Seq<Seq<char>>,
    spelling: Seq<char>,
    titles: Seq<Seq<char>>,
    title: Seq<char>,
)
    ensures
        with_spellings(filed, Seq::empty(), title) == filed,
        with_spellings(filed, spellings.push(spelling), title) == with_spelling(
            with_spellings(filed, spellings, title),
            spelling,
            title,
        ),
        with_titles(filed, Seq::empty()) == filed,
        with_titles(filed, titles.push(title)) == with_spelling(
            with_titles(filed, titles),
            title,
            title,
        ),
{
    assert(spellings.push(spelling).drop_last() =~= spellings);
    assert(titles.push(title).drop_last() =~= titles);
}

/// The spellings of an entry are those filed under its title, in the order in
/// which they were filed.
pub proof fn law_spellings_are_those_filed(filed: Seq<FiledView>, one: FiledView, title: Seq<char>)
    ensures
        spellings_filed(Seq::empty(), title).len() == 0,
        one.title == title ==> spellings_filed(filed.push(one), title) == spellings_filed(
            filed,
            title,
        ).push(one.spelled),
        one.title != title ==> spellings_filed(filed.push(one), title) == spellings_filed(
            filed,
            title,
        ),
{
    assert(filed.push(one).drop_last() =~= filed);
}

} // verus!
