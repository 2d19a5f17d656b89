//! The entry a name means because the user said so.
//!
//! The first stage, consulted before any heuristic, and the user overriding the
//! program rather than helping it. What it holds is what they typed: an
//! assignment keeps its own text, and the key is an index derived from it.
//! Deriving a key throws text away, and nothing turns one back into the text it
//! came from. A key kept in the text's place would leave nothing to show the
//! user, and nothing for a corrected rule of the key to be applied to.
//!
//! **An assignment is checked against the corpus while it is being made**,
//! which is the one moment the user can still do something about it. Three
//! things are refused, each named by [`Unnameable`]: text that spells no
//! letters, a title no entry carries, and text that already means one entry of
//! its own. The last is the dangerous one. An assignment names a *spelling*,
//! not a file, so every file spelling that way follows it: text already
//! reaching `Mushoku Tensei: Jobless Reincarnation Cour 2` and pointed at the
//! special that extends the same name sends every file of the cour to the
//! special, until somebody takes the assignment back.
//!
//! **Text reaching several entries is not refused**, because there the corpus
//! answers nothing: `Nisekoi` and `Nisekoi:` are two entries a filename cannot
//! tell apart, and naming one of them by hand is how a person settles what the
//! text cannot. Text reaching nothing is not refused either, and is what this
//! stage is for: an abbreviation a filename carries and no entry spells.

use vstd::prelude::*;

use crate::recognise::corpus::Corpus;
#[allow(unused_imports)]
use crate::recognise::corpus::{candidates_of, FiledView};
use crate::recognise::normalise::Key;
#[allow(unused_imports)]
use crate::recognise::normalise::{key_of_parsed, key_of_title, natural, KeyView};
use crate::recognise::parse::Parsed;
#[allow(unused_imports)]
use crate::recognise::parse::ParsedView;
use crate::text::same;
#[allow(unused_imports)]
use crate::text::str_texts;

verus! {

/// One assignment, as the user made it.
///
/// The text, and what its key holds that the text does not. An assignment made
/// from a file takes its season and its part from the parser, which has
/// already cut them out of the title, so the text alone does not tell a reader
/// why a file of another season does not follow it. The three together do.
#[derive(Debug, PartialEq, Eq)]
pub struct Assignment {
    /// The text they gave, kept verbatim so that it can be shown back to them
    /// and written to a store.
    pub spelled: String,
    /// The season the assignment is bound to, where its key holds one.
    pub season: Option<u32>,
    /// The part the assignment is bound to, where its key holds one.
    pub part: Option<u32>,
    /// The entry it names, as the corpus spells it.
    pub title: String,
}

/// One assignment, as contracts speak of it.
#[verifier::ext_equal]
pub struct AssignmentView {
    /// The text that was given.
    pub spelled: Seq<char>,
    /// The season its key holds.
    pub season: Option<nat>,
    /// The part its key holds.
    pub part: Option<nat>,
    /// The entry it names.
    pub title: Seq<char>,
}

impl View for Assignment {
    type V = AssignmentView;

    open spec fn view(&self) -> AssignmentView {
        AssignmentView {
            spelled: self.spelled@,
            season: natural(self.season),
            part: natural(self.part),
            title: self.title@,
        }
    }
}

impl Clone for Assignment {
    fn clone(&self) -> (copy: Self)
        ensures
            copy@ == self@,
    {
        Self {
            spelled: self.spelled.clone(),
            season: self.season,
            part: self.part,
            title: self.title.clone(),
        }
    }
}

/// An assignment that may be missing, as contracts speak of it.
pub open spec fn assignment_view(assignment: Option<Assignment>) -> Option<AssignmentView> {
    match assignment {
        Some(made) => Some(made@),
        None => None,
    }
}

/// What an assignment did, for the command that made it to report.
#[derive(Debug, PartialEq, Eq)]
pub struct Named {
    /// What was recorded.
    pub recorded: Assignment,
    /// The assignment this one displaced, where the text was already named.
    ///
    /// Reported rather than silently overwritten: a user who names the same
    /// text twice has changed their mind, and the one they are leaving is the
    /// one they would have to remember to put back.
    pub replaced: Option<Assignment>,
}

/// Why an assignment was not made.
#[derive(Debug, PartialEq, Eq)]
pub enum Unnameable {
    /// The text spells no letters, so nothing could ever be looked up by it.
    Unspellable {
        /// The text that was given.
        spelled: String,
    },
    /// No entry in the corpus carries that title.
    NotOnTheList {
        /// The title that was named.
        title: String,
    },
    /// The text already means one entry, and it is not the one being named.
    ///
    /// Refused rather than allowed with a warning, because what it costs is
    /// every file of the entry it takes from, and a warning is read once while
    /// the assignment answers every file after it.
    AlreadyMeans {
        /// The text that was given.
        spelled: String,
        /// The entry that text reaches today.
        entry: String,
    },
}

/// Why an assignment was not made, as contracts speak of it.
pub enum UnnameableView {
    /// The text spells no letters.
    Unspellable { spelled: Seq<char> },
    /// No entry in the corpus carries that title.
    NotOnTheList { title: Seq<char> },
    /// The text already means one entry, and it is not the one being named.
    AlreadyMeans { spelled: Seq<char>, entry: Seq<char> },
}

impl View for Unnameable {
    type V = UnnameableView;

    open spec fn view(&self) -> UnnameableView {
        match self {
            Unnameable::Unspellable { spelled } => UnnameableView::Unspellable {
                spelled: spelled@,
            },
            Unnameable::NotOnTheList { title } => UnnameableView::NotOnTheList { title: title@ },
            Unnameable::AlreadyMeans { spelled, entry } => UnnameableView::AlreadyMeans {
                spelled: spelled@,
                entry: entry@,
            },
        }
    }
}

/// What a refusal is told to the user as.
pub open spec fn refusal_message(refused: UnnameableView) -> Seq<char> {
    match refused {
        UnnameableView::Unspellable { spelled } => "`"@ + spelled
            + "` spells no letters to look anything up by"@,
        UnnameableView::NotOnTheList { title } => "no entry is titled `"@ + title + "`"@,
        UnnameableView::AlreadyMeans { spelled, entry } => "`"@ + spelled + "` already means `"@
            + entry + "`, whose files it would take"@,
    }
}

impl Unnameable {
    /// The refusal, told to the user.
    pub fn message(&self) -> (message: String)
        ensures
            message@ == refusal_message(self@),
    {
        match self {
            Unnameable::Unspellable { spelled } => {
                let mut message = String::from_str("`");
                message.append(spelled.as_str());
                message.append("` spells no letters to look anything up by");
                message
            },
            Unnameable::NotOnTheList { title } => {
                let mut message = String::from_str("no entry is titled `");
                message.append(title.as_str());
                message.append("`");
                message
            },
            Unnameable::AlreadyMeans { spelled, entry } => {
                let mut message = String::from_str("`");
                message.append(spelled.as_str());
                message.append("` already means `");
                message.append(entry.as_str());
                message.append("`, whose files it would take");
                message
            },
        }
    }
}

/// Where a key stands among the assignments, or their number where it does not.
pub open spec fn place_of(named: Seq<(KeyView, AssignmentView)>, key: KeyView) -> int
    decreases named.len(),
{
    if named.len() == 0 {
        0
    } else if named[0].0 == key {
        0
    } else {
        1 + place_of(named.drop_first(), key)
    }
}

/// The assignment a key was given, where it was given one.
pub open spec fn assigned_to(
    named: Seq<(KeyView, AssignmentView)>,
    key: KeyView,
) -> Option<AssignmentView> {
    let at = place_of(named, key);
    if at < named.len() {
        Some(named[at].1)
    } else {
        None
    }
}

/// The assignments with one more, in the place of the one it displaces.
pub open spec fn with_assignment(
    named: Seq<(KeyView, AssignmentView)>,
    key: KeyView,
    assignment: AssignmentView,
) -> Seq<(KeyView, AssignmentView)> {
    let at = place_of(named, key);
    if at < named.len() {
        named.update(at, (key, assignment))
    } else {
        named.push((key, assignment))
    }
}

/// The assignments without the one a key was given.
pub open spec fn without_assignment(
    named: Seq<(KeyView, AssignmentView)>,
    key: KeyView,
) -> Seq<(KeyView, AssignmentView)> {
    let at = place_of(named, key);
    if at < named.len() {
        named.remove(at)
    } else {
        named
    }
}

/// No key was given two assignments.
pub open spec fn one_each(named: Seq<(KeyView, AssignmentView)>) -> bool {
    forall|i: int, j: int|
        0 <= i < j < named.len() ==> (#[trigger] named[i]).0 != (#[trigger] named[j]).0
}

/// Whether an entry of the corpus carries a title.
///
/// An entry answers to its own title, because the corpus files every entry under
/// the key of the title as well as under its other spellings. A title its own
/// key does not reach is a title no entry carries.
pub open spec fn carried(filed: Seq<FiledView>, title: Seq<char>) -> bool {
    match key_of_title(title) {
        Some(key) => candidates_of(filed, key).contains(title),
        None => false,
    }
}

/// Why a key cannot be given a title, where it cannot.
pub open spec fn refusal(
    filed: Seq<FiledView>,
    key: KeyView,
    spelled: Seq<char>,
    title: Seq<char>,
) -> Option<UnnameableView> {
    let reached = candidates_of(filed, key);
    if !carried(filed, title) {
        Some(UnnameableView::NotOnTheList { title })
    } else if reached.len() == 1 && reached[0] != title {
        Some(UnnameableView::AlreadyMeans { spelled, entry: reached[0] })
    } else {
        None
    }
}

/// What recording an assignment came to: the assignments it left, and what was
/// answered.
pub open spec fn recorded(
    before: Seq<(KeyView, AssignmentView)>,
    after: Seq<(KeyView, AssignmentView)>,
    answer: Result<Named, Unnameable>,
    filed: Seq<FiledView>,
    key: Option<KeyView>,
    spelled: Seq<char>,
    title: Seq<char>,
) -> bool {
    match key {
        None => {
            &&& answer matches Err(refused) && refused@ == (UnnameableView::Unspellable { spelled })
            &&& after == before
        },
        Some(key) => match refusal(filed, key, spelled, title) {
            Some(why) => {
                &&& answer matches Err(refused) && refused@ == why
                &&& after == before
            },
            None => {
                let assignment = AssignmentView {
                    spelled,
                    season: key.season,
                    part: key.part,
                    title,
                };
                &&& answer matches Ok(named) && named.recorded@ == assignment && assignment_view(
                    named.replaced,
                ) == assigned_to(before, key)
                &&& after == with_assignment(before, key, assignment)
            },
        },
    }
}

/// The title a file is named by, or nothing where the parser found none.
pub open spec fn title_or_nothing(parsed: ParsedView) -> Seq<char> {
    match parsed.title {
        Some(title) => title,
        None => Seq::empty(),
    }
}

/// One assignment under its key.
#[derive(Debug)]
struct Entry {
    key: Key,
    assignment: Assignment,
}

/// The entries the user has named, looked up before any heuristic.
#[derive(Debug)]
pub struct Altnames {
    named: Vec<Entry>,
}

spec fn entry_views(named: Seq<Entry>) -> Seq<(KeyView, AssignmentView)> {
    named.map_values(|entry: Entry| (entry.key@, entry.assignment@))
}

impl View for Altnames {
    type V = Seq<(KeyView, AssignmentView)>;

    closed spec fn view(&self) -> Seq<(KeyView, AssignmentView)> {
        entry_views(self.named@)
    }
}

/// Where a key stands is the first place that holds it.
proof fn lemma_place_is_the_first(named: Seq<(KeyView, AssignmentView)>, key: KeyView)
    ensures
        0 <= place_of(named, key) <= named.len(),
        place_of(named, key) < named.len() ==> named[place_of(named, key)].0 == key,
        forall|i: int| 0 <= i < place_of(named, key) ==> (#[trigger] named[i]).0 != key,
    decreases named.len(),
{
    if named.len() > 0 && named[0].0 != key {
        let rest = named.drop_first();
        lemma_place_is_the_first(rest, key);
        assert forall|i: int| 0 <= i < place_of(named, key) implies (#[trigger] named[i]).0
            != key by {
            if i > 0 {
                assert(rest[i - 1] == named[i]);
            }
        }
    }
}

/// The first place that holds a key is where it stands.
proof fn lemma_the_first_is_the_place(
    named: Seq<(KeyView, AssignmentView)>,
    key: KeyView,
    at: int,
)
    requires
        0 <= at <= named.len(),
        at < named.len() ==> named[at].0 == key,
        forall|i: int| 0 <= i < at ==> (#[trigger] named[i]).0 != key,
    ensures
        place_of(named, key) == at,
{
    lemma_place_is_the_first(named, key);
}

impl Altnames {
    #[verifier::type_invariant]
    spec fn keeps_one_each(self) -> bool {
        one_each(entry_views(self.named@))
    }

    /// Nothing named yet.
    pub fn new() -> (altnames: Self)
        ensures
            altnames@ == Seq::<(KeyView, AssignmentView)>::empty(),
    {
        let altnames = Self { named: Vec::new() };
        assert(altnames@ =~= Seq::<(KeyView, AssignmentView)>::empty());
        altnames
    }

    /// Name the entry a piece of text means.
    ///
    /// # Errors
    ///
    /// [`Unnameable`], and the refusal says which of the three it is. Each is a
    /// thing the user can still correct.
    pub fn name(&mut self, spelled: &str, title: &str, corpus: &Corpus) -> (answer: Result<
        Named,
        Unnameable,
    >)
        ensures
            recorded(
                old(self)@,
                final(self)@,
                answer,
                corpus@,
                key_of_title(spelled@),
                spelled@,
                title@,
            ),
    {
        match Key::from_title(spelled) {
            Some(key) => self.record(key, spelled.to_owned(), title, corpus),
            None => Err(Unnameable::Unspellable { spelled: spelled.to_owned() }),
        }
    }

    /// Name the entry a file means, from what that file spelled.
    ///
    /// The way to name something without typing it: both sides of the
    /// comparison then come from the parser, so a season or a part the parser
    /// took out of the title is in the key here as well. Text typed by hand
    /// carries neither unless it spells them, and an assignment that lost the
    /// season misses the file it was made for and catches the first season
    /// instead.
    ///
    /// # Errors
    ///
    /// [`Unnameable`], as [`name`](Altnames::name).
    pub fn name_as_parsed(&mut self, parsed: &Parsed, title: &str, corpus: &Corpus) -> (answer:
        Result<Named, Unnameable>)
        ensures
            recorded(
                old(self)@,
                final(self)@,
                answer,
                corpus@,
                key_of_parsed(parsed@),
                title_or_nothing(parsed@),
                title@,
            ),
    {
        let spelled = match &parsed.title {
            Some(title) => title.clone(),
            None => String::new(),
        };
        match Key::from_parsed(parsed) {
            Some(key) => self.record(key, spelled, title, corpus),
            None => Err(Unnameable::Unspellable { spelled }),
        }
    }

    /// File one assignment, once the corpus has been asked about it.
    fn record(&mut self, key: Key, spelled: String, title: &str, corpus: &Corpus) -> (answer:
        Result<Named, Unnameable>)
        ensures
            recorded(
                old(self)@,
                final(self)@,
                answer,
                corpus@,
                Some(key@),
                spelled@,
                title@,
            ),
    {
        if !is_carried(corpus, title) {
            return Err(Unnameable::NotOnTheList { title: title.to_owned() });
        }
        let reached = corpus.candidates(&key);
        assert(str_texts(reached@).len() == reached@.len());
        if reached.len() == 1 {
            assert(str_texts(reached@)[0] == reached@[0]@);
            if !same(reached[0], title) {
                return Err(Unnameable::AlreadyMeans { spelled, entry: reached[0].to_owned() });
            }
        }
        let recorded = Assignment {
            spelled,
            season: key.season(),
            part: key.part(),
            title: title.to_owned(),
        };
        let replaced = self.insert(key, recorded.clone());
        Ok(Named { recorded, replaced })
    }

    /// Put an assignment under its key, and answer the one it displaced.
    fn insert(&mut self, key: Key, assignment: Assignment) -> (replaced: Option<Assignment>)
        ensures
            final(self)@ == with_assignment(old(self)@, key@, assignment@),
            assignment_view(replaced) == assigned_to(old(self)@, key@),
    {
        proof {
            use_type_invariant(&*self);
            lemma_place_is_the_first(self@, key@);
        }
        let at = self.find(&key);
        let ghost before = self@;
        let ghost view = (key@, assignment@);
        let mut named: Vec<Entry> = Vec::new();
        std::mem::swap(&mut named, &mut self.named);
        let mut replaced: Option<Assignment> = None;
        if at < named.len() {
            replaced = Some(named[at].assignment.clone());
            assert(before[at as int] == (named@[at as int].key@, named@[at as int].assignment@));
            named.set(at, Entry { key, assignment });
            assert(entry_views(named@) =~= before.update(at as int, view));
        } else {
            named.push(Entry { key, assignment });
            assert(entry_views(named@) =~= before.push(view));
        }
        self.named = named;
        replaced
    }

    /// Where a key stands among the assignments.
    fn find(&self, key: &Key) -> (at: usize)
        ensures
            at == place_of(self@, key@),
            at <= self.named@.len(),
    {
        let ghost all = self@;
        let mut at: usize = 0;
        while at < self.named.len()
            invariant
                at <= self.named@.len(),
                all == self@,
                all == entry_views(self.named@),
                forall|i: int| 0 <= i < at ==> (#[trigger] all[i]).0 != key@,
            decreases self.named@.len() - at,
        {
            assert(all[at as int].0 == self.named@[at as int].key@);
            if self.named[at].key.is(key) {
                proof {
                    lemma_the_first_is_the_place(all, key@, at as int);
                }
                return at;
            }
            at += 1;
        }
        proof {
            lemma_the_first_is_the_place(all, key@, at as int);
        }
        at
    }

    /// Undo an assignment, and answer the one that was undone.
    ///
    /// Nothing where that text names nothing. Without this an assignment made
    /// in error outranks every heuristic for as long as the program runs.
    pub fn forget(&mut self, spelled: &str) -> (forgotten: Option<Assignment>)
        ensures
            match key_of_title(spelled@) {
                Some(key) => {
                    &&& final(self)@ == without_assignment(old(self)@, key)
                    &&& assignment_view(forgotten) == assigned_to(old(self)@, key)
                },
                None => final(self)@ == old(self)@ && forgotten is None,
            },
    {
        match Key::from_title(spelled) {
            Some(key) => {
                proof {
                    use_type_invariant(&*self);
                    lemma_place_is_the_first(self@, key@);
                }
                let at = self.find(&key);
                if at >= self.named.len() {
                    return None;
                }
                let ghost before = self@;
                let mut named: Vec<Entry> = Vec::new();
                std::mem::swap(&mut named, &mut self.named);
                assert(before[at as int] == (
                    named@[at as int].key@,
                    named@[at as int].assignment@,
                ));
                let entry = named.remove(at);
                assert(entry_views(named@) =~= before.remove(at as int));
                self.named = named;
                Some(entry.assignment)
            },
            None => None,
        }
    }

    /// Every assignment, for a store to write and an explanation to print.
    pub fn assignments(&self) -> (assignments: Vec<&Assignment>)
        ensures
            assignments@.map_values(|made: &Assignment| made@) == self@.map_values(
                |entry: (KeyView, AssignmentView)| entry.1,
            ),
    {
        let mut assignments: Vec<&Assignment> = Vec::new();
        let ghost all = self@;
        let ghost expected = all.map_values(|entry: (KeyView, AssignmentView)| entry.1);
        let mut i: usize = 0;
        while i < self.named.len()
            invariant
                i <= self.named@.len(),
                all == self@,
                all == entry_views(self.named@),
                expected == all.map_values(|entry: (KeyView, AssignmentView)| entry.1),
                assignments@.map_values(|made: &Assignment| made@) == expected.take(i as int),
            decreases self.named@.len() - i,
        {
            let ghost before = assignments@.map_values(|made: &Assignment| made@);
            assignments.push(&self.named[i].assignment);
            assert(expected[i as int] == self.named@[i as int].assignment@);
            i += 1;
            assert(assignments@.map_values(|made: &Assignment| made@) =~= before.push(
                expected[i - 1],
            ));
            assert(expected.take(i as int) =~= before.push(expected[i - 1]));
        }
        assert(expected.take(i as int) =~= expected);
        assignments
    }

    /// The assignment a key was given by hand, where one was.
    pub fn assigned(&self, key: &Key) -> (assignment: Option<&Assignment>)
        ensures
            match (assignment, assigned_to(self@, key@)) {
                (Some(made), Some(expected)) => made@ == expected,
                (None, None) => true,
                _ => false,
            },
    {
        let at = self.find(key);
        if at < self.named.len() {
            assert(self@[at as int].1 == self.named@[at as int].assignment@);
            Some(&self.named[at].assignment)
        } else {
            None
        }
    }
}

impl Default for Altnames {
    fn default() -> (altnames: Self)
        ensures
            altnames@ == Seq::<(KeyView, AssignmentView)>::empty(),
    {
        Self::new()
    }
}

/// Whether an entry of the corpus carries a title.
fn is_carried(corpus: &Corpus, title: &str) -> (answer: bool)
    ensures
        answer == carried(corpus@, title@),
{
    match Key::from_title(title) {
        Some(key) => {
            let reached = corpus.candidates(&key);
            let ghost titles = str_texts(reached@);
            let mut i: usize = 0;
            while i < reached.len()
                invariant
                    i <= reached@.len(),
                    titles == str_texts(reached@),
                    titles == candidates_of(corpus@, key@),
                    key_of_title(title@) == Some(key@),
                    forall|j: int| 0 <= j < i ==> #[trigger] titles[j] != title@,
                decreases reached@.len() - i,
            {
                assert(titles[i as int] == reached@[i as int]@);
                if same(reached[i], title) {
                    assert(titles.contains(title@));
                    return true;
                }
                i += 1;
            }
            false
        },
        None => false,
    }
}

// What naming promises.

/// A key that is named answers with what it was named, and every other key
/// answers as before.
pub proof fn law_naming_is_heard_and_changes_nothing_else(
    named: Seq<(KeyView, AssignmentView)>,
    key: KeyView,
    assignment: AssignmentView,
    other: KeyView,
)
    requires
        one_each(named),
        other != key,
    ensures
        one_each(with_assignment(named, key, assignment)),
        assigned_to(with_assignment(named, key, assignment), key) == Some(assignment),
        assigned_to(with_assignment(named, key, assignment), other) == assigned_to(named, other),
{
    let now = with_assignment(named, key, assignment);
    lemma_place_is_the_first(named, key);
    lemma_place_is_the_first(named, other);
    lemma_the_first_is_the_place(now, key, place_of(named, key));
    let at = place_of(named, other);
    if at < named.len() {
        lemma_the_first_is_the_place(now, other, at);
    } else {
        assert forall|i: int| 0 <= i < now.len() implies (#[trigger] now[i]).0 != other by {
            if i < named.len() {
                assert(named[i].0 != other);
            }
        }
        lemma_the_first_is_the_place(now, other, now.len() as int);
    }
}

/// A key that is forgotten answers nothing, and every other key answers as
/// before.
pub proof fn law_forgetting_changes_nothing_else(
    named: Seq<(KeyView, AssignmentView)>,
    key: KeyView,
    other: KeyView,
)
    requires
        one_each(named),
        other != key,
    ensures
        one_each(without_assignment(named, key)),
        assigned_to(without_assignment(named, key), key) is None,
        assigned_to(without_assignment(named, key), other) == assigned_to(named, other),
{
    let now = without_assignment(named, key);
    lemma_place_is_the_first(named, key);
    lemma_place_is_the_first(named, other);
    let gone = place_of(named, key);
    let at = place_of(named, other);
    assert forall|i: int| 0 <= i < now.len() implies (#[trigger] now[i]).0 != key by {
        if i < gone {
            assert(now[i] == named[i]);
        } else if gone < named.len() {
            assert(now[i] == named[i + 1]);
            assert(named[gone].0 != named[i + 1].0);
        }
    }
    lemma_the_first_is_the_place(now, key, now.len() as int);
    if gone < named.len() {
        assert forall|i: int, j: int| 0 <= i < j < now.len() implies (#[trigger] now[i]).0 != (
        #[trigger] now[j]).0 by {
            let a = if i < gone { i } else { i + 1 };
            let b = if j < gone { j } else { j + 1 };
            assert(now[i] == named[a]);
            assert(now[j] == named[b]);
        }
        if at < named.len() {
            let shifted = if at < gone { at } else { at - 1 };
            assert forall|i: int| 0 <= i < shifted implies (#[trigger] now[i]).0 != other by {
                let a = if i < gone { i } else { i + 1 };
                assert(now[i] == named[a]);
                assert(a < at);
            }
            assert(now[shifted] == named[at]);
            lemma_the_first_is_the_place(now, other, shifted);
        } else {
            assert forall|i: int| 0 <= i < now.len() implies (#[trigger] now[i]).0 != other by {
                let a = if i < gone { i } else { i + 1 };
                assert(now[i] == named[a]);
            }
            lemma_the_first_is_the_place(now, other, now.len() as int);
        }
    }
}

/// Forgetting a text that had not been named before undoes naming it.
pub proof fn law_forgetting_undoes_naming(
    named: Seq<(KeyView, AssignmentView)>,
    key: KeyView,
    assignment: AssignmentView,
)
    requires
        assigned_to(named, key) is None,
    ensures
        without_assignment(with_assignment(named, key, assignment), key) == named,
{
    lemma_place_is_the_first(named, key);
    let now = with_assignment(named, key, assignment);
    assert forall|i: int| 0 <= i < named.len() implies (#[trigger] now[i]).0 != key by {
        assert(now[i] == named[i]);
    }
    lemma_the_first_is_the_place(now, key, named.len() as int);
    assert(now.remove(named.len() as int) =~= named);
}

/// An assignment that was made names an entry the corpus carries.
pub proof fn law_an_assignment_names_an_entry(
    filed: Seq<FiledView>,
    key: KeyView,
    spelled: Seq<char>,
    title: Seq<char>,
)
    requires
        refusal(filed, key, spelled, title) is None,
    ensures
        carried(filed, title),
        candidates_of(filed, key).len() == 1 ==> candidates_of(filed, key)[0] == title,
{
}

/// What naming comes to. A text without a key names nothing. A title no entry
/// carries is not on the list, and a text that reaches one other entry already
/// means it. Either way nothing changes and what was refused is said. Anything
/// else is recorded as it was given, is heard from then on, and hands back what
/// it replaced.
pub proof fn law_what_naming_comes_to(
    before: Seq<(KeyView, AssignmentView)>,
    after: Seq<(KeyView, AssignmentView)>,
    answer: Result<Named, Unnameable>,
    filed: Seq<FiledView>,
    key: Option<KeyView>,
    spelled: Seq<char>,
    title: Seq<char>,
)
    requires
        recorded(before, after, answer, filed, key, spelled, title),
    ensures
        ({
            let on_the_list = key_of_title(title) matches Some(own) && candidates_of(
                filed,
                own,
            ).contains(title);
            match key {
                None => answer matches Err(refused) && refused@ == (UnnameableView::Unspellable {
                    spelled,
                }) && after == before,
                Some(held) => {
                    let reached = candidates_of(filed, held);
                    let taken = reached.len() == 1 && reached[0] != title;
                    &&& !on_the_list ==> (match answer {
                        Err(refused) => refused@ == (UnnameableView::NotOnTheList { title })
                            && after == before,
                        Ok(_) => false,
                    })
                    &&& on_the_list && taken ==> (match answer {
                        Err(refused) => refused@ == (UnnameableView::AlreadyMeans {
                            spelled,
                            entry: reached[0],
                        }) && after == before,
                        Ok(_) => false,
                    })
                    &&& on_the_list && !taken ==> (match answer {
                        Err(_) => false,
                        Ok(named) => {
                            &&& named.recorded@.spelled == spelled
                            &&& named.recorded@.title == title
                            &&& named.recorded@.season == held.season
                            &&& named.recorded@.part == held.part
                            &&& assigned_to(after, held) == Some(named.recorded@)
                            &&& assignment_view(named.replaced) == assigned_to(before, held)
                        },
                    })
                },
            }
        }),
{
    if let Some(held) = key {
        if let Ok(named) = answer {
            lemma_place_is_the_first(before, held);
            let now = with_assignment(before, held, named.recorded@);
            lemma_the_first_is_the_place(now, held, place_of(before, held));
        }
    }
}

/// A key is assigned what stands under it, and nothing where it stands nowhere.
pub proof fn law_a_key_is_assigned_what_stands_under_it(
    named: Seq<(KeyView, AssignmentView)>,
    key: KeyView,
    at: int,
)
    requires
        one_each(named),
    ensures
        0 <= at < named.len() && named[at].0 == key ==> assigned_to(named, key) == Some(named[at].1),
        (forall|i: int| 0 <= i < named.len() ==> (#[trigger] named[i]).0 != key) ==> assigned_to(
            named,
            key,
        ) is None,
{
    lemma_place_is_the_first(named, key);
    if 0 <= at < named.len() && named[at].0 == key {
        let place = place_of(named, key);
        if place < at {
            assert(named[place].0 != named[at].0);
        } else if at < place {
            assert(named[at].0 != key);
        }
    }
}

/// A refusal is told with what was refused: the text that spells nothing, the
/// title no entry carries, or the text and the entry it means already.
pub proof fn law_a_refusal_names_what_was_refused(refused: UnnameableView)
    ensures
        match refused {
            UnnameableView::Unspellable { spelled } => refusal_message(refused) == "`"@ + spelled
                + "` spells no letters to look anything up by"@,
            UnnameableView::NotOnTheList { title } => refusal_message(refused)
                == "no entry is titled `"@ + title + "`"@,
            UnnameableView::AlreadyMeans { spelled, entry } => refusal_message(refused) == "`"@
                + spelled + "` already means `"@ + entry + "`, whose files it would take"@,
        },
{
}

} // verus!
