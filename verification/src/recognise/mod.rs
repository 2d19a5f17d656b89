//! What a filename turned out to be, and which stage decided it.
//!
//! The pipeline has four stages: a mapping the user made by hand, an exact match
//! on a normalised key, a token index that narrows the corpus to a handful, and
//! a score over what is left. **Only three of them can answer.** The index
//! decides nothing - it hands candidates to the scorer - so [`Stage`] has three
//! variants and not four. Why they run in that order is written on [`Stage`].
//!
//! **A stage is named rather than numbered.** Inserting a stage renumbers every
//! stage after it, while a name says what decided and does not move.

pub mod altname;
pub mod corpus;
pub mod ending;
pub mod glyph;
pub mod index;
pub mod normalise;
pub mod numbering;
pub mod order;
pub mod parse;
pub mod proportion;
pub mod score;
pub mod spelling;
pub mod words;

use vstd::prelude::*;

use crate::recognise::altname::{Altnames, Assignment};
#[allow(unused_imports)]
use crate::recognise::altname::{assigned_to, AssignmentView};
use crate::recognise::corpus::Corpus;
#[allow(unused_imports)]
use crate::recognise::corpus::{candidates_of, FiledView};
use crate::recognise::index::Index;
#[allow(unused_imports)]
use crate::recognise::index::{reached_titles, IndexView};
use crate::recognise::normalise::Key;
#[allow(unused_imports)]
use crate::recognise::normalise::{key_of_parsed, words_spelled, KeyView};
use crate::recognise::parse::{Episode, Parsed};
#[allow(unused_imports)]
use crate::recognise::parse::ParsedView;
#[allow(unused_imports)]
use crate::text::{str_texts, texts};

pub use crate::recognise::proportion::Score;

verus! {

/// The stage that produced an answer.
///
/// In the order they are tried, and the order is the point: a manual assignment
/// is the user overriding the program, so it is consulted before any heuristic
/// rather than after everything else has failed.
#[derive(Debug, PartialEq)]
pub enum Stage {
    /// A mapping the user made by hand, and which one it was.
    Altname(Assignment),
    /// An exact match on the normalised key.
    Key,
    /// The best candidate the scorer found, and how well it scored.
    ///
    /// The score lives inside the stage rather than beside it, so that a stage
    /// which did not score has no score to lose and none to invent. Nought
    /// would read as the worst possible match and one as a perfect comparison
    /// that never happened; both are false of an exact match.
    Scored(Score),
}

/// The stage that produced an answer, as contracts speak of it.
pub enum StageView {
    /// A mapping the user made by hand.
    Altname(AssignmentView),
    /// An exact match on the normalised key.
    Key,
    /// The best candidate the scorer found, and its score.
    Scored(int),
}

impl View for Stage {
    type V = StageView;

    open spec fn view(&self) -> StageView {
        match self {
            Stage::Altname(assignment) => StageView::Altname(assignment@),
            Stage::Key => StageView::Key,
            Stage::Scored(score) => StageView::Scored(score@ as int),
        }
    }
}

impl Clone for Stage {
    fn clone(&self) -> (copy: Self)
        ensures
            copy@ == self@,
    {
        match self {
            Stage::Altname(assignment) => Stage::Altname(assignment.clone()),
            Stage::Key => Stage::Key,
            Stage::Scored(score) => Stage::Scored(*score),
        }
    }
}

/// A filename that was recognised.
///
/// The title is the corpus entry that matched, rather than the text the filename
/// spelled. A [`Refusal`] carries that second thing, and confusing the two is how
/// a near miss gets written down as a title.
#[derive(Debug, PartialEq)]
pub struct Match {
    /// The title as the corpus spells it.
    pub title: String,
    /// The episode in the release's numbering, exactly as the name spelled it.
    ///
    /// The parser's four answers travel here whole, because this is what a
    /// consumer reads and the four lead different places. A film spells none
    /// and can be marked watched; a file holding twelve episodes spells several
    /// and is neither the first nor the twelfth. Reduced to a number and an
    /// absence, the two would arrive alike, and a file of twelve episodes would
    /// mark the series watched.
    pub episode: Episode,
    /// Which stage decided, and how well where it scored.
    pub stage: Stage,
}

/// A filename that was recognised, as contracts speak of it.
pub struct MatchView {
    /// The title as the corpus spells it.
    pub title: Seq<char>,
    /// The episode as the name spelled it.
    pub episode: Episode,
    /// Which stage decided.
    pub stage: StageView,
}

impl View for Match {
    type V = MatchView;

    open spec fn view(&self) -> MatchView {
        MatchView { title: self.title@, episode: self.episode, stage: self.stage@ }
    }
}

impl Clone for Match {
    fn clone(&self) -> (copy: Self)
        ensures
            copy@ == self@,
    {
        Match { title: self.title.clone(), episode: self.episode, stage: self.stage.clone() }
    }
}

/// Why a filename was not recognised.
///
/// Reported and never guessed at. Writing progress against the wrong title is
/// the worst failure this program can have, and a best guess below the threshold
/// is how it is reached.
#[derive(Debug, PartialEq)]
pub struct Refusal {
    /// The title as the filename spelled it, before any match was tried.
    pub parsed: String,
    /// How close the best candidate came, where there was one to compare.
    ///
    /// Absent and low are different answers and lead different places. Absent is
    /// reserved for the index having offered nothing to score at all, which
    /// points at the corpus; a low score says the corpus was searched and
    /// nothing in it was close, which points at the name or at a missing entry.
    pub best: Option<Score>,
}

/// Why a filename was not recognised, as contracts speak of it.
pub struct RefusalView {
    /// The title as the filename spelled it.
    pub parsed: Seq<char>,
    /// How close the best candidate came.
    pub best: Option<int>,
}

/// A score that may be missing, as a number.
pub open spec fn score_view(score: Option<Score>) -> Option<int> {
    match score {
        Some(given) => Some(given@ as int),
        None => None,
    }
}

impl View for Refusal {
    type V = RefusalView;

    open spec fn view(&self) -> RefusalView {
        RefusalView { parsed: self.parsed@, best: score_view(self.best) }
    }
}

impl Clone for Refusal {
    fn clone(&self) -> (copy: Self)
        ensures
            copy@ == self@,
    {
        Refusal { parsed: self.parsed.clone(), best: self.best }
    }
}

/// Several entries one name reaches, and none of them chosen.
///
/// Apart from a [`Refusal`] because the two send a reader to different places.
/// A refusal says the corpus was searched and nothing in it was the title; an
/// ambiguity says the corpus holds the title more than once and the name does
/// not say which. What settles it is the entries' own data - a format, an
/// episode count, a date - which is the list's to answer and not the text's.
#[derive(Debug, PartialEq, Eq)]
pub struct Ambiguity {
    /// The title as the filename spelled it.
    pub parsed: String,
    /// The entries it reaches, as the corpus spells them, in the order the
    /// corpus filed them.
    ///
    /// More than one wherever [`by_key`] built it: one candidate is a [`Match`]
    /// and none is no ambiguity at all.
    pub candidates: Vec<String>,
}

/// Several entries one name reaches, as contracts speak of them.
pub struct AmbiguityView {
    /// The title as the filename spelled it.
    pub parsed: Seq<char>,
    /// The entries it reaches.
    pub candidates: Seq<Seq<char>>,
}

impl View for Ambiguity {
    type V = AmbiguityView;

    open spec fn view(&self) -> AmbiguityView {
        AmbiguityView { parsed: self.parsed@, candidates: texts(self.candidates@) }
    }
}

impl Clone for Ambiguity {
    fn clone(&self) -> (copy: Self)
        ensures
            copy@ == self@,
    {
        Ambiguity {
            parsed: self.parsed.clone(),
            candidates: crate::text::copies(self.candidates.as_slice()),
        }
    }
}

/// What recognition answers with.
#[derive(Debug, PartialEq)]
pub enum Recognition {
    /// A title, and the stage that decided it.
    Recognised(Match),
    /// Several titles, and nothing in the name to choose between them.
    ///
    /// A variant of its own rather than a refusal carrying a list, because a
    /// consumer that treats it as a refusal loses the one thing that makes it
    /// answerable later, and a consumer that treats it as a match has to invent
    /// which candidate it meant.
    Ambiguous(Ambiguity),
    /// Nothing matched, and why.
    ///
    /// A variant rather than an `Err`, because an unrecognised filename is a
    /// fact about the filename and not a failure of the program. Nothing
    /// retries it, nothing logs it as a fault, and something downstream has to
    /// tell the user about it.
    Unrecognised(Refusal),
}

/// What recognition answers with, as contracts speak of it.
pub enum RecognitionView {
    /// A title, and the stage that decided it.
    Recognised(MatchView),
    /// Several titles, and nothing in the name to choose between them.
    Ambiguous(AmbiguityView),
    /// Nothing matched, and why.
    Unrecognised(RefusalView),
}

impl View for Recognition {
    type V = RecognitionView;

    open spec fn view(&self) -> RecognitionView {
        match self {
            Recognition::Recognised(found) => RecognitionView::Recognised(found@),
            Recognition::Ambiguous(several) => RecognitionView::Ambiguous(several@),
            Recognition::Unrecognised(refused) => RecognitionView::Unrecognised(refused@),
        }
    }
}

impl Clone for Recognition {
    fn clone(&self) -> (copy: Self)
        ensures
            copy@ == self@,
    {
        match self {
            Recognition::Recognised(found) => Recognition::Recognised(found.clone()),
            Recognition::Ambiguous(several) => Recognition::Ambiguous(several.clone()),
            Recognition::Unrecognised(refused) => Recognition::Unrecognised(refused.clone()),
        }
    }
}

// The stages that answer.

/// What an exact match on a key comes to, where the entries it reaches are
/// given.
pub open spec fn keyed(
    spelled: Seq<char>,
    candidates: Seq<Seq<char>>,
    episode: Episode,
) -> Option<RecognitionView> {
    if candidates.len() == 0 {
        None
    } else if candidates.len() == 1 {
        Some(
            RecognitionView::Recognised(
                MatchView { title: candidates[0], episode, stage: StageView::Key },
            ),
        )
    } else {
        Some(RecognitionView::Ambiguous(AmbiguityView { parsed: spelled, candidates }))
    }
}

/// What an exact match on the normalised key answers, where it answers at all.
pub open spec fn answered_by_key(parsed: ParsedView, filed: Seq<FiledView>) -> Option<
    RecognitionView,
> {
    match (parsed.title, key_of_parsed(parsed)) {
        (Some(title), Some(key)) => keyed(title, candidates_of(filed, key), parsed.episode),
        _ => None,
    }
}

/// An answer that may be missing is the one a contract speaks of.
pub open spec fn answers(answer: Option<Recognition>, expected: Option<RecognitionView>) -> bool {
    match (answer, expected) {
        (Some(given), Some(view)) => given@ == view,
        (None, None) => true,
        _ => false,
    }
}

/// What an exact match on a key comes to, where the entries it reaches are
/// given.
pub fn answer_by_key(spelled: &str, candidates: &[&str], episode: Episode) -> (answer: Option<
    Recognition,
>)
    ensures
        answers(answer, keyed(spelled@, str_texts(candidates@), episode)),
{
    assert(str_texts(candidates@).len() == candidates@.len());
    if candidates.len() == 0 {
        return None;
    }
    if candidates.len() == 1 {
        assert(str_texts(candidates@)[0] == candidates@[0]@);
        return Some(
            Recognition::Recognised(
                Match { title: candidates[0].to_owned(), episode, stage: Stage::Key },
            ),
        );
    }
    let ghost all = str_texts(candidates@);
    let mut several: Vec<String> = Vec::new();
    let mut i: usize = 0;
    while i < candidates.len()
        invariant
            i <= candidates@.len(),
            all == str_texts(candidates@),
            texts(several@) == all.take(i as int),
        decreases candidates@.len() - i,
    {
        let ghost before = texts(several@);
        several.push(candidates[i].to_owned());
        i += 1;
        assert(texts(several@) =~= before.push(all[i - 1]));
        assert(all.take(i as int) =~= before.push(all[i - 1]));
    }
    assert(all.take(i as int) =~= all);
    Some(Recognition::Ambiguous(Ambiguity { parsed: spelled.to_owned(), candidates: several }))
}

/// What an exact match on the normalised key answers, where it answers at all.
///
/// Nothing where the name reaches no entry: an exact key hits or misses, and a
/// name that misses is what the stages below are for. A refusal is the whole
/// sequence's answer rather than this stage's, so nothing here says a name was
/// not recognised - only that this stage did not recognise it.
///
/// Several entries under one key is an answer, and the answer is that the name
/// does not say. Two list entries share a key honestly - a remake spelled like
/// its original, a season told from the one before it by a mark a filename
/// cannot carry - and picking whichever was filed first writes progress against
/// a title nobody named.
pub fn by_key(parsed: &Parsed, corpus: &Corpus) -> (answer: Option<Recognition>)
    ensures
        answers(answer, answered_by_key(parsed@, corpus@)),
{
    match (&parsed.title, Key::from_parsed(parsed)) {
        (Some(title), Some(key)) => {
            let candidates = corpus.candidates(&key);
            answer_by_key(title.as_str(), candidates.as_slice(), parsed.episode)
        },
        _ => None,
    }
}

/// What the user's own assignments answer, where they answer at all.
pub open spec fn answered_by_hand(
    parsed: ParsedView,
    named: Seq<(KeyView, AssignmentView)>,
) -> Option<RecognitionView> {
    match key_of_parsed(parsed) {
        None => None,
        Some(key) => match assigned_to(named, key) {
            None => None,
            Some(assignment) => Some(
                RecognitionView::Recognised(
                    MatchView {
                        title: assignment.title,
                        episode: parsed.episode,
                        stage: StageView::Altname(assignment),
                    },
                ),
            ),
        },
    }
}

/// What the user's own assignments answer, where they answer at all.
pub fn by_altname(parsed: &Parsed, altnames: &Altnames) -> (answer: Option<Recognition>)
    ensures
        answers(answer, answered_by_hand(parsed@, altnames@)),
{
    match Key::from_parsed(parsed) {
        None => None,
        Some(key) => match altnames.assigned(&key) {
            None => None,
            Some(assignment) => Some(
                Recognition::Recognised(
                    Match {
                        title: assignment.title.clone(),
                        episode: parsed.episode,
                        stage: Stage::Altname(assignment.clone()),
                    },
                ),
            ),
        },
    }
}

/// The entries a name's title reaches by its words.
pub open spec fn reached_by_title(parsed: ParsedView, index: IndexView) -> Seq<Seq<char>> {
    match parsed.title {
        Some(title) => reached_titles(index, words_spelled(title)),
        None => Seq::empty(),
    }
}

/// What the whole sequence answers.
pub open spec fn decided(
    parsed: ParsedView,
    named: Seq<(KeyView, AssignmentView)>,
    filed: Seq<FiledView>,
    index: IndexView,
) -> RecognitionView {
    match answered_by_hand(parsed, named) {
        Some(answer) => answer,
        None => match answered_by_key(parsed, filed) {
            Some(answer) => answer,
            None => score::scored(parsed, reached_by_title(parsed, index), filed),
        },
    }
}

/// What a name means, decided by the whole sequence.
///
/// The user's own assignment first, then an exact match on the key, then the
/// candidates the index narrows to, scored. The first stage that answers is the
/// one that is heard.
pub fn decide(parsed: &Parsed, altnames: &Altnames, corpus: &Corpus, index: &Index) -> (answer:
    Recognition)
    ensures
        answer@ == decided(parsed@, altnames@, corpus@, index@),
{
    if let Some(answer) = by_altname(parsed, altnames) {
        return answer;
    }
    if let Some(answer) = by_key(parsed, corpus) {
        return answer;
    }
    let candidates = match &parsed.title {
        Some(title) => index.candidates(title.as_str()),
        None => {
            let none: Vec<&str> = Vec::new();
            assert(str_texts(none@) =~= Seq::<Seq<char>>::empty());
            none
        },
    };
    score::by_score(parsed, candidates.as_slice(), corpus)
}

// What the sequence promises.

/// An assignment the user made outranks every heuristic.
pub proof fn law_an_assignment_outranks_every_heuristic(
    parsed: ParsedView,
    named: Seq<(KeyView, AssignmentView)>,
    filed: Seq<FiledView>,
    index: IndexView,
    key: KeyView,
    assignment: AssignmentView,
)
    requires
        key_of_parsed(parsed) == Some(key),
        assigned_to(named, key) == Some(assignment),
    ensures
        decided(parsed, named, filed, index) == RecognitionView::Recognised(
            MatchView {
                title: assignment.title,
                episode: parsed.episode,
                stage: StageView::Altname(assignment),
            },
        ),
{
}

/// A name is recognised by its key only as the one entry the key reaches, and
/// several are reported rather than chosen between.
pub proof fn law_a_key_never_chooses(parsed: ParsedView, filed: Seq<FiledView>, key: KeyView)
    requires
        key_of_parsed(parsed) == Some(key),
    ensures
        answered_by_key(parsed, filed) matches Some(RecognitionView::Recognised(found)) ==> found
            == (MatchView {
            title: candidates_of(filed, key)[0],
            episode: parsed.episode,
            stage: StageView::Key,
        }) && candidates_of(filed, key).len() == 1,
        answered_by_key(parsed, filed) matches Some(RecognitionView::Ambiguous(several))
            ==> several.candidates == candidates_of(filed, key) && several.candidates.len() > 1,
        answered_by_key(parsed, filed) is None <==> candidates_of(filed, key).len() == 0,
        !(answered_by_key(parsed, filed) matches Some(RecognitionView::Unrecognised(_))),
{
}

/// The episode an answer carries is the one the name spelled, whichever stage
/// answered.
pub proof fn law_an_answer_carries_the_episode_the_name_spelled(
    parsed: ParsedView,
    named: Seq<(KeyView, AssignmentView)>,
    filed: Seq<FiledView>,
    index: IndexView,
)
    ensures
        decided(parsed, named, filed, index) matches RecognitionView::Recognised(found)
            ==> found.episode == parsed.episode,
{
}

/// A name that spells no title at all is refused, and nothing was compared.
pub proof fn law_a_name_without_a_title_is_refused(
    parsed: ParsedView,
    named: Seq<(KeyView, AssignmentView)>,
    filed: Seq<FiledView>,
    index: IndexView,
)
    requires
        parsed.title is None,
    ensures
        decided(parsed, named, filed, index) == RecognitionView::Unrecognised(
            RefusalView { parsed: Seq::empty(), best: None },
        ),
{
}

/// The stages answer in turn: a name that was not assigned by hand and that a
/// key reaches is answered by the key, as the one entry it reaches or as all of
/// several. A name neither answers is scored against the entries its title's
/// words reach.
pub proof fn law_the_stages_answer_in_turn(
    parsed: ParsedView,
    named: Seq<(KeyView, AssignmentView)>,
    filed: Seq<FiledView>,
    index: IndexView,
    title: Seq<char>,
    key: KeyView,
)
    requires
        parsed.title == Some(title),
        key_of_parsed(parsed) == Some(key),
        assigned_to(named, key) is None,
    ensures
        ({
            let reached = candidates_of(filed, key);
            &&& reached.len() == 1 ==> decided(parsed, named, filed, index)
                == RecognitionView::Recognised(
                MatchView { title: reached[0], episode: parsed.episode, stage: StageView::Key },
            )
            &&& reached.len() > 1 ==> decided(parsed, named, filed, index)
                == RecognitionView::Ambiguous(AmbiguityView { parsed: title, candidates: reached })
            &&& reached.len() == 0 ==> decided(parsed, named, filed, index) == score::scored(
                parsed,
                reached_titles(index, words_spelled(title)),
                filed,
            )
        }),
{
}

/// A name whose title has no key is answered by its words alone.
pub proof fn law_a_name_without_a_key_is_scored(
    parsed: ParsedView,
    named: Seq<(KeyView, AssignmentView)>,
    filed: Seq<FiledView>,
    index: IndexView,
    title: Seq<char>,
)
    requires
        parsed.title == Some(title),
        key_of_parsed(parsed) is None,
    ensures
        decided(parsed, named, filed, index) == score::scored(
            parsed,
            reached_titles(index, words_spelled(title)),
            filed,
        ),
{
}

/// A stage answers exactly where an answer is due, and then with that one.
pub proof fn law_the_answer_given_is_the_one_due(
    answer: Option<Recognition>,
    expected: Option<RecognitionView>,
)
    requires
        answers(answer, expected),
    ensures
        answer is Some <==> expected is Some,
        expected matches Some(due) ==> answer->Some_0@ == due,
{
}

} // verus!
