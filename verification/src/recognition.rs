//! What the daemon decided a file was, kept for `benshi why`.
//!
//! Recognition decides against a corpus the caller supplies. Until a list
//! arrives there is nothing to supply, so the [`Recogniser`] here holds an empty
//! corpus and no assignments, and every name reaches the end of the sequence and
//! is refused. The plumbing is what exists: a round decides, the decision is
//! left here, and a client reads it.
//!
//! One decision is kept, the most recent, the way
//! [`Seen`](crate::detection::Seen) keeps the most recent listing and for the
//! same reason: an explanation is of what the daemon acted on, and a second
//! look would be free to disagree with it.

use vstd::prelude::*;

use crate::path::RawPath;
#[allow(unused_imports)]
use crate::path::name_start;
use crate::recognise::altname::Altnames;
#[allow(unused_imports)]
use crate::recognise::altname::{assigned_to, AssignmentView};
use crate::recognise::corpus::Corpus;
#[allow(unused_imports)]
use crate::recognise::corpus::FiledView;
use crate::recognise::index::Index;
#[allow(unused_imports)]
use crate::recognise::index::{
    is_index_of, law_a_candidate_is_on_the_list, reached_titles, IndexView,
};
#[allow(unused_imports)]
use crate::recognise::normalise::{words_spelled, KeyView};
use crate::recognise::parse::{parse, Parsed};
#[allow(unused_imports)]
use crate::recognise::parse::{parsed_name, ParsedView};
use crate::recognise::{decide, Recognition};
#[allow(unused_imports)]
use crate::recognise::{decided, reached_by_title, RecognitionView, RefusalView};
use crate::{MediaRef, PlayerId};
#[allow(unused_imports)]
use crate::MediaView;

verus! {

/// What a name is decided against: the corpus, its index and the assignments.
#[derive(Debug)]
pub struct Recogniser {
    corpus: Corpus,
    index: Index,
    altnames: Altnames,
}

/// What a name is decided against, as contracts speak of it.
pub struct RecogniserView {
    /// The corpus.
    pub filed: Seq<FiledView>,
    /// Its index.
    pub index: IndexView,
    /// The assignments.
    pub named: Seq<(KeyView, AssignmentView)>,
}

impl View for Recogniser {
    type V = RecogniserView;

    closed spec fn view(&self) -> RecogniserView {
        RecogniserView { filed: self.corpus@, index: self.index@, named: self.altnames@ }
    }
}

/// What a file's name spells: the parse of what follows the last separator.
pub open spec fn spelled_by(path: Seq<u8>) -> ParsedView {
    parsed_name(path.skip(name_start(path) as int))
}

/// What recognition makes of a file.
pub open spec fn made_of(recogniser: RecogniserView, path: Seq<u8>) -> RecognitionView {
    decided(spelled_by(path), recogniser.named, recogniser.filed, recogniser.index)
}

/// Whether there is nothing to match against.
pub open spec fn holds_nothing(recogniser: RecogniserView) -> bool {
    &&& recogniser.filed.len() == 0
    &&& recogniser.named.len() == 0
    &&& is_index_of(recogniser.index, recogniser.filed)
}

impl Recogniser {
    /// Nothing to match against: an empty corpus and no assignments.
    ///
    /// Every name is refused with nothing scored. A list arriving changes what
    /// this holds and not what a round does with it.
    pub fn empty() -> (recogniser: Self)
        ensures
            holds_nothing(recogniser@),
    {
        let corpus = Corpus::new();
        let index = Index::of(&corpus);
        Self { corpus, index, altnames: Altnames::new() }
    }

    /// What a file's name spells, and what recognition made of it.
    ///
    /// The name alone. A directory is not part of what a release spells, and a
    /// folder named after another show would otherwise carry that show's words
    /// into the name the stages read.
    pub fn decide(&self, path: &RawPath) -> (decision: (Parsed, Recognition))
        ensures
            decision.0@ == spelled_by(path@),
            decision.1@ == made_of(self@, path@),
    {
        let name = vstd::slice::slice_to_vec(path.file_name());
        let parsed = parse(&RawPath::from_bytes(name));
        let answer = decide(&parsed, &self.altnames, &self.corpus, &self.index);
        (parsed, answer)
    }
}

/// One decision: whose file, which file, what its name spelled, and the answer.
#[derive(Debug, PartialEq)]
pub struct Decision {
    /// The source whose reading was decided.
    pub player: PlayerId,
    /// What that source had open.
    pub media: MediaRef,
    /// What the name spelled, before anything was matched.
    pub parsed: Parsed,
    /// What recognition answered.
    pub answer: Recognition,
}

/// One decision, as contracts speak of it.
pub struct DecisionView {
    /// The source whose reading was decided.
    pub player: Seq<char>,
    /// What that source had open.
    pub media: MediaView,
    /// What the name spelled.
    pub parsed: ParsedView,
    /// What recognition answered.
    pub answer: RecognitionView,
}

impl View for Decision {
    type V = DecisionView;

    open spec fn view(&self) -> DecisionView {
        DecisionView {
            player: self.player@,
            media: self.media@,
            parsed: self.parsed@,
            answer: self.answer@,
        }
    }
}

impl Clone for Decision {
    fn clone(&self) -> (copy: Self)
        ensures
            copy@ == self@,
    {
        Decision {
            player: self.player.clone(),
            media: self.media.clone(),
            parsed: self.parsed.clone(),
            answer: self.answer.clone(),
        }
    }
}

/// A decision that may not have been made, as contracts speak of it.
pub open spec fn decision_view(decision: Option<Decision>) -> Option<DecisionView> {
    match decision {
        Some(made) => Some(made@),
        None => None,
    }
}

/// The most recent decision, for a client asking why.
///
/// Written by the detection task for every reading it admits that names a
/// file, and read by a client asking `benshi why`.
#[derive(Debug)]
pub struct Decided {
    latest: Option<Decision>,
}

impl View for Decided {
    type V = Option<DecisionView>;

    closed spec fn view(&self) -> Option<DecisionView> {
        decision_view(self.latest)
    }
}

impl Decided {
    /// A record of nothing, which is what is true before the first reading.
    pub fn new() -> (decided: Self)
        ensures
            decided@ is None,
    {
        Self { latest: None }
    }

    /// Replace the record with this decision.
    pub fn record(&mut self, decision: Decision)
        ensures
            final(self)@ == Some(decision@),
    {
        self.latest = Some(decision);
    }

    /// The most recent decision, and none before a reading has been decided.
    pub fn latest(&self) -> (decision: Option<Decision>)
        ensures
            decision_view(decision) == self@,
    {
        match &self.latest {
            Some(decision) => Some(decision.clone()),
            None => None,
        }
    }
}

// What decisions promise.

/// With nothing to match against, every name is refused and nothing was scored.
pub proof fn law_with_nothing_to_match_every_name_is_refused(
    recogniser: RecogniserView,
    path: Seq<u8>,
)
    requires
        holds_nothing(recogniser),
    ensures
        made_of(recogniser, path) == RecognitionView::Unrecognised(
            RefusalView {
                parsed: match spelled_by(path).title {
                    Some(title) => title,
                    None => Seq::empty(),
                },
                best: None,
            },
        ),
{
    let parsed = spelled_by(path);
    let reached = reached_by_title(parsed, recogniser.index);
    if let Some(title) = parsed.title {
        let words = words_spelled(title);
        if reached.len() > 0 {
            assert(reached_titles(recogniser.index, words).contains(reached[0]));
            law_a_candidate_is_on_the_list(
                recogniser.index,
                recogniser.filed,
                words,
                reached[0],
            );
        }
    }
    assert(reached.len() == 0);
}

/// A file is decided by its name and not by its directory: two files of one
/// name are one file to recognition.
pub proof fn law_a_directory_decides_nothing(
    recogniser: RecogniserView,
    one: Seq<u8>,
    other: Seq<u8>,
)
    requires
        one.skip(name_start(one) as int) == other.skip(name_start(other) as int),
    ensures
        spelled_by(one) == spelled_by(other),
        made_of(recogniser, one) == made_of(recogniser, other),
{
}

/// What is read of a file is what follows the last separator of its path, all of
/// it, and the whole path where it holds none.
pub proof fn law_a_file_is_read_by_its_name(
    recogniser: RecogniserView,
    directory: Seq<u8>,
    name: Seq<u8>,
)
    requires
        forall|i: int| 0 <= i < name.len() ==> name[i] != 0x2f,
    ensures
        spelled_by(name) == parsed_name(name),
        spelled_by(directory.push(0x2f) + name) == parsed_name(name),
        made_of(recogniser, directory.push(0x2f) + name) == decided(
            parsed_name(name),
            recogniser.named,
            recogniser.filed,
            recogniser.index,
        ),
{
    lemma_a_name_starts_behind(Seq::empty(), name);
    lemma_a_name_starts_behind(directory.push(0x2f), name);
    assert(Seq::<u8>::empty() + name =~= name);
    assert(name.skip(0) =~= name);
    let path = directory.push(0x2f) + name;
    assert(path.skip((directory.len() + 1) as int) =~= name);
}

proof fn lemma_a_name_starts_behind(head: Seq<u8>, name: Seq<u8>)
    requires
        head.len() > 0 ==> head.last() == 0x2f,
        forall|i: int| 0 <= i < name.len() ==> name[i] != 0x2f,
    ensures
        name_start(head + name) == head.len(),
    decreases name.len(),
{
    let path = head + name;
    if name.len() == 0 {
        assert(path =~= head);
    } else {
        assert(path.last() == name.last());
        assert(path.drop_last() =~= head + name.drop_last());
        lemma_a_name_starts_behind(head, name.drop_last());
    }
}

} // verus!
