//! What a client may ask the daemon, and what the daemon answers.
//!
//! On the wire each of these is one line of JSON: one request per line, one or
//! more answers per line. The format is chosen for the moment something is
//! wrong, when `socat - UNIX-CONNECT:...` has to be enough to see what the
//! daemon is saying. A binary encoding would be smaller and would need our own
//! code to read, which is exactly what is unavailable when our own code is the
//! suspect.

use vstd::prelude::*;

use crate::bus::BusEvent;
#[allow(unused_imports)]
use crate::bus::EventView;
use crate::detection::SourceInfo;
#[allow(unused_imports)]
use crate::detection::{source_views, SourceView};
use crate::policy::{Policy, PolicyTable};
#[allow(unused_imports)]
use crate::policy::{policy_of, TableView};
use crate::recognise::altname::Assignment;
#[allow(unused_imports)]
use crate::recognise::altname::AssignmentView;
use crate::recognise::parse::{Episode, Parsed};
#[allow(unused_imports)]
use crate::recognise::parse::ParsedView;
use crate::recognise::{Recognition, Stage};
#[allow(unused_imports)]
use crate::recognise::{RecognitionView, StageView};
use crate::recognition::Decision;
#[allow(unused_imports)]
use crate::recognition::DecisionView;
use crate::text::copies;
#[allow(unused_imports)]
use crate::text::texts;
use crate::{AppName, Capabilities, MediaRef, PlayState, PlayerId};
#[allow(unused_imports)]
use crate::MediaView;

verus! {

/// One request from a client.
#[derive(Debug, PartialEq, Eq)]
pub enum Request {
    /// Every source the daemon has seen, with its policy and capabilities.
    Sources,
    /// Every event from now on, until the connection closes.
    ///
    /// The last request on a connection: what follows is a stream rather than
    /// an answer, and a client that wants to ask something else opens another
    /// connection.
    Watch,
    /// Set the policy for an application.
    SetPolicy {
        /// Which application.
        ///
        /// The application and not a source's identity. Two windows of one
        /// player are two identities and one application, and an identity that
        /// carries a process id does not survive the player restarting.
        app: AppName,
        /// What to do with readings from it.
        policy: Policy,
    },
    /// The most recent recognition decision, and what it was decided by.
    Why,
}

/// One request, as contracts speak of it.
pub enum RequestView {
    /// Every source the daemon has seen.
    Sources,
    /// Every event from now on.
    Watch,
    /// Set the policy for an application.
    SetPolicy {
        /// Which application.
        app: Seq<char>,
        /// What to do with readings from it.
        policy: Policy,
    },
    /// The most recent decision.
    Why,
}

impl View for Request {
    type V = RequestView;

    open spec fn view(&self) -> RequestView {
        match self {
            Request::Sources => RequestView::Sources,
            Request::Watch => RequestView::Watch,
            Request::SetPolicy { app, policy } => RequestView::SetPolicy {
                app: app@,
                policy: *policy,
            },
            Request::Why => RequestView::Why,
        }
    }
}

impl Clone for Request {
    fn clone(&self) -> (copy: Self)
        ensures
            copy@ == self@,
    {
        match self {
            Request::Sources => Request::Sources,
            Request::Watch => Request::Watch,
            Request::SetPolicy { app, policy } => Request::SetPolicy {
                app: app.clone(),
                policy: *policy,
            },
            Request::Why => Request::Why,
        }
    }
}

/// One source as a listing shows it.
///
/// The source as the platform describes it, with the policy in force for it.
/// The two travel together because the listing exists to answer "why is my
/// player being ignored", and an answer assembled from two calls could show a
/// policy that was no longer the one being applied.
#[derive(Debug, PartialEq, Eq)]
pub struct SourceListing {
    /// The stable identity the platform provides, unique per instance.
    pub player: PlayerId,
    /// The application it belongs to, which policy is keyed on.
    pub app: AppName,
    /// What the daemon does with readings from it.
    pub policy: Policy,
    /// What it is able to report.
    pub capabilities: Capabilities,
    /// What it was doing when the daemon last looked.
    pub state: PlayState,
}

/// One source as a listing shows it, as contracts speak of it.
pub struct ListingView {
    /// Its identity.
    pub player: Seq<char>,
    /// The application it belongs to.
    pub app: Seq<char>,
    /// What the daemon does with readings from it.
    pub policy: Policy,
    /// What it is able to report.
    pub capabilities: Capabilities,
    /// What it was doing.
    pub state: PlayState,
}

impl View for SourceListing {
    type V = ListingView;

    open spec fn view(&self) -> ListingView {
        ListingView {
            player: self.player@,
            app: self.app@,
            policy: self.policy,
            capabilities: self.capabilities,
            state: self.state,
        }
    }
}

impl Clone for SourceListing {
    fn clone(&self) -> (copy: Self)
        ensures
            copy@ == self@,
    {
        SourceListing {
            player: self.player.clone(),
            app: self.app.clone(),
            policy: self.policy,
            capabilities: self.capabilities,
            state: self.state,
        }
    }
}

/// Each of some listed sources, as contracts speak of it.
pub open spec fn listing_views(listed: Seq<SourceListing>) -> Seq<ListingView> {
    listed.map_values(|source: SourceListing| source@)
}

/// A source with a policy beside it.
pub open spec fn listed_with(source: SourceView, policy: Policy) -> ListingView {
    ListingView {
        player: source.player,
        app: source.app,
        policy,
        capabilities: source.capabilities,
        state: source.state,
    }
}

/// Each of some sources with the policy in force for its application.
pub open spec fn listed_under(table: TableView, sources: Seq<SourceView>) -> Seq<ListingView> {
    sources.map_values(|source: SourceView| listed_with(source, policy_of(table, source.app)))
}

impl SourceListing {
    /// One source, with the policy in force for its application.
    pub fn of(source: &SourceInfo, policy: Policy) -> (listing: Self)
        ensures
            listing@ == listed_with(source@, policy),
    {
        Self {
            player: source.player.clone(),
            app: source.app.clone(),
            policy,
            capabilities: source.capabilities,
            state: source.state,
        }
    }
}

/// Some sources, each with the policy in force for its application.
///
/// One table is read for the whole listing, so every line answers about the
/// same moment.
pub fn listing(table: &PolicyTable, sources: &[SourceInfo]) -> (listed: Vec<SourceListing>)
    ensures
        listing_views(listed@) == listed_under(table@, source_views(sources@)),
{
    let mut listed: Vec<SourceListing> = Vec::new();
    let ghost seen = source_views(sources@);
    let ghost all = listed_under(table@, seen);
    let mut i: usize = 0;
    while i < sources.len()
        invariant
            i <= sources@.len(),
            seen == source_views(sources@),
            all == listed_under(table@, seen),
            listing_views(listed@) == all.take(i as int),
        decreases sources@.len() - i,
    {
        let ghost before = listing_views(listed@);
        let source = &sources[i];
        assert(seen[i as int] == source@);
        listed.push(SourceListing::of(source, table.policy_for(&source.app)));
        assert(listing_views(listed@) =~= before.push(all[i as int]));
        assert(all.take(i + 1) =~= before.push(all[i as int]));
        i += 1;
    }
    assert(all.take(i as int) =~= all);
    listed
}

/// The stage that decided, and what it decided by.
#[derive(Debug, PartialEq)]
pub enum DecidedBy {
    /// The assignment the user made, as they made it.
    Altname(Assignment),
    /// An exact match on the normalised key.
    Key,
    /// The best candidate the scorer found, and how well it scored, as the bits
    /// of a double.
    Scored(u64),
}

/// The stage that decided, as contracts speak of it.
pub enum DecidedByView {
    /// The assignment the user made.
    Altname(AssignmentView),
    /// An exact match on the normalised key.
    Key,
    /// The best candidate the scorer found, and its score.
    Scored(u64),
}

impl View for DecidedBy {
    type V = DecidedByView;

    open spec fn view(&self) -> DecidedByView {
        match self {
            DecidedBy::Altname(assignment) => DecidedByView::Altname(assignment@),
            DecidedBy::Key => DecidedByView::Key,
            DecidedBy::Scored(score) => DecidedByView::Scored(*score),
        }
    }
}

impl Clone for DecidedBy {
    fn clone(&self) -> (copy: Self)
        ensures
            copy@ == self@,
    {
        match self {
            DecidedBy::Altname(assignment) => DecidedBy::Altname(assignment.clone()),
            DecidedBy::Key => DecidedBy::Key,
            DecidedBy::Scored(score) => DecidedBy::Scored(*score),
        }
    }
}

/// A stage, as a client is told it.
pub open spec fn stage_told(stage: StageView) -> DecidedByView {
    match stage {
        StageView::Altname(assignment) => DecidedByView::Altname(assignment),
        StageView::Key => DecidedByView::Key,
        StageView::Scored(score) => DecidedByView::Scored(score as u64),
    }
}

impl DecidedBy {
    /// A stage, as a client is told it.
    pub fn of(stage: &Stage) -> (told: Self)
        ensures
            told@ == stage_told(stage@),
    {
        match stage {
            Stage::Altname(assignment) => DecidedBy::Altname(assignment.clone()),
            Stage::Key => DecidedBy::Key,
            Stage::Scored(score) => DecidedBy::Scored(score.value()),
        }
    }
}

/// What recognition answered, on the wire.
///
/// A form of its own rather than the domain's, because a score is a checked
/// proportion that deliberately cannot be made of any number: a message
/// carrying a score of five must not be able to become one. Here a score is a
/// number, and a consumer that needs the checked kind converts through the
/// check.
#[derive(Debug, PartialEq)]
pub enum Outcome {
    /// A title, an episode and the stage that decided.
    Recognised {
        /// The title as the corpus spells it.
        title: String,
        /// The episode in the release's numbering, as the name spelled it.
        episode: Episode,
        /// Which stage decided, and what it decided by.
        stage: DecidedBy,
    },
    /// Several titles the name reaches, and nothing in it to choose between.
    Ambiguous {
        /// The entries it reaches, as the corpus spells them.
        candidates: Vec<String>,
    },
    /// Nothing matched.
    Unrecognised {
        /// How close the best candidate came, where there was one to compare,
        /// as the bits of a double.
        best: Option<u64>,
    },
}

/// What recognition answered, as contracts speak of it.
pub enum ToldView {
    /// A title, an episode and the stage that decided.
    Recognised {
        /// The title as the corpus spells it.
        title: Seq<char>,
        /// The episode as the name spelled it.
        episode: Episode,
        /// Which stage decided.
        stage: DecidedByView,
    },
    /// Several titles the name reaches.
    Ambiguous {
        /// The entries it reaches.
        candidates: Seq<Seq<char>>,
    },
    /// Nothing matched.
    Unrecognised {
        /// How close the best candidate came.
        best: Option<u64>,
    },
}

impl View for Outcome {
    type V = ToldView;

    open spec fn view(&self) -> ToldView {
        match self {
            Outcome::Recognised { title, episode, stage } => ToldView::Recognised {
                title: title@,
                episode: *episode,
                stage: stage@,
            },
            Outcome::Ambiguous { candidates } => ToldView::Ambiguous {
                candidates: texts(candidates@),
            },
            Outcome::Unrecognised { best } => ToldView::Unrecognised { best: *best },
        }
    }
}

impl Clone for Outcome {
    fn clone(&self) -> (copy: Self)
        ensures
            copy@ == self@,
    {
        match self {
            Outcome::Recognised { title, episode, stage } => Outcome::Recognised {
                title: title.clone(),
                episode: *episode,
                stage: stage.clone(),
            },
            Outcome::Ambiguous { candidates } => Outcome::Ambiguous {
                candidates: copies(candidates.as_slice()),
            },
            Outcome::Unrecognised { best } => Outcome::Unrecognised { best: *best },
        }
    }
}

/// An answer, as a client is told it.
pub open spec fn answer_told(answer: RecognitionView) -> ToldView {
    match answer {
        RecognitionView::Recognised(found) => ToldView::Recognised {
            title: found.title,
            episode: found.episode,
            stage: stage_told(found.stage),
        },
        RecognitionView::Ambiguous(several) => ToldView::Ambiguous {
            candidates: several.candidates,
        },
        RecognitionView::Unrecognised(refused) => ToldView::Unrecognised {
            best: match refused.best {
                Some(score) => Some(score as u64),
                None => None,
            },
        },
    }
}

impl Outcome {
    /// An answer, as a client is told it.
    pub fn of(answer: &Recognition) -> (told: Self)
        ensures
            told@ == answer_told(answer@),
    {
        match answer {
            Recognition::Recognised(found) => Outcome::Recognised {
                title: found.title.clone(),
                episode: found.episode,
                stage: DecidedBy::of(&found.stage),
            },
            Recognition::Ambiguous(several) => Outcome::Ambiguous {
                candidates: copies(several.candidates.as_slice()),
            },
            Recognition::Unrecognised(refused) => Outcome::Unrecognised {
                best: match refused.best {
                    Some(score) => Some(score.value()),
                    None => None,
                },
            },
        }
    }
}

/// The most recent decision, as a client is told it.
///
/// Whose file, which file, what its name spelled and what recognition
/// answered. The parse travels whole rather than as a title, because the
/// season and the part are what the parser cut out of the title, and they are
/// what an explanation of an assignment has to show.
#[derive(Debug, PartialEq)]
pub struct Explanation {
    /// The source whose reading was decided.
    pub player: PlayerId,
    /// What it had open.
    pub media: MediaRef,
    /// What the name spelled, before anything was matched.
    pub spelled: Parsed,
    /// What recognition answered.
    pub outcome: Outcome,
}

/// The most recent decision, as contracts speak of what a client is told.
pub struct ExplanationView {
    /// The source whose reading was decided.
    pub player: Seq<char>,
    /// What it had open.
    pub media: MediaView,
    /// What the name spelled.
    pub spelled: ParsedView,
    /// What recognition answered.
    pub outcome: ToldView,
}

impl View for Explanation {
    type V = ExplanationView;

    open spec fn view(&self) -> ExplanationView {
        ExplanationView {
            player: self.player@,
            media: self.media@,
            spelled: self.spelled@,
            outcome: self.outcome@,
        }
    }
}

impl Clone for Explanation {
    fn clone(&self) -> (copy: Self)
        ensures
            copy@ == self@,
    {
        Explanation {
            player: self.player.clone(),
            media: self.media.clone(),
            spelled: self.spelled.clone(),
            outcome: self.outcome.clone(),
        }
    }
}

/// A decision, as a client is told it.
pub open spec fn explained(decision: DecisionView) -> ExplanationView {
    ExplanationView {
        player: decision.player,
        media: decision.media,
        spelled: decision.parsed,
        outcome: answer_told(decision.answer),
    }
}

impl Explanation {
    /// A decision, as a client is told it.
    pub fn of(decision: &Decision) -> (explanation: Self)
        ensures
            explanation@ == explained(decision@),
    {
        Self {
            player: decision.player.clone(),
            media: decision.media.clone(),
            spelled: decision.parsed.clone(),
            outcome: Outcome::of(&decision.answer),
        }
    }
}

/// One line of answer.
#[derive(Debug, PartialEq)]
pub enum Response {
    /// Every source, in answer to [`Request::Sources`].
    Sources(Vec<SourceListing>),
    /// One event, in answer to [`Request::Watch`].
    Event(BusEvent),
    /// Events were dropped because this client was not reading fast enough.
    ///
    /// Said rather than passed over. A gap nobody reports reads as nothing
    /// having happened, which on a diagnostic stream is the one reading that
    /// must never be given by accident.
    Lagged {
        /// How many events were dropped.
        missed: u64,
    },
    /// The request was carried out and has nothing to return.
    Done,
    /// The request could not be carried out.
    Error {
        /// What went wrong, rendered for a person.
        message: String,
    },
    /// The most recent decision, in answer to [`Request::Why`], and nothing
    /// where no reading has been decided yet.
    Why(Option<Explanation>),
}

/// One line of answer, as contracts speak of it.
pub enum ResponseView {
    /// Every source.
    Sources(Seq<ListingView>),
    /// One event.
    Event(EventView),
    /// Events were dropped.
    Lagged {
        /// How many.
        missed: u64,
    },
    /// The request was carried out.
    Done,
    /// The request could not be carried out.
    Error {
        /// What went wrong.
        message: Seq<char>,
    },
    /// The most recent decision.
    Why(Option<ExplanationView>),
}

impl View for Response {
    type V = ResponseView;

    open spec fn view(&self) -> ResponseView {
        match self {
            Response::Sources(listed) => ResponseView::Sources(listing_views(listed@)),
            Response::Event(event) => ResponseView::Event(event@),
            Response::Lagged { missed } => ResponseView::Lagged { missed: *missed },
            Response::Done => ResponseView::Done,
            Response::Error { message } => ResponseView::Error { message: message@ },
            Response::Why(Some(explanation)) => ResponseView::Why(Some(explanation@)),
            Response::Why(None) => ResponseView::Why(None),
        }
    }
}

// What clients are told.

/// Each source is listed in its place, as it was seen, beside the policy of its
/// application.
pub proof fn law_what_is_told_of_a_source(table: TableView, sources: Seq<SourceView>, i: int)
    requires
        0 <= i < sources.len(),
    ensures
        listed_under(table, sources).len() == sources.len(),
        listed_under(table, sources)[i].player == sources[i].player,
        listed_under(table, sources)[i].app == sources[i].app,
        listed_under(table, sources)[i].policy == policy_of(table, sources[i].app),
        listed_under(table, sources)[i].capabilities == sources[i].capabilities,
        listed_under(table, sources)[i].state == sources[i].state,
{
}

/// A decision is told whole: whose file, which file, what its name spelled, and
/// the answer with its title, its episode, its stage, its candidates or how close
/// it came.
pub proof fn law_what_is_told_of_a_decision(decision: DecisionView)
    ensures
        ({
            let told = explained(decision);
            &&& told.player == decision.player
            &&& told.media == decision.media
            &&& told.spelled == decision.parsed
            &&& match decision.answer {
                RecognitionView::Recognised(found) => told.outcome matches ToldView::Recognised {
                    title,
                    episode,
                    stage,
                } && title == found.title && episode == found.episode && match found.stage {
                    StageView::Altname(assignment) => stage == DecidedByView::Altname(assignment),
                    StageView::Key => stage == DecidedByView::Key,
                    StageView::Scored(score) => stage == DecidedByView::Scored(score as u64),
                },
                RecognitionView::Ambiguous(several) => told.outcome == (ToldView::Ambiguous {
                    candidates: several.candidates,
                }),
                RecognitionView::Unrecognised(refused) => match refused.best {
                    Some(score) => told.outcome == (ToldView::Unrecognised {
                        best: Some(score as u64),
                    }),
                    None => told.outcome == (ToldView::Unrecognised { best: None }),
                },
            }
        }),
{
}

} // verus!
