//! Detection: what the platform reports, filtered by policy, for the bus.
//!
//! This is where what the adapter read, the policy table and the event bus
//! meet, and it is the only place any of them do. The adapter decides nothing
//! and does not know policy exists; the policy table knows nothing about a bus;
//! the filter between them is here.
//!
//! Policy is applied to **readings** and never to discovery. A denied source is
//! published in the membership exactly as an admitted one is, because a source
//! nobody can see is a source nobody can diagnose, and "why is my player being
//! ignored" has to have somewhere to look.

use vstd::prelude::*;

use crate::bus::BusEvent;
#[allow(unused_imports)]
use crate::bus::{event_views, EventView};
use crate::policy::PolicyTable;
#[allow(unused_imports)]
use crate::policy::{admitted, law_setting_a_policy, policy_of, with_policy, Policy, TableView};
use crate::recognise::order::insert_in_order;
#[allow(unused_imports)]
use crate::recognise::order::{
    in_order, law_any_list_has_an_order, lemma_that_is_the_order, ordered,
};
use crate::recognition::{Decision, Recogniser};
#[allow(unused_imports)]
use crate::recognition::{decision_view, made_of, spelled_by, DecisionView, RecogniserView};
use crate::supervisor::TaskError;
#[allow(unused_imports)]
use crate::supervisor::TaskErrorView;
use crate::text::same;
#[allow(unused_imports)]
use crate::text::str_texts;
use crate::time::Duration;
#[allow(unused_imports)]
use crate::time::span_text;
use crate::{AppName, Capabilities, MediaRef, PlayState, PlayerId, PlayerSnapshot};
#[allow(unused_imports)]
use crate::{identities, MediaView, SnapshotView};
#[allow(unused_imports)]
use crate::recognise::glyph::lowercase_form;
#[allow(unused_imports)]
use crate::trace::snapshot_views;

verus! {

/// One source, as the platform describes it.
#[derive(Debug, PartialEq, Eq)]
pub struct SourceInfo {
    /// The stable identity the platform provides, unique per instance.
    pub player: PlayerId,
    /// The application it belongs to, which policy is keyed on.
    pub app: AppName,
    /// What it is able to report.
    pub capabilities: Capabilities,
    /// What it was doing when the platform was read.
    pub state: PlayState,
}

/// One source, as contracts speak of it.
pub struct SourceView {
    /// Its identity.
    pub player: Seq<char>,
    /// The application it belongs to.
    pub app: Seq<char>,
    /// What it is able to report.
    pub capabilities: Capabilities,
    /// What it was doing.
    pub state: PlayState,
}

impl View for SourceInfo {
    type V = SourceView;

    open spec fn view(&self) -> SourceView {
        SourceView {
            player: self.player@,
            app: self.app@,
            capabilities: self.capabilities,
            state: self.state,
        }
    }
}

impl Clone for SourceInfo {
    fn clone(&self) -> (copy: Self)
        ensures
            copy@ == self@,
    {
        SourceInfo {
            player: self.player.clone(),
            app: self.app.clone(),
            capabilities: self.capabilities,
            state: self.state,
        }
    }
}

/// Each of some sources, as contracts speak of it.
pub open spec fn source_views(sources: Seq<SourceInfo>) -> Seq<SourceView> {
    sources.map_values(|source: SourceInfo| source@)
}

/// Why a source, or the whole platform, could not be read.
///
/// What is said never names the source: what carries a failure carries the
/// identity beside it, and a reason that repeated the subject would print it
/// twice.
#[derive(Debug, PartialEq, Eq)]
pub enum WatchError {
    /// A source did not answer in time.
    Timeout {
        /// Which source.
        player: PlayerId,
        /// How long it was given.
        deadline: Duration,
    },
    /// The platform could not be reached, and what was said of that.
    Transport(String),
    /// A source that was there is gone.
    Unavailable(PlayerId),
}

/// Why a source could not be read, as contracts speak of it.
pub enum WatchErrorView {
    /// A source did not answer in time.
    Timeout {
        /// Which source.
        player: Seq<char>,
        /// How long it was given, in nanoseconds.
        deadline: nat,
    },
    /// The platform could not be reached.
    Transport(Seq<char>),
    /// A source that was there is gone.
    Unavailable(Seq<char>),
}

impl View for WatchError {
    type V = WatchErrorView;

    open spec fn view(&self) -> WatchErrorView {
        match self {
            WatchError::Timeout { player, deadline } => WatchErrorView::Timeout {
                player: player@,
                deadline: deadline@,
            },
            WatchError::Transport(reason) => WatchErrorView::Transport(reason@),
            WatchError::Unavailable(player) => WatchErrorView::Unavailable(player@),
        }
    }
}

/// What is said of a source that could not be read.
pub open spec fn watch_error_text(error: WatchErrorView) -> Seq<char> {
    match error {
        WatchErrorView::Timeout { player: _, deadline } => "did not answer within "@ + span_text(
            deadline,
        ),
        WatchErrorView::Transport(reason) => reason,
        WatchErrorView::Unavailable(_) => "is no longer present"@,
    }
}

impl WatchError {
    /// What happened, told to the user beside the source it happened to.
    pub fn message(&self) -> (message: String)
        ensures
            message@ == watch_error_text(self@),
    {
        match self {
            WatchError::Timeout { player: _, deadline } => {
                let mut message = String::from_str("did not answer within ");
                message.append(deadline.written().as_str());
                message
            },
            WatchError::Transport(reason) => reason.clone(),
            WatchError::Unavailable(_) => String::from_str("is no longer present"),
        }
    }
}

/// Which class a failed round belongs to.
///
/// Every failure is transient, and the match is exhaustive so that a fourth
/// variant has to state its own answer here instead of inheriting one. Nothing
/// is permanent because no platform failure is improved by stopping: a daemon
/// that gave up watching looks exactly like one where nothing is playing, and
/// the user finds out hours later that nothing was recorded.
///
/// This is the class of a whole round, which is not the class of one source. A
/// source that has gone is permanent for that source and is reported per
/// source; the same fact reaching this function says the platform could not be
/// read at all, and that is worth another attempt.
pub fn classify(error: WatchError) -> (class: TaskError)
    ensures
        class@ == TaskErrorView::Transient(watch_error_text(error@)),
{
    let message = error.message();
    match error {
        WatchError::Timeout { .. } | WatchError::Transport(_) | WatchError::Unavailable(_) => {
            TaskError::Transient(message)
        },
    }
}

/// What one round of reading the platform came back with.
#[derive(Debug, PartialEq, Eq)]
pub struct PollOutcome {
    /// Every source that answered.
    pub sources: Vec<SourceInfo>,
    /// What those with something open reported.
    pub snapshots: Vec<PlayerSnapshot>,
    /// Every source that did not answer, and why.
    pub failures: Vec<(PlayerId, WatchError)>,
}

/// What one round came back with, as contracts speak of it.
pub struct OutcomeView {
    /// Every source that answered.
    pub sources: Seq<SourceView>,
    /// What those with something open reported.
    pub snapshots: Seq<SnapshotView>,
    /// Every source that did not answer, and why.
    pub failures: Seq<(Seq<char>, WatchErrorView)>,
}

/// Each of some failures, as contracts speak of it.
pub open spec fn failure_views(failures: Seq<(PlayerId, WatchError)>) -> Seq<
    (Seq<char>, WatchErrorView),
> {
    failures.map_values(|failure: (PlayerId, WatchError)| (failure.0@, failure.1@))
}

impl View for PollOutcome {
    type V = OutcomeView;

    open spec fn view(&self) -> OutcomeView {
        OutcomeView {
            sources: source_views(self.sources@),
            snapshots: snapshot_views(self.snapshots@),
            failures: failure_views(self.failures@),
        }
    }
}

// What a round comes to.

/// The identities a round names: of every source that answered, then of every
/// source that did not.
///
/// A source that did not answer is still on the platform: it failed to speak,
/// and it did not close. Leaving it out would report a player that timed out as
/// one that had gone, and report it back the round after.
pub open spec fn named_in(outcome: OutcomeView) -> Seq<Seq<char>> {
    outcome.sources.map_values(|source: SourceView| source.player)
        + outcome.failures.map_values(|failure: (Seq<char>, WatchErrorView)| failure.0)
}

/// The texts of a list, each once and where it first stands.
pub open spec fn once_each(list: Seq<Seq<char>>) -> Seq<Seq<char>>
    decreases list.len(),
{
    if list.len() == 0 {
        Seq::empty()
    } else {
        let earlier = once_each(list.drop_last());
        if earlier.contains(list.last()) {
            earlier
        } else {
            earlier.push(list.last())
        }
    }
}

/// The sources a round lists, each once and in identity order.
pub open spec fn membership(outcome: OutcomeView) -> Seq<Seq<char>> {
    ordered(once_each(named_in(outcome)))
}

/// Whether a source of that identity answered.
pub open spec fn described(sources: Seq<SourceView>, player: Seq<char>) -> bool {
    exists|i: int| 0 <= i < sources.len() && (#[trigger] sources[i]).player == player
}

/// Whether policy admits readings from a source of that identity.
pub open spec fn admits_readings(
    sources: Seq<SourceView>,
    table: TableView,
    player: Seq<char>,
) -> bool {
    exists|i: int|
        0 <= i < sources.len() && (#[trigger] sources[i]).player == player && admitted(
            policy_of(table, sources[i].app),
        )
}

/// What is said about a reading whose source the same round did not describe.
///
/// The adapter contract forbids this, and the daemon does not rely on that. A
/// reading it cannot attribute to an application is a reading it cannot apply
/// policy to, and publishing it would walk past a deny the user set.
pub open spec fn undescribed() -> Seq<char> {
    "read but not described in the same round, so no policy applies to it"@
}

/// What a change of membership publishes: nothing where there was none.
///
/// The bus is the log a person reads, and a line every second saying what the
/// last one said is how a log stops being read.
pub open spec fn change_published(before: Seq<Seq<char>>, now: Seq<Seq<char>>) -> Seq<EventView> {
    if now == before {
        Seq::empty()
    } else {
        seq![EventView::SourcesChanged { sources: now }]
    }
}

/// What the sources that did not answer publish.
pub open spec fn failures_published(failures: Seq<(Seq<char>, WatchErrorView)>) -> Seq<EventView> {
    failures.map_values(
        |failure: (Seq<char>, WatchErrorView)|
            EventView::SourceFailed { player: failure.0, reason: watch_error_text(failure.1) },
    )
}

/// What readings publish, in the order they were taken.
///
/// Three answers to a reading: it is published where policy admits its source,
/// dropped without a word where policy denies it, and reported where the round
/// described no source it could have come from.
pub open spec fn readings_published(
    sources: Seq<SourceView>,
    table: TableView,
    readings: Seq<SnapshotView>,
) -> Seq<EventView>
    decreases readings.len(),
{
    if readings.len() == 0 {
        Seq::empty()
    } else {
        let earlier = readings_published(sources, table, readings.drop_last());
        let reading = readings.last();
        if admits_readings(sources, table, reading.player) {
            earlier.push(EventView::Snapshot(reading))
        } else if !described(sources, reading.player) {
            earlier.push(EventView::SourceFailed { player: reading.player, reason: undescribed() })
        } else {
            earlier
        }
    }
}

/// Everything a round publishes, in order.
pub open spec fn published(
    before: Seq<Seq<char>>,
    outcome: OutcomeView,
    table: TableView,
) -> Seq<EventView> {
    change_published(before, membership(outcome)) + failures_published(outcome.failures)
        + readings_published(outcome.sources, table, outcome.snapshots)
}

/// Whether a reading names a file and policy admits it.
pub open spec fn names_a_file(
    sources: Seq<SourceView>,
    table: TableView,
    reading: SnapshotView,
) -> bool {
    reading.media is LocalFile && admits_readings(sources, table, reading.player)
}

/// What the last reading that policy admits and that names a file is decided to
/// be.
pub open spec fn decided_last(
    recogniser: RecogniserView,
    sources: Seq<SourceView>,
    table: TableView,
    readings: Seq<SnapshotView>,
) -> Option<DecisionView>
    decreases readings.len(),
{
    if readings.len() == 0 {
        None
    } else {
        let reading = readings.last();
        if names_a_file(sources, table, reading) {
            let path = reading.media->LocalFile_0;
            Some(
                DecisionView {
                    player: reading.player,
                    media: reading.media,
                    parsed: spelled_by(path),
                    answer: made_of(recogniser, path),
                },
            )
        } else {
            decided_last(recogniser, sources, table, readings.drop_last())
        }
    }
}

/// What one round publishes and leaves behind.
#[derive(Debug)]
pub struct Round {
    /// What is published, in order.
    pub events: Vec<BusEvent>,
    /// Every source that answered, for a listing.
    pub seen: Vec<SourceInfo>,
    /// What the last admitted reading that names a file was decided to be.
    pub decided: Option<Decision>,
}

/// Readings from a platform, filtered by policy, for the bus.
#[derive(Debug)]
pub struct Detection {
    listed: Vec<PlayerId>,
}

impl View for Detection {
    type V = Seq<Seq<char>>;

    /// The sources the last round listed.
    closed spec fn view(&self) -> Seq<Seq<char>> {
        identities(self.listed@)
    }
}

fn is_named(list: &[&str], text: &str) -> (answer: bool)
    ensures
        answer == str_texts(list@).contains(text@),
{
    let ghost all = str_texts(list@);
    let mut i: usize = 0;
    while i < list.len()
        invariant
            i <= list@.len(),
            all == str_texts(list@),
            forall|j: int| 0 <= j < i ==> #[trigger] all[j] != text@,
        decreases list@.len() - i,
    {
        assert(all[i as int] == list@[i as int]@);
        if same(list[i], text) {
            return true;
        }
        i += 1;
    }
    false
}

proof fn lemma_each_once(list: Seq<Seq<char>>)
    ensures
        once_each(list).no_duplicates(),
        forall|text: Seq<char>| #[trigger] once_each(list).contains(text) <==> list.contains(text),
    decreases list.len(),
{
    if list.len() > 0 {
        let shorter = list.drop_last();
        let earlier = once_each(shorter);
        lemma_each_once(shorter);
        assert forall|text: Seq<char>| #[trigger] once_each(list).contains(text) implies list.contains(
            text,
        ) by {
            let i = once_each(list).index_of(text);
            if i < earlier.len() {
                assert(earlier.contains(text));
                let j = shorter.index_of(text);
                assert(list[j] == text);
            } else {
                assert(list[list.len() - 1] == text);
            }
        }
        assert forall|text: Seq<char>| list.contains(text) implies #[trigger] once_each(
            list,
        ).contains(text) by {
            let j = list.index_of(text);
            if j < shorter.len() {
                assert(shorter[j] == text);
                assert(earlier.contains(text));
                let i = earlier.index_of(text);
                assert(once_each(list)[i] == text);
            } else if earlier.contains(list.last()) {
            } else {
                assert(once_each(list)[earlier.len() as int] == text);
            }
        }
    }
}

/// Put one identity in its place, unless it stands there already.
fn list_once<'a>(list: &mut Vec<&'a str>, text: &'a str, Ghost(named): Ghost<Seq<Seq<char>>>)
    requires
        in_order(str_texts(old(list)@)),
        str_texts(old(list)@).to_multiset() == once_each(named).to_multiset(),
    ensures
        in_order(str_texts(final(list)@)),
        str_texts(final(list)@).to_multiset() == once_each(named.push(text@)).to_multiset(),
{
    proof {
        lemma_that_is_the_order(str_texts(list@), once_each(named));
        assert(named.push(text@).drop_last() =~= named);
    }
    if !is_named(list.as_slice(), text) {
        insert_in_order(list, text);
        proof {
            once_each(named).to_multiset_ensures();
        }
    }
}

fn members(outcome: &PollOutcome) -> (listed: Vec<PlayerId>)
    ensures
        identities(listed@) == membership(outcome@),
{
    let mut list: Vec<&str> = Vec::new();
    let ghost sources = outcome@.sources.map_values(|source: SourceView| source.player);
    let ghost failures = outcome@.failures.map_values(
        |failure: (Seq<char>, WatchErrorView)| failure.0,
    );
    let ghost all = named_in(outcome@);
    assert(str_texts(list@) =~= once_each(all.take(0)));
    let mut i: usize = 0;
    while i < outcome.sources.len()
        invariant
            i <= outcome.sources@.len(),
            sources == outcome@.sources.map_values(|source: SourceView| source.player),
            all == named_in(outcome@),
            all.len() >= outcome.sources@.len(),
            in_order(str_texts(list@)),
            str_texts(list@).to_multiset() == once_each(all.take(i as int)).to_multiset(),
        decreases outcome.sources@.len() - i,
    {
        let player = outcome.sources[i].player.0.as_str();
        assert(all[i as int] == sources[i as int]);
        assert(all[i as int] == player@);
        assert(all.take(i as int).push(player@) =~= all.take(i + 1));
        list_once(&mut list, player, Ghost(all.take(i as int)));
        i += 1;
    }
    let mut j: usize = 0;
    while j < outcome.failures.len()
        invariant
            j <= outcome.failures@.len(),
            failures == outcome@.failures.map_values(
                |failure: (Seq<char>, WatchErrorView)| failure.0,
            ),
            all == named_in(outcome@),
            in_order(str_texts(list@)),
            str_texts(list@).to_multiset() == once_each(
                all.take(outcome.sources@.len() + j),
            ).to_multiset(),
        decreases outcome.failures@.len() - j,
    {
        let ghost at = outcome.sources@.len() + j;
        let player = outcome.failures[j].0.0.as_str();
        assert(all[at] == failures[j as int]);
        assert(all[at] == player@);
        assert(all.take(at).push(player@) =~= all.take(at + 1));
        list_once(&mut list, player, Ghost(all.take(at)));
        j += 1;
    }
    assert(all.take(outcome.sources@.len() + j) =~= all);
    proof {
        lemma_that_is_the_order(str_texts(list@), once_each(all));
    }
    let mut listed: Vec<PlayerId> = Vec::new();
    let ghost texts = str_texts(list@);
    let mut k: usize = 0;
    while k < list.len()
        invariant
            k <= list@.len(),
            texts == str_texts(list@),
            identities(listed@) == texts.take(k as int),
        decreases list@.len() - k,
    {
        let ghost before = identities(listed@);
        listed.push(PlayerId(list[k].to_owned()));
        assert(identities(listed@) =~= before.push(texts[k as int]));
        assert(texts.take(k + 1) =~= before.push(texts[k as int]));
        k += 1;
    }
    assert(texts.take(k as int) =~= texts);
    listed
}

fn same_listing(one: &[PlayerId], other: &[PlayerId]) -> (answer: bool)
    ensures
        answer == (identities(one@) == identities(other@)),
{
    let ghost a = identities(one@);
    let ghost b = identities(other@);
    if one.len() != other.len() {
        assert(a.len() != b.len());
        return false;
    }
    let mut i: usize = 0;
    while i < one.len()
        invariant
            i <= one@.len(),
            one@.len() == other@.len(),
            a == identities(one@),
            b == identities(other@),
            forall|j: int| 0 <= j < i ==> #[trigger] a[j] == b[j],
        decreases one@.len() - i,
    {
        assert(a[i as int] == one@[i as int]@ && b[i as int] == other@[i as int]@);
        if !same(one[i].0.as_str(), other[i].0.as_str()) {
            return false;
        }
        i += 1;
    }
    assert(a =~= b);
    true
}

fn is_described(sources: &[SourceInfo], player: &PlayerId) -> (answer: bool)
    ensures
        answer == described(source_views(sources@), player@),
{
    let ghost all = source_views(sources@);
    let mut i: usize = 0;
    while i < sources.len()
        invariant
            i <= sources@.len(),
            all == source_views(sources@),
            forall|j: int| 0 <= j < i ==> (#[trigger] all[j]).player != player@,
        decreases sources@.len() - i,
    {
        assert(all[i as int] == sources@[i as int]@);
        if same(sources[i].player.0.as_str(), player.0.as_str()) {
            return true;
        }
        i += 1;
    }
    false
}

fn is_admitted(sources: &[SourceInfo], table: &PolicyTable, player: &PlayerId) -> (answer: bool)
    ensures
        answer == admits_readings(source_views(sources@), table@, player@),
{
    let ghost all = source_views(sources@);
    let mut i: usize = 0;
    while i < sources.len()
        invariant
            i <= sources@.len(),
            all == source_views(sources@),
            forall|j: int|
                0 <= j < i ==> (#[trigger] all[j]).player != player@ || !admitted(
                    policy_of(table@, all[j].app),
                ),
        decreases sources@.len() - i,
    {
        assert(all[i as int] == sources@[i as int]@);
        if same(sources[i].player.0.as_str(), player.0.as_str()) && table.policy_for(
            &sources[i].app,
        ).admits() {
            return true;
        }
        i += 1;
    }
    false
}

fn publish_failures(failures: &[(PlayerId, WatchError)], events: &mut Vec<BusEvent>)
    ensures
        event_views(final(events)@) == event_views(old(events)@) + failures_published(
            failure_views(failures@),
        ),
{
    let ghost before = event_views(events@);
    let ghost all = failures_published(failure_views(failures@));
    let mut i: usize = 0;
    assert(before + all.take(0) =~= before);
    while i < failures.len()
        invariant
            i <= failures@.len(),
            all == failures_published(failure_views(failures@)),
            event_views(events@) == before + all.take(i as int),
        decreases failures@.len() - i,
    {
        let ghost so_far = event_views(events@);
        let failure = &failures[i];
        events.push(
            BusEvent::SourceFailed { player: failure.0.clone(), reason: failure.1.message() },
        );
        assert(failure_views(failures@)[i as int] == (failure.0@, failure.1@));
        assert(event_views(events@) =~= so_far.push(all[i as int]));
        assert(before + all.take(i + 1) =~= so_far.push(all[i as int]));
        i += 1;
    }
    assert(all.take(i as int) =~= all);
}

fn publish_readings(
    sources: &[SourceInfo],
    table: &PolicyTable,
    readings: &[PlayerSnapshot],
    events: &mut Vec<BusEvent>,
)
    ensures
        event_views(final(events)@) == event_views(old(events)@) + readings_published(
            source_views(sources@),
            table@,
            snapshot_views(readings@),
        ),
{
    let ghost before = event_views(events@);
    let ghost described_sources = source_views(sources@);
    let ghost all = snapshot_views(readings@);
    let mut i: usize = 0;
    assert(before + readings_published(described_sources, table@, all.take(0)) =~= before);
    while i < readings.len()
        invariant
            i <= readings@.len(),
            all == snapshot_views(readings@),
            described_sources == source_views(sources@),
            event_views(events@) == before + readings_published(
                described_sources,
                table@,
                all.take(i as int),
            ),
        decreases readings@.len() - i,
    {
        let ghost so_far = event_views(events@);
        let reading = &readings[i];
        assert(all[i as int] == reading@);
        assert(all.take(i + 1).drop_last() =~= all.take(i as int));
        assert(all.take(i + 1).last() == reading@);
        if is_admitted(sources, table, &reading.player) {
            events.push(BusEvent::Snapshot(reading.clone()));
            assert(event_views(events@) =~= so_far.push(EventView::Snapshot(reading@)));
        } else if !is_described(sources, &reading.player) {
            events.push(
                BusEvent::SourceFailed {
                    player: reading.player.clone(),
                    reason: String::from_str(
                        "read but not described in the same round, so no policy applies to it",
                    ),
                },
            );
            assert(event_views(events@) =~= so_far.push(
                EventView::SourceFailed { player: reading@.player, reason: undescribed() },
            ));
        }
        assert(event_views(events@) =~= before + readings_published(
            described_sources,
            table@,
            all.take(i + 1),
        ));
        i += 1;
    }
    assert(all.take(i as int) =~= all);
}

fn decide_last(
    recogniser: &Recogniser,
    sources: &[SourceInfo],
    table: &PolicyTable,
    readings: &[PlayerSnapshot],
) -> (decision: Option<Decision>)
    ensures
        decision_view(decision) == decided_last(
            recogniser@,
            source_views(sources@),
            table@,
            snapshot_views(readings@),
        ),
{
    let ghost described_sources = source_views(sources@);
    let ghost all = snapshot_views(readings@);
    let mut left: usize = readings.len();
    assert(all.take(left as int) =~= all);
    while left > 0
        invariant
            left <= readings@.len(),
            all == snapshot_views(readings@),
            described_sources == source_views(sources@),
            decided_last(recogniser@, described_sources, table@, all) == decided_last(
                recogniser@,
                described_sources,
                table@,
                all.take(left as int),
            ),
        decreases left,
    {
        let reading = &readings[left - 1];
        assert(all.take(left as int).last() == reading@);
        assert(all.take(left as int).drop_last() =~= all.take(left - 1));
        let admitted_here = is_admitted(sources, table, &reading.player);
        if let MediaRef::LocalFile(path) = &reading.media {
            if admitted_here {
                let (parsed, answer) = recogniser.decide(path);
                return Some(
                    Decision {
                        player: reading.player.clone(),
                        media: reading.media.clone(),
                        parsed,
                        answer,
                    },
                );
            }
        }
        left -= 1;
    }
    None
}

impl Detection {
    /// Detection that has listed nothing yet.
    pub fn new() -> (detection: Self)
        ensures
            detection@ == Seq::<Seq<char>>::empty(),
    {
        let detection = Self { listed: Vec::new() };
        assert(detection@ =~= Seq::<Seq<char>>::empty());
        detection
    }

    /// One round: what the platform came back with, what policy leaves of it,
    /// and what is published.
    ///
    /// The table is read for the whole round, so a policy that was set before a
    /// round is in force in all of it.
    ///
    /// # Errors
    ///
    /// [`TaskError::Transient`] when the round could not reach the platform.
    /// Nothing is published then, and the membership stays what it was.
    pub fn round(
        &mut self,
        polled: Result<PollOutcome, WatchError>,
        table: &PolicyTable,
        recogniser: &Recogniser,
    ) -> (round: Result<Round, TaskError>)
        ensures
            match (polled, round) {
                (Ok(outcome), Ok(done)) => {
                    &&& final(self)@ == membership(outcome@)
                    &&& event_views(done.events@) == published(old(self)@, outcome@, table@)
                    &&& source_views(done.seen@) == outcome@.sources
                    &&& decision_view(done.decided) == decided_last(
                        recogniser@,
                        outcome@.sources,
                        table@,
                        outcome@.snapshots,
                    )
                },
                (Err(error), Err(failure)) => {
                    &&& final(self)@ == old(self)@
                    &&& failure@ == TaskErrorView::Transient(watch_error_text(error@))
                },
                _ => false,
            },
    {
        let outcome = match polled {
            Ok(outcome) => outcome,
            Err(error) => return Err(classify(error)),
        };
        let ghost before = self@;
        let listed = members(&outcome);
        let mut events: Vec<BusEvent> = Vec::new();
        assert(event_views(events@) =~= Seq::<EventView>::empty());
        if !same_listing(listed.as_slice(), self.listed.as_slice()) {
            events.push(BusEvent::SourcesChanged { sources: crate::copies_of(listed.as_slice()) });
            self.listed = listed;
        }
        assert(event_views(events@) =~= change_published(before, membership(outcome@)));
        publish_failures(outcome.failures.as_slice(), &mut events);
        publish_readings(
            outcome.sources.as_slice(),
            table,
            outcome.snapshots.as_slice(),
            &mut events,
        );
        let decided = decide_last(
            recogniser,
            outcome.sources.as_slice(),
            table,
            outcome.snapshots.as_slice(),
        );
        Ok(Round { events, seen: outcome.sources, decided })
    }
}

/// What the last round saw, for a client asking for a listing.
///
/// A listing is of what the daemon acted on. A second look at the platform
/// would be free to disagree with it.
#[derive(Debug)]
pub struct Seen {
    sources: Vec<SourceInfo>,
}

impl View for Seen {
    type V = Seq<SourceView>;

    closed spec fn view(&self) -> Seq<SourceView> {
        source_views(self.sources@)
    }
}

impl Seen {
    /// A record of nothing, which is what is true before the first round.
    pub fn new() -> (seen: Self)
        ensures
            seen@ == Seq::<SourceView>::empty(),
    {
        let seen = Self { sources: Vec::new() };
        assert(seen@ =~= Seq::<SourceView>::empty());
        seen
    }

    /// Replace the record with what a round saw.
    pub fn record(&mut self, sources: Vec<SourceInfo>)
        ensures
            final(self)@ == source_views(sources@),
    {
        self.sources = sources;
    }

    /// What the last round saw.
    pub fn sources(&self) -> (sources: &[SourceInfo])
        ensures
            source_views(sources@) == self@,
    {
        self.sources.as_slice()
    }
}

// What rounds promise.

/// A round lists every source that answered and every source that did not,
/// whatever policy says of it, each once and in identity order, and nothing
/// else.
pub proof fn law_every_source_is_listed(outcome: OutcomeView, player: Seq<char>)
    ensures
        membership(outcome).contains(player) <==> described(outcome.sources, player) || exists|
            i: int,
        |
            0 <= i < outcome.failures.len() && (#[trigger] outcome.failures[i]).0 == player,
        membership(outcome).no_duplicates(),
        in_order(membership(outcome)),
{
    let named = named_in(outcome);
    let sources = outcome.sources.map_values(|source: SourceView| source.player);
    let failures = outcome.failures.map_values(|failure: (Seq<char>, WatchErrorView)| failure.0);
    lemma_each_once(named);
    law_any_list_has_an_order(once_each(named));
    assert(membership(outcome).contains(player) <==> once_each(named).contains(player));
    if named.contains(player) {
        let i = named.index_of(player);
        if i < sources.len() {
            assert(sources[i] == player);
            assert(outcome.sources[i].player == player);
        } else {
            assert(failures[i - sources.len()] == player);
            assert(outcome.failures[i - sources.len()].0 == player);
        }
    }
    if described(outcome.sources, player) {
        let i = choose|i: int|
            0 <= i < outcome.sources.len() && (#[trigger] outcome.sources[i]).player == player;
        assert(named[i] == player);
    }
    if exists|i: int|
        0 <= i < outcome.failures.len() && (#[trigger] outcome.failures[i]).0 == player {
        let i = choose|i: int|
            0 <= i < outcome.failures.len() && (#[trigger] outcome.failures[i]).0 == player;
        assert(named[sources.len() + i] == player);
    }
}

/// Policy never reaches discovery: the membership and the failures a round
/// publishes come first and are the same under any table.
pub proof fn law_policy_hides_no_source(
    before: Seq<Seq<char>>,
    outcome: OutcomeView,
    table: TableView,
)
    ensures
        (change_published(before, membership(outcome)) + failures_published(
            outcome.failures,
        )).is_prefix_of(published(before, outcome, table)),
{
    let head = change_published(before, membership(outcome)) + failures_published(
        outcome.failures,
    );
    assert(head =~= published(before, outcome, table).subrange(0, head.len() as int));
}

proof fn lemma_readings_published(
    sources: Seq<SourceView>,
    table: TableView,
    readings: Seq<SnapshotView>,
)
    ensures
        forall|k: int|
            0 <= k < readings_published(sources, table, readings).len() ==> match (
            #[trigger] readings_published(sources, table, readings)[k]) {
                EventView::Snapshot(reading) => readings.contains(reading) && admits_readings(
                    sources,
                    table,
                    reading.player,
                ),
                EventView::SourceFailed { player, reason } => !described(sources, player)
                    && reason == undescribed(),
                _ => false,
            },
    decreases readings.len(),
{
    if readings.len() > 0 {
        let shorter = readings.drop_last();
        let earlier = readings_published(sources, table, shorter);
        let all = readings_published(sources, table, readings);
        lemma_readings_published(sources, table, shorter);
        assert forall|k: int| 0 <= k < all.len() implies match (#[trigger] all[k]) {
            EventView::Snapshot(reading) => readings.contains(reading) && admits_readings(
                sources,
                table,
                reading.player,
            ),
            EventView::SourceFailed { player, reason } => !described(sources, player) && reason
                == undescribed(),
            _ => false,
        } by {
            if k < earlier.len() {
                assert(all[k] == earlier[k]);
                if let EventView::Snapshot(reading) = all[k] {
                    let j = shorter.index_of(reading);
                    assert(readings[j] == reading);
                }
            } else {
                assert(readings[readings.len() - 1] == readings.last());
            }
        }
    }
}

/// A reading is published only where policy admits its source: no denied source
/// and no source the round did not describe is ever heard.
pub proof fn law_only_admitted_readings_are_published(
    before: Seq<Seq<char>>,
    outcome: OutcomeView,
    table: TableView,
    k: int,
)
    requires
        0 <= k < published(before, outcome, table).len(),
    ensures
        published(before, outcome, table)[k] matches EventView::Snapshot(reading)
            ==> outcome.snapshots.contains(reading) && admits_readings(
            outcome.sources,
            table,
            reading.player,
        ),
{
    lemma_readings_published(outcome.sources, table, outcome.snapshots);
    let change = change_published(before, membership(outcome));
    let failures = failures_published(outcome.failures);
    let read = readings_published(outcome.sources, table, outcome.snapshots);
    let head = change.len() + failures.len();
    if k >= head {
        assert(published(before, outcome, table)[k] == read[k - head]);
    } else if k >= change.len() {
        assert(published(before, outcome, table)[k] == failures[k - change.len()]);
    } else {
        assert(published(before, outcome, table)[k] == change[k]);
    }
}

proof fn lemma_a_reading_is_published(
    sources: Seq<SourceView>,
    table: TableView,
    readings: Seq<SnapshotView>,
    reading: SnapshotView,
)
    requires
        readings.contains(reading),
    ensures
        admits_readings(sources, table, reading.player) ==> readings_published(
            sources,
            table,
            readings,
        ).contains(EventView::Snapshot(reading)),
        !described(sources, reading.player) ==> readings_published(
            sources,
            table,
            readings,
        ).contains(EventView::SourceFailed { player: reading.player, reason: undescribed() }),
    decreases readings.len(),
{
    let all = readings_published(sources, table, readings);
    let shorter = readings.drop_last();
    let earlier = readings_published(sources, table, shorter);
    let told = if admits_readings(sources, table, reading.player) {
        EventView::Snapshot(reading)
    } else {
        EventView::SourceFailed { player: reading.player, reason: undescribed() }
    };
    let j = readings.index_of(reading);
    if j < shorter.len() {
        assert(shorter[j] == reading);
        lemma_a_reading_is_published(sources, table, shorter, reading);
        if admits_readings(sources, table, reading.player) || !described(
            sources,
            reading.player,
        ) {
            let k = earlier.index_of(told);
            assert(all[k] == told);
        }
    } else if admits_readings(sources, table, reading.player) || !described(
        sources,
        reading.player,
    ) {
        assert(all[all.len() - 1] == told);
    }
}

/// No reading is lost without a reason: one that policy admits is published,
/// and one the round did not describe a source for is reported.
pub proof fn law_a_reading_is_answered(
    before: Seq<Seq<char>>,
    outcome: OutcomeView,
    table: TableView,
    reading: SnapshotView,
)
    requires
        outcome.snapshots.contains(reading),
    ensures
        admits_readings(outcome.sources, table, reading.player) ==> published(
            before,
            outcome,
            table,
        ).contains(EventView::Snapshot(reading)),
        !described(outcome.sources, reading.player) ==> published(
            before,
            outcome,
            table,
        ).contains(EventView::SourceFailed { player: reading.player, reason: undescribed() }),
{
    lemma_a_reading_is_published(outcome.sources, table, outcome.snapshots, reading);
    let read = readings_published(outcome.sources, table, outcome.snapshots);
    let all = published(before, outcome, table);
    let head = all.len() - read.len();
    if admits_readings(outcome.sources, table, reading.player) {
        let k = read.index_of(EventView::Snapshot(reading));
        assert(all[head + k] == read[k]);
    }
    if !described(outcome.sources, reading.player) {
        let told = EventView::SourceFailed { player: reading.player, reason: undescribed() };
        let k = read.index_of(told);
        assert(all[head + k] == read[k]);
    }
}

/// A membership that did not change is not published again.
pub proof fn law_an_unchanged_membership_is_not_republished(
    outcome: OutcomeView,
    table: TableView,
    k: int,
)
    requires
        0 <= k < published(membership(outcome), outcome, table).len(),
    ensures
        !(published(membership(outcome), outcome, table)[k] is SourcesChanged),
{
    lemma_readings_published(outcome.sources, table, outcome.snapshots);
    let failures = failures_published(outcome.failures);
    let read = readings_published(outcome.sources, table, outcome.snapshots);
    let all = published(membership(outcome), outcome, table);
    if k < failures.len() {
        assert(all[k] == failures[k]);
    } else {
        assert(all[k] == read[k - failures.len()]);
    }
}

/// A deny takes effect in the next round: once it is set, no reading from a
/// source of that application is published, however the application
/// capitalises its name.
pub proof fn law_a_deny_silences_its_application(
    before: Seq<Seq<char>>,
    outcome: OutcomeView,
    table: TableView,
    app: Seq<char>,
    reading: SnapshotView,
    k: int,
)
    requires
        0 <= k < published(before, outcome, with_policy(table, app, Policy::Deny)).len(),
        forall|i: int|
            0 <= i < outcome.sources.len() && (#[trigger] outcome.sources[i]).player
                == reading.player ==> lowercase_form(outcome.sources[i].app) == lowercase_form(
                app,
            ),
    ensures
        published(before, outcome, with_policy(table, app, Policy::Deny))[k]
            != EventView::Snapshot(reading),
{
    let now = with_policy(table, app, Policy::Deny);
    law_only_admitted_readings_are_published(before, outcome, now, k);
    if admits_readings(outcome.sources, now, reading.player) {
        let i = choose|i: int|
            0 <= i < outcome.sources.len() && (#[trigger] outcome.sources[i]).player
                == reading.player && admitted(policy_of(now, outcome.sources[i].app));
        law_setting_a_policy(table, app, Policy::Deny, outcome.sources[i].app);
    }
}

/// What is said of a source that could not be read: how long it was waited for,
/// what the transport said, or that it is gone.
pub proof fn law_what_is_said_of_a_failure(error: WatchErrorView)
    ensures
        match error {
            WatchErrorView::Timeout { player: _, deadline } => watch_error_text(error)
                == "did not answer within "@ + span_text(deadline),
            WatchErrorView::Transport(reason) => watch_error_text(error) == reason,
            WatchErrorView::Unavailable(_) => watch_error_text(error) == "is no longer present"@,
        },
{
}

/// A membership that changed is published first, and behind it each failure with
/// what is said of it, in order.
pub proof fn law_failures_are_published_in_order(
    before: Seq<Seq<char>>,
    outcome: OutcomeView,
    table: TableView,
    i: int,
)
    requires
        0 <= i < outcome.failures.len(),
    ensures
        ({
            let events = published(before, outcome, table);
            let changed: int = if membership(outcome) == before {
                0
            } else {
                1
            };
            &&& changed + outcome.failures.len() <= events.len()
            &&& changed == 1 ==> events[0] == (EventView::SourcesChanged {
                sources: membership(outcome),
            })
            &&& events[changed + i] == (EventView::SourceFailed {
                player: outcome.failures[i].0,
                reason: watch_error_text(outcome.failures[i].1),
            })
        }),
{
    let change = change_published(before, membership(outcome));
    let failures = failures_published(outcome.failures);
    let events = published(before, outcome, table);
    assert(events[change.len() + i] == failures[i]);
    if change.len() > 0 {
        assert(events[0] == change[0]);
    }
}

/// One reading more publishes what the others did and then, where a source of
/// its identity answered, the reading itself if policy denies not every such
/// source and nothing if it does. Where none answered it is reported.
pub proof fn law_what_one_reading_publishes(
    before: Seq<Seq<char>>,
    outcome: OutcomeView,
    table: TableView,
    reading: SnapshotView,
)
    ensures
        ({
            let more = OutcomeView { snapshots: outcome.snapshots.push(reading), ..outcome };
            let events = published(before, outcome, table);
            let answered = exists|i: int|
                0 <= i < outcome.sources.len() && (#[trigger] outcome.sources[i]).player
                    == reading.player;
            let admitted = exists|i: int|
                0 <= i < outcome.sources.len() && (#[trigger] outcome.sources[i]).player
                    == reading.player && policy_of(table, outcome.sources[i].app) != Policy::Deny;
            &&& admitted ==> published(before, more, table) == events.push(
                EventView::Snapshot(reading),
            )
            &&& answered && !admitted ==> published(before, more, table) == events
            &&& !answered ==> published(before, more, table) == events.push(
                EventView::SourceFailed {
                    player: reading.player,
                    reason: "read but not described in the same round, so no policy applies to it"@,
                },
            )
        }),
{
    let more = OutcomeView { snapshots: outcome.snapshots.push(reading), ..outcome };
    assert(more.snapshots.drop_last() =~= outcome.snapshots);
    assert(named_in(more) == named_in(outcome));
    let events = published(before, outcome, table);
    let now = published(before, more, table);
    let admitted = exists|i: int|
        0 <= i < outcome.sources.len() && (#[trigger] outcome.sources[i]).player == reading.player
            && policy_of(table, outcome.sources[i].app) != Policy::Deny;
    assert(admitted <==> admits_readings(outcome.sources, table, reading.player)) by {
        if admitted {
            let i = choose|i: int|
                0 <= i < outcome.sources.len() && (#[trigger] outcome.sources[i]).player
                    == reading.player && policy_of(table, outcome.sources[i].app) != Policy::Deny;
            assert(admits_readings(outcome.sources, table, reading.player));
        }
    }
    if admits_readings(outcome.sources, table, reading.player) {
        assert(now =~= events.push(EventView::Snapshot(reading)));
    } else if !described(outcome.sources, reading.player) {
        assert(now =~= events.push(
            EventView::SourceFailed { player: reading.player, reason: undescribed() },
        ));
    } else {
        assert(now =~= events);
    }
}

/// What a round decides: its last reading of a file from a source policy does
/// not deny, decided by the path it names. A reading of anything else, or from
/// a source policy denies, leaves what was decided before it.
pub proof fn law_the_last_file_is_decided(
    recogniser: RecogniserView,
    sources: Seq<SourceView>,
    table: TableView,
    readings: Seq<SnapshotView>,
    reading: SnapshotView,
)
    ensures
        decided_last(recogniser, sources, table, Seq::empty()) is None,
        ({
            let admitted = exists|i: int|
                0 <= i < sources.len() && (#[trigger] sources[i]).player == reading.player
                    && policy_of(table, sources[i].app) != Policy::Deny;
            let now = decided_last(recogniser, sources, table, readings.push(reading));
            match reading.media {
                MediaView::LocalFile(path) if admitted => now == Some(
                    DecisionView {
                        player: reading.player,
                        media: reading.media,
                        parsed: spelled_by(path),
                        answer: made_of(recogniser, path),
                    },
                ),
                _ => now == decided_last(recogniser, sources, table, readings),
            }
        }),
{
    assert(readings.push(reading).drop_last() =~= readings);
    let admitted = exists|i: int|
        0 <= i < sources.len() && (#[trigger] sources[i]).player == reading.player && policy_of(
            table,
            sources[i].app,
        ) != Policy::Deny;
    assert(admitted <==> admits_readings(sources, table, reading.player)) by {
        if admitted {
            let i = choose|i: int|
                0 <= i < sources.len() && (#[trigger] sources[i]).player == reading.player
                    && policy_of(table, sources[i].app) != Policy::Deny;
            assert(admits_readings(sources, table, reading.player));
        }
    }
}

} // verus!
