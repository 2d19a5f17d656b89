//! What the daemon publishes, which is also the log.
//!
//! Every subscriber receives the same sequence. `benshi watch` is one
//! subscriber and a sink is another, so the stream a user can read is the
//! stream the program acts on, rather than a separate debug channel that is
//! written once and then rots.
//!
//! A subscriber that stops reading is told how much it missed rather than
//! quietly skipped. Losing events on a diagnostic stream is acceptable; losing
//! them silently is not, because a gap nobody reports reads as nothing having
//! happened.

use vstd::prelude::*;

use crate::{copies_of, PlayerId, PlayerSnapshot, SessionState};
#[allow(unused_imports)]
use crate::{identities, SnapshotView};

verus! {

/// How many events the bus keeps for a subscriber that has fallen behind.
///
/// One round of polling emits an event per source that has something open and
/// is not denied, and the membership only when it changes, so a desktop with a
/// handful of players fills this in under a minute at the one-second default
/// interval. A client on a local socket that has not read for that long has
/// stopped reading rather than fallen behind, and dropping its backlog is then
/// the right answer. The cost of being generous is small: an event is a few
/// hundred bytes, so the whole buffer is tens of kilobytes.
pub const CAPACITY: usize = 256;

/// Something the daemon did or saw.
#[derive(Debug, PartialEq, Eq)]
pub enum BusEvent {
    /// A reading was taken from a source.
    Snapshot(PlayerSnapshot),
    /// The set of sources the platform reports has changed.
    ///
    /// Carries the membership rather than its size, because a size cannot show
    /// one player closing while another opens: the number is the same and the
    /// world is not. A subscriber that joined late learns the whole set from
    /// the first change it sees, rather than a difference it holds no state to
    /// apply.
    SourcesChanged {
        /// Every source now listed, in identity order.
        sources: Vec<PlayerId>,
    },
    /// One source could not be read this round.
    SourceFailed {
        /// Which source failed.
        player: PlayerId,
        /// What went wrong, rendered for a person.
        reason: String,
    },
    /// The session state a sink would render, or its absence.
    State(Option<SessionState>),
}

/// Something the daemon did or saw, as contracts speak of it.
pub enum EventView {
    /// A reading was taken from a source.
    Snapshot(SnapshotView),
    /// The set of sources the platform reports has changed.
    SourcesChanged {
        /// Every source now listed.
        sources: Seq<Seq<char>>,
    },
    /// One source could not be read this round.
    SourceFailed {
        /// Which source failed.
        player: Seq<char>,
        /// What went wrong.
        reason: Seq<char>,
    },
    /// The session state a sink would render, or its absence.
    State(Option<SnapshotView>),
}

impl View for BusEvent {
    type V = EventView;

    open spec fn view(&self) -> EventView {
        match self {
            BusEvent::Snapshot(reading) => EventView::Snapshot(reading@),
            BusEvent::SourcesChanged { sources } => EventView::SourcesChanged {
                sources: identities(sources@),
            },
            BusEvent::SourceFailed { player, reason } => EventView::SourceFailed {
                player: player@,
                reason: reason@,
            },
            BusEvent::State(Some(session)) => EventView::State(Some(session@)),
            BusEvent::State(None) => EventView::State(None),
        }
    }
}

impl Clone for BusEvent {
    fn clone(&self) -> (copy: Self)
        ensures
            copy@ == self@,
    {
        match self {
            BusEvent::Snapshot(reading) => BusEvent::Snapshot(reading.clone()),
            BusEvent::SourcesChanged { sources } => BusEvent::SourcesChanged {
                sources: copies_of(sources.as_slice()),
            },
            BusEvent::SourceFailed { player, reason } => BusEvent::SourceFailed {
                player: player.clone(),
                reason: reason.clone(),
            },
            BusEvent::State(Some(session)) => BusEvent::State(Some(session.clone())),
            BusEvent::State(None) => BusEvent::State(None),
        }
    }
}

/// Each of some events, as contracts speak of it.
pub open spec fn event_views(events: Seq<BusEvent>) -> Seq<EventView> {
    events.map_values(|event: BusEvent| event@)
}

} // verus!
