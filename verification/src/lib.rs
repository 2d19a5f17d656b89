//! What is being watched, told from what the media players say.
//!
//! Every decision is taken here, on plain values, and proved: how much of a
//! file has been watched, which title a filename names, which source may be
//! read at all, what a client is answered. What reads a player, a socket or a
//! clock lives outside and hands its readings in.

pub mod bus;
pub mod clock;
pub mod commands;
pub mod detection;
pub mod encoding;
pub mod invocation;
pub mod ipc;
pub mod json;
pub mod number;
pub mod path;
pub mod policy;
pub mod protocol;
pub mod recognise;
pub mod recognition;
pub mod render;
pub mod supervisor;
pub mod text;
pub mod time;
pub mod timeline;
pub mod trace;

use vstd::prelude::*;

use crate::clock::Timestamp;
use crate::path::RawPath;
use crate::time::Duration;

verus! {

/// A value a media source may or may not be able to report.
///
/// Three-valued rather than [`Option`], because "the player did not publish a
/// length" and "this detection method cannot carry a length" are different
/// facts that lead to different behaviour: the first may be retried or shown as
/// unknown, the second means the capability is absent and the user should be
/// told so.
#[derive(Debug, Copy, PartialEq, Eq)]
pub enum Known<T> {
    /// The source reported this value.
    Value(T),
    /// The source did not report it, though this detection method can carry it.
    NotReported,
    /// This detection method cannot carry the value at all.
    Unsupported,
}

impl<T: Clone> Clone for Known<T> {
    fn clone(&self) -> (copy: Self)
        ensures
            match (*self, copy) {
                (Known::Value(held), Known::Value(made)) => cloned(held, made),
                (Known::NotReported, Known::NotReported) => true,
                (Known::Unsupported, Known::Unsupported) => true,
                _ => false,
            },
    {
        match self {
            Known::Value(held) => Known::Value(held.clone()),
            Known::NotReported => Known::NotReported,
            Known::Unsupported => Known::Unsupported,
        }
    }
}

/// A span that may not be known, in nanoseconds.
pub open spec fn known_nanos(span: Known<Duration>) -> Known<nat> {
    match span {
        Known::Value(held) => Known::Value(held@),
        Known::NotReported => Known::NotReported,
        Known::Unsupported => Known::Unsupported,
    }
}

/// What a detection method is able to report.
///
/// Declared by each adapter rather than guessed by the consumer, so that the
/// interface can say "no progress bar: this detection method cannot report
/// position" instead of showing nothing.
#[derive(Debug, Clone, Copy, PartialEq, Eq, Structural)]
pub struct Capabilities {
    /// Playback position within the current media.
    pub position: bool,
    /// Total duration of the current media.
    pub duration: bool,
    /// Whether playback is paused.
    pub paused: bool,
    /// A location for what is open: a path or an address, not only a title.
    ///
    /// Answers whether this source names what it opened, which is what
    /// recognition needs. Whether that name turns out to be a local file is a
    /// fact about the media rather than about the source, so it belongs to
    /// [`MediaRef`] and not here.
    pub location: bool,
}

/// Stable identity of a media source, as provided by the platform.
///
/// The MPRIS bus suffix on Linux, the `AppUserModelId` under SMTC on Windows,
/// the bundle identifier on macOS. Never a process name matched by a regular
/// expression.
#[derive(Debug, PartialEq, Eq, Hash, PartialOrd, Ord)]
pub struct PlayerId(pub String);

impl View for PlayerId {
    type V = Seq<char>;

    open spec fn view(&self) -> Seq<char> {
        self.0@
    }
}

impl Clone for PlayerId {
    fn clone(&self) -> (copy: Self)
        ensures
            copy@ == self@,
    {
        PlayerId(self.0.clone())
    }
}

/// The application a source belongs to, as the platform names it.
///
/// Distinct from [`PlayerId`], and the distinction is not academic. A live
/// session bus carries both `org.mpris.MediaPlayer2.Feishin` and
/// `org.mpris.MediaPlayer2.chromium.instance30062`: two windows of one player
/// are two identities but one application. The identity exists to tell them
/// apart; policy and the source listing are keyed on the application.
///
/// The adapter declares both. This crate never derives one from the other,
/// because the rule that relates them - an `.instance` suffix here, something
/// else under SMTC - is platform knowledge and has no place here.
#[derive(Debug, PartialEq, Eq, Hash, PartialOrd, Ord)]
pub struct AppName(pub String);

impl View for AppName {
    type V = Seq<char>;

    open spec fn view(&self) -> Seq<char> {
        self.0@
    }
}

impl Clone for AppName {
    fn clone(&self) -> (copy: Self)
        ensures
            copy@ == self@,
    {
        AppName(self.0.clone())
    }
}

/// What a media source currently has open.
///
/// Three cases and not two. A source that names what it opened and a source
/// that can only describe it are different things: mpv playing a stream knows
/// the address, a browser knows only what the page calls itself. Collapsing the
/// first into the second throws away an identifier that recognition can work
/// from, and leaves an adapter no way to report what it actually has.
#[derive(Debug, PartialEq, Eq)]
pub enum MediaRef {
    /// A local file the source opened, as the platform spelled its path.
    LocalFile(RawPath),
    /// An address the source opened, naming no file on this machine.
    Remote(String),
    /// A title with nothing underneath it, as published by a browser.
    Title(String),
}

/// What a media source has open, as contracts speak of it.
pub enum MediaView {
    /// A local file, by the bytes of its path.
    LocalFile(Seq<u8>),
    /// An address.
    Remote(Seq<char>),
    /// A title with nothing underneath it.
    Title(Seq<char>),
}

impl View for MediaRef {
    type V = MediaView;

    open spec fn view(&self) -> MediaView {
        match self {
            MediaRef::LocalFile(path) => MediaView::LocalFile(path@),
            MediaRef::Remote(address) => MediaView::Remote(address@),
            MediaRef::Title(title) => MediaView::Title(title@),
        }
    }
}

impl Clone for MediaRef {
    fn clone(&self) -> (copy: Self)
        ensures
            copy@ == self@,
    {
        match self {
            MediaRef::LocalFile(path) => MediaRef::LocalFile(path.clone()),
            MediaRef::Remote(address) => MediaRef::Remote(address.clone()),
            MediaRef::Title(title) => MediaRef::Title(title.clone()),
        }
    }
}

/// Coarse playback state of a media source.
#[derive(Debug, Clone, Copy, PartialEq, Eq, Structural)]
pub enum PlayState {
    /// Media is advancing.
    Playing,
    /// Media is open but not advancing.
    Paused,
    /// Nothing is open.
    Stopped,
}

/// One reading taken from a media source.
///
/// Adapters emit snapshots and this crate computes differences between them. An
/// event model would lose state across a reconnect; a snapshot does not.
#[derive(Debug, PartialEq, Eq)]
pub struct PlayerSnapshot {
    /// Which source produced this reading.
    pub player: PlayerId,
    /// What the source has open.
    pub media: MediaRef,
    /// Whether the media is advancing.
    pub state: PlayState,
    /// How far into the media playback has reached.
    pub position: Known<Duration>,
    /// How long the media is, as reported. Advisory: players lie about it.
    pub duration: Known<Duration>,
    /// When the reading was taken, on the clock the watcher was given.
    pub observed_at: Timestamp,
}

/// One reading, as contracts speak of it.
pub struct SnapshotView {
    /// Which source produced it.
    pub player: Seq<char>,
    /// What the source has open.
    pub media: MediaView,
    /// Whether the media is advancing.
    pub state: PlayState,
    /// How far playback has reached, in nanoseconds.
    pub position: Known<nat>,
    /// How long the media is said to be, in nanoseconds.
    pub duration: Known<nat>,
    /// When it was taken, in nanoseconds since the clock's epoch.
    pub observed_at: nat,
}

impl View for PlayerSnapshot {
    type V = SnapshotView;

    open spec fn view(&self) -> SnapshotView {
        SnapshotView {
            player: self.player@,
            media: self.media@,
            state: self.state,
            position: known_nanos(self.position),
            duration: known_nanos(self.duration),
            observed_at: self.observed_at@,
        }
    }
}

impl Clone for PlayerSnapshot {
    fn clone(&self) -> (copy: Self)
        ensures
            copy@ == self@,
    {
        PlayerSnapshot {
            player: self.player.clone(),
            media: self.media.clone(),
            state: self.state,
            position: self.position,
            duration: self.duration,
            observed_at: self.observed_at,
        }
    }
}

/// The state a sink renders.
///
/// Derived from playback, never from whether a sync to a list backend
/// succeeded: what a presence card shows depends on what is playing.
#[derive(Debug, PartialEq, Eq)]
pub struct SessionState {
    /// The reading the session was last advanced by.
    pub snapshot: PlayerSnapshot,
}

impl View for SessionState {
    type V = SnapshotView;

    open spec fn view(&self) -> SnapshotView {
        self.snapshot@
    }
}

impl Clone for SessionState {
    fn clone(&self) -> (copy: Self)
        ensures
            copy@ == self@,
    {
        SessionState { snapshot: self.snapshot.clone() }
    }
}

/// The identity of each of some sources.
pub open spec fn identities(players: Seq<PlayerId>) -> Seq<Seq<char>> {
    players.map_values(|player: PlayerId| player@)
}

/// A copy of each of some identities.
pub fn copies_of(players: &[PlayerId]) -> (made: Vec<PlayerId>)
    ensures
        identities(made@) == identities(players@),
{
    let mut made: Vec<PlayerId> = Vec::new();
    let ghost all = identities(players@);
    let mut i: usize = 0;
    while i < players.len()
        invariant
            i <= players@.len(),
            all == identities(players@),
            identities(made@) == all.take(i as int),
        decreases players@.len() - i,
    {
        let ghost before = identities(made@);
        made.push(players[i].clone());
        i += 1;
        assert(identities(made@) =~= before.push(all[i - 1]));
        assert(all.take(i as int) =~= before.push(all[i - 1]));
    }
    assert(all.take(i as int) =~= all);
    made
}

} // verus!
