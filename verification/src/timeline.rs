//! What a sequence of readings says about playback.
//!
//! The timeline folds readings into [`Progress`]: how much of the media has
//! actually been watched, where playback currently is, and whether the step
//! that produced this answer was a seek.
//!
//! **Nothing here takes a [`Clock`](crate::clock::Clock), and that is the one
//! thing to know before reading further.** Every reading carries the moment it
//! was taken, stamped from the clock the adapter was given, so the timeline
//! advances on readings and never asks what time it is: twenty seconds of
//! pause are twenty seconds in those timestamps and no wall-clock time at all.
//! A clock here would be a second clock, free to disagree with the one the
//! readings came from - the answer would then depend on when `advance` was
//! called, and replaying a recording would no longer reproduce the playback it
//! recorded.

use vstd::prelude::*;

use crate::clock::Timestamp;
use crate::text::decimal;
#[allow(unused_imports)]
use crate::text::decimal_text;
use crate::time::Duration;
#[allow(unused_imports)]
use crate::time::{less, more, span_text, LONGEST_SPAN};
use crate::{Known, PlayState, PlayerSnapshot};
#[allow(unused_imports)]
use crate::{known_nanos, SnapshotView};

verus! {

/// What one reading left the timeline in.
///
/// The position and the watched time are two facts and not one. A viewer who
/// seeks to the last minute has playback at the end and has watched nothing;
/// the decision of whether an episode was watched is about the second, and
/// collapsing the two is what lets a single seek mark an episode.
///
/// `watched` is a [`Duration`] rather than a fraction because a fraction needs
/// a duration to be a fraction of, and a duration is [`Known`]: a player is
/// free not to report one.
#[derive(Debug, Clone, Copy, PartialEq, Eq)]
pub struct Progress {
    /// Where playback is, as the source reported it.
    pub position: Known<Duration>,
    /// How much of the media has been watched, accumulated over the readings.
    pub watched: Duration,
    /// How long the media is, as far as it can be known.
    ///
    /// The source's own answer, except where its own reading contradicts it. A
    /// length below the position it arrived with, and a length of zero, arrive
    /// here as [`Known::NotReported`]: both are impossible, and a consumer
    /// handed one has no way to tell it from a true one.
    pub duration: Known<Duration>,
    /// Whether the step that produced this answer was a seek.
    pub seeked: bool,
}

/// What one reading left the timeline in, as contracts speak of it.
pub struct ProgressView {
    /// Where playback is, in nanoseconds.
    pub position: Known<nat>,
    /// How much has been watched, in nanoseconds.
    pub watched: nat,
    /// How long the media is, in nanoseconds.
    pub duration: Known<nat>,
    /// Whether the step was a seek.
    pub seeked: bool,
}

impl View for Progress {
    type V = ProgressView;

    open spec fn view(&self) -> ProgressView {
        ProgressView {
            position: known_nanos(self.position),
            watched: self.watched@,
            duration: known_nanos(self.duration),
            seeked: self.seeked,
        }
    }
}

/// How far a position may sit from where the reading before it implies, before
/// the step between the two is called a seek, in nanoseconds: two seconds.
///
/// **The adapter's own skew is the floor.** A reading is stamped when the
/// platform's answer arrives, and the position inside that answer was true when
/// the player read it, up to one call earlier. The MPRIS adapter gives a call
/// half a second before giving up on it, so two consecutive readings taken at
/// opposite ends of that range differ from the elapsed time by up to half a
/// second with nothing at all having happened.
///
/// **The jump an arrow key makes is the ceiling.** A bare arrow moves mpv five
/// seconds, and VLC does not seek on a bare arrow at all, its smallest arrow-key
/// jump being three seconds on shift. Anything below three seconds catches both.
///
/// Smaller deliberate seeks exist and this number does not claim to catch them.
/// A one second correction is deliberately left to look like drift.
///
/// Two seconds sits four times above the floor and a third below the ceiling.
/// It also leaves room for a file played faster than normal, which no adapter
/// reports and which looks exactly like a position running ahead of the clock:
/// at a one second cadence, three times speed puts it exactly two seconds ahead
/// each interval. The comparison is strict so that exactly two seconds is not a
/// seek.
pub const SEEK_THRESHOLD: u64 = 2_000_000_000;

/// The longest interval between two readings the timeline counts as observed, in
/// nanoseconds: ten seconds.
///
/// A longer one is a gap. Nothing is known about what happened inside it, so
/// nothing inside it is judged or counted, and the reading that ends it becomes
/// the anchor the next one is measured against.
///
/// **What produces one is a source that stops answering**, since a round that
/// times out publishes no reading at all.
///
/// **A gap is discarded even when the position resumes exactly where playing
/// through it would have left it**, and that is the point rather than a
/// shortcoming. A minute of playback and a drag of the bar a minute forward end
/// at the same position, and over an interval nobody watched there is nothing
/// to tell them apart. Counting it would let one drag mark an episode, which is
/// the reason [`Progress`] carries a position and a watched time rather than
/// one number.
///
/// Ten seconds, from the two bounds around it. **Below**, a source that fails to
/// answer misses that round entirely, at a cadence of about one second, so a
/// handful of consecutive timeouts is a handful of seconds and must stay
/// observed or a merely slow player loses its progress. **Above**, an interval
/// at or under this is counted in full whether or not anyone saw it, so this is
/// also the most watched time a single hiccup can add: ten seconds of a
/// twenty-four minute episode is under one percent of it.
pub const OBSERVED_LIMIT: u64 = 10_000_000_000;

/// How much of the media has to have been watched, as a percentage of its
/// length, unless [`WatchedPolicy`] is built with another.
///
/// **What this number is for.** It is the trigger that registers a title, not a
/// record of how much was watched. The only question it answers is when to
/// write the title down, and it is asked of [`Progress::watched`] alone.
///
/// **Why a percentage and not a count of seconds.** The same number of seconds
/// is the whole of a short and a fifth of a film. A percentage is the only form
/// that means the same thing for both.
///
/// **Why this is far below the whole file.** Media ends in credits, and a series
/// repeats them at both ends: roughly a minute and a half of opening and the
/// same of closing in a twenty-four minute episode, plus a preview. A viewer who
/// skips both can never accumulate more than about seven eighths of the file, so
/// a high setting is unreachable for the ordinary way of watching a series.
///
/// **Why it is half rather than more.** Registering a title does not require
/// finishing it. A viewer who stops in the middle has still watched the thing,
/// and whether they abandoned it or were called away is not something any
/// reading can tell - so it is not asked.
pub const WATCHED_PERCENT: u8 = 50;

/// The smallest percentage [`WatchedPolicy::new`] accepts.
///
/// A floor on the configuration rather than on the decision. Below this the
/// setting stops describing watching at all: a fifth of a twenty-four minute
/// episode is four minutes and forty-eight seconds, which nobody reaches by
/// opening a file to look at it, and anything lower starts to be reachable that
/// way.
///
/// It does not protect very short media on its own, because a fifth of a three
/// minute short is thirty-six seconds. [`WATCHED_MINIMUM`] is what covers that.
pub const WATCHED_PERCENT_MIN: u8 = 20;

/// The largest percentage [`WatchedPolicy::new`] accepts.
///
/// **A hundred is not reachable in one pass over a file and is therefore not
/// offered.** Watched time accumulates from the first reading, which arrives
/// after playback has already started, so one pass ends short of the length. A
/// setting nothing can satisfy is a trap rather than a preference, and the same
/// argument takes the ceiling well below a hundred: skipping the opening of a
/// twenty-four minute episode leaves fifteen sixteenths of it to accumulate
/// from, and skipping the closing as well leaves seven eighths.
///
/// Four fifths is reachable for a viewer who skips both.
pub const WATCHED_PERCENT_MAX: u8 = 80;

/// The least watched time that can count, whatever percentage is in force, in
/// nanoseconds: one minute.
///
/// **Very short media is what this is for.** A fifth of a three minute short is
/// thirty-six seconds, which is the length of a look rather than of a viewing,
/// and the percentage alone cannot tell the two apart. One minute can.
///
/// **It never demands more than [`WATCHED_PERCENT_MAX`] of the media itself**,
/// and that cap is not a nicety: `Jigazou` runs twelve seconds, `Sora Iro no
/// Tane` thirty and `Doubutsu Sumo Taikai` fifty-two, so media shorter than this
/// minimum exists and is catalogued. Without the cap, playing one of those
/// through would not register it, and nothing would say why.
///
/// It is also the smallest fallback [`WatchedPolicy::new`] accepts, because both
/// answer the same question - the least watched time worth registering - and two
/// numbers for one question drift apart.
pub const WATCHED_MINIMUM: u64 = 60_000_000_000;

/// The watched time that counts where no usable length arrives, unless
/// [`WatchedPolicy`] is built with another, in nanoseconds: five minutes.
///
/// **When there is no length there is nothing to take a percentage of**, and the
/// cases are real: a live stream has no end to report, a source may not declare
/// the capability at all, and a length its own reading contradicts is discarded
/// before it reaches here.
///
/// **A nominal length is not the answer.** Standing in a twenty-four minute
/// episode or a ninety minute film would be a guess about media the source
/// deliberately did not describe, and a guess that is wrong is worse here than
/// no answer: it writes a title down on evidence that was invented.
///
/// So a flat span of watched time, and five minutes for the same reason
/// [`WATCHED_PERCENT_MIN`] exists - long enough that nobody reaches it by
/// opening something to look at it, short enough that a stream somebody is
/// actually watching gets registered.
pub const WATCHED_FALLBACK: u64 = 300_000_000_000;

/// The largest fallback [`WatchedPolicy::new`] accepts, in nanoseconds: three
/// hours.
///
/// Three hours is within a single sitting, so every accepted value is one a
/// viewer can actually reach. Above this the setting means "never register a
/// source that reports no length", which is a thing to say plainly rather than
/// to express as a number nothing meets.
pub const WATCHED_FALLBACK_MAX: u64 = 10_800_000_000_000;

/// Why a [`WatchedPolicy`] could not be built.
///
/// Refused rather than corrected. A percentage quietly moved into range makes a
/// configuration file disagree with the program reading it, and nothing later
/// can tell the user which number is in force.
#[derive(Debug, Clone, Copy, PartialEq, Eq)]
pub enum WatchedPolicyError {
    /// The percentage is outside [`WATCHED_PERCENT_MIN`] to
    /// [`WATCHED_PERCENT_MAX`].
    Percent {
        /// What was asked for.
        percent: u8,
    },
    /// The fallback is outside [`WATCHED_MINIMUM`] to [`WATCHED_FALLBACK_MAX`].
    Fallback {
        /// What was asked for.
        fallback: Duration,
    },
}

/// What a refused policy is told to the user as.
pub open spec fn policy_error_text(why: WatchedPolicyError) -> Seq<char> {
    match why {
        WatchedPolicyError::Percent { percent } => "a watched percentage of "@ + decimal_text(
            percent as nat,
        ) + " is outside "@ + decimal_text(WATCHED_PERCENT_MIN as nat) + " to "@ + decimal_text(
            WATCHED_PERCENT_MAX as nat,
        ),
        WatchedPolicyError::Fallback { fallback } => "a fallback of "@ + span_text(fallback@)
            + " is outside "@ + span_text(WATCHED_MINIMUM as nat) + " to "@ + span_text(
            WATCHED_FALLBACK_MAX as nat,
        ),
    }
}

impl WatchedPolicyError {
    /// The refusal, told to the user.
    pub fn message(&self) -> (message: String)
        ensures
            message@ == policy_error_text(*self),
    {
        match self {
            WatchedPolicyError::Percent { percent } => {
                let mut message = String::from_str("a watched percentage of ");
                message.append(decimal(*percent as u64).as_str());
                message.append(" is outside ");
                message.append(decimal(WATCHED_PERCENT_MIN as u64).as_str());
                message.append(" to ");
                message.append(decimal(WATCHED_PERCENT_MAX as u64).as_str());
                message
            },
            WatchedPolicyError::Fallback { fallback } => {
                let mut message = String::from_str("a fallback of ");
                message.append(fallback.written().as_str());
                message.append(" is outside ");
                message.append(Duration::from_nanos(WATCHED_MINIMUM).written().as_str());
                message.append(" to ");
                message.append(Duration::from_nanos(WATCHED_FALLBACK_MAX).written().as_str());
                message
            },
        }
    }
}

/// When enough of the media has been watched to register the title.
///
/// Two numbers, because a source is free to report no length. The percentage
/// applies to the length in force; the fallback is a flat span of watched time
/// that answers where there is none.
///
/// **The decision is taken from the watched time and never from the position.**
/// A viewer who drags the bar to the last minute has playback at the end and has
/// watched nothing, and holding those two apart is what [`Progress`] is shaped
/// for.
///
/// Both numbers are checked when the policy is built and are private afterwards,
/// so every policy that exists is one whose answer is reachable. What each bound
/// is for is written on the constant that sets it.
#[derive(Debug, Clone, Copy, PartialEq, Eq)]
pub struct WatchedPolicy {
    /// Checked against [`WATCHED_PERCENT_MIN`] and [`WATCHED_PERCENT_MAX`].
    percent: u8,
    /// Checked against [`WATCHED_MINIMUM`] and [`WATCHED_FALLBACK_MAX`].
    fallback: Duration,
}

/// A policy as contracts speak of it: its percentage, and its fallback in
/// nanoseconds.
pub struct WatchedPolicyView {
    /// The percentage of the length that has to have been watched.
    pub percent: nat,
    /// The watched time that answers where there is no usable length.
    pub fallback: nat,
}

impl View for WatchedPolicy {
    type V = WatchedPolicyView;

    closed spec fn view(&self) -> WatchedPolicyView {
        WatchedPolicyView { percent: self.percent as nat, fallback: self.fallback@ }
    }
}

/// A policy whose answer is reachable.
pub open spec fn reachable(policy: WatchedPolicyView) -> bool {
    &&& WATCHED_PERCENT_MIN <= policy.percent <= WATCHED_PERCENT_MAX
    &&& WATCHED_MINIMUM <= policy.fallback <= WATCHED_FALLBACK_MAX
}

/// The watched time a policy asks for from media of a length, in nanoseconds.
///
/// The percentage of the length, raised to [`WATCHED_MINIMUM`] where that is
/// more - and that floor is itself held down to [`WATCHED_PERCENT_MAX`] of the
/// length, so it can never ask for more of a file than the largest setting
/// would. Media shorter than about a minute and a quarter is decided by the cap
/// rather than by either number.
///
/// Divided before it is multiplied, which cannot overflow, where multiplying
/// first can. The division truncates by under a nanosecond and the
/// multiplication scales that by at most [`WATCHED_PERCENT_MAX`], so the
/// threshold is under 80 nanoseconds low.
pub open spec fn threshold(percent: nat, length: nat) -> nat {
    let hundredth = length / 100;
    let asked = hundredth * percent;
    let cap = hundredth * WATCHED_PERCENT_MAX as nat;
    let floor = if WATCHED_MINIMUM as nat <= cap {
        WATCHED_MINIMUM as nat
    } else {
        cap
    };
    if asked >= floor {
        asked
    } else {
        floor
    }
}

/// Whether watched time registers the media as watched: at the threshold where
/// there is a length to take a percentage of, and at the fallback where there is
/// not.
pub open spec fn enough(policy: WatchedPolicyView, watched: nat, duration: Known<nat>) -> bool {
    match duration {
        Known::Value(length) => if length != 0 {
            watched >= threshold(policy.percent, length)
        } else {
            watched >= policy.fallback
        },
        _ => watched >= policy.fallback,
    }
}

impl Default for WatchedPolicy {
    /// [`WATCHED_PERCENT`] and [`WATCHED_FALLBACK`], which are in range by
    /// construction.
    fn default() -> (policy: Self)
        ensures
            policy@ == (WatchedPolicyView {
                percent: WATCHED_PERCENT as nat,
                fallback: WATCHED_FALLBACK as nat,
            }),
    {
        Self { percent: WATCHED_PERCENT, fallback: Duration::from_nanos(WATCHED_FALLBACK) }
    }
}

impl WatchedPolicy {
    #[verifier::type_invariant]
    spec fn in_range(self) -> bool {
        &&& WATCHED_PERCENT_MIN <= self.percent <= WATCHED_PERCENT_MAX
        &&& WATCHED_MINIMUM <= self.fallback@ <= WATCHED_FALLBACK_MAX
    }

    /// Build a policy, refusing either number if it is out of range.
    ///
    /// # Errors
    ///
    /// [`WatchedPolicyError::Percent`] or [`WatchedPolicyError::Fallback`],
    /// naming the value that was refused. The percentage is checked first, so a
    /// configuration with both wrong reports the percentage.
    pub fn new(percent: u8, fallback: Duration) -> (policy: Result<Self, WatchedPolicyError>)
        ensures
            match policy {
                Ok(made) => {
                    &&& made@ == (WatchedPolicyView {
                        percent: percent as nat,
                        fallback: fallback@,
                    })
                    &&& reachable(made@)
                },
                Err(WatchedPolicyError::Percent { percent: refused }) => {
                    &&& refused == percent
                    &&& !(WATCHED_PERCENT_MIN <= percent <= WATCHED_PERCENT_MAX)
                },
                Err(WatchedPolicyError::Fallback { fallback: refused }) => {
                    &&& refused == fallback
                    &&& WATCHED_PERCENT_MIN <= percent <= WATCHED_PERCENT_MAX
                    &&& !(WATCHED_MINIMUM <= fallback@ <= WATCHED_FALLBACK_MAX)
                },
            },
    {
        if percent < WATCHED_PERCENT_MIN || percent > WATCHED_PERCENT_MAX {
            return Err(WatchedPolicyError::Percent { percent });
        }
        if fallback.as_nanos() < WATCHED_MINIMUM as u128 || fallback.as_nanos()
            > WATCHED_FALLBACK_MAX as u128 {
            return Err(WatchedPolicyError::Fallback { fallback });
        }
        Ok(Self { percent, fallback })
    }

    /// The percentage of the length that has to have been watched.
    pub fn percent(&self) -> (percent: u8)
        ensures
            percent == self@.percent,
            reachable(self@),
    {
        proof {
            use_type_invariant(self);
        }
        self.percent
    }

    /// The watched time that answers where there is no usable length.
    pub fn fallback(&self) -> (fallback: Duration)
        ensures
            fallback@ == self@.fallback,
            reachable(self@),
    {
        proof {
            use_type_invariant(self);
        }
        self.fallback
    }

    /// Whether this answer registers the media as watched.
    ///
    /// The percentage where there is a length to take a percentage of, and the
    /// fallback where there is not. **Neither comparison is strict**: the rule
    /// is watched *at* the threshold, and a source whose last reading lands
    /// exactly on it is under no obligation to send another.
    ///
    /// A length of **zero** falls back rather than satisfying the percentage.
    /// The timeline cannot produce one, because a length of zero arrives absent,
    /// but [`Progress`] is a value with public fields and that refusal does not
    /// travel with it. Any percentage of zero is zero, which would register a
    /// viewer who has watched nothing at all.
    ///
    /// The fallback needs no floor of its own: every accepted fallback is at
    /// least [`WATCHED_MINIMUM`] already.
    pub fn counts_as_watched(&self, progress: &Progress) -> (answer: bool)
        ensures
            answer == enough(self@, progress@.watched, progress@.duration),
    {
        match progress.duration {
            Known::Value(length) => if !length.is_zero() {
                !self.threshold_for(length).exceeds(progress.watched)
            } else {
                !self.fallback.exceeds(progress.watched)
            },
            Known::NotReported | Known::Unsupported => !self.fallback.exceeds(progress.watched),
        }
    }

    /// The watched time this policy asks for from media of `length`.
    fn threshold_for(&self, length: Duration) -> (span: Duration)
        ensures
            span@ == threshold(self@.percent, length@),
    {
        let whole: u128 = length.as_nanos();
        let hundredth = length.divided_by(100);
        proof {
            use_type_invariant(self);
            lemma_a_percentage_is_a_part(whole as nat, self.percent as nat);
            lemma_a_percentage_is_a_part(whole as nat, WATCHED_PERCENT_MAX as nat);
        }
        let asked = hundredth.times(self.percent as u32);
        let cap = hundredth.times(WATCHED_PERCENT_MAX as u32);
        let floor = Duration::from_nanos(WATCHED_MINIMUM).min(cap);
        asked.max(floor)
    }
}

proof fn lemma_a_percentage_is_a_part(length: nat, percent: nat)
    requires
        percent <= 100,
    ensures
        length / 100 * percent <= length,
{
    assert(length / 100 * percent <= length / 100 * 100) by (nonlinear_arith)
        requires
            percent <= 100,
    ;
}

// Readings.

/// How long the media is, with a length its own reading contradicts discarded.
///
/// Players lie about length, and the two values refused here are the ones a
/// consumer below has no way to tell from the truth. A length **below the
/// position it arrives with** describes media playback has already run past,
/// which a genuinely short file never does. A length of **zero** is no media at
/// all, and the contradiction rule reaches it only when a position arrives
/// above it: a position of zero is legal and reported, so a player at the start
/// of a file offers nothing for zero to be below.
///
/// Refused rather than corrected. The only correction available is the position
/// itself, since playback reached it, and a watched decision taken as a fraction
/// of that number would call every such file complete the moment it arrived. An
/// absence is a fact the fallback for a missing length has to answer for.
///
/// A position **equal** to the length is the last instant of the media and is
/// kept.
///
/// [`Known::Unsupported`] is carried through rather than folded into
/// [`Known::NotReported`], because a source that cannot report a length and one
/// that reported an impossible one are different facts: the first is settled for
/// the life of the source, the second is about this reading alone.
pub open spec fn credible_length(duration: Known<nat>, position: Known<nat>) -> Known<nat> {
    match duration {
        Known::Value(length) => if length == 0 || (position matches Known::Value(reached)
            && length < reached) {
            Known::NotReported
        } else {
            duration
        },
        _ => duration,
    }
}

fn duration_of(reading: &PlayerSnapshot) -> (duration: Known<Duration>)
    ensures
        known_nanos(duration) == credible_length(reading@.duration, reading@.position),
{
    match reading.duration {
        Known::Value(length) => {
            if length.is_zero() {
                return Known::NotReported;
            }
            match reading.position {
                Known::Value(reached) => if reached.exceeds(length) {
                    Known::NotReported
                } else {
                    Known::Value(length)
                },
                // Both absences answer alike, though they are different facts:
                // with no position reported there is nothing a length can
                // contradict.
                Known::NotReported | Known::Unsupported => Known::Value(length),
            }
        },
        Known::NotReported => Known::NotReported,
        Known::Unsupported => Known::Unsupported,
    }
}

/// The part of a reading the next one is measured against.
///
/// Only the three fields the fold needs, rather than the whole reading, so
/// that what the timeline remembers is visible at a glance.
#[derive(Debug, Clone, Copy)]
struct Previous {
    /// When it was taken, on the clock its source was read with.
    observed_at: Timestamp,
    /// What it reported, which is what the interval after it counts as.
    state: PlayState,
    /// Where it said playback was, which the next position is predicted from.
    position: Known<Duration>,
}

/// The part of a reading the next one is measured against, as contracts speak
/// of it.
pub struct PreviousView {
    /// When it was taken.
    pub observed_at: nat,
    /// What it reported.
    pub state: PlayState,
    /// Where it said playback was.
    pub position: Known<nat>,
}

impl View for Previous {
    type V = PreviousView;

    closed spec fn view(&self) -> PreviousView {
        PreviousView {
            observed_at: self.observed_at@,
            state: self.state,
            position: known_nanos(self.position),
        }
    }
}

/// How much time passed between two readings.
pub open spec fn interval(previous: PreviousView, reading: SnapshotView) -> nat {
    less(reading.observed_at, previous.observed_at)
}

/// Whether the interval up to a reading is short enough to have been seen.
///
/// Not strictly: an interval of exactly the limit is a daemon under load rather
/// than one that was not running.
pub open spec fn observed(previous: PreviousView, reading: SnapshotView) -> bool {
    interval(previous, reading) <= OBSERVED_LIMIT
}

/// How far the position should have moved by the time of the next reading: by
/// the interval when this reading was playing, and not at all when it was not.
pub open spec fn expected_move(previous: PreviousView, reading: SnapshotView) -> nat {
    if previous.state == PlayState::Playing {
        interval(previous, reading)
    } else {
        0
    }
}

/// Whether the step from one reading to the next is a break in playback, and
/// what the position still owes after it, where it owed something before.
///
/// The position is predicted from the earlier reading: it advances by the
/// interval when that reading was playing and stays put when it was paused.
/// Nothing here mentions where playback started, and that is the whole of it. A
/// position drifts from its first anchor over a long file for reasons that are
/// not seeks, so a rule anchored there reports one on every reading past the
/// threshold and never stops.
///
/// Three things can have happened to the position, and only one of them is ever
/// a break.
///
/// It went **backwards**, which no amount of reporting lag does, so its distance
/// from the prediction is judged against [`SEEK_THRESHOLD`] directly.
///
/// It advanced **less than the interval implies**, which is what a player that
/// has not published a new position yet looks like. Never a break: a position
/// that stands still has skipped nothing. What it did not report is remembered,
/// because the reading that catches up has to be allowed to.
///
/// It advanced **at least as far as the interval implies**, which is ordinary
/// playback until the overshoot passes what the stall owed plus the threshold.
/// Either way the stall is settled: a player owes its backlog at once, and one
/// interval of ordinary reporting says the position is current again.
///
/// An interval the state changed inside says nothing about seeking: the change
/// happened at a moment this cannot name, and everything from that moment to
/// one end of the interval is unaccounted for.
pub open spec fn step(owed: nat, previous: PreviousView, reading: SnapshotView) -> (bool, nat) {
    match (previous.position, reading.position) {
        (Known::Value(before), Known::Value(now)) => {
            let expected = expected_move(previous, reading);
            if previous.state != reading.state {
                (false, 0)
            } else if now < before {
                (more(less(before, now), expected) > SEEK_THRESHOLD, 0)
            } else if now - before < expected {
                (false, (owed + (expected - (now - before))) as nat)
            } else {
                ((now - before) - expected > more(owed, SEEK_THRESHOLD as nat), 0)
            }
        },
        _ => (false, 0),
    }
}

/// What a timeline remembers, as contracts speak of it.
pub struct TimelineView {
    /// Watched time accumulated over every reading so far.
    pub watched: nat,
    /// The reading the next one will be measured against.
    pub previous: Option<PreviousView>,
    /// Playback the position has not caught up with yet.
    pub stalled: nat,
}

/// A timeline that has seen nothing.
pub open spec fn nothing_seen() -> TimelineView {
    TimelineView { watched: 0, previous: None, stalled: 0 }
}

/// The reading a new one is measured against: the one before it, unless the
/// interval between them is a gap.
pub open spec fn measured_against(timeline: TimelineView, reading: SnapshotView) -> Option<
    PreviousView,
> {
    match timeline.previous {
        Some(earlier) => if observed(earlier, reading) {
            Some(earlier)
        } else {
            None
        },
        None => None,
    }
}

/// How much watched time a reading adds: the interval since the one before it,
/// where that one was playing and the interval was observed.
pub open spec fn added(timeline: TimelineView, reading: SnapshotView) -> nat {
    match measured_against(timeline, reading) {
        Some(earlier) => expected_move(earlier, reading),
        None => 0,
    }
}

/// What a timeline remembers once it has folded a reading in.
pub open spec fn advanced(timeline: TimelineView, reading: SnapshotView) -> TimelineView {
    TimelineView {
        watched: timeline.watched + added(timeline, reading),
        previous: Some(
            PreviousView {
                observed_at: reading.observed_at,
                state: reading.state,
                position: reading.position,
            },
        ),
        stalled: match measured_against(timeline, reading) {
            Some(earlier) => step(timeline.stalled, earlier, reading).1,
            None => 0,
        },
    }
}

/// What a timeline answers a reading with.
pub open spec fn progressed(timeline: TimelineView, reading: SnapshotView) -> ProgressView {
    ProgressView {
        position: reading.position,
        watched: timeline.watched + added(timeline, reading),
        duration: credible_length(reading.duration, reading.position),
        seeked: match measured_against(timeline, reading) {
            Some(earlier) => step(timeline.stalled, earlier, reading).0,
            None => false,
        },
    }
}

/// The state a sequence of readings is folded through.
///
/// One continuous playback of one thing, and nothing here notices otherwise.
/// No rule reads [`PlayerSnapshot::media`], so a source that finishes one file
/// and opens another goes on adding to the watched time of the first.
#[derive(Debug)]
pub struct Timeline {
    /// Watched time accumulated over every reading so far.
    watched: Duration,
    /// The reading this one will be measured against, absent until the first.
    previous: Option<Previous>,
    /// Playback the position has not caught up with yet.
    ///
    /// Only ever what the run of readings ending at the last one fell behind
    /// by: one interval of ordinary reporting settles it, whether or not the
    /// position ever made it up.
    stalled: Duration,
}

impl View for Timeline {
    type V = TimelineView;

    closed spec fn view(&self) -> TimelineView {
        TimelineView {
            watched: self.watched@,
            previous: match self.previous {
                Some(earlier) => Some(earlier@),
                None => None,
            },
            stalled: self.stalled@,
        }
    }
}

/// Whether a span holds what was watched and what a reading adds to it.
pub open spec fn has_room(timeline: TimelineView, reading: SnapshotView) -> bool {
    timeline.watched + added(timeline, reading) <= LONGEST_SPAN
}

impl Timeline {
    /// The position never owes more than was watched: what it fell behind by was
    /// counted as watched while it did.
    #[verifier::type_invariant]
    spec fn owes_no_more_than_watched(self) -> bool {
        self.stalled@ <= self.watched@
    }

    /// A timeline that has seen nothing.
    pub fn new() -> (timeline: Self)
        ensures
            timeline@ == nothing_seen(),
    {
        Self { watched: Duration::zero(), previous: None, stalled: Duration::zero() }
    }

    /// Whether what a reading adds to the watched time can be held, which it can
    /// for some hundreds of billions of years.
    pub fn has_room(&self, reading: &PlayerSnapshot) -> (answer: bool)
        ensures
            answer == has_room(self@, reading@),
    {
        let watched: u128 = self.watched.as_nanos();
        match self.previous {
            Some(earlier) => {
                let interval = reading.observed_at.since(earlier.observed_at);
                interval.exceeds(Duration::from_nanos(OBSERVED_LIMIT)) || earlier.state
                    != PlayState::Playing || watched + interval.as_nanos() <= LONGEST_SPAN
            },
            None => true,
        }
    }

    /// Fold one reading in, and answer with what it leaves behind.
    ///
    /// The position is the source's own answer, carried through exactly as it
    /// arrived. The length is the source's answer too, except where the reading
    /// it came with contradicts it: a length below its own position, or a
    /// length of zero, is published absent. The watched time and the seek are
    /// the timeline's, and no reading carries either: a seek is a break between
    /// two consecutive readings, and watched time is what a sequence of them
    /// adds up to.
    ///
    /// The watched time grows by the interval between this reading and the one
    /// before it when that earlier reading was playing, and by nothing at all
    /// otherwise. The earlier one and not this one, because the interval was
    /// spent in the state it began in, and a reading says what was true when it
    /// was taken rather than what became true during the interval after it.
    ///
    /// A pause therefore costs up to one interval at each end, in opposite
    /// directions. Neither end grows with the pause and they work against each
    /// other, so what a pause costs stays within one interval however long it
    /// lasts.
    pub fn advance(&mut self, reading: &PlayerSnapshot) -> (progress: Progress)
        requires
            has_room(old(self)@, reading@),
        ensures
            final(self)@ == advanced(old(self)@, reading@),
            progress@ == progressed(old(self)@, reading@),
    {
        proof {
            use_type_invariant(&*self);
        }
        let ghost before = self@;
        // An interval longer than `OBSERVED_LIMIT` is a gap, and the reading
        // before it is dropped here rather than in each rule below: nothing
        // inside a gap was seen, so there is nothing to count, nothing to
        // judge, and nothing the position can still be owed across it.
        let previous = match self.previous {
            Some(earlier) => if reading.observed_at.since(earlier.observed_at).exceeds(
                Duration::from_nanos(OBSERVED_LIMIT),
            ) {
                None
            } else {
                Some(earlier)
            },
            None => None,
        };
        let mut watched = self.watched;
        let mut stalled = Duration::zero();
        let mut seeked = false;
        if let Some(earlier) = previous {
            assert(measured_against(before, reading@) == Some(earlier@));
            if earlier.state == PlayState::Playing {
                watched = watched.plus(reading.observed_at.since(earlier.observed_at));
            }
            let (broke, owed) = broke_between(self.stalled, earlier, reading);
            seeked = broke;
            stalled = owed;
        } else {
            assert(measured_against(before, reading@) is None);
        }
        *self = Self {
            watched,
            previous: Some(
                Previous {
                    observed_at: reading.observed_at,
                    state: reading.state,
                    position: reading.position,
                },
            ),
            stalled,
        };
        Progress { position: reading.position, watched, duration: duration_of(reading), seeked }
    }
}

impl Default for Timeline {
    fn default() -> (timeline: Self)
        ensures
            timeline@ == nothing_seen(),
    {
        Self::new()
    }
}

/// Whether the step from one reading to the next is a break in playback, and
/// what the position still owes after it.
fn broke_between(owed: Duration, previous: Previous, reading: &PlayerSnapshot) -> (answer: (
    bool,
    Duration,
))
    requires
        owed@ + expected_move(previous@, reading@) <= LONGEST_SPAN,
    ensures
        (answer.0, answer.1@) == step(owed@, previous@, reading@),
        answer.1@ <= owed@ + expected_move(previous@, reading@),
{
    match (previous.position, reading.position) {
        (Known::Value(before), Known::Value(now)) => {
            if previous.state != reading.state {
                return (false, Duration::zero());
            }
            let expected = match previous.state {
                PlayState::Playing => reading.observed_at.since(previous.observed_at),
                PlayState::Paused | PlayState::Stopped => Duration::zero(),
            };
            if before.exceeds(now) {
                let distance = before.saturating_sub(now).saturating_add(expected);
                return (
                    distance.exceeds(Duration::from_nanos(SEEK_THRESHOLD)),
                    Duration::zero(),
                );
            }
            let moved = now.saturating_sub(before);
            if expected.exceeds(moved) {
                return (false, owed.plus(expected.saturating_sub(moved)));
            }
            let allowed = owed.saturating_add(Duration::from_nanos(SEEK_THRESHOLD));
            (moved.saturating_sub(expected).exceeds(allowed), Duration::zero())
        },
        _ => (false, Duration::zero()),
    }
}

// What the timeline promises.

/// Watched time never goes down, and one reading adds no more than the longest
/// interval that counts as observed.
pub proof fn law_watched_time_only_grows(timeline: TimelineView, reading: SnapshotView)
    ensures
        timeline.watched <= advanced(timeline, reading).watched <= timeline.watched
            + OBSERVED_LIMIT,
        progressed(timeline, reading).watched == advanced(timeline, reading).watched,
{
}

/// A first reading watches nothing and is no seek, wherever it says playback is.
pub proof fn law_a_first_reading_watches_nothing(reading: SnapshotView)
    ensures
        progressed(nothing_seen(), reading).watched == 0,
        !progressed(nothing_seen(), reading).seeked,
{
}

/// Nothing inside a gap is counted or judged, and nothing is owed across it.
pub proof fn law_a_gap_counts_nothing(
    timeline: TimelineView,
    earlier: PreviousView,
    reading: SnapshotView,
)
    requires
        timeline.previous == Some(earlier),
        interval(earlier, reading) > OBSERVED_LIMIT,
    ensures
        advanced(timeline, reading).watched == timeline.watched,
        advanced(timeline, reading).stalled == 0,
        !progressed(timeline, reading).seeked,
{
}

/// An interval that did not begin playing adds no watched time.
pub proof fn law_only_playing_is_watching(
    timeline: TimelineView,
    earlier: PreviousView,
    reading: SnapshotView,
)
    requires
        timeline.previous == Some(earlier),
        earlier.state != PlayState::Playing,
    ensures
        advanced(timeline, reading).watched == timeline.watched,
{
}

/// An observed interval that began playing is watched whole.
pub proof fn law_an_observed_interval_is_watched_whole(
    timeline: TimelineView,
    earlier: PreviousView,
    reading: SnapshotView,
)
    requires
        timeline.previous == Some(earlier),
        earlier.state == PlayState::Playing,
        earlier.observed_at <= reading.observed_at <= earlier.observed_at + OBSERVED_LIMIT,
    ensures
        advanced(timeline, reading).watched == timeline.watched + (reading.observed_at
            - earlier.observed_at),
{
}

/// Where playback is does not change how much of it was watched.
pub proof fn law_a_position_watches_nothing(
    timeline: TimelineView,
    reading: SnapshotView,
    elsewhere: Known<nat>,
)
    ensures
        advanced(timeline, reading).watched == advanced(
            timeline,
            SnapshotView { position: elsewhere, ..reading },
        ).watched,
{
}

/// Playback that moves with the clock is never a seek, however long it has been
/// going on and whatever the position was owed.
pub proof fn law_moving_with_the_clock_is_no_seek(
    timeline: TimelineView,
    earlier: PreviousView,
    reading: SnapshotView,
    before: nat,
)
    requires
        timeline.previous == Some(earlier),
        earlier.position == Known::Value(before),
        reading.position == Known::Value(before + expected_move(earlier, reading)),
    ensures
        !progressed(timeline, reading).seeked,
        advanced(timeline, reading).stalled == 0,
{
}

/// A position that stands still or falls behind is never a seek, and catching up
/// with what it was owed is not one either.
pub proof fn law_catching_up_is_no_seek(
    timeline: TimelineView,
    earlier: PreviousView,
    reading: SnapshotView,
    before: nat,
    now: nat,
)
    requires
        timeline.previous == Some(earlier),
        timeline.stalled + SEEK_THRESHOLD <= LONGEST_SPAN,
        earlier.position == Known::Value(before),
        reading.position == Known::Value(now),
        before <= now <= before + expected_move(earlier, reading) + timeline.stalled
            + SEEK_THRESHOLD,
    ensures
        !progressed(timeline, reading).seeked,
{
}

/// A jump ahead of what the clock and the backlog allow, by more than the
/// threshold, is a seek wherever the two readings agree about the state.
pub proof fn law_a_jump_ahead_is_a_seek(
    timeline: TimelineView,
    earlier: PreviousView,
    reading: SnapshotView,
    before: nat,
    now: nat,
)
    requires
        timeline.previous == Some(earlier),
        observed(earlier, reading),
        earlier.state == reading.state,
        earlier.position == Known::Value(before),
        reading.position == Known::Value(now),
        now > before + expected_move(earlier, reading) + timeline.stalled + SEEK_THRESHOLD,
    ensures
        progressed(timeline, reading).seeked,
{
}

/// A length that is published is one the reading it came with does not
/// contradict.
pub proof fn law_a_published_length_is_credible(timeline: TimelineView, reading: SnapshotView)
    ensures
        progressed(timeline, reading).duration matches Known::Value(length) ==> length > 0 && (
        reading.position matches Known::Value(reached) ==> reached <= length)
            && reading.duration == Known::Value(length),
        reading.duration is Unsupported <==> progressed(timeline, reading).duration is Unsupported,
{
}

/// The position is carried through exactly as it arrived.
pub proof fn law_a_position_is_carried_through(timeline: TimelineView, reading: SnapshotView)
    ensures
        progressed(timeline, reading).position == reading.position,
{
}

/// What the position owes never comes to more than was watched.
pub proof fn law_no_more_is_owed_than_was_watched(timeline: TimelineView, reading: SnapshotView)
    requires
        timeline.stalled <= timeline.watched,
    ensures
        advanced(timeline, reading).stalled <= advanced(timeline, reading).watched,
{
}

// What the decision promises.

/// More watched time never takes a decision back.
pub proof fn law_a_decision_is_kept(
    policy: WatchedPolicyView,
    duration: Known<nat>,
    watched: nat,
    later: nat,
)
    requires
        enough(policy, watched, duration),
        watched <= later,
    ensures
        enough(policy, later, duration),
{
}

/// Nothing is registered that was not watched at all.
pub proof fn law_watching_nothing_registers_nothing(
    policy: WatchedPolicyView,
    duration: Known<nat>,
)
    requires
        reachable(policy),
        duration matches Known::Value(length) ==> length >= 100 || length == 0,
    ensures
        !enough(policy, 0, duration),
{
    if let Known::Value(length) = duration {
        if length != 0 {
            let hundredth = length / 100;
            assert(hundredth * policy.percent > 0) by (nonlinear_arith)
                requires
                    hundredth >= 1,
                    policy.percent >= 20,
            ;
        }
    }
}

/// A policy asks for no more of any file than the largest percentage would, and
/// for at least a minute wherever that leaves room for one.
pub proof fn law_no_policy_asks_for_too_much(policy: WatchedPolicyView, length: nat)
    requires
        reachable(policy),
    ensures
        threshold(policy.percent, length) <= length / 100 * (WATCHED_PERCENT_MAX as nat),
        length / 100 * (WATCHED_PERCENT_MAX as nat) <= length,
        length / 100 * (WATCHED_PERCENT_MAX as nat) >= WATCHED_MINIMUM ==> threshold(
            policy.percent,
            length,
        ) >= WATCHED_MINIMUM,
        enough(policy, length, Known::Value(length)) || length == 0,
{
    lemma_a_percentage_is_a_part(length, WATCHED_PERCENT_MAX as nat);
    let hundredth = length / 100;
    assert(hundredth * policy.percent <= hundredth * (WATCHED_PERCENT_MAX as nat))
        by (nonlinear_arith)
        requires
            policy.percent <= WATCHED_PERCENT_MAX,
    ;
}

/// Where no length is known the fallback alone decides.
pub proof fn law_the_fallback_decides_without_a_length(
    policy: WatchedPolicyView,
    watched: nat,
)
    ensures
        enough(policy, watched, Known::NotReported) == (watched >= policy.fallback),
        enough(policy, watched, Known::Unsupported) == (watched >= policy.fallback),
        enough(policy, watched, Known::Value(0nat)) == (watched >= policy.fallback),
{
}

/// A timeline that has seen some readings, one after the other.
pub open spec fn replayed(readings: Seq<SnapshotView>) -> TimelineView
    decreases readings.len(),
{
    if readings.len() == 0 {
        nothing_seen()
    } else {
        advanced(replayed(readings.drop_last()), readings.last())
    }
}

/// Whether readings stand in the order of their moments.
pub open spec fn in_time_order(readings: Seq<SnapshotView>) -> bool {
    forall|i: int, j: int|
        0 <= i <= j < readings.len() ==> (#[trigger] readings[i]).observed_at <= (
        #[trigger] readings[j]).observed_at
}

/// No more can have been watched than the time the readings span: over a run of
/// readings in time order, watched time is at most what lies between the first
/// and the last.
pub proof fn law_no_more_is_watched_than_went_by(readings: Seq<SnapshotView>)
    requires
        readings.len() > 0,
        in_time_order(readings),
    ensures
        replayed(readings).watched <= readings.last().observed_at - readings[0].observed_at,
        replayed(readings).previous matches Some(earlier) && earlier.observed_at
            == readings.last().observed_at,
    decreases readings.len(),
{
    let before = readings.drop_last();
    if before.len() > 0 {
        assert forall|i: int, j: int| 0 <= i <= j < before.len() implies (
        #[trigger] before[i]).observed_at <= (#[trigger] before[j]).observed_at by {
            assert(before[i] == readings[i] && before[j] == readings[j]);
        }
        law_no_more_is_watched_than_went_by(before);
        assert(before.last() == readings[readings.len() - 2]);
        assert(before[0] == readings[0]);
    } else {
        assert(before =~= Seq::empty());
        assert(replayed(before) == nothing_seen());
    }
}

/// Watched time never goes down over a run of readings: what the first of them
/// came to is no more than what all of them do.
pub proof fn law_a_longer_run_watches_no_less(readings: Seq<SnapshotView>, seen: int)
    requires
        0 <= seen <= readings.len(),
    ensures
        replayed(readings.take(seen)).watched <= replayed(readings).watched,
    decreases readings.len() - seen,
{
    if seen == readings.len() {
        assert(readings.take(seen) =~= readings);
    } else {
        law_a_longer_run_watches_no_less(readings, seen + 1);
        assert(readings.take(seen + 1).drop_last() =~= readings.take(seen));
    }
}

/// What a timeline remembers once it has folded several readings in.
pub open spec fn folded_in(timeline: TimelineView, readings: Seq<SnapshotView>) -> TimelineView
    decreases readings.len(),
{
    if readings.len() == 0 {
        timeline
    } else {
        advanced(folded_in(timeline, readings.drop_last()), readings.last())
    }
}

/// How far the position moved between two readings that agree about the state,
/// where both report one and it did not go backwards.
pub open spec fn moved(previous: PreviousView, reading: SnapshotView) -> Option<nat> {
    match (previous.position, reading.position) {
        (Known::Value(before), Known::Value(now)) => if previous.state == reading.state && before
            <= now {
            Some((now - before) as nat)
        } else {
            None
        },
        _ => None,
    }
}

/// By how much a reading falls behind the one it is measured against, where it
/// does.
pub open spec fn falls_behind(timeline: TimelineView, reading: SnapshotView) -> Option<nat> {
    match measured_against(timeline, reading) {
        Some(earlier) => match moved(earlier, reading) {
            Some(far) => if far < expected_move(earlier, reading) {
                Some((expected_move(earlier, reading) - far) as nat)
            } else {
                None
            },
            None => None,
        },
        None => None,
    }
}

/// By how much a reading runs ahead of the one it is measured against, where it
/// does not fall behind.
pub open spec fn runs_ahead(timeline: TimelineView, reading: SnapshotView) -> Option<nat> {
    match measured_against(timeline, reading) {
        Some(earlier) => match moved(earlier, reading) {
            Some(far) => if far >= expected_move(earlier, reading) {
                Some((far - expected_move(earlier, reading)) as nat)
            } else {
                None
            },
            None => None,
        },
        None => None,
    }
}

/// Whether every one of some readings falls behind the one before it.
pub open spec fn stalls(timeline: TimelineView, readings: Seq<SnapshotView>) -> bool
    decreases readings.len(),
{
    readings.len() == 0 || {
        &&& stalls(timeline, readings.drop_last())
        &&& falls_behind(folded_in(timeline, readings.drop_last()), readings.last()) is Some
    }
}

/// By how much some readings that stall fall behind together.
pub open spec fn fallen_behind(timeline: TimelineView, readings: Seq<SnapshotView>) -> nat
    decreases readings.len(),
{
    if readings.len() == 0 {
        0
    } else {
        fallen_behind(timeline, readings.drop_last()) + falls_behind(
            folded_in(timeline, readings.drop_last()),
            readings.last(),
        )->Some_0
    }
}

/// What a stall owes adds up over a run, and no reading of it is a seek.
pub proof fn law_a_stall_adds_up(timeline: TimelineView, readings: Seq<SnapshotView>)
    requires
        stalls(timeline, readings),
    ensures
        folded_in(timeline, readings).stalled == timeline.stalled + fallen_behind(
            timeline,
            readings,
        ),
        readings.len() > 0 ==> !progressed(
            folded_in(timeline, readings.drop_last()),
            readings.last(),
        ).seeked,
    decreases readings.len(),
{
    if readings.len() > 0 {
        law_a_stall_adds_up(timeline, readings.drop_last());
    }
}

/// What a stall owes is forgiven once: the reading that makes it up is no seek
/// up to all that was owed and the threshold, and after it nothing is owed, so a
/// second reading as far ahead as the threshold alone forbids is one.
pub proof fn law_a_stall_is_forgiven_once(
    timeline: TimelineView,
    readings: Seq<SnapshotView>,
    catching_up: SnapshotView,
    again: SnapshotView,
)
    requires
        stalls(timeline, readings),
        runs_ahead(folded_in(timeline, readings), catching_up) is Some,
        runs_ahead(folded_in(timeline, readings.push(catching_up)), again) is Some,
    ensures
        progressed(folded_in(timeline, readings), catching_up).seeked <==> runs_ahead(
            folded_in(timeline, readings),
            catching_up,
        )->Some_0 > more(
            timeline.stalled + fallen_behind(timeline, readings),
            SEEK_THRESHOLD as nat,
        ),
        folded_in(timeline, readings.push(catching_up)).stalled == 0,
        progressed(folded_in(timeline, readings.push(catching_up)), again).seeked <==> runs_ahead(
            folded_in(timeline, readings.push(catching_up)),
            again,
        )->Some_0 > SEEK_THRESHOLD,
{
    law_a_stall_adds_up(timeline, readings);
    assert(readings.push(catching_up).drop_last() =~= readings);
    assert(readings.push(catching_up).last() == catching_up);
}

// What a seek is, and what is watched, in seconds and positions.

/// How long after one moment another is, and nothing where it is not after it.
pub open spec fn between(earlier: nat, later: nat) -> nat {
    if later > earlier {
        (later - earlier) as nat
    } else {
        0
    }
}

/// A position that went backwards is a seek exactly where how far it went back,
/// together with how far it should have moved on, is over two seconds. It should
/// have moved on by the interval where the source was playing, and not at all
/// where it was paused or stopped. Nothing is owed afterwards.
pub proof fn law_going_back_is_a_seek(
    timeline: TimelineView,
    earlier: PreviousView,
    reading: SnapshotView,
    before: nat,
    now: nat,
)
    requires
        timeline.previous == Some(earlier),
        between(earlier.observed_at, reading.observed_at) <= 10_000_000_000,
        earlier.state == reading.state,
        earlier.position == Known::Value(before),
        reading.position == Known::Value(now),
        now < before,
    ensures
        earlier.state == PlayState::Playing ==> (progressed(timeline, reading).seeked <==> (before
            - now) + between(earlier.observed_at, reading.observed_at) > 2_000_000_000),
        earlier.state != PlayState::Playing ==> (progressed(timeline, reading).seeked <==> before
            - now > 2_000_000_000),
        advanced(timeline, reading).stalled == 0,
{
}

/// A position that moved on is a seek exactly where it moved further than it
/// should have by more than two seconds and all that it was owed.
pub proof fn law_running_ahead_is_a_seek(
    timeline: TimelineView,
    earlier: PreviousView,
    reading: SnapshotView,
    before: nat,
    now: nat,
)
    requires
        timeline.previous == Some(earlier),
        between(earlier.observed_at, reading.observed_at) <= 10_000_000_000,
        earlier.state == reading.state,
        earlier.position == Known::Value(before),
        reading.position == Known::Value(now),
        before <= now <= LONGEST_SPAN,
    ensures
        earlier.state == PlayState::Playing ==> (progressed(timeline, reading).seeked <==> now
            > before + between(earlier.observed_at, reading.observed_at) + timeline.stalled
            + 2_000_000_000),
        earlier.state != PlayState::Playing ==> (progressed(timeline, reading).seeked <==> now
            > before + timeline.stalled + 2_000_000_000),
        earlier.state == PlayState::Playing && now - before < between(
            earlier.observed_at,
            reading.observed_at,
        ) ==> advanced(timeline, reading).stalled == timeline.stalled + between(
            earlier.observed_at,
            reading.observed_at,
        ) - (now - before),
        (earlier.state != PlayState::Playing || now - before >= between(
            earlier.observed_at,
            reading.observed_at,
        )) ==> advanced(timeline, reading).stalled == 0,
{
}

/// Where the two readings disagree about the state, or one of them reports no
/// position, or nothing was seen for more than ten seconds, or there was no
/// reading before, nothing is a seek and nothing is owed.
pub proof fn law_what_cannot_be_judged_is_no_seek(timeline: TimelineView, reading: SnapshotView)
    requires
        match timeline.previous {
            None => true,
            Some(earlier) => {
                ||| earlier.state != reading.state
                ||| !(earlier.position is Value)
                ||| !(reading.position is Value)
                ||| between(earlier.observed_at, reading.observed_at) > 10_000_000_000
            },
        },
    ensures
        !progressed(timeline, reading).seeked,
        advanced(timeline, reading).stalled == 0,
{
}

/// A reading adds the interval since the one before it exactly where that one
/// was playing and the interval is no longer than ten seconds, and adds nothing
/// anywhere else. What it answers is what it leaves behind.
pub proof fn law_what_a_reading_adds(timeline: TimelineView, reading: SnapshotView)
    ensures
        match timeline.previous {
            None => advanced(timeline, reading).watched == timeline.watched,
            Some(earlier) => {
                let passed = between(earlier.observed_at, reading.observed_at);
                &&& earlier.state == PlayState::Playing && passed <= 10_000_000_000 ==> advanced(
                    timeline,
                    reading,
                ).watched == timeline.watched + passed
                &&& (earlier.state != PlayState::Playing || passed > 10_000_000_000) ==> advanced(
                    timeline,
                    reading,
                ).watched == timeline.watched
            },
        },
        progressed(timeline, reading).watched == advanced(timeline, reading).watched,
        progressed(timeline, reading).position == reading.position,
        advanced(timeline, reading).previous matches Some(next) && next.observed_at
            == reading.observed_at && next.state == reading.state && next.position
            == reading.position,
{
}

/// A reading a number of nanoseconds later.
pub open spec fn later(reading: SnapshotView, shift: nat) -> SnapshotView {
    SnapshotView { observed_at: reading.observed_at + shift, ..reading }
}

/// Only what lies between moments counts: a run of readings taken later by one
/// span comes to the same watched time and owes the same.
pub proof fn law_the_epoch_is_arbitrary(readings: Seq<SnapshotView>, shift: nat)
    ensures
        ({
            let shifted = readings.map_values(|reading: SnapshotView| later(reading, shift));
            &&& replayed(shifted).watched == replayed(readings).watched
            &&& replayed(shifted).stalled == replayed(readings).stalled
            &&& match (replayed(shifted).previous, replayed(readings).previous) {
                (Some(one), Some(other)) => one.observed_at == other.observed_at + shift
                    && one.state == other.state && one.position == other.position,
                (None, None) => true,
                _ => false,
            }
        }),
    decreases readings.len(),
{
    let shifted = readings.map_values(|reading: SnapshotView| later(reading, shift));
    if readings.len() > 0 {
        law_the_epoch_is_arbitrary(readings.drop_last(), shift);
        assert(shifted.drop_last() =~= readings.drop_last().map_values(
            |reading: SnapshotView| later(reading, shift),
        ));
        assert(shifted.last() == later(readings.last(), shift));
    }
}

/// A length is published exactly where it is not nought and, where a position is
/// reported, not below it. One that was not reported stays as it was.
pub proof fn law_which_lengths_are_published(timeline: TimelineView, reading: SnapshotView)
    ensures
        match reading.duration {
            Known::Value(length) => {
                let contradicted = length == 0 || (reading.position matches Known::Value(reached)
                    && reached > length);
                &&& !contradicted ==> progressed(timeline, reading).duration == Known::Value(length)
                &&& contradicted ==> progressed(timeline, reading).duration == Known::<
                    nat,
                >::NotReported
            },
            absent => progressed(timeline, reading).duration == absent,
        },
{
}

/// Where the percentage of a length is a minute or more, the decision is that
/// percentage and nothing else.
pub proof fn law_the_percentage_decides(policy: WatchedPolicyView, length: nat, watched: nat)
    requires
        length / 100 * policy.percent >= 60_000_000_000,
    ensures
        enough(policy, watched, Known::Value(length)) <==> watched >= length / 100 * policy.percent,
{
    let hundredth = length / 100;
    if length == 0 {
        assert(hundredth * policy.percent == 0) by (nonlinear_arith)
            requires
                hundredth == 0,
        ;
    }
}

/// Where the percentage of a length is under a minute, a minute decides, or four
/// fifths of a length that is too short for one.
pub proof fn law_a_short_length_is_held_to_a_minute(
    policy: WatchedPolicyView,
    length: nat,
    watched: nat,
)
    requires
        reachable(policy),
        length > 0,
        length / 100 * policy.percent < 60_000_000_000,
    ensures
        length / 100 * 80 >= 60_000_000_000 ==> (enough(policy, watched, Known::Value(length))
            <==> watched >= 60_000_000_000),
        length / 100 * 80 < 60_000_000_000 ==> (enough(policy, watched, Known::Value(length))
            <==> watched >= length / 100 * 80),
{
    let hundredth = length / 100;
    assert(hundredth * policy.percent <= hundredth * 80) by (nonlinear_arith)
        requires
            policy.percent <= 80,
    ;
}

/// A policy that asks for more of a length registers no more of it.
pub proof fn law_a_larger_percentage_registers_no_more(
    policy: WatchedPolicyView,
    stricter: WatchedPolicyView,
    length: nat,
    watched: nat,
)
    requires
        policy.percent <= stricter.percent,
        length > 0,
        enough(stricter, watched, Known::Value(length)),
    ensures
        enough(policy, watched, Known::Value(length)),
{
    let hundredth = length / 100;
    assert(hundredth * policy.percent <= hundredth * stricter.percent) by (nonlinear_arith)
        requires
            policy.percent <= stricter.percent,
    ;
}

/// The percentages and the fallbacks that can be set: from twenty to eighty per
/// cent, and from a minute to three hours.
pub proof fn law_which_policies_can_be_set(policy: WatchedPolicyView)
    ensures
        reachable(policy) <==> 20 <= policy.percent <= 80 && 60_000_000_000 <= policy.fallback
            <= 10_800_000_000_000,
{
}

/// A refused policy is told with what was asked for and with the bounds it is
/// outside of.
pub proof fn law_a_refused_policy_is_told_its_bounds(why: WatchedPolicyError)
    ensures
        match why {
            WatchedPolicyError::Percent { percent } => policy_error_text(why)
                == "a watched percentage of "@ + decimal_text(percent as nat) + " is outside "@
                + decimal_text(20) + " to "@ + decimal_text(80),
            WatchedPolicyError::Fallback { fallback } => policy_error_text(why)
                == "a fallback of "@ + span_text(fallback@) + " is outside "@ + span_text(
                60_000_000_000,
            ) + " to "@ + span_text(10_800_000_000_000),
        },
{
}

} // verus!
