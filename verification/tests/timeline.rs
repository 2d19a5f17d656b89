use benshi::clock::{Clock, TestClock, Timestamp};
use benshi::path::RawPath;
use benshi::time::Duration;
use benshi::timeline::{
    OBSERVED_LIMIT, Progress, SEEK_THRESHOLD, Timeline, WATCHED_FALLBACK, WATCHED_FALLBACK_MAX,
    WATCHED_MINIMUM, WATCHED_PERCENT, WATCHED_PERCENT_MAX, WATCHED_PERCENT_MIN, WatchedPolicy,
    WatchedPolicyError,
};
use benshi::{Known, MediaRef, PlayState, PlayerId, PlayerSnapshot};

fn seek_threshold() -> Duration {
    Duration::from_nanos(SEEK_THRESHOLD)
}

fn observed_limit() -> Duration {
    Duration::from_nanos(OBSERVED_LIMIT)
}

fn watched_minimum() -> Duration {
    Duration::from_nanos(WATCHED_MINIMUM)
}

fn watched_fallback() -> Duration {
    Duration::from_nanos(WATCHED_FALLBACK)
}

fn watched_fallback_max() -> Duration {
    Duration::from_nanos(WATCHED_FALLBACK_MAX)
}

/// The interval a run of readings uses unless it is about a longer one.
fn second() -> Duration {
    Duration::from_secs(1)
}

/// An interval long enough that nobody watched it.
///
/// Named rather than written as a multiple of the limit, because the
/// positions either side of a gap have to be consistent with playing
/// through it and the arithmetic that makes them so needs the number.
fn a_gap() -> Duration {
    let gap = Duration::from_secs(60);
    assert!(
        gap > observed_limit(),
        "an interval a test calls a gap has to be longer than the limit"
    );
    gap
}

/// A position no source reported, for runs that are not about positions.
const NOWHERE: Known<Duration> = Known::NotReported;

/// The answer for a run holding no seek, named because an empty array
/// otherwise needs its element type spelled out at every use.
const NO_SEEKS: [usize; 0] = [];

/// One reading to build: the interval since the reading before it, the
/// state that reading reports, and the position it reports.
type Step = (Duration, PlayState, Known<Duration>);

/// A position `seconds` into the media, as a source would report it.
fn a_position(seconds: u64) -> Known<Duration> {
    Known::Value(Duration::from_secs(seconds))
}

/// A media `seconds` long, as a source would report its length.
///
/// The same construction as [`a_position`] under the name of the argument
/// it fills, because both arguments of `reading` are the same type and
/// `reading(a_position(10), a_position(5))` reads as two positions.
fn a_length(seconds: u64) -> Known<Duration> {
    Known::Value(Duration::from_secs(seconds))
}

/// A run of readings, each taken the given interval after the one before.
///
/// Built through a [`TestClock`] because a [`Timestamp`] comes only from a
/// clock, which is the same reason the timeline needs none of its own. The
/// clock moves before each reading is stamped, so the first sits one
/// interval after the epoch and the others follow it. One clock for the
/// whole run, so a test builds its steps and stamps them once.
fn readings(steps: &[Step]) -> Vec<PlayerSnapshot> {
    let mut clock = TestClock::new();
    steps
        .iter()
        .map(|(interval, state, position)| {
            clock.advance(*interval);
            PlayerSnapshot {
                state: *state,
                observed_at: clock.now(),
                ..reading(*position, Known::NotReported)
            }
        })
        .collect()
}

/// One reading of one file, with everything the test is not about fixed.
fn reading(position: Known<Duration>, duration: Known<Duration>) -> PlayerSnapshot {
    PlayerSnapshot {
        player: PlayerId("mpv".to_owned()),
        media: MediaRef::LocalFile(RawPath::from_bytes(b"/anime/show-03.mkv".to_vec())),
        state: PlayState::Playing,
        position,
        duration,
        observed_at: Timestamp::epoch(),
    }
}

#[test]
fn the_first_reading_leaves_nothing_watched_however_far_in_it_starts() {
    // The reason `Progress` carries both fields. A viewer who opens a file
    // at 9:50 of 10:00 has watched none of it, so the two answers differ on
    // the very first reading. An implementation that reads the watched time
    // off the position agrees with every later reading of a file played
    // from the start, and is wrong about exactly the case that matters.
    let mut timeline = Timeline::new();

    let progress = timeline.advance(&reading(
        Known::Value(Duration::from_secs(590)),
        Known::Value(Duration::from_secs(600)),
    ));

    assert_eq!(progress.watched, Duration::zero());
    assert_eq!(progress.position, Known::Value(Duration::from_secs(590)));
}

#[test]
fn a_length_that_was_not_reported_stays_unreported_rather_than_zero() {
    // Zero is a length no file has, so publishing it as one would make
    // every consumer special-case a sentinel. Which absence it was survives
    // too: a player that did not say and a source that cannot say are
    // different facts, and the fallback for a missing length has to answer
    // for each.
    let mut timeline = Timeline::new();

    let silent = timeline.advance(&reading(
        Known::Value(Duration::from_secs(12)),
        Known::NotReported,
    ));
    let incapable = timeline.advance(&reading(
        Known::Value(Duration::from_secs(12)),
        Known::Unsupported,
    ));

    assert_eq!(silent.duration, Known::NotReported);
    assert_eq!(incapable.duration, Known::Unsupported);
}

#[test]
fn progress_is_a_value_a_caller_can_spell_out_and_compare() {
    // `Progress` is a value rather than a handle on the timeline: every
    // field is public and owned, so the whole answer compares equal to one
    // written out by hand. The seek is part of that answer, and one reading
    // on its own is never a seek - a seek is a break between two of them.
    let mut timeline = Timeline::new();
    let progress = timeline.advance(&reading(
        Known::Value(Duration::from_secs(12)),
        Known::Value(Duration::from_secs(600)),
    ));

    assert_eq!(
        progress,
        Progress {
            position: Known::Value(Duration::from_secs(12)),
            watched: Duration::zero(),
            duration: Known::Value(Duration::from_secs(600)),
            seeked: false,
        }
    );
}

#[test]
fn a_length_below_its_position_is_absent_rather_than_believed() {
    // Players lie about length, and this is the lie nothing downstream can
    // tell from the truth: five seconds of media arriving with a position
    // ten seconds into it describes a file playback has already run past,
    // which a genuinely short file never does.
    //
    // Absent and not corrected. A corrected length is a number nobody
    // measured, and the one honest correction - the position, since
    // playback reached it - is the number the watched decision would then
    // be a fraction of, making every such file complete on arrival.
    let mut timeline = Timeline::new();

    let progress = timeline.advance(&reading(a_position(10), a_length(5)));

    assert_eq!(progress.duration, Known::NotReported);
    // The position survives. It is the source's own answer and it was not
    // what the reading contradicted, so a rule that threw away the pair
    // would discard the one half of it never in question.
    assert_eq!(progress.position, a_position(10));
}

#[test]
fn a_position_at_the_very_end_of_its_length_is_not_a_contradiction() {
    // The boundary, and the only thing holding the comparison to a strict
    // one. A position equal to the length is the last instant of the media
    // rather than an impossible one, the contract every adapter is held to
    // permits it in those words, and the MPRIS adapter keeps it. Refusing
    // it here would take the length away exactly where a watched decision
    // needs one, and would put this crate at odds with the two places that
    // already answer.
    let mut timeline = Timeline::new();

    let progress = timeline.advance(&reading(a_position(600), a_length(600)));

    assert_eq!(progress.duration, a_length(600));
}

#[test]
fn a_length_of_zero_is_absent_even_where_no_position_contradicts_it() {
    // Zero is a length no file has, and it is the one impossible value the
    // contradiction rule cannot reach: a position of zero is legal and the
    // MPRIS adapter deliberately keeps it, so a player sitting at the start
    // of a file offers nothing for zero to be below. Published as a value
    // it would make every consumer special-case a sentinel, which is what
    // `Known` exists to stop.
    let mut timeline = Timeline::new();

    let at_the_start = timeline.advance(&reading(a_position(0), a_length(0)));
    let unplaced = timeline.advance(&reading(NOWHERE, a_length(0)));

    assert_eq!(at_the_start.duration, Known::NotReported);
    assert_eq!(unplaced.duration, Known::NotReported);
}

#[test]
fn a_length_stands_when_there_is_no_position_to_contradict_it() {
    // Both absences, and they answer alike here although they are different
    // facts. `Capabilities` declares a position and a length separately, so
    // a source reporting one and not the other is a source the type allows,
    // and a rule discarding a length whenever the position is missing would
    // leave that source with no length it can ever publish.
    let mut timeline = Timeline::new();

    let silent = timeline.advance(&reading(Known::NotReported, a_length(600)));
    let incapable = timeline.advance(&reading(Known::Unsupported, a_length(600)));

    assert_eq!(silent.duration, a_length(600));
    assert_eq!(incapable.duration, a_length(600));
}

#[test]
fn an_interval_that_began_stopped_adds_no_watched_time() {
    // No run above holds a stopped reading, so a rule written as "count it
    // unless the source was paused" passes everything above while counting a
    // player with nothing open as watching.
    let readings = readings(&[
        (second(), PlayState::Stopped, NOWHERE),
        (second(), PlayState::Stopped, NOWHERE),
        (second(), PlayState::Playing, NOWHERE),
        (second(), PlayState::Playing, NOWHERE),
    ]);
    let mut timeline = Timeline::new();

    let watched: Vec<Duration> = readings
        .iter()
        .map(|reading| timeline.advance(reading).watched)
        .collect();

    assert_eq!(
        watched,
        [
            Duration::zero(),
            Duration::zero(),
            Duration::zero(),
            Duration::from_secs(1)
        ]
    );
}

/// Which readings of a run the timeline calls a seek, by their index.
fn seeks_in(run: &[PlayerSnapshot]) -> Vec<usize> {
    let mut timeline = Timeline::new();
    let mut seeked = Vec::new();
    for (index, reading) in run.iter().enumerate() {
        if timeline.advance(reading).seeked {
            seeked.push(index);
        }
    }
    seeked
}

#[test]
fn a_playback_drifting_from_where_it_started_reports_no_seek() {
    // Twenty minutes, each reading consistent with the one before it to
    // ten milliseconds and every one further from where playback started.
    // By the end the position is 11.99 s from what the first reading
    // implies, just under six times the threshold, and nothing was seeked.
    // This is the test a rule anchored on the start of playback fails.
    let drifting: Vec<_> = (0..20 * 60)
        .map(|step| {
            let position = Known::Value(Duration::from_millis(1010 * step));
            (second(), PlayState::Playing, position)
        })
        .collect();

    let run = readings(&drifting);

    // What a rule anchored on the start of playback would be looking at by
    // the end, computed from the readings themselves rather than from the
    // arithmetic that built them.
    let (first, last) = (&run[0], &run[run.len() - 1]);
    let (Known::Value(from), Known::Value(to)) = (first.position, last.position) else {
        panic!("the run reports its positions")
    };
    let reached = from.plus(last.observed_at.since(first.observed_at));
    let anchored = to.max(reached).saturating_sub(to.min(reached));
    assert!(
        anchored > seek_threshold().times(5),
        "the run drifts only {anchored:?} from its start, too little to matter"
    );

    assert_eq!(seeks_in(&run), NO_SEEKS);
}

#[test]
fn a_break_wider_than_the_threshold_is_a_seek_in_either_direction() {
    // The presence half, and both directions: a rule written with an
    // unsigned subtraction sees one of them and not the other.
    let forward = readings(&[
        (second(), PlayState::Playing, a_position(10)),
        (second(), PlayState::Playing, a_position(11)),
        (second(), PlayState::Playing, a_position(90)),
    ]);
    let backward = readings(&[
        (second(), PlayState::Playing, a_position(90)),
        (second(), PlayState::Playing, a_position(91)),
        (second(), PlayState::Playing, a_position(10)),
    ]);

    assert_eq!(seeks_in(&forward), [2]);
    assert_eq!(seeks_in(&backward), [2]);
}

#[test]
fn a_step_back_is_judged_from_where_playback_should_have_reached() {
    // Two seconds back over a second of playback is three seconds from the
    // prediction, and a seek. The step itself is exactly the threshold and
    // no more, so a rule comparing it against the earlier position instead
    // of against the prediction reports nothing. The forward branches carry
    // the same term as an expected advance, where a run exactly the
    // threshold ahead pins it; this branch is the only place it can go
    // missing on its own.
    let stepped_back = readings(&[
        (second(), PlayState::Playing, a_position(30)),
        (second(), PlayState::Playing, a_position(28)),
    ]);

    assert_eq!(seeks_in(&stepped_back), [1]);
}

#[test]
fn a_position_exactly_the_threshold_ahead_is_not_yet_a_seek() {
    // The boundary the constant's own reasoning rests on, and the only
    // thing holding the comparison to a strict one. A file at three times
    // speed read once a second runs exactly the threshold ahead of the
    // clock every interval; a rule that seeked on equality would report one
    // on every reading of it, for as long as it played.
    let fast = readings(&[
        (second(), PlayState::Playing, a_position(10)),
        (second(), PlayState::Playing, a_position(13)),
        (second(), PlayState::Playing, a_position(16)),
    ]);

    assert_eq!(seeks_in(&fast), NO_SEEKS);
}

#[test]
fn a_position_that_moves_while_paused_is_a_seek() {
    // Nothing should advance while a player is paused, so a position that
    // does is the user dragging the bar. The expected advance is zero here
    // and the elapsed time is not, which is why the two are separate.
    //
    // Five readings at rest before the drag, and a drag of only four
    // seconds, both deliberately. A rule that expected a paused source to
    // advance like a playing one would read the four intervals between
    // those readings as a stall of four seconds, and would then forgive a
    // drag of up to seven; four seconds is well inside that.
    let dragged = readings(&[
        (second(), PlayState::Paused, a_position(30)),
        (second(), PlayState::Paused, a_position(30)),
        (second(), PlayState::Paused, a_position(30)),
        (second(), PlayState::Paused, a_position(30)),
        (second(), PlayState::Paused, a_position(30)),
        (second(), PlayState::Paused, a_position(34)),
    ]);

    assert_eq!(seeks_in(&dragged), [5]);
}

#[test]
fn an_interval_the_state_changed_inside_is_never_a_seek() {
    // A player that changed state somewhere inside the interval shows up to a
    // whole interval of apparent divergence with nothing seeked. Here the
    // interval is long enough that
    // the divergence clears the threshold, which is the case a round
    // arriving late produces and a rule without this exception reports as
    // a seek.
    //
    // Both changes and not one, because an exception written for the pausing
    // end alone satisfies everything else here. The two ends also diverge in
    // opposite directions: the position
    // stands still through an interval counted as playing, and moves
    // through one counted as paused.
    let paused_late = readings(&[
        (second(), PlayState::Playing, a_position(10)),
        (seek_threshold().times(2), PlayState::Paused, a_position(10)),
    ]);
    let resumed_early = readings(&[
        (second(), PlayState::Paused, a_position(10)),
        (seek_threshold().times(2), PlayState::Playing, a_position(14)),
    ]);

    assert_eq!(seeks_in(&paused_late), NO_SEEKS);
    assert_eq!(seeks_in(&resumed_early), NO_SEEKS);
}

#[test]
fn a_reading_without_a_position_is_never_a_seek() {
    // There is nothing to compare, and both absences answer the same way
    // here although they are different facts: a source that cannot report
    // a position and one that did not this time are both unjudgeable.
    let silent = readings(&[
        (second(), PlayState::Playing, a_position(10)),
        (second(), PlayState::Playing, Known::NotReported),
        (second(), PlayState::Playing, Known::Unsupported),
        (second(), PlayState::Playing, a_position(300)),
    ]);

    assert_eq!(seeks_in(&silent), NO_SEEKS);
}

#[test]
fn a_pause_longer_than_the_threshold_is_never_a_seek() {
    // While a source is paused the position is expected to stay where it
    // is, and the expectation has to be nothing rather than the elapsed
    // time. A rule predicting the same advance in both states reports a
    // seek on every reading of a pause whose rounds are further apart than
    // the threshold, and a pause read every second cannot catch that: it never
    // diverges by more than one of its rounds.
    let waiting = readings(&[
        (second(), PlayState::Paused, a_position(30)),
        (seek_threshold().times(2), PlayState::Paused, a_position(30)),
        (seek_threshold().times(2), PlayState::Paused, a_position(30)),
    ]);

    assert_eq!(seeks_in(&waiting), NO_SEEKS);
}

/// A player whose reported position stood still across `stalled` intervals
/// while it went on playing, as the steps to build it from.
///
/// Steps rather than readings so that a test can put more after them and
/// have the whole run stamped by one clock. mpv's own position tracks the
/// elapsed time to under two milliseconds, so every stall here is built.
fn a_stall_of(stalled: usize) -> Vec<Step> {
    vec![(second(), PlayState::Playing, a_position(12)); stalled + 1]
}

#[test]
fn a_player_that_catches_up_after_stalling_has_not_seeked() {
    // Six readings at one position while playing, then one that moves by
    // the five seconds that went unreported plus the second that has just
    // passed. The jump is exactly what was owed, so nothing was skipped,
    // although judged on its size alone it clears the threshold three times
    // over.
    //
    // Five intervals of stall and not three, so that the run separates a
    // stall that accumulates from one that remembers only the last
    // reading's shortfall. The second would forgive an overshoot of one
    // second plus the threshold, and the overshoot here is five. At three
    // intervals the two answer alike and this test cannot tell them apart.
    let mut run = a_stall_of(5);
    run.push((second(), PlayState::Playing, a_position(18)));

    assert_eq!(seeks_in(&readings(&run)), NO_SEEKS);
}

#[test]
fn a_position_that_stands_still_is_never_a_seek() {
    // A playing source whose position does not move has skipped nothing,
    // whatever the interval: it is a player that has not published a new
    // position yet, and there is no content it jumped over. The intervals
    // here are twice the threshold, which is what a round arriving late
    // during a stall looks like, and what a shortfall judged against the
    // threshold would report as a seek.
    let frozen = readings(&[
        (second(), PlayState::Playing, a_position(12)),
        (seek_threshold().times(2), PlayState::Playing, a_position(12)),
        (seek_threshold().times(2), PlayState::Playing, a_position(12)),
    ]);

    assert_eq!(seeks_in(&frozen), NO_SEEKS);
}

#[test]
fn a_jump_past_what_the_stall_owed_is_a_seek() {
    // The absence half. A rule that forgives any forward jump following a
    // stall forgives a forward seek that happens to follow one, and this is
    // what separates the two: the same stall, and a jump far past it.
    let mut run = a_stall_of(3);
    run.push((second(), PlayState::Playing, a_position(300)));

    assert_eq!(seeks_in(&readings(&run)), [4]);
}

#[test]
fn a_stall_is_forgotten_once_the_position_reports_normally() {
    // What a player owes is owed at once and not indefinitely. One interval
    // of ordinary reporting says the position is current again, so a jump
    // after that is judged against the threshold alone. Without this, a
    // stall forgives a seek of its own size at any later moment.
    let mut run = a_stall_of(3);
    run.push((second(), PlayState::Playing, a_position(13)));
    run.push((second(), PlayState::Playing, a_position(17)));

    assert_eq!(seeks_in(&readings(&run)), [5]);
}

#[test]
fn a_stall_does_not_survive_a_change_of_state() {
    // An interval the state changed inside is unreadable, so what the
    // position owed before it cannot be settled across it. A stall of three
    // seconds, then a pause, then a four second drag: the drag is a seek,
    // and a stall that carried over would forgive it.
    let mut run = a_stall_of(3);
    run.push((second(), PlayState::Paused, a_position(12)));
    run.push((second(), PlayState::Paused, a_position(16)));

    assert_eq!(seeks_in(&readings(&run)), [5]);
}

#[test]
fn a_stall_does_not_survive_a_position_that_went_backwards() {
    // A stall of three seconds, then a step back of one second, then a four
    // second jump. A second back over a second of playback sits exactly the
    // threshold from the prediction, so the step back is not itself a seek
    // and only the jump is reported. That jump is judged against the
    // threshold alone, and a stall that carried over would forgive it.
    let mut run = a_stall_of(3);
    run.push((second(), PlayState::Playing, a_position(11)));
    run.push((second(), PlayState::Playing, a_position(15)));

    assert_eq!(seeks_in(&readings(&run)), [5]);
}

#[test]
fn a_stall_does_not_survive_a_reading_without_a_position() {
    // The same rule for the other unreadable interval: a stall of three
    // seconds, then a reading that reports no position at all, then a four second jump once positions are back. The
    // jump is a seek, and a stall that carried over would forgive it.
    let mut run = a_stall_of(3);
    run.push((second(), PlayState::Playing, NOWHERE));
    run.push((second(), PlayState::Playing, a_position(12)));
    run.push((second(), PlayState::Playing, a_position(16)));

    assert_eq!(seeks_in(&readings(&run)), [6]);
}

/// What the last reading of a whole run leaves behind.
///
/// A plain loop, because folding with a side effect through an iterator
/// chain is a trap: `.map(..).next_back()` reads as "the last answer" and
/// advances the timeline exactly once, over the last reading. It was
/// written that way first and the total came out zero. This helper is
/// where the chain is most tempting, so the warning belongs here.
fn progress_over(run: &[PlayerSnapshot]) -> Progress {
    let mut timeline = Timeline::new();
    let mut progress = None;
    for reading in run {
        progress = Some(timeline.advance(reading));
    }
    progress.expect("a run holds at least one reading")
}

/// How much the timeline counts as watched over a whole run.
fn watched_over(run: &[PlayerSnapshot]) -> Duration {
    progress_over(run).watched
}

#[test]
fn a_gap_nobody_watched_counts_as_nothing_watched() {
    // The daemon was restarted, or the machine slept, or the source stopped
    // answering for a minute. The position resumes exactly where a minute
    // of playback would have left it, which is also exactly where a minute
    // forward on the seek bar would have left it, and the two cannot be
    // told apart. Counting it would let one drag of the bar mark an
    // episode, which is the whole reason a position and a watched time are
    // two fields and not one.
    // The position after the gap is derived from the gap and not written
    // as a literal: the point of the run is that playing through the gap
    // and dragging the bar across it end in the same place, and a literal
    // is only consistent with the interval in the author's head.
    let resumed = 11 + a_gap().as_secs();
    let gap = readings(&[
        (second(), PlayState::Playing, a_position(10)),
        (second(), PlayState::Playing, a_position(11)),
        (a_gap(), PlayState::Playing, a_position(resumed)),
        (second(), PlayState::Playing, a_position(resumed + 1)),
    ]);

    assert_eq!(watched_over(&gap), second().times(2));
}

#[test]
fn a_gap_nobody_watched_is_never_a_seek() {
    // The other half, and the reason the gap is judged before the break
    // is: over an unobserved minute the position can be anywhere at all,
    // and a timeline that called that a seek would report one every time a
    // player was left running while the daemon was not.
    let gap = readings(&[
        (second(), PlayState::Playing, a_position(10)),
        (a_gap(), PlayState::Playing, a_position(500)),
        (second(), PlayState::Playing, a_position(501)),
    ]);

    assert_eq!(seeks_in(&gap), NO_SEEKS);
}

#[test]
fn an_interval_of_exactly_the_limit_was_still_observed() {
    // The boundary, and the only thing keeping the comparison from becoming
    // a strict one. A run of intervals each exactly at the limit is a daemon
    // under load rather than a daemon that was not running, and every second
    // of it is counted.
    let slow = readings(&[
        (second(), PlayState::Playing, a_position(10)),
        (observed_limit(), PlayState::Playing, a_position(20)),
        (observed_limit(), PlayState::Playing, a_position(30)),
    ]);

    assert_eq!(watched_over(&slow), observed_limit().times(2));
    assert_eq!(seeks_in(&slow), NO_SEEKS);
}

#[test]
fn a_gap_clears_what_the_position_owed() {
    // A stall of three seconds, then a gap, then a four second jump. The
    // jump is a seek: whatever the position owed before an interval nobody
    // watched cannot be made good across it, for the same reason a change
    // of state settles it.
    let mut run = a_stall_of(3);
    run.push((a_gap(), PlayState::Playing, a_position(12)));
    run.push((second(), PlayState::Playing, a_position(16)));

    assert_eq!(seeks_in(&readings(&run)), [5]);
}

/// The answer a caller holds, with everything the decision ignores fixed.
///
/// The position among them, and deliberately: a rule reading the position
/// where it should read the watched time finds nothing here to read.
fn progress(watched: Duration, duration: Known<Duration>) -> Progress {
    Progress {
        position: NOWHERE,
        watched,
        duration,
        seeked: false,
    }
}

/// A run of `rounds` readings a second apart, playing media `length` long.
///
/// [`readings`] reports no length at all, which sends every decision below
/// to the fallback; this is the same run with a length on each reading.
fn playing_for(length: Duration, rounds: u64) -> Vec<PlayerSnapshot> {
    let steps: Vec<Step> = (0..rounds)
        .map(|round| (second(), PlayState::Playing, a_position(round)))
        .collect();
    readings(&steps)
        .into_iter()
        .map(|snapshot| PlayerSnapshot {
            duration: Known::Value(length),
            ..snapshot
        })
        .collect()
}

#[test]
fn an_episode_is_watched_at_the_configured_percentage_of_its_length() {
    // Both halves. A ten minute file and 361 readings a second apart, which
    // is 360 intervals and six minutes of watched time: past the default
    // half of it, short of the largest setting's four fifths. Built rather
    // than replayed, for the reason the test below this one states.
    let run = playing_for(Duration::from_mins(10), 361);
    let progress = progress_over(&run);
    assert_eq!(progress.watched, Duration::from_mins(6));

    let strictest = WatchedPolicy::new(WATCHED_PERCENT_MAX, watched_minimum())
        .expect("the largest percentage is in range");

    assert!(WatchedPolicy::default().counts_as_watched(&progress));
    assert!(!strictest.counts_as_watched(&progress));
}

#[test]
fn a_twenty_minute_episode_and_a_ninety_minute_film_differ_in_seconds() {
    // Why the threshold is a percentage and not a count of seconds. The same
    // twelve minutes is past half the episode and under a quarter of the
    // film, so no single number of seconds answers for both.
    let policy = WatchedPolicy::default();
    let twelve_minutes = Duration::from_mins(12);

    let episode = progress(twelve_minutes, a_length(20 * 60));
    let film = progress(twelve_minutes, a_length(90 * 60));

    assert!(policy.counts_as_watched(&episode));
    assert!(!policy.counts_as_watched(&film));
}

#[test]
fn a_duration_that_cannot_be_reported_falls_back_to_a_timer() {
    // Both absences, separately. They answer alike here and they are still
    // different facts: a source that cannot report a length has settled the
    // question for its lifetime, while one that did not report a length this
    // time may report one in the next reading.
    let policy = WatchedPolicy::default();
    let plenty = policy.fallback().times(2);
    let short = policy.fallback().saturating_sub(second());

    assert!(policy.counts_as_watched(&progress(plenty, Known::NotReported)));
    assert!(policy.counts_as_watched(&progress(plenty, Known::Unsupported)));
    assert!(!policy.counts_as_watched(&progress(short, Known::NotReported)));
    assert!(!policy.counts_as_watched(&progress(short, Known::Unsupported)));
}

#[test]
fn exactly_the_threshold_is_already_enough_in_either_branch() {
    // Watched *at* the threshold, on the percentage and on the fallback:
    // neither comparison is strict. A source whose last reading lands
    // exactly on the threshold is under no obligation to send another, and a
    // strict rule would be waiting for one that never comes.
    //
    // Ten minutes is half of twenty exactly, so the percentage branch is
    // tested on its boundary rather than near it.
    let policy = WatchedPolicy::default();
    let half = progress(Duration::from_mins(10), a_length(20 * 60));

    assert!(policy.counts_as_watched(&half));
    assert!(policy.counts_as_watched(&progress(policy.fallback(), Known::NotReported)));
}

#[test]
fn a_length_of_zero_falls_back_rather_than_registering_everything() {
    // `Timeline` cannot produce this, because a length of zero arrives
    // absent, but `Progress` is a value with public fields and that refusal
    // does not travel with it. Any percentage of zero is zero, so the rule
    // would register a viewer who has watched nothing at all - the one
    // failure this crate exists to prevent.
    let policy = WatchedPolicy::default();

    assert!(!policy.counts_as_watched(&progress(Duration::zero(), a_length(0))));
    assert!(policy.counts_as_watched(&progress(policy.fallback(), a_length(0))));
}

#[test]
fn a_short_is_held_to_the_minimum_rather_than_to_its_percentage() {
    // A three minute short at the smallest percentage that can be
    // configured asks for thirty-six seconds, which is the length of a look
    // rather than of a viewing. The minimum is what the percentage cannot
    // express, and it is the whole reason there are two numbers here.
    let loosest = WatchedPolicy::new(WATCHED_PERCENT_MIN, watched_minimum())
        .expect("the smallest percentage is in range");
    let short = a_length(3 * 60);

    assert!(!loosest.counts_as_watched(&progress(Duration::from_secs(40), short)));
    assert!(loosest.counts_as_watched(&progress(watched_minimum(), short)));
}

#[test]
fn the_minimum_never_asks_more_of_a_file_than_the_largest_setting_would() {
    // Media shorter than the minimum itself exists and is catalogued: read
    // off MyAnimeList on 2026-09-19, `Jigazou` runs twelve seconds. Without
    // the cap its threshold would be a minute, five times the file, and it
    // could never be registered at all while nothing said why.
    //
    // Twelve seconds, so the cap decides and the percentage does not: four
    // fifths of the file is 9.6 s, and the default half of it is 6 s.
    let policy = WatchedPolicy::default();
    let jigazou = a_length(12);

    assert!(!policy.counts_as_watched(&progress(Duration::from_millis(9_599), jigazou)));
    assert!(policy.counts_as_watched(&progress(Duration::from_millis(9_600), jigazou)));
}

#[test]
fn a_percentage_outside_its_range_is_refused_and_each_bound_is_not() {
    // Refused and not corrected: a number quietly moved into range makes a
    // configuration file disagree with the program reading it, and the error
    // carries what was asked for so the disagreement can be named.
    let below = WATCHED_PERCENT_MIN - 1;
    let above = WATCHED_PERCENT_MAX + 1;

    assert_eq!(
        WatchedPolicy::new(below, watched_fallback()),
        Err(WatchedPolicyError::Percent { percent: below })
    );
    assert_eq!(
        WatchedPolicy::new(above, watched_fallback()),
        Err(WatchedPolicyError::Percent { percent: above })
    );
    assert!(WatchedPolicy::new(WATCHED_PERCENT_MIN, watched_fallback()).is_ok());
    assert!(WatchedPolicy::new(WATCHED_PERCENT_MAX, watched_fallback()).is_ok());

    // Both wrong reports the percentage, which is the only thing the order
    // of the two checks promises and the only thing that pins it.
    assert_eq!(
        WatchedPolicy::new(below, Duration::zero()),
        Err(WatchedPolicyError::Percent { percent: below })
    );
}

#[test]
fn a_fallback_outside_its_range_is_refused_and_each_bound_is_not() {
    // The other field, and both of its bounds. The lower one is the same
    // number as the minimum under the percentage rule, because both answer
    // the least watched time worth registering.
    let below = watched_minimum().saturating_sub(second());
    let above = watched_fallback_max().plus(second());

    assert_eq!(
        WatchedPolicy::new(WATCHED_PERCENT, below),
        Err(WatchedPolicyError::Fallback { fallback: below })
    );
    assert_eq!(
        WatchedPolicy::new(WATCHED_PERCENT, above),
        Err(WatchedPolicyError::Fallback { fallback: above })
    );
    assert!(WatchedPolicy::new(WATCHED_PERCENT, watched_minimum()).is_ok());
    assert!(WatchedPolicy::new(WATCHED_PERCENT, watched_fallback_max()).is_ok());
}

#[test]
fn the_default_policy_is_one_that_could_have_been_configured() {
    // The `Default` impl skips the checks, so nothing but this stops a
    // default that no caller would be allowed to ask for.
    let policy = WatchedPolicy::default();

    assert_eq!(
        WatchedPolicy::new(policy.percent(), policy.fallback()),
        Ok(policy)
    );
}

#[test]
fn a_run_leaves_room_for_the_next_reading() {
    let run = readings(&[
        (second(), PlayState::Playing, a_position(1)),
        (second(), PlayState::Playing, a_position(2)),
        (a_gap(), PlayState::Playing, a_position(62)),
        (second(), PlayState::Paused, a_position(63)),
    ]);
    let mut timeline = Timeline::new();

    for reading in &run {
        assert!(timeline.has_room(reading));
        timeline.advance(reading);
    }
}

#[test]
fn a_stall_is_forgiven_once_and_no_more() {
    // Three seconds owed and made up in one reading, which is no seek, and then
    // a reading four seconds ahead with nothing owed any more, which is one.
    let mut run = a_stall_of(3);
    run.push((second(), PlayState::Playing, a_position(16)));
    assert_eq!(seeks_in(&readings(&run)), NO_SEEKS);

    run.push((second(), PlayState::Playing, a_position(21)));
    assert_eq!(seeks_in(&readings(&run)), [5]);
}
