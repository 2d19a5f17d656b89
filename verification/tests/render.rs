use benshi::bus::BusEvent;
use benshi::clock::Timestamp;
use benshi::detection::WatchError;
use benshi::number::show;
use benshi::path::RawPath;
use benshi::policy::Policy;
use benshi::protocol::{DecidedBy, Explanation, Outcome, SourceListing};
use benshi::recognise::altname::Assignment;
use benshi::recognise::parse::Episode;
use benshi::recognition::Recogniser;
use benshi::render::{capabilities, event, explanation, listing, moment, state, why};
use benshi::time::Duration;
use benshi::{
    AppName, Capabilities, Known, MediaRef, PlayState, PlayerId, PlayerSnapshot, SessionState,
};

/// A filename in Shift-JIS, which is not valid UTF-8.
const SHIFT_JIS_NAME: &[u8] = b"/anime/\x83\x5c\x83\x8c\x83\x62\x83\x5e - 03.mkv";

fn everything() -> Capabilities {
    Capabilities {
        position: true,
        duration: true,
        paused: true,
        location: true,
    }
}

fn nothing() -> Capabilities {
    Capabilities {
        position: false,
        duration: false,
        paused: false,
        location: false,
    }
}

fn a_listing(identity: &str, app: &str, policy: Policy, of: Capabilities) -> SourceListing {
    SourceListing {
        player: PlayerId(identity.to_owned()),
        app: AppName(app.to_owned()),
        policy,
        capabilities: of,
        state: PlayState::Playing,
    }
}

#[test]
fn a_source_that_reports_everything_names_all_four() {
    assert_eq!(capabilities(everything()), "pos+dur+pause+loc");
}

#[test]
fn a_source_that_cannot_name_what_it_opened_says_so_beside_the_rest() {
    // The column answers two questions: where playback has reached, and
    // what is playing. A source with no location can still report progress,
    // and a user deciding whether to allow it needs to see both.
    let streaming = Capabilities {
        location: false,
        ..everything()
    };

    assert_eq!(capabilities(streaming), "pos+dur+pause, title only");
}

#[test]
fn a_source_that_declares_nothing_says_only_that_it_has_a_title() {
    // No leading comma and no empty column. An empty cell reads as a bug in
    // the renderer rather than as a fact about the source.
    assert_eq!(capabilities(nothing()), "title only");
}

#[test]
fn a_source_that_cannot_report_a_position_does_not_claim_one() {
    let no_position = Capabilities {
        position: false,
        ..everything()
    };

    let shown = capabilities(no_position);

    assert!(!shown.contains("pos"), "claimed a position: {shown}");
    assert_eq!(shown, "dur+pause+loc");
}

#[test]
fn a_source_that_names_what_it_opened_is_never_title_only() {
    let named = Capabilities {
        position: false,
        duration: false,
        paused: false,
        location: true,
    };

    assert_eq!(capabilities(named), "loc");
}

#[test]
fn nothing_open_reads_as_idle_rather_than_stopped() {
    // The state answers what the source is doing. "Stopped" reads as
    // playback having been stopped; the fact is that nothing is open.
    assert_eq!(state(PlayState::Stopped), "idle");
    assert_eq!(state(PlayState::Playing), "playing");
    assert_eq!(state(PlayState::Paused), "paused");
}

#[test]
fn a_listing_shows_the_identity_and_the_application_as_two_columns() {
    // Two windows of one player are two identities and one application.
    // Policy is set on the application, so the name to type has to be on
    // screen beside the identity that distinguishes the windows.
    let shown = listing(&[
        a_listing("mpv.instance1701", "mpv", Policy::Auto, everything()),
        a_listing("mpv.instance1702", "mpv", Policy::Auto, everything()),
    ]);

    let lines: Vec<&str> = shown.lines().collect();
    assert_eq!(lines.len(), 2, "one line per source: {shown}");
    assert!(lines[0].contains("mpv.instance1701"), "{shown}");
    assert!(lines[1].contains("mpv.instance1702"), "{shown}");
    for line in lines {
        assert!(line.contains("mpv "), "no application column: {line}");
    }
}

#[test]
fn a_listing_shows_the_policy_in_force_for_each_source() {
    let shown = listing(&[
        a_listing("mpv", "mpv", Policy::Auto, everything()),
        a_listing("firefox.instance30062", "firefox", Policy::Deny, nothing()),
        a_listing("vlc", "vlc", Policy::Allow, everything()),
    ]);

    assert!(shown.contains("auto"), "{shown}");
    assert!(shown.contains("deny"), "{shown}");
    assert!(shown.contains("allow"), "{shown}");
}

#[test]
fn an_empty_listing_says_so_rather_than_printing_nothing() {
    // Nothing on screen cannot be told from a command that failed quietly.
    let shown = listing(&[]);

    assert!(!shown.trim().is_empty(), "an empty listing printed nothing");
    assert!(shown.contains("no source"), "got {shown:?}");
}

#[test]
fn a_reported_moment_reads_as_minutes_and_seconds() {
    assert_eq!(moment(Known::Value(Duration::from_secs(0))), "00:00");
    assert_eq!(moment(Known::Value(Duration::from_secs(5))), "00:05");
    assert_eq!(moment(Known::Value(Duration::from_secs(1_383))), "23:03");
    assert_eq!(moment(Known::Value(Duration::from_secs(3_661))), "61:01");
}

#[test]
fn a_moment_that_was_not_reported_reads_differently_from_one_that_cannot_be() {
    // The whole reason the domain carries three values rather than two. A
    // renderer that collapses them here throws the distinction away at the
    // last possible moment, where nobody downstream can recover it.
    let not_reported = moment(Known::NotReported);
    let unsupported = moment(Known::Unsupported);

    assert_ne!(not_reported, unsupported);
    assert_ne!(not_reported, "00:00", "an absence rendered as the start");
    assert_ne!(unsupported, "00:00", "an absence rendered as the start");
}

#[test]
fn a_reading_shows_where_playback_is_and_what_is_playing() {
    let snapshot = PlayerSnapshot {
        player: PlayerId("mpv".to_owned()),
        media: MediaRef::LocalFile(RawPath::from_bytes(b"/anime/ep 03.mkv".to_vec())),
        state: PlayState::Playing,
        position: Known::Value(Duration::from_secs(5)),
        duration: Known::Value(Duration::from_mins(23)),
        observed_at: Timestamp::epoch(),
    };

    let shown = event(&BusEvent::Snapshot(snapshot));

    assert!(shown.contains("mpv"), "{shown}");
    assert!(shown.contains("00:05"), "{shown}");
    assert!(shown.contains("23:00"), "{shown}");
    assert!(shown.contains("/anime/ep 03.mkv"), "{shown}");
}

#[test]
fn a_filename_that_is_not_utf8_is_shown_rather_than_refused() {
    // A name out of a Japanese archive unpacked with the wrong encoding is
    // exactly what a user watching this stream is trying to diagnose.
    // Refusing it, or printing a row of replacement characters, hides the
    // one thing they came to see.
    let snapshot = PlayerSnapshot {
        player: PlayerId("mpv".to_owned()),
        media: MediaRef::LocalFile(RawPath::from_bytes(SHIFT_JIS_NAME.to_vec())),
        state: PlayState::Playing,
        position: Known::Value(Duration::from_secs(5)),
        duration: Known::NotReported,
        observed_at: Timestamp::epoch(),
    };

    let shown = event(&BusEvent::Snapshot(snapshot));

    assert!(shown.contains(" - 03.mkv"), "the name was lost: {shown}");
    assert!(
        !shown.contains('\u{fffd}'),
        "the name was replaced rather than read: {shown}"
    );
}

#[test]
fn a_membership_change_names_the_sources_rather_than_counting_them() {
    let shown = event(&BusEvent::SourcesChanged {
        sources: vec![PlayerId("mpv".to_owned()), PlayerId("Feishin".to_owned())],
    });

    assert!(shown.contains("mpv"), "{shown}");
    assert!(shown.contains("Feishin"), "{shown}");
}

#[test]
fn a_membership_that_went_empty_says_so() {
    // An event whose list is empty must not render as an event with no
    // content: every player closing is a thing that happened.
    let shown = event(&BusEvent::SourcesChanged {
        sources: Vec::new(),
    });

    assert!(
        !shown.trim().is_empty(),
        "an empty membership printed nothing"
    );
    assert!(shown.contains("no source"), "got {shown:?}");
}

#[test]
fn a_failure_names_the_source_and_the_reason() {
    let shown = event(&BusEvent::SourceFailed {
        player: PlayerId("vlc".to_owned()),
        reason: "did not answer within 500ms".to_owned(),
    });

    assert!(shown.contains("vlc"), "{shown}");
    assert!(shown.contains("did not answer within 500ms"), "{shown}");
}

#[test]
fn a_failure_line_built_from_a_real_error_reads_as_one_sentence() {
    // The identity belongs to the event and not to the reason:
    // `BusEvent::SourceFailed` carries both so that this function lays them
    // out, and a reason that repeats the subject prints it twice wherever a
    // person reads it. A test that writes its own reason cannot see that,
    // so both cases below take the reason from a real error.
    //
    // The whole line is pinned rather than picked at. Every weaker check
    // written for this passed for a line that was still wrong: counting the
    // identity passes for a bare fragment, and looking for the absence of
    // `PlayerId` passes for a reason that names the source in any other
    // form. One sentence, read end to end, is the thing being claimed.
    let player = PlayerId("mpv.instance-NvZEKsqR".to_owned());
    let cases = [
        (
            WatchError::Timeout {
                player: player.clone(),
                deadline: Duration::from_millis(500),
            },
            "mpv.instance-NvZEKsqR  failed: did not answer within 500ms",
        ),
        (
            WatchError::Unavailable(player.clone()),
            "mpv.instance-NvZEKsqR  failed: is no longer present",
        ),
    ];

    for (failure, expected) in cases {
        let shown = event(&BusEvent::SourceFailed {
            player: player.clone(),
            reason: failure.message(),
        });

        assert_eq!(shown, expected);
    }
}

/// An explanation of the file at this path, answered this way.
///
/// The name is parsed the way a round parses it, so what is shown is what
/// the daemon would have decided about.
fn explained(path: &[u8], outcome: Outcome) -> Explanation {
    let path = RawPath::from_bytes(path.to_vec());
    let (spelled, _refused) = Recogniser::empty().decide(&path);

    Explanation {
        player: PlayerId("mpv".to_owned()),
        media: MediaRef::LocalFile(path),
        spelled,
        outcome,
    }
}

/// A match of this title by this stage, at episode three.
fn found(title: &str, stage: DecidedBy) -> Outcome {
    Outcome::Recognised {
        title: title.to_owned(),
        episode: Episode::Only(3),
        stage,
    }
}

/// The line of an explanation that begins this way.
fn line_of<'a>(shown: &'a str, beginning: &str) -> &'a str {
    shown
        .lines()
        .find(|line| line.starts_with(beginning))
        .unwrap_or_else(|| panic!("no line begins with {beginning:?}: {shown:?}"))
}

#[test]
fn nothing_decided_says_so_rather_than_printing_nothing() {
    // Nothing on screen cannot be told from a command that failed quietly,
    // and a client asking before the first reading is the ordinary case.
    let shown = why(None);

    assert!(shown.contains("nothing has been decided"), "got {shown:?}");
}

#[test]
fn an_explanation_names_the_player_and_the_file_first() {
    let shown = explanation(&explained(
        b"/anime/[Group] Show Title - 03.mkv",
        Outcome::Unrecognised { best: None },
    ));

    let first = shown.lines().next().expect("a first line");
    assert!(first.contains("mpv"), "{first}");
    assert!(
        first.contains("/anime/[Group] Show Title - 03.mkv"),
        "{first}"
    );
}

#[test]
fn an_explanation_shows_what_the_name_spelled() {
    // In words, and the season among them: a user comparing the file that
    // matched with the one that did not is looking for exactly the thing
    // the parser cut out of the title.
    let shown = explanation(&explained(
        b"[Group] Show Title S02E03 [1080p].mkv",
        Outcome::Unrecognised { best: None },
    ));

    let spelled = line_of(&shown, "spelled:");
    assert!(spelled.contains("\"Show Title\""), "{spelled}");
    assert!(spelled.contains("season 2"), "{spelled}");
    assert!(spelled.contains("episode 3"), "{spelled}");
    assert!(spelled.contains("\"Group\""), "{spelled}");
}

#[test]
fn a_name_that_spelled_no_title_says_so() {
    let shown = explanation(&explained(
        b"/anime/ep 03.mkv",
        Outcome::Unrecognised { best: None },
    ));

    let spelled = line_of(&shown, "spelled:");
    assert!(spelled.contains("no title"), "{spelled}");
    assert!(spelled.contains("episode 3"), "{spelled}");
}

#[test]
fn a_name_that_was_not_utf8_is_shown_read_and_said_to_be_inferred() {
    // The confidence travels with the parse so that this line can say it:
    // a title recovered by inference is a weaker input than one that could
    // not have been anything else, and the user is the one who can tell
    // whether the guess was right.
    let shown = explanation(&explained(
        SHIFT_JIS_NAME,
        Outcome::Unrecognised { best: None },
    ));

    assert!(shown.contains("ソレッタ"), "the name was not read: {shown}");
    assert!(
        !shown.contains('\u{fffd}'),
        "the name was replaced rather than read: {shown}"
    );
    assert!(line_of(&shown, "spelled:").contains("inferred"), "{shown}");
}

#[test]
fn a_match_by_an_assignment_shows_the_text_the_user_gave_and_the_season_it_was_bound_to() {
    // What a user whose first-season file did not follow their assignment
    // needs to see: the text they typed, and the season the assignment
    // was bound to, which the text itself does not spell.
    let shown = explanation(&explained(
        b"Kaguya-sama.Love.is.War.S03E03.1080p.WEB-DL.mkv",
        found(
            "Kaguya-sama: Love is War -Ultra Romantic-",
            DecidedBy::Altname(Assignment {
                spelled: "Kaguya-sama Love is War".to_owned(),
                season: Some(3),
                part: None,
                title: "Kaguya-sama: Love is War -Ultra Romantic-".to_owned(),
            }),
        ),
    ));

    assert!(
        line_of(&shown, "recognised:").contains("Kaguya-sama: Love is War -Ultra Romantic-"),
        "{shown}"
    );
    let stage = line_of(&shown, "stage:");
    assert!(stage.contains("\"Kaguya-sama Love is War\""), "{stage}");
    assert!(stage.contains("season 3"), "{stage}");
}

#[test]
fn a_stage_is_named_rather_than_numbered() {
    // A number computed from a position moves when a stage is inserted. What
    // is printed is the name.
    let cases = [
        (
            DecidedBy::Altname(Assignment {
                spelled: "SnK".to_owned(),
                season: None,
                part: None,
                title: "Show Title".to_owned(),
            }),
            "stage: altname",
        ),
        (DecidedBy::Key, "stage: key"),
        (DecidedBy::Scored(0.83_f64.to_bits()), "stage: score"),
    ];

    for (stage, expected) in cases {
        let shown = explanation(&explained(
            b"[Group] Show Title - 03.mkv",
            found("Show Title", stage),
        ));

        assert!(
            line_of(&shown, "stage:").starts_with(expected),
            "expected {expected:?} in {shown:?}"
        );
    }
}

#[test]
fn a_match_by_score_shows_the_score_it_won_with() {
    let shown = explanation(&explained(
        b"[Group] Show Title - 03.mkv",
        found("Show Title", DecidedBy::Scored(0.83_f64.to_bits())),
    ));

    assert!(line_of(&shown, "stage:").contains("0.83"), "{shown}");
}

#[test]
fn an_ambiguity_names_every_candidate() {
    let shown = explanation(&explained(
        b"Fruits Basket - 01.mkv",
        Outcome::Ambiguous {
            candidates: vec![
                "Fruits Basket".to_owned(),
                "Fruits Basket (2019)".to_owned(),
            ],
        },
    ));

    let ambiguous = line_of(&shown, "ambiguous:");
    assert!(ambiguous.contains("\"Fruits Basket\""), "{ambiguous}");
    assert!(
        ambiguous.contains("\"Fruits Basket (2019)\""),
        "{ambiguous}"
    );
}

#[test]
fn a_refusal_says_how_close_the_best_came_or_that_nothing_was_scored() {
    // Absent and low are different answers and lead different places: a
    // score says the list was searched and the name is the problem, an
    // absence says the list is.
    let close = explanation(&explained(
        b"Some Other Show - 03.mkv",
        Outcome::Unrecognised { best: Some(0.4_f64.to_bits()) },
    ));
    let nothing = explanation(&explained(
        b"Some Other Show - 03.mkv",
        Outcome::Unrecognised { best: None },
    ));

    assert!(line_of(&close, "unrecognised:").contains("0.40"), "{close}");
    let unscored = line_of(&nothing, "unrecognised:");
    assert!(unscored.contains("nothing"), "{unscored}");
    assert!(
        !unscored.contains("0.00"),
        "an absence rendered as a score of nought: {unscored}"
    );
}

#[test]
fn an_episode_that_is_not_one_number_is_said_in_words() {
    // Several, a half, and none are three answers a consumer must not
    // read as a number, so none of them is printed as one.
    let cases = [
        (Episode::Several, "several episodes"),
        (Episode::NotWhole, "not a whole number"),
        (Episode::Absent, "no episode"),
    ];

    for (episode, words) in cases {
        let shown = explanation(&explained(
            b"[Group] Show Title - 03.mkv",
            Outcome::Recognised {
                title: "Show Title".to_owned(),
                episode,
                stage: DecidedBy::Key,
            },
        ));

        let recognised = line_of(&shown, "recognised:");
        assert!(recognised.contains(words), "{recognised}");
        assert!(
            !recognised.contains("episode 0"),
            "an absence rendered as a number: {recognised}"
        );
    }
}

#[test]
fn a_listing_pads_its_columns_to_the_widest_entry() {
    let shown = listing(&[
        a_listing("mpv.instance1701", "mpv", Policy::Auto, everything()),
        a_listing("vlc", "videolan", Policy::Allow, nothing()),
    ]);

    assert_eq!(
        shown,
        "mpv.instance1701  mpv       auto   playing  pos+dur+pause+loc\n\
         vlc               videolan  allow  playing  title only\n"
    );
}

#[test]
fn a_column_is_as_wide_as_its_widest_entry_has_bytes() {
    let shown = listing(&[
        a_listing("\u{65e5}\u{672c}", "mpv", Policy::Deny, nothing()),
        a_listing("vlc", "vlc", Policy::Deny, nothing()),
    ]);

    let padded = |name: &str| format!("{name:6}  ");
    let lines: Vec<&str> = shown.lines().collect();
    assert!(lines[0].starts_with(&padded("\u{65e5}\u{672c}")), "{shown}");
    assert!(lines[1].starts_with(&padded("vlc")), "{shown}");
}

#[test]
fn every_event_reads_as_one_line() {
    let reading = PlayerSnapshot {
        player: PlayerId("mpv".to_owned()),
        media: MediaRef::Title("Show".to_owned()),
        state: PlayState::Paused,
        position: Known::NotReported,
        duration: Known::Unsupported,
        observed_at: Timestamp::epoch(),
    };

    assert_eq!(
        event(&BusEvent::Snapshot(reading.clone())),
        "mpv  paused  --:-- / n/a  Show"
    );
    assert_eq!(
        event(&BusEvent::SourcesChanged {
            sources: vec![PlayerId("mpv".to_owned()), PlayerId("vlc".to_owned())]
        }),
        "sources: mpv, vlc"
    );
    assert_eq!(
        event(&BusEvent::State(Some(SessionState { snapshot: reading }))),
        "state: mpv"
    );
    assert_eq!(event(&BusEvent::State(None)), "state: nothing is playing");
}

#[test]
fn an_explanation_reads_whole() {
    let shown = explanation(&explained(
        b"/anime/[Group] Show Title (2019) S02E03 [1080p].mkv",
        found("Show Title", DecidedBy::Scored(0.875_f64.to_bits())),
    ));

    assert_eq!(
        shown,
        "mpv  /anime/[Group] Show Title (2019) S02E03 [1080p].mkv\n\
         spelled: title \"Show Title\", season 2, episode 3, year 2019, group \"Group\"\n\
         recognised: \"Show Title\", episode 3\n\
         stage: score 0.88\n"
    );
    assert_eq!(
        why(Some(&explained(
            b"ep 03.mkv",
            Outcome::Unrecognised { best: None }
        ))),
        "mpv  ep 03.mkv\nspelled: no title, episode 3\n\
         unrecognised: nothing to score against\n"
    );
}

#[test]
fn a_double_is_shown_to_the_nearest_hundredth() {
    let mut values = vec![
        0.0,
        -0.0,
        1.0,
        0.5,
        0.83,
        0.4,
        0.005,
        0.015,
        0.125,
        0.375,
        0.625,
        0.875,
        0.994_999,
        0.995,
        0.996,
        5.0,
        -3.256,
        12_345.678,
        9_007_199_254_740_991.0,
        9_007_199_254_740_993.0,
        1e22,
        1.797_693_134_862_315_7e308,
        5e-324,
        2.225_073_858_507_201_4e-308,
        f64::INFINITY,
        f64::NEG_INFINITY,
        f64::NAN,
        -f64::NAN,
    ];
    // Every tie there is below one, and what stands next to each.
    for eighths in 0..=800_u32 {
        let value = f64::from(eighths) / 800.0;
        values.push(value);
        values.push(f64::from_bits(value.to_bits() + 1));
    }
    for exponent in 0..2047_u64 {
        values.push(f64::from_bits((exponent << 52) | 0x7_3a5c_91d2_e4f1));
    }

    for value in values {
        assert_eq!(show(value.to_bits()), format!("{value:.2}"), "{value:?}");
    }
}
