use benshi::clock::Timestamp;
use benshi::detection::SourceInfo;
use benshi::path::RawPath;
use benshi::policy::{Policy, PolicyTable};
use benshi::protocol::{DecidedBy, Explanation, Outcome, SourceListing, listing};
use benshi::recognise::altname::Assignment;
use benshi::recognise::parse::Episode;
use benshi::recognise::{Ambiguity, Match, Recognition, Refusal, Score, Stage};
use benshi::recognition::{Decision, Recogniser};
use benshi::time::Duration;
use benshi::{AppName, Capabilities, Known, MediaRef, PlayState, PlayerId, PlayerSnapshot};

/// A filename in Shift-JIS, which is not valid UTF-8.
///
/// The case a wire format is most likely to get wrong, and the one a user
/// with a Japanese archive hits first.
const SHIFT_JIS_NAME: &[u8] = b"/anime/\x83\x5c\x83\x8c\x83\x62\x83\x5e - 03.mkv";

fn a_source() -> SourceInfo {
    SourceInfo {
        player: PlayerId("mpv.instance1701".to_owned()),
        app: AppName("mpv".to_owned()),
        capabilities: Capabilities {
            position: true,
            duration: true,
            paused: true,
            location: true,
        },
        state: PlayState::Playing,
    }
}

fn a_snapshot() -> PlayerSnapshot {
    PlayerSnapshot {
        player: PlayerId("mpv.instance1701".to_owned()),
        media: MediaRef::LocalFile(RawPath::from_bytes(SHIFT_JIS_NAME.to_vec())),
        state: PlayState::Playing,
        position: Known::Value(Duration::from_micros(93_456_789)),
        duration: Known::NotReported,
        observed_at: Timestamp::epoch(),
    }
}

/// A decision about the file [`a_snapshot`] has open, answered this way.
///
/// Parsed the way a round parses it, so that what the tests explain is
/// what the daemon would.
fn a_decision(answer: Recognition) -> Decision {
    let snapshot = a_snapshot();
    let MediaRef::LocalFile(path) = &snapshot.media else {
        panic!("the snapshot has a file open");
    };
    let (parsed, _refused) = Recogniser::empty().decide(path);

    Decision {
        player: snapshot.player.clone(),
        media: snapshot.media.clone(),
        parsed,
        answer,
    }
}

fn an_assignment() -> Assignment {
    Assignment {
        spelled: "SnK".to_owned(),
        season: Some(3),
        part: None,
        title: "Shingeki no Kyojin".to_owned(),
    }
}

/// A match of this title by this stage, for building decisions from.
fn found_by(stage: Stage) -> Recognition {
    Recognition::Recognised(Match {
        title: "Shingeki no Kyojin".to_owned(),
        episode: Episode::Only(3),
        stage,
    })
}

#[test]
fn a_listing_carries_the_policy_in_force_beside_the_source() {
    // The listing exists to answer "why is my player being ignored", so the
    // policy and the source have to arrive together. Two calls would let
    // them disagree.
    let listing = SourceListing::of(&a_source(), Policy::Deny);

    assert_eq!(listing.player, PlayerId("mpv.instance1701".to_owned()));
    assert_eq!(listing.app, AppName("mpv".to_owned()));
    assert_eq!(listing.policy, Policy::Deny);
    assert_eq!(listing.capabilities, a_source().capabilities);
    assert_eq!(listing.state, PlayState::Playing);
}

#[test]
fn an_explanation_says_whose_file_it_is_and_what_the_name_spelled() {
    // The three things a person asking why needs before the answer: which
    // player, which file, and what the parser made of its name. The parse
    // travels whole rather than as a title, because a season the parser
    // cut out of the title is exactly what an explanation has to show.
    let explained = Explanation::of(&a_decision(found_by(Stage::Key)));

    assert_eq!(explained.player, a_snapshot().player);
    assert_eq!(explained.media, a_snapshot().media);
    assert_eq!(explained.spelled.episode, Episode::Only(3));
    assert_eq!(explained.spelled.title.as_deref(), Some("ソレッタ"));
}

#[test]
fn an_explanation_carries_the_assignment_a_match_was_decided_by() {
    // What a user who made an assignment sees back: the text they gave
    // and the season it was bound to, which is why a file of another
    // season did not follow it.
    let explained = Explanation::of(&a_decision(found_by(Stage::Altname(an_assignment()))));

    assert_eq!(
        explained.outcome,
        Outcome::Recognised {
            title: "Shingeki no Kyojin".to_owned(),
            episode: Episode::Only(3),
            stage: DecidedBy::Altname(an_assignment()),
        }
    );
}

#[test]
fn an_explanation_of_a_score_carries_the_score_it_won_with() {
    let explained = Explanation::of(&a_decision(found_by(Stage::Scored(
        Score::new(0.83_f64.to_bits()).expect("a proportion"),
    ))));

    assert_eq!(
        explained.outcome,
        Outcome::Recognised {
            title: "Shingeki no Kyojin".to_owned(),
            episode: Episode::Only(3),
            stage: DecidedBy::Scored(0.83_f64.to_bits()),
        }
    );
}

#[test]
fn an_explanation_of_an_ambiguity_names_every_candidate() {
    let explained = Explanation::of(&a_decision(Recognition::Ambiguous(Ambiguity {
        parsed: "Fruits Basket".to_owned(),
        candidates: vec![
            "Fruits Basket".to_owned(),
            "Fruits Basket (2019)".to_owned(),
        ],
    })));

    assert_eq!(
        explained.outcome,
        Outcome::Ambiguous {
            candidates: vec![
                "Fruits Basket".to_owned(),
                "Fruits Basket (2019)".to_owned(),
            ],
        }
    );
}

#[test]
fn an_explanation_of_a_refusal_carries_how_close_the_best_came() {
    // Absent and low are different answers, and they stay different on
    // the wire: one points at the list and the other at the name.
    let close = Explanation::of(&a_decision(Recognition::Unrecognised(Refusal {
        parsed: "Some Other Show".to_owned(),
        best: Some(Score::new(0.4_f64.to_bits()).expect("a proportion")),
    })));
    let nothing = Explanation::of(&a_decision(Recognition::Unrecognised(Refusal {
        parsed: "Some Other Show".to_owned(),
        best: None,
    })));

    assert_eq!(close.outcome, Outcome::Unrecognised { best: Some(0.4_f64.to_bits()) });
    assert_eq!(nothing.outcome, Outcome::Unrecognised { best: None });
}

#[test]
fn a_listing_answers_with_the_policy_of_each_application() {
    let mut table = PolicyTable::allowing_video_players();
    table.set(&AppName("mpv".to_owned()), Policy::Allow);
    let browser = SourceInfo {
        player: PlayerId("firefox.instance30062".to_owned()),
        app: AppName("firefox".to_owned()),
        ..a_source()
    };

    let listed = listing(&table, &[a_source(), browser.clone()]);

    assert_eq!(
        listed,
        [
            SourceListing::of(&a_source(), Policy::Allow),
            SourceListing::of(&browser, Policy::Deny),
        ]
    );
}
