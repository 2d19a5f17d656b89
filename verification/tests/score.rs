//! Which of several candidates a name is about.

use benshi::recognise::score::{NEAR_ENOUGH, alike, by_score};
use benshi::path::RawPath;
use benshi::recognise::corpus::Corpus;
use benshi::recognise::normalise::words_in;
use benshi::recognise::parse::{Episode, parse};
use benshi::recognise::{Match, Recognition, Refusal, Score, Stage};

/// What a file of this name spells.
fn named(name: &str) -> benshi::recognise::parse::Parsed {
    parse(&RawPath::from_bytes(name.as_bytes().to_vec()))
}

/// A score the tests use where the exact value is not the point.
fn a_score(value: f64) -> Score {
    Score::new(value.to_bits()).expect("the value is between nought and one")
}

/// The match an answer carries, where the test says it has to be one.
fn answered(answer: Recognition, must: &str) -> Match {
    match answer {
        Recognition::Recognised(found) => found,
        refused => panic!("{must}, got {refused:?}"),
    }
}

#[test]
fn a_short_entry_has_to_win_by_more_than_a_long_one() {
    // The whole reason the margin moves. In both corpora the runner-up
    // spells one word more than the winner and shares no more of the name,
    // so the gap between them is what that one word alone is worth: 0.13
    // where the winner spells two words, 0.11 where it spells four. The
    // short winner is refused and the long one is answered.
    let short = Corpus::of(&["Alpha Beta", "Alpha Beta Delta"]);
    let long = Corpus::of(&["Alpha Beta Gamma Delta", "Alpha Beta Gamma Delta Epsilon"]);

    let by_the_short = by_score(
        &named("Alpha Beta Gamma - 03.mkv"),
        &["Alpha Beta", "Alpha Beta Delta"],
        &short,
    );
    let by_the_long = by_score(
        &named("Alpha Beta Gamma Delta - 03.mkv"),
        &["Alpha Beta Gamma Delta", "Alpha Beta Gamma Delta Epsilon"],
        &long,
    );

    assert!(
        matches!(by_the_short, Recognition::Unrecognised(_)),
        "a two-word entry needs a wider win"
    );
    assert!(
        matches!(by_the_long, Recognition::Recognised(_)),
        "the same win is enough for four words"
    );
}

#[test]
fn a_candidate_with_nothing_to_beat_still_has_to_be_near_enough() {
    // A name reaching one entry has no runner-up, so a margin measured
    // against nothing would answer every name sharing a word with a single
    // entry. `Some Other Show` shares `show` and nothing else.
    let corpus = Corpus::of(&["Show Title"]);

    let alone = by_score(&named("Some Other Show - 03.mkv"), &["Show Title"], &corpus);

    assert!(matches!(alone, Recognition::Unrecognised(_)));
    assert!(alike(&words_in("Some Other Show"), &words_in("Show Title")).value() < NEAR_ENOUGH);
}

#[test]
fn two_candidates_running_level_are_no_answer() {
    // An unresolved mapping is reported, never guessed. This is the last
    // stage that can answer, so its refusal is the sequence's.
    let corpus = Corpus::of(&["Show Title Alpha", "Show Title Beta"]);

    assert!(matches!(
        by_score(
            &named("Show Title - 03.mkv"),
            &["Show Title Alpha", "Show Title Beta"],
            &corpus
        ),
        Recognition::Unrecognised(_)
    ));
}

#[test]
fn a_refusal_says_how_close_the_best_came_and_not_why() {
    // Refused for the margin and not for the floor. `Show Title Alpha`
    // shares two words of the five between it and the name, which is near
    // enough; `Show Title Beta Gamma` shares two of six, which is too close
    // behind for a name of two words. The refusal carries the best score,
    // as it would below the floor, and not the entry: a reader asking why
    // has the constants, and a reader asking which does not get one.
    let corpus = Corpus::of(&["Show Title Alpha", "Show Title Beta Gamma"]);

    assert_eq!(
        by_score(
            &named("Show Title - 03.mkv"),
            &["Show Title Alpha", "Show Title Beta Gamma"],
            &corpus
        ),
        Recognition::Unrecognised(Refusal {
            parsed: "Show Title".to_owned(),
            best: Some(a_score(0.8)),
        })
    );
}

#[test]
fn nothing_to_score_is_no_score_rather_than_nought() {
    // No candidate reached the scorer, so no comparison was made. Nought
    // would say one was made and the closest entry shared nothing.
    let corpus = Corpus::of(&["Show Title"]);

    assert_eq!(
        by_score(&named("Show Title - 03.mkv"), &[], &corpus),
        Recognition::Unrecognised(Refusal {
            parsed: "Show Title".to_owned(),
            best: None,
        })
    );
}

#[test]
fn the_answer_carries_the_score_it_won_with_and_names_the_stage() {
    let corpus = Corpus::of(&["Shingeki no Kyojin", "Kimi no Na wa"]);

    let found = answered(
        by_score(
            &named("[Group] Shingeki no Kyojin - 03 [1080p].mkv"),
            &["Shingeki no Kyojin", "Kimi no Na wa"],
            &corpus,
        ),
        "one candidate stands out",
    );

    assert_eq!(found.title, "Shingeki no Kyojin");
    assert_eq!(found.episode, Episode::Only(3));
    assert!(matches!(found.stage, Stage::Scored(_)));
}

#[test]
fn the_name_is_scored_rather_than_the_title_the_parser_left() {
    // What this stage exists for. A title ends at the first thing the
    // parser recognises, so this file reports `Show Title` and nothing of
    // the subtitle after it. Judged on that title the series wins, and the
    // special it extends is never answered at all.
    let corpus = Corpus::of(&["Show Title", "Show Title Cour 2 The Subtitle"]);
    let file = named("Show Title Cour 2 - The Subtitle - 03.mkv");
    assert_eq!(file.title.as_deref(), Some("Show Title"));

    let found = answered(
        by_score(
            &file,
            &["Show Title", "Show Title Cour 2 The Subtitle"],
            &corpus,
        ),
        "the subtitle is in the name even where the title lost it",
    );

    assert_eq!(found.title, "Show Title Cour 2 The Subtitle");
}

#[test]
fn what_the_release_spells_does_not_count_against_a_candidate() {
    // The name is judged on the text the release's own words were struck
    // out of. Counted whole, a group, a resolution and an extension are
    // four words no entry spells, and a two-word entry would lose most of
    // its score to them.
    let corpus = Corpus::of(&["Show Title", "Another Show"]);

    let found = answered(
        by_score(
            &named("[SubsPlease] Show Title - 03 (1080p) [A1B2C3D4].mkv"),
            &["Show Title", "Another Show"],
            &corpus,
        ),
        "the release's own words are not the name",
    );

    assert_eq!(found.title, "Show Title");
}

#[test]
fn an_entry_is_judged_by_the_spelling_the_name_is_closest_to() {
    // A file named in English against an entry filed under romaji and
    // English: the entry meets the name on whichever spelling is closest,
    // not on the one its title is written in.
    let mut corpus = Corpus::of(&["Kimi no Na wa"]);
    corpus.file("Shingeki no Kyojin", &["Attack on Titan"]);

    let found = answered(
        by_score(
            &named("Attack on Titan - 03.mkv"),
            &["Shingeki no Kyojin", "Kimi no Na wa"],
            &corpus,
        ),
        "the English spelling is what matched",
    );

    assert_eq!(found.title, "Shingeki no Kyojin");
}

#[test]
fn a_name_sharing_everything_scores_one_and_sharing_nothing_scores_nothing() {
    let show = words_in("Show Title");

    assert!((f64::from_bits(alike(&show, &show).value()) - 1.0).abs() < f64::EPSILON);
    assert!(f64::from_bits(alike(&show, &words_in("Something Else")).value()) < f64::EPSILON);
}

#[test]
fn only_the_same_words_are_wholly_alike_and_only_strangers_not_at_all() {
    let value = |one: &str, other: &str| f64::from_bits(alike(&words_in(one), &words_in(other)).value());

    assert_eq!(value("Alpha Beta", "Beta Alpha Beta"), 1.0);
    assert_eq!(value("Alpha Beta", "Alpha Beta Gamma"), 0.8);
    assert_eq!(value("Alpha Alpha Beta", "Gamma"), 0.0);
    assert_eq!(value("", ""), 0.0);
    assert!(value("Alpha", "Alpha Beta") < 1.0);
    assert!(value("Alpha Beta Gamma Delta", "Delta Epsilon Zeta Eta Theta") > 0.0);
}
