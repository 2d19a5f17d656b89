//! What recognition answers.

use benshi::recognise::{Ambiguity, Match, Recognition, Refusal, Score, Stage, by_key};
use benshi::path::RawPath;
use benshi::recognise::altname::Assignment;
use benshi::recognise::corpus::Corpus;
use benshi::recognise::parse::{Episode, Parsed, parse};

/// A score the tests use where the exact value is not the point.
fn a_score(value: f64) -> Score {
    Score::new(value.to_bits()).expect("the value is between nought and one")
}

/// What a file of this name spells, so that a test names a file rather
/// than building the parse by hand.
fn named(name: &str) -> Parsed {
    parse(&RawPath::from_bytes(name.as_bytes().to_vec()))
}

/// The answer stage two gives a file of this name against this corpus.
fn found(name: &str, corpus: &Corpus) -> Option<Recognition> {
    by_key(&named(name), corpus)
}

/// A recognition of this title by this stage, for comparing against.
fn recognised(title: &str, episode: Episode) -> Recognition {
    Recognition::Recognised(Match {
        title: title.to_owned(),
        episode,
        stage: Stage::Key,
    })
}

#[test]
fn an_answer_names_the_stage_that_decided_and_how_well_it_scored() {
    // The whole reason a recognition is inspectable. A score on its own
    // cannot be compared against another stage's, because an exact match on
    // a key and a best guess among candidates are not the same kind of
    // certainty, and a stage on its own does not say how close the call
    // was. The two travel together or neither is worth printing.
    let scored = Recognition::Recognised(Match {
        title: "Show".to_owned(),
        episode: Episode::Only(3),
        stage: Stage::Scored(a_score(0.91)),
    });

    let Recognition::Recognised(found) = &scored else {
        panic!("the answer is a recognition")
    };
    assert_eq!(found.stage, Stage::Scored(a_score(0.91)));
}

#[test]
fn a_stage_that_does_not_score_carries_no_score_to_lose() {
    // An exact match has no score, and a type that carried one anyway would
    // need a value invented for it - nought, which reads as the worst
    // possible match, or one, which reads as a perfect comparison that
    // never happened. Neither is true, so the stage holds the score where
    // there is one and nothing where there is not.
    let manual = Stage::Altname(Assignment {
        spelled: "Show".to_owned(),
        season: None,
        part: None,
        title: "Show Title".to_owned(),
    });
    let exact = Stage::Key;

    assert_ne!(manual, exact);
    assert!(!matches!(manual, Stage::Scored(_)));
    assert!(!matches!(exact, Stage::Scored(_)));
}

#[test]
fn a_film_has_no_episode_rather_than_episode_zero() {
    // A film carries no episode number and neither does a name that simply
    // does not spell one. Zero would be a number, and every consumer below
    // would have to know it meant absence - the sentinel this workspace
    // refuses everywhere else.
    //
    // A film and a batch are apart here as well, which is why the parser's
    // own answer is carried rather than a number that may be missing: a
    // film can be marked watched and a file of twelve episodes cannot.
    let film = Match {
        title: "A Film".to_owned(),
        episode: Episode::Absent,
        stage: Stage::Key,
    };
    let batch = Match {
        episode: Episode::Several,
        ..film.clone()
    };

    assert_eq!(film.episode, Episode::Absent);
    assert_ne!(film.episode, batch.episode);
}

#[test]
fn a_filename_nothing_matched_is_an_answer_and_not_an_error() {
    // Unrecognised is a fact about the filename, not a failure of the
    // program, so it is a variant rather than an `Err`. It carries what the
    // parser made of the name, because that is the first thing anybody
    // asking why will want, and how close the best candidate came.
    let nothing_close = Recognition::Unrecognised(Refusal {
        parsed: "Some Show".to_owned(),
        best: Some(a_score(0.41)),
    });
    let nothing_to_compare = Recognition::Unrecognised(Refusal {
        parsed: "Some Show".to_owned(),
        best: None,
    });

    assert_ne!(nothing_close, nothing_to_compare);
}

#[test]
fn a_score_outside_nought_to_one_is_refused_and_each_bound_is_not() {
    // A score is a proportion and nothing else can be one. Refused rather
    // than clamped, for the reason the watched policy gives: a number
    // quietly moved into range makes the explanation disagree with what
    // actually happened.
    assert!(Score::new((-0.01_f64).to_bits()).is_none());
    assert!(Score::new(1.01_f64.to_bits()).is_none());
    assert!(Score::new(f64::NAN.to_bits()).is_none());
    assert!(Score::new(0.0_f64.to_bits()).is_some());
    assert!(Score::new(1.0_f64.to_bits()).is_some());
}

#[test]
fn a_better_score_compares_greater_than_a_worse_one() {
    // The one thing a score is for. Ordering it is what lets a stage pick a
    // best candidate and what lets a refusal say how close it came.
    assert!(a_score(0.9) > a_score(0.4));
}

#[test]
fn a_score_reads_back_as_the_number_it_was_given() {
    // Its own test rather than a second assertion above: a score read back as
    // nothing has nothing to do with ordering, and a failure saying so sends
    // the next reader to the wrong line.
    //
    // Compared as bits rather than as numbers. A lint denies strict float
    // equality, and the claim here is exactly that the bits went in and came
    // back unchanged, which is what bit equality says and what an epsilon
    // would only approximate.
    assert_eq!(a_score(0.5).value(), 0.5_f64.to_bits());
}

#[test]
fn a_name_one_entry_is_filed_under_names_it_and_the_stage_that_found_it() {
    // The release group, the resolution and the episode are all off the
    // name before the key is built, so what is compared is the title
    // alone, and the answer names the entry rather than the text.
    let corpus = Corpus::of(&["Show Title", "Another Show"]);

    assert_eq!(
        found("[Group] Show Title - 03 [1080p].mkv", &corpus),
        Some(recognised("Show Title", Episode::Only(3)))
    );
}

#[test]
fn two_entries_under_one_key_are_reported_rather_than_chosen() {
    // A remake spelled like its original, told apart on the list by a year
    // the key drops because the parser reports a year apart from the
    // title. Answering the first entry filed would write a season of one
    // show against the other, and nothing in the name says which is meant.
    let corpus = Corpus::of(&["Fruits Basket", "Fruits Basket (2019)"]);

    assert_eq!(
        found("Fruits Basket - 01.mkv", &corpus),
        Some(Recognition::Ambiguous(Ambiguity {
            parsed: "Fruits Basket".to_owned(),
            candidates: vec![
                "Fruits Basket".to_owned(),
                "Fruits Basket (2019)".to_owned()
            ],
        }))
    );
}

#[test]
fn a_name_no_entry_is_filed_under_leaves_the_answer_to_the_stages_below() {
    // Not a refusal. An exact key hits or misses, and a name the parser
    // shortened or a list spells differently misses it while still being
    // recognisable further down, so this stage says nothing rather than
    // saying no.
    let corpus = Corpus::of(&["Show Title"]);

    assert_eq!(found("Some Other Show - 03.mkv", &corpus), None);
}

#[test]
fn a_mark_the_name_keeps_chooses_between_two_seasons() {
    // End to end, and the reason the marks are in the key at all. A colon
    // is the whole difference between these two entries: the file that
    // kept it names one, and the file that lost it names neither.
    let corpus = Corpus::of(&["Nisekoi", "Nisekoi:"]);

    assert_eq!(
        found("Nisekoi: - 03.mkv", &corpus),
        Some(recognised("Nisekoi:", Episode::Only(3)))
    );
    assert_eq!(
        found("Nisekoi - 03.mkv", &corpus),
        Some(Recognition::Ambiguous(Ambiguity {
            parsed: "Nisekoi".to_owned(),
            candidates: vec!["Nisekoi".to_owned(), "Nisekoi:".to_owned()],
        }))
    );
}

#[test]
fn a_part_is_not_the_season_of_the_same_number() {
    // Both are entries of their own on a list, the part being half of the
    // first season and the season being the whole of the second. A name
    // abbreviating the season reaches the season alone.
    let corpus = Corpus::of(&[
        "Gokushufudou",
        "Gokushufudou Part 2",
        "Gokushufudou Season 2",
    ]);

    assert_eq!(
        found("Gokushufudou S2 - 03.mkv", &corpus),
        Some(recognised("Gokushufudou Season 2", Episode::Only(3)))
    );
}

#[test]
fn a_file_of_several_episodes_names_its_title_and_none_of_them() {
    // The title was recognised and the episode was not, which is one
    // answer rather than two. A batch reduced to no episode would arrive
    // looking like a film, and a consumer would mark the series watched.
    let corpus = Corpus::of(&["Show Title"]);

    assert_eq!(
        found("[Group] Show Title 01-12 [BD].mkv", &corpus),
        Some(recognised("Show Title", Episode::Several))
    );
}
