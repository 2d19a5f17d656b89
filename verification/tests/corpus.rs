//! What a key reaches among the entries filed.

use benshi::recognise::corpus::Corpus;
use benshi::recognise::normalise::Key;

/// The key a list entry spelled this way is filed under.
fn listed(title: &str) -> Key {
    Key::from_title(title).expect("a title with letters in it has a key")
}

#[test]
fn an_entry_answers_the_key_of_its_own_spelling() {
    let corpus = Corpus::of(&["Show Title", "Another Show"]);

    assert_eq!(corpus.candidates(&listed("Show Title")), ["Show Title"]);
}

#[test]
fn a_key_no_entry_is_filed_under_reaches_nothing() {
    // A miss is empty rather than everything. A lookup that fell back to
    // the whole corpus would make every name ambiguous, and one that
    // answered the nearest entry would write progress against a title
    // nobody named.
    let corpus = Corpus::of(&["Show Title"]);

    assert!(corpus.candidates(&listed("Some Other Show")).is_empty());
}

#[test]
fn corpus_an_entry_spelled_two_ways_is_one_candidate() {
    // `file` puts the title under its own key, so a spelling that repeats
    // the title files that entry twice. Answered as they are filed, the two
    // would be an ambiguity between one entry and itself.
    let mut corpus = Corpus::new();
    corpus.file("Show Title", &["Show Title", "Shoo Taitoru"]);

    assert_eq!(corpus.candidates(&listed("Show Title")), ["Show Title"]);
    assert_eq!(corpus.candidates(&listed("Shoo Taitoru")), ["Show Title"]);
}

#[test]
fn a_key_without_marks_reaches_the_entries_that_carry_them() {
    // The rule the filename side needs. A name that lost its colon reaches
    // both seasons, and which of them it is belongs to the list rather than
    // to the text.
    let corpus = Corpus::of(&["Nisekoi", "Nisekoi:"]);

    assert_eq!(
        corpus.candidates(&listed("Nisekoi")),
        ["Nisekoi", "Nisekoi:"]
    );
}

#[test]
fn a_key_with_marks_reaches_only_the_entry_that_spells_them() {
    // The other half, and what makes the marks worth keeping at all: a
    // name that did keep its colon names one season exactly.
    let corpus = Corpus::of(&["Nisekoi", "Nisekoi:"]);

    assert_eq!(corpus.candidates(&listed("Nisekoi:")), ["Nisekoi:"]);
}

#[test]
fn a_key_with_marks_is_not_widened_to_an_entry_without_them() {
    // A marked key is never widened, because the entry it names may be
    // missing from the list. Widening would hand a file of the sequel to
    // the season before it, which is the failure this program is built to
    // prevent.
    let corpus = Corpus::of(&["Nisekoi"]);

    assert!(corpus.candidates(&listed("Nisekoi:")).is_empty());
}

#[test]
fn entries_that_differ_by_a_season_or_a_part_are_not_candidates_together() {
    // The widening is over marks alone. A season and a part are in the key
    // and stay there, so the second season is not a candidate for a name
    // that spells the first, and the second part is not the second season.
    let corpus = Corpus::of(&[
        "Show Title",
        "Show Title Season 2",
        "Show Title Part 2",
        "Show Title!",
    ]);

    assert_eq!(
        corpus.candidates(&listed("Show Title Season 2")),
        ["Show Title Season 2"]
    );
    assert_eq!(
        corpus.candidates(&listed("Show Title Part 2")),
        ["Show Title Part 2"]
    );
    assert_eq!(
        corpus.candidates(&listed("Show Title")),
        ["Show Title", "Show Title!"]
    );
}

#[test]
fn an_entry_hands_over_its_spellings_in_one_order() {
    // A bucket comes out of a hash map, so what is filed under one entry
    // arrives in no particular order. A stage picking between spellings
    // that score alike would pick differently between two runs.
    let mut corpus = Corpus::new();
    corpus.file("Show Title", &["Zeta Spelling", "Alpha Spelling"]);

    assert_eq!(
        corpus.spellings_of("Show Title"),
        ["Alpha Spelling", "Show Title", "Zeta Spelling"]
    );
}

#[test]
fn a_spelling_with_no_letters_is_filed_nowhere() {
    // `Season 2` alone names no entry, so it has no key to be filed under
    // and nothing can look it up. The entry's other spellings are filed as
    // usual.
    let mut corpus = Corpus::new();
    corpus.file("Show Title", &["Season 2"]);

    assert_eq!(corpus.candidates(&listed("Show Title")), ["Show Title"]);
    assert!(Key::from_title("Season 2").is_none());
}

#[test]
fn candidates_stand_as_they_were_first_filed() {
    let mut corpus = Corpus::new();
    corpus.file("Later", &["Shared Name"]);
    corpus.file("Earlier", &["Shared Name"]);
    corpus.file("Later", &["Shared Name"]);
    corpus.file("Another", &["shared name!"]);
    let key = Key::from_title("Shared Name").expect("a key");

    assert_eq!(corpus.candidates(&key), ["Later", "Earlier", "Another"]);
}
