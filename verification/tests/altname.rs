//! What naming an entry by hand does, and what it refuses.

use benshi::recognise::altname::{Altnames, Assignment, Unnameable};
use benshi::path::RawPath;
use benshi::recognise::corpus::Corpus;
use benshi::recognise::normalise::Key;
use benshi::recognise::parse::{Parsed, parse};

/// What a file of this name spells.
fn named(name: &str) -> Parsed {
    parse(&RawPath::from_bytes(name.as_bytes().to_vec()))
}

#[test]
fn text_that_reaches_no_entry_is_named_freely() {
    // What this stage is for: an abbreviation no entry spells, so it
    // reaches nothing and naming it takes nothing away.
    let corpus = Corpus::of(&["Shingeki no Kyojin"]);
    let mut altnames = Altnames::new();

    let named = altnames
        .name("SnK", "Shingeki no Kyojin", &corpus)
        .expect("a text nothing else reaches is free to name");

    assert_eq!(
        named.recorded,
        Assignment {
            spelled: "SnK".to_owned(),
            season: None,
            part: None,
            title: "Shingeki no Kyojin".to_owned(),
        }
    );
    assert_eq!(named.replaced, None);
}

#[test]
fn an_assignment_made_from_a_file_carries_the_season_the_file_spelled() {
    // The text alone cannot recreate the key it was filed under: the
    // parser took `S03` out of the title, so the season is in the key and
    // nowhere in the text. It travels on the assignment, where a store
    // writing it down and an explanation showing it back can both read
    // it, and a reader of either can see why a first-season file does not
    // follow it.
    let corpus = Corpus::of(&[
        "Kaguya-sama: Love is War",
        "Kaguya-sama: Love is War -Ultra Romantic-",
    ]);
    let third = named("Kaguya-sama.Love.is.War.S03E03.1080p.WEB-DL.mkv");
    let mut altnames = Altnames::new();

    let named = altnames
        .name_as_parsed(&third, "Kaguya-sama: Love is War -Ultra Romantic-", &corpus)
        .expect("the third season reaches no entry, so naming it takes nothing");

    assert_eq!(
        named.recorded,
        Assignment {
            spelled: "Kaguya-sama Love is War".to_owned(),
            season: Some(3),
            part: None,
            title: "Kaguya-sama: Love is War -Ultra Romantic-".to_owned(),
        }
    );
}

#[test]
fn an_assignment_made_from_a_file_carries_the_part_the_file_spelled() {
    // The part is the other thing a key holds that the text does not,
    // and it is read back from after the season marker the parser cut.
    let corpus = Corpus::of(&["Show Title", "Show Title Part 2"]);
    let second = named("[Group] Show Title (Season 1 Part 2) - 03.mkv");
    let mut altnames = Altnames::new();

    let named = altnames
        .name_as_parsed(&second, "Show Title Part 2", &corpus)
        .expect("the file's key reaches the part it names, so naming it takes nothing");

    assert_eq!(named.recorded.spelled, "Show Title");
    assert_eq!(named.recorded.season, None);
    assert_eq!(named.recorded.part, Some(2));
}

#[test]
fn text_that_already_means_one_entry_is_refused_and_the_entry_is_named() {
    // The assignment that looks perfect and takes a whole cour with it.
    // Both halves are spellings from the user's own list, so nothing about
    // the text is suspicious: `Cour 2` reaches the cour, and pointing it at
    // the special that extends the same name sends the cour's files to the
    // special.
    let corpus = Corpus::of(&[
        "Mushoku Tensei: Jobless Reincarnation",
        "Mushoku Tensei: Jobless Reincarnation Cour 2",
        "Mushoku Tensei: Jobless Reincarnation Cour 2 - Eris the Goblin Slayer",
    ]);
    let mut altnames = Altnames::new();

    let refused = altnames.name(
        "Mushoku Tensei: Jobless Reincarnation Cour 2",
        "Mushoku Tensei: Jobless Reincarnation Cour 2 - Eris the Goblin Slayer",
        &corpus,
    );

    assert_eq!(
        refused,
        Err(Unnameable::AlreadyMeans {
            spelled: "Mushoku Tensei: Jobless Reincarnation Cour 2".to_owned(),
            entry: "Mushoku Tensei: Jobless Reincarnation Cour 2".to_owned(),
        })
    );
    assert!(altnames.assignments().is_empty());
}

#[test]
fn text_that_means_several_entries_may_be_settled_by_hand() {
    // The other side of the same rule. Here the corpus answers nothing at
    // all - two entries a filename cannot tell apart - so naming one takes
    // nothing from anybody and is how a person settles what the text
    // cannot.
    let corpus = Corpus::of(&["Nisekoi", "Nisekoi:"]);
    let mut altnames = Altnames::new();

    assert!(altnames.name("Nisekoi", "Nisekoi:", &corpus).is_ok());
    assert_eq!(
        altnames
            .assigned(&Key::from_title("Nisekoi").unwrap())
            .map(|assignment| assignment.title.as_str()),
        Some("Nisekoi:")
    );
}

#[test]
fn a_title_no_entry_carries_cannot_be_named() {
    // A typo, or an English title the user's list does not carry. Caught
    // while they are still at the terminal, rather than recorded as a
    // title that outranks every heuristic and resolves to nothing.
    let corpus = Corpus::of(&["Nisekoi", "Nisekoi:"]);
    let mut altnames = Altnames::new();

    assert_eq!(
        altnames.name("Nisekoi", "False Love", &corpus),
        Err(Unnameable::NotOnTheList {
            title: "False Love".to_owned(),
        })
    );
}

#[test]
fn text_with_no_letters_cannot_be_named() {
    // `Season 2` and `P4` are a season and a part and nothing else, so
    // neither has a key. Answering nothing would drop the user's own
    // command without a word.
    let corpus = Corpus::of(&["Show Title"]);
    let mut altnames = Altnames::new();

    assert_eq!(
        altnames.name("Season 2", "Show Title", &corpus),
        Err(Unnameable::Unspellable {
            spelled: "Season 2".to_owned(),
        })
    );
    assert!(matches!(
        altnames.name("P4", "Show Title", &corpus),
        Err(Unnameable::Unspellable { .. })
    ));
}

#[test]
fn naming_one_text_twice_replaces_the_first_and_says_which() {
    let corpus = Corpus::of(&["Show Title", "Another Show"]);
    let mut altnames = Altnames::new();

    altnames
        .name("SnK", "Show Title", &corpus)
        .expect("free to name");
    let again = altnames
        .name("SnK", "Another Show", &corpus)
        .expect("the user may change their mind");

    assert_eq!(
        again.replaced,
        Some(Assignment {
            spelled: "SnK".to_owned(),
            season: None,
            part: None,
            title: "Show Title".to_owned(),
        })
    );
    assert_eq!(altnames.assignments().len(), 1);
}

#[test]
fn an_assignment_can_be_taken_back() {
    // An assignment outranks every heuristic, so one made in error is
    // permanent unless it can be undone.
    let corpus = Corpus::of(&["Show Title"]);
    let mut altnames = Altnames::new();
    altnames
        .name("SnK", "Show Title", &corpus)
        .expect("free to name");

    let forgotten = altnames.forget("SnK");

    assert_eq!(
        forgotten.map(|assignment| assignment.title),
        Some("Show Title".to_owned())
    );
    assert!(altnames.forget("SnK").is_none());
    assert!(altnames.assignments().is_empty());
}

#[test]
fn naming_what_a_file_spelled_catches_that_file_and_not_the_season_before_it() {
    // Typing the title out of the file's name is not enough, and this is
    // the case that proves it. The parser takes `S03` out of the title, so
    // text typed as `Kaguya-sama Love is War` has no season in its key: it
    // misses the file it was made for and catches the first season, where
    // the corpus was already right. Naming what the file spelled keeps the
    // season, because both sides then come from the parser.
    let corpus = Corpus::of(&[
        "Kaguya-sama: Love is War",
        "Kaguya-sama: Love is War -Ultra Romantic-",
    ]);
    let third = named("Kaguya-sama.Love.is.War.S03E03.1080p.WEB-DL.mkv");
    let first = named("Kaguya-sama.Love.is.War.S01E03.1080p.WEB-DL.mkv");
    let mut altnames = Altnames::new();

    altnames
        .name_as_parsed(&third, "Kaguya-sama: Love is War -Ultra Romantic-", &corpus)
        .expect("the third season reaches no entry, so naming it takes nothing");

    assert_eq!(
        altnames
            .assigned(&Key::from_parsed(&third).unwrap())
            .map(|assignment| assignment.title.as_str()),
        Some("Kaguya-sama: Love is War -Ultra Romantic-")
    );
    assert!(
        altnames
            .assigned(&Key::from_parsed(&first).unwrap())
            .is_none()
    );
}

#[test]
fn an_assignment_keeps_the_text_the_user_gave() {
    // The key is an index and not a store: several spellings reach one,
    // and nothing turns a key back into the text it was built from, so the
    // text is the only thing a correction to the key's rules can be
    // applied to again.
    let corpus = Corpus::of(&["Show Title"]);
    let mut altnames = Altnames::new();

    altnames
        .name("ＳＨＯＷ　ＴＩＴＬＥ！", "Show Title", &corpus)
        .expect("free to name");

    assert_eq!(
        altnames.assignments().first().map(|a| a.spelled.as_str()),
        Some("ＳＨＯＷ　ＴＩＴＬＥ！")
    );
}
