//! What the words of a name reach.

use benshi::recognise::index::Index;
use benshi::path::RawPath;
use benshi::recognise::by_key;
use benshi::recognise::corpus::Corpus;
use benshi::recognise::parse::parse;

/// A list big enough for a share of it to mean anything: four hundred
/// entries, every one of them spelling `The` and `Show`.
fn a_long_list() -> Corpus {
    let titles: Vec<String> = (0..400).map(|n| format!("The Show {n}")).collect();
    let titles: Vec<&str> = titles.iter().map(String::as_str).collect();
    Corpus::of(&titles)
}

#[test]
fn a_name_reaches_its_own_entry_among_a_handful() {
    // Both halves of what this stage claims, and neither alone is worth
    // anything: an index answering the whole corpus passes the first, and
    // one answering nothing passes the second.
    let corpus = a_long_list();
    let index = Index::of(&corpus);

    let found = index.candidates("The Show 137");

    assert!(
        found.contains(&"The Show 137"),
        "the right entry is among them"
    );
    assert!(found.len() < 10, "and they are a handful: {}", found.len());
}

#[test]
fn a_word_too_many_entries_carry_does_not_narrow() {
    // `The` and `Show` are carried by all four hundred, so searching by
    // them answers the whole list. The number that survives is what makes
    // the answer a handful.
    let corpus = a_long_list();
    let index = Index::of(&corpus);

    assert_eq!(index.candidates("The Show 137"), ["The Show 137"]);
}

#[test]
fn a_name_of_nothing_but_crowded_words_reaches_them_all() {
    // The honest answer where there is nothing to narrow by. Dropping
    // every word would answer nothing and lose the name altogether, so the
    // least crowded of them are used and the scorer is handed what they
    // reach.
    let corpus = a_long_list();
    let index = Index::of(&corpus);

    let found = index.candidates("The Show");

    assert!(found.len() > 100, "nothing here narrows: {}", found.len());
    assert!(found.contains(&"The Show 137"));
}

#[test]
fn an_entry_sharing_one_word_of_several_is_not_a_candidate() {
    // Two shared words, or the name is not about that entry. `Fate` alone
    // is shared by every entry of the franchise and says nothing about
    // which.
    let corpus = Corpus::of(&["Fate Zero", "Fate Apocrypha", "Zero Kara Hajimeru"]);
    let index = Index::of(&corpus);

    assert_eq!(index.candidates("Fate Zero"), ["Fate Zero"]);
}

#[test]
fn a_name_of_one_word_is_answered_by_that_word_alone() {
    // Two shared words cannot be asked of a name that spells one, and a
    // rule that asked anyway would answer nothing for every single-word
    // title on the list.
    let corpus = Corpus::of(&["Monster", "Another", "Bleach"]);
    let index = Index::of(&corpus);

    assert_eq!(index.candidates("Monster"), ["Monster"]);
}

#[test]
fn a_name_the_exact_key_misses_still_reaches_its_entry() {
    // What this stage exists for. The file carries a subtitle its list
    // entry does not spell, so the key it reaches is not the entry's key
    // and stage two answers nothing at all.
    let corpus = Corpus::of(&[
        "Shingeki no Kyojin",
        "Shingeki no Kyojin Season 2",
        "Kimi no Na wa",
    ]);
    let index = Index::of(&corpus);
    let file = parse(&RawPath::from_bytes(
        b"[Group] Shingeki no Kyojin - The Final Season - 03 [1080p].mkv".to_vec(),
    ));

    assert_eq!(by_key(&file, &corpus), None, "the exact key misses it");
    assert!(
        index
            .candidates(file.title.as_deref().expect("the name spells a title"))
            .contains(&"Shingeki no Kyojin")
    );
}

#[test]
fn index_an_entry_spelled_two_ways_is_one_candidate() {
    // As the corpus does it: an entry reached through two of its spellings
    // is one entry, not two. The last name spells both at once, the way a
    // release carrying the romaji title and the English one does, and a
    // second entry would answer it with the title twice.
    let mut corpus = Corpus::new();
    corpus.file("Shingeki no Kyojin", &["Attack on Titan"]);
    let index = Index::of(&corpus);

    assert_eq!(index.candidates("Attack on Titan"), ["Shingeki no Kyojin"]);
    assert_eq!(
        index.candidates("Shingeki no Kyojin"),
        ["Shingeki no Kyojin"]
    );
    assert_eq!(
        index.candidates("Shingeki no Kyojin (Attack on Titan)"),
        ["Shingeki no Kyojin"]
    );
}

#[test]
fn a_word_one_entry_spells_twice_counts_once_for_it() {
    // An entry filed under two spellings that share a word would otherwise
    // be credited with that word twice: the word looks more crowded than it
    // is, and the entry looks to share more of the name's words than it
    // spells.
    let mut corpus = Corpus::of(&["Beta Gamma"]);
    corpus.file("Alpha Show", &["Show Alpha"]);
    let index = Index::of(&corpus);

    assert!(index.candidates("Show Beta").is_empty());
}

#[test]
fn candidates_come_back_in_one_order_however_they_were_filed() {
    // A corpus files into buckets by key, so what comes back from it is in
    // the order of a hash map. Left alone, one name would answer in a
    // different order between two runs of the same program.
    //
    // Six entries rather than three, because three of them come back in
    // sorted order by chance about one run in six, and a test that passes
    // one run in six against a sort that is not there proves nothing. Every
    // word here is carried by four of the six, so every candidate survives
    // and all six are ordered.
    let corpus = Corpus::of(&[
        "Beta Gamma",
        "Gamma Alpha",
        "Alpha Beta",
        "Beta Alpha",
        "Gamma Beta",
        "Alpha Gamma",
    ]);
    let index = Index::of(&corpus);

    assert_eq!(
        index.candidates("Alpha Beta Gamma"),
        [
            "Alpha Beta",
            "Alpha Gamma",
            "Beta Alpha",
            "Beta Gamma",
            "Gamma Alpha",
            "Gamma Beta"
        ]
    );
}

#[test]
fn a_name_of_words_no_entry_spells_reaches_nothing() {
    // Not a refusal. This stage decides nothing, so a name it cannot place
    // is a name the scorer is not asked about.
    let corpus = Corpus::of(&["Monster", "Another"]);
    let index = Index::of(&corpus);

    assert!(index.candidates("Some Other Show").is_empty());
    assert!(index.candidates("").is_empty());
}

#[test]
fn an_entry_filed_again_under_other_spellings_is_reached_alike() {
    let mut once = Corpus::new();
    once.file("Show Title", &["Title of the Show"]);
    once.file("Another Show", &[]);
    let mut again = Corpus::new();
    again.file("Another Show", &[]);
    again.file("Show Title", &["Title of the Show", "Title of the Show"]);
    again.file("Show Title", &[]);

    for name in ["Show", "Show Title", "Title of", "Another", "the show title of another"] {
        assert_eq!(
            Index::of(&once).candidates(name),
            Index::of(&again).candidates(name),
            "{name}"
        );
    }
}
