//! What a filename spells.

use benshi::recognise::parse::{Episode, Parsed, parse};
use benshi::encoding::Confidence;
use benshi::path::RawPath;

/// Parse a name given as text, which is what every fixture here is.
fn spelled(name: &str) -> Parsed {
    parse(&RawPath::from_bytes(name.as_bytes().to_vec()))
}

#[test]
fn a_release_group_and_a_checksum_are_taken_off_the_title() {
    // The ordinary case, and the one every other fixture is a variation of.
    // The group is kept; the checksum and the resolution are dropped, and
    // nothing below here can see that they were ever present.
    let parsed = spelled("[SubsPlease] Show Title - 03 (1080p) [A1B2C3D4].mkv");

    assert_eq!(parsed.title.as_deref(), Some("Show Title"));
    assert_eq!(parsed.episode, Episode::Only(3));
    assert_eq!(parsed.release_group.as_deref(), Some("SubsPlease"));
}

#[test]
fn a_name_spelling_two_episodes_spells_no_single_one() {
    // Measured on 2026-09-20 rather than assumed: `01-12` comes back as two
    // `Episode` elements, "01" and "12", and not as a range.
    //
    // Neither number is the answer. A file holding twelve episodes is not
    // episode one and is not episode twelve, and recording either is the
    // failure this project exists to avoid. Several and absent are kept
    // apart so that an explanation can say which happened.
    let parsed = spelled("[Group] Show Title - 01-12 (1080p).mkv");

    assert_eq!(parsed.episode, Episode::Several);
    assert_eq!(parsed.title.as_deref(), Some("Show Title"));
}

#[test]
fn a_film_spells_no_episode_at_all() {
    // Absent, and distinct from several. A film carries no episode and a
    // name that simply does not say carries none either; both are this
    // case, and neither is a number.
    let parsed = spelled("Show Title Movie (2019) [1080p].mkv");

    assert_eq!(parsed.episode, Episode::Absent);
    assert_eq!(parsed.year, Some(2019));
    // And absent is not the answer a fraction gets, which is the whole
    // reason there are four cases and not three.
    assert_ne!(parsed.episode, Episode::NotWhole);
}

#[test]
fn two_spellings_of_a_season_reach_the_same_number() {
    // Half of the season rule, and the half the parser already does.
    // `Season 2` and `2nd Season` both come back as `Season = "2"`,
    // measured on 2026-09-20.
    let spelled_out = spelled("Show Title Season 2 - 03.mkv");
    let ordinal = spelled("Show Title 2nd Season - 03.mkv");

    assert_eq!(spelled_out.season, Some(2));
    assert_eq!(ordinal.season, Some(2));
    assert_eq!(spelled_out.title, ordinal.title);
}

#[test]
fn a_roman_numeral_season_stays_in_the_title() {
    // The other half, and the parser does not do it: `Show Title II` comes
    // back whole, with no season at all. Measured on 2026-09-20, and it is
    // why the normaliser has to carry a rule for numerals rather than
    // trust this.
    //
    // The test is here rather than beside that rule because this is a fact
    // about the parser, and a parser that started handling numerals would
    // make the rule unreachable while every test of it still passed.
    let parsed = spelled("Show Title II - 03.mkv");

    assert_eq!(parsed.title.as_deref(), Some("Show Title II"));
    assert_eq!(parsed.season, None);
}

#[test]
fn a_year_in_parentheses_is_a_year_and_not_a_title() {
    // A year disambiguates a remake from its original, so it is kept rather
    // than dropped with the rest of the noise.
    let parsed = spelled("Show Title (2019) - 03.mkv");

    assert_eq!(parsed.title.as_deref(), Some("Show Title"));
    assert_eq!(parsed.year, Some(2019));
    assert_eq!(parsed.episode, Episode::Only(3));
}

#[test]
fn a_name_that_is_not_valid_utf_8_is_parsed_and_says_it_was_inferred() {
    // A filename is bytes and every encoding is read. The name below is the
    // same Shift-JIS one the rest of the workspace tests against. It
    // parses, and the answer records that the text was inferred rather than
    // read, because a title recovered by guessing at an encoding is a
    // weaker input than one that could not be anything else.
    let shift_jis = [
        0x83, 0x5C, 0x83, 0x8C, 0x83, 0x62, 0x83, 0x5E, // "ソレッタ"
        0x20, 0x2D, 0x20, 0x30, 0x33, 0x2E, 0x6D, 0x6B, 0x76, // " - 03.mkv"
    ];
    let parsed = parse(&RawPath::from_bytes(shift_jis.to_vec()));

    assert_eq!(parsed.confidence, Confidence::Detected);
    assert_eq!(parsed.episode, Episode::Only(3));
}

#[test]
fn a_name_that_is_valid_utf_8_says_the_text_was_read_and_not_guessed() {
    // The other side of the same fact, and the one that stops the field
    // from being a constant.
    let parsed = spelled("Show Title - 03.mkv");

    assert_eq!(parsed.confidence, Confidence::Certain);
}

#[test]
fn an_episode_that_is_not_a_whole_number_is_neither_rounded_nor_absent() {
    // Measured on 2026-09-20: `05.5` arrives as one episode element whose
    // value is the text "05.5". Rounded into a neighbour it would record
    // progress against an episode nobody watched; called absent it would be
    // indistinguishable from a film, and a film is a work this program marks
    // watched as a whole. It is neither.
    let parsed = spelled("[Group] Show Title - 05.5 (1080p).mkv");

    assert_eq!(parsed.episode, Episode::NotWhole);
    assert_eq!(parsed.title.as_deref(), Some("Show Title"));
}

#[test]
fn a_reissued_release_is_still_the_episode_it_reissues() {
    // `03v2` is version two of episode three, not episode thirty-two and
    // not a version of anything this crate records. Measured on 2026-09-20:
    // the parser separates them, and the version is among the kinds dropped.
    let parsed = spelled("[Group] Show Title - 03v2.mkv");

    assert_eq!(parsed.episode, Episode::Only(3));
}

#[test]
fn a_part_the_parser_reports_is_kept() {
    // `Cour 2` is a part the parser recognises on its own. AniList lists
    // the second part of some seasons as an entry of its own, so a name
    // that spells one has to say so.
    let parsed = spelled("Show Title Season 2 Cour 2 - 03.mkv");

    assert_eq!(parsed.season, Some(2));
    assert_eq!(parsed.part, Some(2));
}

#[test]
fn a_part_after_a_season_is_found_where_the_parser_loses_it() {
    // Measured on 2026-09-21: for every one of these the parser reports a
    // title of `Show Title` and a season of three, and the part appears
    // nowhere - in no element and not in the title. A bare `Part` counts
    // upstream only inside brackets, and the title ends at the season, so
    // what lies between the season and the episode belongs to nobody.
    //
    // Left there, a file of a season's second part would reach the list
    // entry for its first.
    for name in [
        "Show Title Season 3 Part 2 - 03.mkv",
        "Show Title S3 Part 2 - 03.mkv",
        "Show Title 3rd Season Part 2 - 03.mkv",
        "Show Title Season 3 - Part 2 - 03.mkv",
        "Show Title Season 3 Part.2 - 03.mkv",
        "Show Title Season 3 Part II - 03.mkv",
    ] {
        let parsed = spelled(name);

        assert_eq!(parsed.title.as_deref(), Some("Show Title"), "{name}");
        assert_eq!(parsed.season, Some(3), "{name}");
        assert_eq!(parsed.part, Some(2), "{name}");
    }
}

#[test]
fn a_part_after_the_episode_names_the_episode_and_not_the_season() {
    // What the parser is right to leave alone: after the episode number,
    // `Part 1` is part of an episode's own title. Read as the season's
    // part, it would report something the name did not say. A `Part 2` in
    // its place would send the file to a list entry it does not belong to.
    let parsed = spelled("Show Title Season 3 - 03 - The Comeback, Part 1.mkv");

    assert_eq!(parsed.season, Some(3));
    assert_eq!(parsed.part, None);
}

#[test]
fn a_part_inside_the_title_stays_in_the_title() {
    // With no season in front of it, the parser keeps `Part 2` inside the
    // title, measured on 2026-09-21. Nothing here reads it out. A list
    // entry is text that never meets the parser, so the normaliser has to
    // take a part out of a title's text anyway, and one place doing that
    // is one rule where two would have to agree.
    let parsed = spelled("Show Title Part 2 - 03.mkv");

    assert_eq!(parsed.title.as_deref(), Some("Show Title Part 2"));
    assert_eq!(parsed.part, None);
}

#[test]
fn a_first_part_is_reported_as_the_first() {
    // What the name spelled, and nothing decided about it. Whether a first
    // part is the same list entry as no part at all is the key's rule; the
    // parse only reports that the name said `Part 1`.
    let parsed = spelled("Show Title Season 3 Part 1 - 03.mkv");

    assert_eq!(parsed.part, Some(1));
}

#[test]
fn a_part_is_found_behind_a_title_that_is_not_ascii() {
    // The parser counts positions in `char`s, read off its tokenizer on
    // 2026-09-21. A title in katakana is four characters and twelve bytes,
    // so the text between the season and the episode is found only when it
    // is cut by characters.
    let parsed = spelled("ソレッタ Season 3 Part 2 - 03.mkv");

    assert_eq!(parsed.season, Some(3));
    assert_eq!(parsed.part, Some(2));
}
