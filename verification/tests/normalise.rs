//! Which titles share a key.

use benshi::recognise::normalise::Key;
use benshi::encoding::Confidence;
use benshi::path::RawPath;
use benshi::recognise::parse::{Episode, Parsed, parse};

/// The key a list entry spelled this way is filed under.
fn listed(title: &str) -> Key {
    Key::from_title(title).expect("a title with letters in it has a key")
}

/// The key a file of this name is looked up by.
fn named(name: &str) -> Key {
    Key::from_parsed(&parse(&RawPath::from_bytes(name.as_bytes().to_vec())))
        .expect("the name spells a title")
}

#[test]
fn season_2_and_2nd_season_reach_the_same_key() {
    assert_eq!(
        listed("Show Title Season 2"),
        listed("Show Title 2nd Season")
    );
}

#[test]
fn a_roman_numeral_ending_the_title_is_its_season() {
    assert_eq!(listed("Show Title II"), listed("Show Title Season 2"));
    assert_eq!(listed("Show Title IX"), listed("Show Title Season 9"));
}

#[test]
fn a_season_spelled_as_a_word_is_a_season() {
    assert_eq!(
        listed("Show Title Second Season"),
        listed("Show Title Season 2")
    );
}

#[test]
fn a_season_abbreviated_is_a_season() {
    assert_eq!(listed("Show Title S2"), listed("Show Title Season 2"));
    assert_eq!(listed("Show Title Season2"), listed("Show Title Season 2"));
}

#[test]
fn a_season_spelled_in_another_language_is_a_season() {
    assert_eq!(listed("Show Title Saison 2"), listed("Show Title Season 2"));
    assert_eq!(
        listed("Show Title 2nd Saison"),
        listed("Show Title Season 2")
    );
    assert_eq!(
        listed("ショータイトル 第2期"),
        listed("ショータイトル Season 2")
    );
    assert_eq!(
        named("ショータイトル 第2期 - 03.mkv"),
        listed("ショータイトル 第2期")
    );
}

#[test]
fn a_season_in_roman_numerals_after_the_word_is_a_season() {
    assert_eq!(
        listed("Show Title Season II"),
        listed("Show Title Season 2")
    );
}

#[test]
fn a_roman_numeral_inside_the_title_is_part_of_its_name() {
    assert_ne!(listed("Show II Title"), listed("Show Title Season 2"));
    assert_ne!(listed("Show II Title"), listed("Show Title"));
}

#[test]
fn x_and_i_ending_a_title_are_letters_and_not_numerals() {
    assert_ne!(listed("Show Title X"), listed("Show Title Season 10"));
    assert_ne!(listed("Show Title I"), listed("Show Title"));
}

#[test]
fn a_numeral_in_mixed_case_is_a_word() {
    assert_ne!(listed("Show Title Ii"), listed("Show Title Season 2"));
}

#[test]
fn a_bare_number_ending_a_title_is_not_a_season() {
    assert_ne!(listed("Show Title 2"), listed("Show Title Season 2"));
    assert_ne!(listed("Show Title 0"), listed("Show Title"));
}

#[test]
fn a_first_season_is_the_title_itself() {
    assert_eq!(listed("Show Title Season 1"), listed("Show Title"));
    assert_eq!(listed("Show Title 1st Season"), listed("Show Title"));
}

#[test]
fn a_part_is_never_a_season() {
    assert_ne!(listed("Show Title Part 2"), listed("Show Title Season 2"));
    assert_ne!(
        named("Show Title Part 2 - 03.mkv"),
        listed("Show Title Season 2")
    );
}

#[test]
fn a_part_and_a_cour_are_one_thing() {
    assert_eq!(listed("Show Title Cour 2"), listed("Show Title Part 2"));
    assert_eq!(listed("Show Title 2nd Cour"), listed("Show Title Part 2"));
}

#[test]
fn a_part_spelled_otherwise_is_the_same_part() {
    assert_eq!(listed("Show Title Part II"), listed("Show Title Part 2"));
    assert_eq!(listed("Show Title Part.2"), listed("Show Title Part 2"));
    assert_eq!(listed("Show Title Part2"), listed("Show Title Part 2"));
    assert_eq!(listed("Show Title Part ii"), listed("Show Title Part 2"));
    assert_eq!(listed("Show Title Part X"), listed("Show Title Part 10"));
    assert_eq!(listed("Show Title Part I"), listed("Show Title"));
}

#[test]
fn a_part_spelled_in_another_language_is_a_part() {
    assert_eq!(listed("Show Title Parte 2"), listed("Show Title Part 2"));
    assert_eq!(listed("Show Title Pt 2"), listed("Show Title Part 2"));
    assert_eq!(listed("Show Title Partie 2"), listed("Show Title Part 2"));
    assert_eq!(listed("Show Title 第2クール"), listed("Show Title Part 2"));
}

#[test]
fn a_part_abbreviated_is_a_part() {
    assert_eq!(
        listed("Show Title S3 P2"),
        listed("Show Title Season 3 Part 2")
    );
}

#[test]
fn a_part_in_brackets_wins_over_a_bare_one() {
    // A bare `Part` beside a bracketed one is part of the name, and the
    // parser reads only the bracketed one, so the list does the same. The
    // brackets count however far inside them the part stands.
    for spelled in [
        "Show Title Part 6 (Part 2)",
        "Show Title Part 6 (Season 3 Part 2)",
    ] {
        assert_eq!(
            listed(spelled),
            named(&format!("{spelled} - 03.mkv")),
            "{spelled}"
        );
    }
    assert_ne!(
        listed("Show Title Part 6 (Part 2)"),
        listed("Show Title Part 6")
    );
}

#[test]
fn a_part_spelled_beyond_mistaking_wins_over_one_in_brackets() {
    // `Cour` can mean nothing else, so it counts outside brackets, and it
    // stands before the bracketed `Part` here. The parser reads the same
    // number from this name. Only the number is compared: the parser takes
    // `(Part 2)` out of the title altogether, where a list entry keeps it.
    assert_eq!(listed("Show Title Cour 3 (Part 2)").part(), Some(3));
    assert_eq!(named("Show Title Cour 3 (Part 2) - 03.mkv").part(), Some(3));
}

#[test]
fn a_season_and_its_part_are_both_in_the_key() {
    let both = listed("Show Title Season 3 Part 2");

    assert_eq!(both, listed("Show Title 3rd Season Cour 2"));
    assert_ne!(both, listed("Show Title Season 3"));
    assert_ne!(both, listed("Show Title Part 2"));
}

#[test]
fn a_first_part_is_the_title_itself() {
    assert_eq!(listed("Show Title Part 1"), listed("Show Title"));
}

#[test]
fn titles_differing_only_by_case_share_a_key() {
    assert_eq!(listed("SHOW TITLE"), listed("Show Title"));
    assert_eq!(listed("show title"), listed("Show Title"));
    assert_eq!(listed("ШОУ"), listed("шоу"));
}

#[test]
fn punctuation_between_words_is_erased() {
    for spelling in [
        "Show: Title",
        "Show-Title",
        "Show/Title",
        "Show.Title",
        "ShowTitle",
    ] {
        assert_eq!(listed(spelling), listed("Show Title"), "{spelling}");
    }
    assert_eq!(listed("Show Title: 2"), listed("Show Title 2"));
}

#[test]
fn marks_ending_a_title_are_kept() {
    assert_ne!(listed("Show Title!"), listed("Show Title"));
    assert_ne!(listed("Show Title!!"), listed("Show Title!"));
    assert_ne!(listed("Show Title'"), listed("Show Title"));
}

#[test]
fn a_mark_standing_apart_at_the_end_is_still_a_mark() {
    assert_ne!(listed("Show Title ♭"), listed("Show Title"));
}

#[test]
fn marks_left_at_the_end_once_the_season_is_taken_off_are_kept() {
    assert_eq!(
        listed("Show Title!! 2nd Season"),
        listed("Show Title!! Season 2")
    );
    assert_ne!(
        listed("Show Title!! 2nd Season"),
        listed("Show Title Season 2")
    );
}

#[test]
fn a_bracket_is_not_a_mark() {
    assert_eq!(listed("【Show Title】"), listed("Show Title"));
    assert_eq!(listed("[Show Title]"), listed("Show Title"));
    assert_eq!(listed("Show Title (Sub)"), listed("Show Title Sub"));
}

#[test]
fn a_dash_ending_a_title_is_not_a_mark() {
    assert_eq!(
        listed("Show Title -Subtitle-"),
        listed("Show Title Subtitle")
    );
    assert_eq!(listed("Show Title - Part 2"), listed("Show Title Part 2"));
}

#[test]
fn a_space_the_parser_reads_between_words_is_not_a_mark() {
    assert_eq!(listed("Show Title_"), listed("Show Title"));
    assert_eq!(listed("Show Title\u{200B}"), listed("Show Title"));
}

#[test]
fn a_combining_mark_belongs_to_its_letter() {
    assert_ne!(listed("ไก่ย่าง"), listed("ไกยาง"));
}

#[test]
fn a_year_in_brackets_of_any_kind_is_not_in_the_key() {
    for spelling in [
        "Show Title (2019)",
        "Show Title (1998)",
        "Show Title [2019]",
        "Show Title {2019}",
        "Show Title <2019>",
        "Show Title 【2019】",
        "Show Title （2019）",
    ] {
        assert_eq!(listed(spelling), listed("Show Title"), "{spelling}");
    }
}

#[test]
fn a_year_before_a_season_is_not_in_the_key_either() {
    assert_eq!(
        listed("Show Title (2024) Season 2"),
        listed("Show Title Season 2")
    );
}

#[test]
fn a_year_standing_alone_is_not_in_the_key_either() {
    // The parser reads a bare year out of a filename and reports it apart
    // from the title, so a list entry spelling one has to lose it too.
    assert_eq!(listed("Show Title 2013"), listed("Show Title"));
    assert_eq!(listed("1999 Show Title"), listed("Show Title"));
    assert_eq!(
        named("[Group] Show Title 2013 - 03.mkv"),
        listed("Show Title 2013")
    );
}

#[test]
fn digits_joined_to_the_name_are_part_of_it() {
    // The parser reads a year only where the digits are a word of their
    // own, so `2000%` and `Show/1999` keep theirs. Each is compared with
    // the same spelling less the digits, so that the punctuation left
    // behind cannot be what tells the two keys apart.
    assert_ne!(listed("Show Title 2000%"), listed("Show Title %"));
    assert_ne!(listed("Show/1999"), listed("Show/"));
}

#[test]
fn a_type_in_brackets_is_not_in_the_key() {
    // AniList tells a series from the film of the same name by a type in
    // brackets. A filename's title never carries one, because the parser
    // reports a bracketed type as an element of its own.
    for spelling in [
        "Show Title (TV)",
        "Show Title (Movie)",
        "Show Title (OVA)",
        "Show Title (ONA)",
        "Show Title (OAD)",
        "Show Title (OAV)",
        "Show Title (SP)",
        "Show Title (Special)",
        "Show Title (Specials)",
        "Show Title (Gekijouban)",
        "Show Title（TV）",
    ] {
        assert_eq!(listed(spelling), listed("Show Title"), "{spelling}");
    }
    assert_eq!(
        listed("Show Title [TV] Season 2 Part 2"),
        listed("Show Title Season 2 Part 2")
    );
}

#[test]
fn a_word_in_brackets_that_is_not_a_type_stays_in_the_key() {
    assert_ne!(listed("Show Title (Zero)"), listed("Show Title"));
    assert_ne!(listed("Show Title (Movies)"), listed("Show Title"));
}

#[test]
fn a_type_in_a_filename_is_not_in_the_key() {
    assert_eq!(
        named("[Group] Show Title (TV) - 03.mkv"),
        listed("Show Title (TV)")
    );
}

#[test]
fn a_number_that_is_not_a_year_stays() {
    assert_ne!(listed("Show Title (12)"), listed("Show Title"));
    assert_ne!(listed("Show Title (2150)"), listed("Show Title"));
    assert_ne!(listed("Show Title 2150"), listed("Show Title"));
    // Four digits, and no fewer: a year is a year by its length as well.
    assert_ne!(listed("Show Title (20)"), listed("Show Title"));
    assert_ne!(listed("Show Title 20"), listed("Show Title"));
}

#[test]
fn full_width_letters_reach_their_ordinary_forms() {
    assert_eq!(listed("ＳＨＯＷ　ＴＩＴＬＥ"), listed("Show Title"));
    assert_eq!(
        listed("Show Title ２nd Season"),
        listed("Show Title Season 2")
    );
}

#[test]
fn a_numeral_written_as_one_character_is_a_numeral() {
    assert_eq!(listed("Show Title Ⅱ"), listed("Show Title Season 2"));
}

#[test]
fn a_multiplication_sign_between_words_is_the_letter_x() {
    assert_eq!(listed("Show×Title"), listed("Show x Title"));
}

#[test]
fn titles_sharing_a_prefix_do_not_share_a_key() {
    assert_ne!(listed("Show Title: Zero"), listed("Show Title: Apocrypha"));
    assert_ne!(listed("Show Title: Zero"), listed("Show Title"));
}

#[test]
fn titles_one_letter_apart_do_not_share_a_key() {
    assert_ne!(listed("Show Title"), listed("Show Titles"));
    assert_ne!(listed("Show Title"), listed("Snow Title"));
}

#[test]
fn a_title_with_no_letters_has_no_key() {
    for spelling in ["", "!!!", "Season 2", "(2019)"] {
        assert_eq!(Key::from_title(spelling), None, "{spelling:?}");
    }
}

#[test]
fn a_name_that_spells_no_title_has_no_key() {
    let nothing = Parsed {
        title: None,
        episode: Episode::Only(3),
        season: Some(2),
        part: None,
        year: None,
        release_group: Some("Group".to_owned()),
        text: String::new(),
        confidence: Confidence::Certain,
    };

    assert_eq!(Key::from_parsed(&nothing), None);
}

#[test]
fn a_release_group_is_not_in_the_key() {
    assert_eq!(
        named("[GroupA] Show Title - 03.mkv"),
        named("[GroupB] Show Title - 03.mkv")
    );
    assert_eq!(named("[GroupA] Show Title - 03.mkv"), listed("Show Title"));
}

#[test]
fn a_season_and_part_the_parser_reports_are_in_the_key() {
    assert_eq!(
        named("[Group] Show Title S2 - 03 [1080p].mkv"),
        listed("Show Title 2nd Season")
    );
    assert_eq!(
        named("Show Title Season 3 Part 2 - 03.mkv"),
        listed("Show Title Season 3 Part 2")
    );
}

#[test]
fn a_season_and_part_the_parser_leaves_in_the_title_are_in_the_key() {
    assert_eq!(
        named("Show Title II - 03.mkv"),
        listed("Show Title Season 2")
    );
    assert_eq!(
        named("Show Title Part 2 - 03.mkv"),
        listed("Show Title Part 2")
    );
}

#[test]
fn an_episode_title_after_a_season_and_episode_is_not_in_the_key() {
    // Season and episode as `1x05`, then the episode's own name ending in a
    // numeral, a year and a group. The parser reads `1x05` as season one,
    // episode five, and ends the title there, so the `II` of the episode's
    // name never reaches the key as a second season.
    let name = "Show Title - 1x05 - The Episode Name II [1994] [Group].mkv";

    assert_eq!(named(name), listed("Show Title"));
}

#[test]
fn a_numeral_stays_in_the_name_where_the_parser_reported_the_season() {
    // The list reads `Season 2` first and keeps the numeral as part of the
    // name. The parser takes `Season 2` out of a filename, so the numeral
    // left ending its title is part of the name there too.
    assert_eq!(
        named("Show Title II Season 2 - 03.mkv"),
        listed("Show Title II Season 2")
    );
    assert_ne!(
        named("Show Title II Season 2 - 03.mkv"),
        listed("Show Title II")
    );

    let reported = Parsed {
        title: Some("Show Title II".to_owned()),
        episode: Episode::Only(3),
        season: Some(3),
        part: None,
        year: None,
        release_group: None,
        text: String::new(),
        confidence: Confidence::Certain,
    };
    assert_eq!(
        Key::from_parsed(&reported),
        Some(listed("Show Title II Season 3"))
    );
}

#[test]
fn a_mark_the_parser_cut_off_a_filename_is_in_the_key() {
    assert_eq!(
        named("[Group] Show Title: - 03 [1080p].mkv"),
        listed("Show Title:")
    );
    assert_ne!(
        named("[Group] Show Title: - 03 [1080p].mkv"),
        listed("Show Title")
    );
}

#[test]
fn what_a_key_keeps_of_the_end_is_marks_alone() {
    assert_eq!(listed("Show Title!!").marks(), "!!");
    assert_eq!(listed("Show Title ! _\u{200b}~").marks(), "!~");
    assert_eq!(listed("Show Title (!) -").marks(), "!");
    assert_eq!(listed("Show Title").marks(), "");
}

#[test]
fn whitespace_is_a_closed_list() {
    let spaces: Vec<char> = (char::MIN..=char::MAX)
        .filter(|c| benshi::recognise::glyph::glyphs_of(&c.to_string())[0].space)
        .collect();

    let mut expected: Vec<char> = ('\u{9}'..='\u{d}').collect();
    expected.extend([' ', '\u{85}', '\u{a0}', '\u{1680}']);
    expected.extend('\u{2000}'..='\u{200a}');
    expected.extend(['\u{2028}', '\u{2029}', '\u{202f}', '\u{205f}', '\u{3000}']);
    assert_eq!(spaces, expected);
}
