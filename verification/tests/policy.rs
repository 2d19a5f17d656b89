use benshi::AppName;
use benshi::policy::{Policy, PolicyTable, video_players};

fn app(name: &str) -> AppName {
    AppName(name.to_owned())
}

#[test]
fn an_application_this_table_has_never_heard_of_is_denied() {
    // The whole inversion in one assertion. What is not a video player has
    // no end to it, so the default cannot be to admit whatever turns up.
    let table = PolicyTable::allowing_video_players();

    assert_eq!(table.policy_for(&app("some-new-thing")), Policy::Deny);
}

#[test]
fn a_video_player_is_allowed_by_default() {
    let table = PolicyTable::allowing_video_players();

    assert_eq!(table.policy_for(&app("mpv")), Policy::Auto);
    assert_eq!(table.policy_for(&app("vlc")), Policy::Auto);
    assert_eq!(table.policy_for(&app("kodi")), Policy::Auto);
}

#[test]
fn a_player_is_allowed_however_it_capitalises_its_own_name() {
    // Not hypothetical, and the reason the list holds published names
    // rather than commands. Read out of the shipped binary on 2026-09-17,
    // mpc-qt registers org.mpris.MediaPlayer2.MpcQt - neither the command
    // a user types nor the spelling written in the list. A lookup
    // lowercases, which is the only reason the published name and the
    // entry meet; the command spelling never does, hyphen and all.
    let table = PolicyTable::allowing_video_players();

    assert_eq!(table.policy_for(&app("MpcQt")), Policy::Auto);
    assert_eq!(table.policy_for(&app("MPV")), Policy::Auto);
}

#[test]
fn everything_that_is_not_a_video_player_is_denied() {
    // Browsers and music players are denied here by never being named,
    // which is the point: this list would not have to grow to cover a
    // podcast app, an audiobook reader, or whatever publishes MPRIS next.
    let table = PolicyTable::allowing_video_players();

    for other in [
        "firefox",
        "chromium",
        "Feishin",
        "DeaDBeeF",
        "spotify",
        "rhythmbox",
    ] {
        assert_eq!(table.policy_for(&app(other)), Policy::Deny, "{other}");
    }
}

#[test]
fn every_default_entry_allows_the_name_it_is_written_as() {
    // Every entry looked up exactly as the list spells it. `MpcQt` is what
    // carries this: written as the player publishes it, it is filed by a
    // constructor that lowercases and found by a lookup that lowercases,
    // and dropping either would file it under a key nothing ever asks for.
    // Measured by removing the constructor's `to_lowercase`, which fails
    // this and nothing else.
    let table = PolicyTable::allowing_video_players();

    for name in video_players() {
        assert_eq!(table.policy_for(&app(name)), Policy::Auto, "{name}");
    }
}

#[test]
fn an_instance_qualified_source_is_answered_by_its_application_name() {
    // Observed on the live session bus: chromium published
    // org.mpris.MediaPlayer2.chromium.instance30062 on 2026-09-14, mpv
    // org.mpris.MediaPlayer2.mpv unqualified on 2026-09-17. Policy is
    // keyed on the application the adapter declares, never on the unique
    // identity - otherwise a second window of an allowed player would be
    // answered as an unknown one.
    let table = PolicyTable::allowing_video_players();

    assert_eq!(table.policy_for(&app("mpv")), Policy::Auto);
    assert_eq!(table.policy_for(&app("chromium")), Policy::Deny);
}

#[test]
fn an_explicit_setting_outranks_the_default_in_both_directions() {
    // The escape hatch, and it has to work both ways: a browser the user
    // wants tried, and a video player they want left alone.
    let mut table = PolicyTable::allowing_video_players();

    table.set(&app("firefox"), Policy::Allow);
    table.set(&app("mpv"), Policy::Deny);

    assert_eq!(table.policy_for(&app("firefox")), Policy::Allow);
    assert_eq!(table.policy_for(&app("mpv")), Policy::Deny);
}

#[test]
fn an_application_name_is_matched_whole_and_case_insensitively() {
    // Names are compared whole and not by a pattern, and this is the test
    // that holds them there. A loose comparison now admits a stranger rather than
    // silencing a player: the quieter failure, and the worse one.
    let table = PolicyTable::allowing_video_players();

    assert_eq!(table.policy_for(&app("MPV")), Policy::Auto);
    assert_eq!(table.policy_for(&app("mpvy")), Policy::Deny);
    assert_eq!(table.policy_for(&app("not-mpv")), Policy::Deny);
}

#[test]
fn deny_suppresses_readings_and_the_others_do_not() {
    assert!(!Policy::Deny.admits());
    assert!(Policy::Auto.admits());
    assert!(Policy::Allow.admits());
}

#[test]
fn the_players_are_told_by_their_names_in_any_case() {
    let table = PolicyTable::allowing_video_players();
    let names = [
        "mpv",
        "vlc",
        "mpcqt",
        "celluloid",
        "haruna",
        "smplayer",
        "totem",
        "dragonplayer",
        "parole",
        "qmplay2",
        "kodi",
        "jellyfinmediaplayer",
        "plexmediaplayer",
        "iina",
        "xplayer",
    ];

    assert_eq!(names.len(), video_players().len());
    for name in names {
        assert_eq!(table.policy_for(&app(name)), Policy::Auto, "{name}");
        assert_eq!(
            table.policy_for(&app(&name.to_uppercase())),
            Policy::Auto,
            "{name}"
        );
    }
    assert_eq!(table.policy_for(&app("mpc-qt")), Policy::Deny);
    assert_eq!(table.policy_for(&app("")), Policy::Deny);
}
