use benshi::invocation::Invocation;

#[test]
fn no_arguments_means_run_the_daemon() {
    assert_eq!(
        Invocation::of(&["benshi"]),
        Invocation::Daemon { tray: true }
    );
}

#[test]
fn asking_for_no_tray_is_still_the_daemon() {
    assert_eq!(
        Invocation::of(&["benshi", "--no-tray"]),
        Invocation::Daemon { tray: false }
    );
}

#[test]
fn any_other_argument_means_the_client() {
    // The one that matters. `--no-tray` is a daemon flag and `sources` is a
    // client command; reading one as the other would have `benshi sources`
    // start a second daemon, or `benshi --no-tray` try to connect to a
    // daemon that does not exist because it is the thing that was asked
    // for.
    for line in [
        vec!["benshi", "sources"],
        vec!["benshi", "watch"],
        vec!["benshi", "--socket", "/tmp/elsewhere.sock", "sources"],
        vec!["benshi", "record", "--for", "60s", "-o", "trace.jsonl"],
        vec!["benshi", "--help"],
    ] {
        assert_eq!(Invocation::of(&line), Invocation::Client, "{line:?}");
    }
}

#[test]
fn a_daemon_flag_followed_by_a_command_goes_to_the_client() {
    // Contradictory, and the client is where it gets a usable answer: clap
    // names the argument it did not expect. Deciding it here would mean
    // guessing which half of the line the user meant.
    assert_eq!(
        Invocation::of(&["benshi", "--no-tray", "sources"]),
        Invocation::Client
    );
}
