use benshi::bus::BusEvent;
use benshi::clock::Timestamp;
use benshi::detection::{Detection, PollOutcome, SourceInfo};
use benshi::ipc::{
    Answer, Binding, Fault, Knock, PRIVATE, Received, Server, already_listening, client_left,
    may_bind, not_private, socket_path_from, still_listening, stream,
};
use benshi::path::RawPath;
use benshi::policy::{Policy, PolicyTable};
use benshi::protocol::{Outcome, Request, Response};
use benshi::recognition::Recogniser;
use benshi::time::Duration;
use benshi::{AppName, Capabilities, Known, MediaRef, PlayState, PlayerId, PlayerSnapshot};

fn a_source(identity: &str, app: &str) -> SourceInfo {
    SourceInfo {
        player: PlayerId(identity.to_owned()),
        app: AppName(app.to_owned()),
        capabilities: Capabilities {
            position: true,
            duration: true,
            paused: true,
            location: true,
        },
        state: PlayState::Playing,
    }
}

fn a_snapshot() -> PlayerSnapshot {
    PlayerSnapshot {
        player: PlayerId("mpv".to_owned()),
        media: MediaRef::LocalFile(RawPath::from_bytes(b"/anime/ep 03.mkv".to_vec())),
        state: PlayState::Playing,
        position: Known::Value(Duration::from_secs(5)),
        duration: Known::Value(Duration::from_mins(23)),
        observed_at: Timestamp::epoch(),
    }
}

/// A server that has taken one round in which these sources answered.
fn a_server(sources: Vec<SourceInfo>, snapshots: Vec<PlayerSnapshot>) -> Server {
    let mut server = Server::new(PolicyTable::allowing_video_players());
    let round = Detection::new()
        .round(
            Ok(PollOutcome {
                sources,
                snapshots,
                failures: Vec::new(),
            }),
            server.policy(),
            &Recogniser::empty(),
        )
        .expect("a round");
    server.take(round);
    server
}

fn reply(server: &mut Server, request: Request) -> Response {
    match server.answer(Ok(request)) {
        Answer::Reply(response) => response,
        Answer::Stream => panic!("expected an answer, got a stream"),
    }
}

#[test]
fn sources_returns_every_source_with_its_policy_and_capabilities() {
    let mut server = a_server(
        vec![
            a_source("mpv.instance1701", "mpv"),
            a_source("firefox.instance30062", "firefox"),
        ],
        Vec::new(),
    );

    let Response::Sources(listed) = reply(&mut server, Request::Sources) else {
        panic!("expected a listing");
    };

    assert_eq!(listed.len(), 2);
    assert_eq!(listed[0].player, PlayerId("mpv.instance1701".to_owned()));
    assert_eq!(listed[0].policy, Policy::Auto);
    assert!(listed[0].capabilities.position);
    assert_eq!(
        listed[1].player,
        PlayerId("firefox.instance30062".to_owned())
    );
    assert_eq!(
        listed[1].policy,
        Policy::Deny,
        "a browser is denied by default and the listing has to say so"
    );
}

#[test]
fn a_listing_before_the_first_round_is_empty_rather_than_an_error() {
    // A client can connect before detection has run once. Nothing has been
    // seen, and that is an answer rather than a fault.
    let mut server = Server::new(PolicyTable::allowing_video_players());

    assert_eq!(
        reply(&mut server, Request::Sources),
        Response::Sources(Vec::new())
    );
}

#[test]
fn watch_streams_events_as_they_are_published() {
    let mut server = a_server(Vec::new(), Vec::new());

    assert_eq!(server.answer(Ok(Request::Watch)), Answer::Stream);
    for event in [
        BusEvent::SourcesChanged {
            sources: vec![PlayerId("mpv".to_owned())],
        },
        BusEvent::Snapshot(a_snapshot()),
    ] {
        assert_eq!(
            stream(Received::Event(event.clone())),
            Some(Response::Event(event))
        );
    }
    assert_eq!(stream(Received::Closed), None);
}

#[test]
fn a_policy_set_over_the_socket_takes_effect_at_once() {
    // The table the daemon reads is the table this writes, so a policy set
    // here changes what detection publishes without the daemon restarting.
    let mut server = a_server(vec![a_source("mpv", "mpv")], Vec::new());
    let app = AppName("mpv".to_owned());

    let answer = reply(
        &mut server,
        Request::SetPolicy {
            app: app.clone(),
            policy: Policy::Deny,
        },
    );

    assert_eq!(answer, Response::Done);
    assert_eq!(server.policy().policy_for(&app), Policy::Deny);
}

#[test]
fn a_policy_set_over_the_socket_shows_in_the_next_listing() {
    let mut server = a_server(
        vec![a_source("mpv", "mpv"), a_source("vlc", "vlc")],
        Vec::new(),
    );

    reply(
        &mut server,
        Request::SetPolicy {
            app: AppName("MPV".to_owned()),
            policy: Policy::Deny,
        },
    );
    let Response::Sources(listed) = reply(&mut server, Request::Sources) else {
        panic!("expected a listing");
    };

    assert_eq!(listed[0].policy, Policy::Deny);
    assert_eq!(listed[1].policy, Policy::Auto, "another was changed as well");
}

#[test]
fn a_malformed_line_is_answered_with_an_error_and_the_connection_survives() {
    // A client that sent nonsense is told so and may carry on. Closing the
    // connection would make one typo in a socat session look like a daemon
    // that had died.
    let mut server = a_server(vec![a_source("mpv", "mpv")], Vec::new());

    let answer = server.answer(Err("expected ident at line 1 column 2".to_owned()));

    assert_eq!(
        answer,
        Answer::Reply(Response::Error {
            message: "expected ident at line 1 column 2".to_owned()
        })
    );
    assert!(
        matches!(reply(&mut server, Request::Sources), Response::Sources(_)),
        "the connection did not survive a malformed line"
    );
}

#[test]
fn a_client_that_stops_reading_is_told_what_it_missed() {
    // Losing events on a diagnostic stream is acceptable. Losing them in
    // silence is not: a gap nobody reports reads as nothing having
    // happened, which is the one wrong answer this stream can give.
    assert_eq!(
        stream(Received::Lagged(6)),
        Some(Response::Lagged { missed: 6 })
    );
}

#[test]
fn a_client_disconnecting_mid_stream_does_not_disturb_the_daemon() {
    // `benshi watch` ends with Ctrl-C, so a client going away in the middle
    // of a stream is the ordinary way a connection ends and must not be
    // recorded as a failure.
    assert!(client_left(Fault::BrokenPipe));
    assert!(client_left(Fault::ConnectionReset));
    assert!(client_left(Fault::ConnectionAborted));
    assert!(!client_left(Fault::Other));
}

#[test]
fn asking_why_explains_what_the_last_round_decided() {
    let mut server = Server::new(PolicyTable::allowing_video_players());
    assert_eq!(reply(&mut server, Request::Why), Response::Why(None));

    let mut server = a_server(vec![a_source("mpv", "mpv")], vec![a_snapshot()]);
    let Response::Why(Some(explained)) = reply(&mut server, Request::Why) else {
        panic!("expected an explanation");
    };

    assert_eq!(explained.player, PlayerId("mpv".to_owned()));
    assert_eq!(explained.media, a_snapshot().media);
    assert_eq!(explained.outcome, Outcome::Unrecognised { best: None });
}

#[test]
fn a_round_that_decided_nothing_leaves_the_last_decision() {
    let mut server = a_server(vec![a_source("mpv", "mpv")], vec![a_snapshot()]);
    let round = Detection::new()
        .round(
            Ok(PollOutcome {
                sources: Vec::new(),
                snapshots: Vec::new(),
                failures: Vec::new(),
            }),
            server.policy(),
            &Recogniser::empty(),
        )
        .expect("an empty round");

    let events = server.take(round);

    assert!(events.is_empty());
    assert_eq!(
        reply(&mut server, Request::Sources),
        Response::Sources(Vec::new())
    );
    assert!(matches!(
        reply(&mut server, Request::Why),
        Response::Why(Some(_))
    ));
}

#[test]
fn a_socket_left_behind_by_a_daemon_that_died_is_replaced() {
    // A unix socket outlives the process that bound it, so a daemon killed
    // with SIGKILL leaves a file that binding would otherwise refuse. A
    // daemon that cannot start after a crash is one nobody runs.
    assert_eq!(may_bind(Some(Knock::Refused)), Binding::Replace);
    assert_eq!(may_bind(None), Binding::Bind);
}

#[test]
fn a_socket_a_running_daemon_is_listening_on_is_left_alone() {
    // The other half of the same rule, and the dangerous one: removing a
    // live daemon's socket and binding over it would leave the first daemon
    // running and unreachable, with no sign that anything had happened.
    assert_eq!(may_bind(Some(Knock::Answered)), Binding::Refuse);
    assert_eq!(may_bind(Some(Knock::Failed)), Binding::Refuse);
    assert!(still_listening(Knock::Failed) && !still_listening(Knock::Refused));
    assert_eq!(
        already_listening("/run/benshi.sock"),
        "a daemon is already listening on /run/benshi.sock"
    );
}

#[test]
fn a_directory_other_users_can_reach_is_refused() {
    // The fallback lives under a shared temporary directory, where anyone
    // may create a name before the daemon does. A directory others can
    // enter is one where the socket can be replaced under the daemon's
    // feet, so binding inside it is refused rather than trusted.
    assert_eq!(
        not_private("/tmp/open", 0o40755),
        Some(
            "/tmp/open is mode 755 and must be 700: a socket in a directory \
             others can reach is one others can replace"
                .to_owned()
        )
    );
    assert_eq!(not_private("/tmp/own", 0o40000 + PRIVATE), None);
    assert!(not_private("/tmp/shut", 0o40000).is_some());
}

#[test]
fn the_socket_sits_in_the_runtime_directory_when_the_session_gives_one() {
    let path = socket_path_from(Some(b"/run/user/1000"), b"/tmp");

    assert_eq!(path, b"/run/user/1000/benshi.sock");
}

#[test]
fn without_a_runtime_directory_the_socket_gets_a_directory_of_its_own() {
    // A temporary directory is usually shared between users. The socket
    // goes into a directory beneath it rather than straight in, so that one
    // directory's permissions protect it.
    let path = socket_path_from(None, b"/tmp");

    assert_eq!(path, b"/tmp/benshi/benshi.sock");
    assert_ne!(
        path, b"/tmp/benshi.sock",
        "the socket must not sit directly in a shared directory"
    );
}

#[test]
fn a_directory_that_ends_in_a_separator_gets_no_second_one() {
    assert_eq!(
        socket_path_from(Some(b"/run/user/1000/"), b"/tmp"),
        b"/run/user/1000/benshi.sock"
    );
    assert_eq!(socket_path_from(None, b""), b"benshi/benshi.sock");
}
