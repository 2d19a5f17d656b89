use benshi::bus::BusEvent;
use benshi::clock::{Clock, TestClock};
use benshi::commands::{
    Command, LAST_SECOND, PolicyArgument, Recording, explain, recording_header, set_policy,
    sources, watch,
};
use benshi::path::RawPath;
use benshi::policy::Policy;
use benshi::protocol::{Request, Response, SourceListing};
use benshi::time::Duration;
use benshi::trace::{Trace, TraceHeader, VERSION, header_line};
use benshi::{
    AppName, Capabilities, Known, MediaRef, PlayState, PlayerId, PlayerSnapshot, SessionState,
};

fn a_listing(identity: &str, app: &str, policy: Policy) -> SourceListing {
    SourceListing {
        player: PlayerId(identity.to_owned()),
        app: AppName(app.to_owned()),
        policy,
        capabilities: Capabilities {
            position: true,
            duration: true,
            paused: true,
            location: true,
        },
        state: PlayState::Playing,
    }
}

/// The `index`th reading of a recording, distinguishable from the others.
fn a_reading(index: u64) -> PlayerSnapshot {
    let mut clock = TestClock::new();
    clock.advance(Duration::from_secs(index));

    PlayerSnapshot {
        player: PlayerId("mpv.instance1701".to_owned()),
        media: MediaRef::LocalFile(RawPath::from_bytes(
            b"/anime/[Group] Show - 03.mkv".to_vec(),
        )),
        state: PlayState::Playing,
        position: Known::Value(Duration::from_secs(index)),
        duration: Known::Value(Duration::from_secs(1420)),
        observed_at: clock.now(),
    }
}

fn refused() -> Response {
    Response::Error {
        message: "no such thing".to_owned(),
    }
}

#[test]
fn sources_prints_what_the_daemon_listed() {
    let shown = sources(
        &Response::Sources(vec![
            a_listing("mpv.instance1701", "mpv", Policy::Auto),
            a_listing("firefox.instance30062", "firefox", Policy::Deny),
        ]),
        "",
    )
    .expect("a listing");

    assert!(shown.contains("mpv.instance1701"), "{shown}");
    assert!(shown.contains("firefox.instance30062"), "{shown}");
}

#[test]
fn sources_shows_the_policy_the_daemon_has_in_force() {
    // The listing exists to answer "why is my player being ignored", so the
    // policy it shows has to be the daemon's rather than a default the
    // client assumed.
    let shown = sources(
        &Response::Sources(vec![
            a_listing("mpv", "mpv", Policy::Auto),
            a_listing("firefox.instance30062", "firefox", Policy::Deny),
        ]),
        "",
    )
    .expect("a listing");

    let firefox = shown
        .lines()
        .find(|line| line.contains("firefox"))
        .expect("firefox is listed");
    assert!(firefox.contains("deny"), "{firefox}");
    let mpv = shown
        .lines()
        .find(|line| line.starts_with("mpv "))
        .expect("mpv is listed");
    assert!(mpv.contains("auto"), "{mpv}");
}

#[test]
fn watch_prints_events_as_the_daemon_publishes_them() {
    let shown = watch(
        &Response::Event(BusEvent::SourceFailed {
            player: PlayerId("vlc".to_owned()),
            reason: "did not answer within 500ms".to_owned(),
        }),
        "",
    );

    assert_eq!(
        shown,
        Ok("vlc  failed: did not answer within 500ms".to_owned())
    );
}

#[test]
fn watch_says_how_much_it_missed() {
    assert_eq!(
        watch(&Response::Lagged { missed: 17 }, ""),
        Ok("... 17 events missed ...".to_owned())
    );
}

#[test]
fn each_command_asks_its_own_question() {
    let recording = Command::Record {
        duration: Duration::from_secs(60),
        output: RawPath::from_bytes(b"trace.jsonl".to_vec()),
    };

    assert_eq!(Command::Sources.request(), Request::Sources);
    assert_eq!(Command::Watch.request(), Request::Watch);
    assert_eq!(recording.request(), Request::Watch);
    assert_eq!(Command::Why.request(), Request::Why);
    for (argument, policy) in [
        (PolicyArgument::Auto, Policy::Auto),
        (PolicyArgument::Allow, Policy::Allow),
        (PolicyArgument::Deny, Policy::Deny),
    ] {
        let asked = Command::Policy {
            app: "mpv".to_owned(),
            policy: argument,
        };
        assert_eq!(
            asked.request(),
            Request::SetPolicy {
                app: AppName("mpv".to_owned()),
                policy
            }
        );
    }
}

#[test]
fn a_refusal_is_told_in_the_words_of_the_daemon() {
    let told = Err("no such thing".to_owned());

    assert_eq!(sources(&refused(), ""), told);
    assert_eq!(watch(&refused(), ""), told);
    assert_eq!(explain(&refused(), ""), told);
    assert_eq!(set_policy(&refused(), ""), Some("no such thing".to_owned()));
    assert_eq!(
        Recording::new().take(&refused(), ""),
        Err("no such thing".to_owned())
    );
}

#[test]
fn an_answer_nobody_asked_for_is_told_as_what_it_is() {
    let done = Response::Done;

    assert_eq!(
        sources(&done, "Done"),
        Err("the daemon answered a listing with Done".to_owned())
    );
    assert_eq!(
        explain(&done, "Done"),
        Err("the daemon answered a question with Done".to_owned())
    );
    assert_eq!(
        watch(&done, "Done"),
        Err("the daemon sent Done on a stream".to_owned())
    );
    assert_eq!(
        set_policy(&Response::Why(None), "Why(None)"),
        Some("the daemon answered a policy change with Why(None)".to_owned())
    );
    assert_eq!(
        Recording::new().take(&done, "Done"),
        Err("the daemon sent Done on a stream".to_owned())
    );
    assert_eq!(set_policy(&done, ""), None);
    assert_eq!(
        explain(&Response::Why(None), ""),
        Ok("nothing has been decided yet\n".to_owned())
    );
}

#[test]
fn a_recording_keeps_readings_and_nothing_else() {
    // A trace is a sequence of readings. A membership change or a failure
    // is a fact about the daemon, not something a player reported, and a
    // replay has nothing to do with it. The state is the one to watch: it
    // carries a reading inside it, and writing that one down as well would
    // put a moment in the file the player only ever reported once.
    let header = TraceHeader::new("2026-09-17T09:12:33Z".to_owned());
    let mut file = header_line(&header).expect("a header is written");
    let mut recording = Recording::new();

    for event in [
        BusEvent::SourcesChanged {
            sources: vec![PlayerId("mpv.instance1701".to_owned())],
        },
        BusEvent::Snapshot(a_reading(0)),
        BusEvent::SourceFailed {
            player: PlayerId("vlc".to_owned()),
            reason: "did not answer within 500ms".to_owned(),
        },
        BusEvent::State(Some(SessionState {
            snapshot: a_reading(9),
        })),
        BusEvent::Snapshot(a_reading(1)),
    ] {
        if let Some(line) = recording
            .take(&Response::Event(event), "")
            .expect("an event is recorded")
        {
            file.push_str(&line);
        }
    }

    let trace = Trace {
        header,
        snapshots: vec![a_reading(0), a_reading(1)],
    };
    assert_eq!(file, trace.to_jsonl().expect("a trace is written"));
    assert_eq!(recording.readings, 2);
}

#[test]
fn a_recording_that_missed_readings_fails_rather_than_leaving_a_gap() {
    // The worst thing a recorder can produce is a trace with a hole in it,
    // because replay would then prove a timeline that never happened and
    // nothing anywhere would say so.
    let complained = Recording::new()
        .take(&Response::Lagged { missed: 6 }, "")
        .expect_err("a gap was recorded in silence");

    assert_eq!(
        complained,
        "missed 6 readings, so this recording would have a gap in it"
    );
}

#[test]
fn a_recording_reports_what_it_wrote_and_where() {
    // A recording that caught nothing and one that caught an episode look
    // the same until the file is opened, so the count is what says which
    // was taken.
    let recording = Recording::new();

    assert_eq!(
        recording.summary("/tmp/trace.jsonl", false),
        "recorded 0 readings to /tmp/trace.jsonl"
    );
}

#[test]
fn a_recording_ends_with_what_it_has_when_the_daemon_goes_away() {
    // The other way a recording ends, and it is not a failure: what
    // reached the file before the daemon went away is still what the
    // player was doing.
    let mut recording = Recording::new();
    recording
        .take(&Response::Event(BusEvent::Snapshot(a_reading(0))), "")
        .expect("a reading is recorded");

    assert_eq!(
        recording.summary("trace.jsonl", true),
        "recorded 1 readings to trace.jsonl - the daemon closed the connection \
         before the time was up"
    );
}

#[test]
fn a_recording_says_when_it_was_taken_in_a_form_that_reads_back() {
    // The header calls this an ISO-8601 instant. Nothing on the way in
    // enforces that, so the one place it can be held is here, where the
    // value is produced.
    for seconds in [0, 1_700_000_000, LAST_SECOND] {
        let header = recording_header(seconds);
        let moment = humantime::parse_rfc3339(&header.recorded_at)
            .unwrap_or_else(|_| panic!("not a readable instant: {:?}", header.recorded_at));

        assert_eq!(
            moment,
            std::time::UNIX_EPOCH + std::time::Duration::from_secs(seconds)
        );
    }
}

#[test]
fn a_recording_is_dated_to_the_second() {
    let header = recording_header(1_700_000_000);

    assert_eq!(header.version, VERSION);
    assert_eq!(header.recorded_at, "2023-11-14T22:13:20Z");
    assert_eq!(recording_header(0).recorded_at, "1970-01-01T00:00:00Z");
    assert_eq!(
        recording_header(LAST_SECOND).recorded_at,
        "9999-12-31T23:59:59Z"
    );
}

#[test]
fn a_recording_that_cannot_count_further_still_takes_what_is_no_reading() {
    let mut recording = Recording {
        readings: usize::MAX,
    };
    let reading = Response::Event(BusEvent::Snapshot(a_reading(0)));
    let failed = Response::Event(BusEvent::SourceFailed {
        player: PlayerId("mpv".to_owned()),
        reason: "is no longer present".to_owned(),
    });

    assert!(!recording.can_count(&reading));
    assert!(recording.can_count(&failed));
    assert_eq!(recording.take(&failed, ""), Ok(None));
    assert_eq!(recording.readings, usize::MAX);
    assert!(Recording::new().can_count(&reading));
}
