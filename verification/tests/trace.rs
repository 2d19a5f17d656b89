use benshi::clock::{Clock, TestClock, Timestamp};
use benshi::path::RawPath;
use benshi::time::Duration;
use benshi::trace::{
    Trace, TraceError, TraceHeader, VERSION, header_line, lines_of, snapshot_line,
};
use benshi::{Known, MediaRef, PlayState, PlayerId, PlayerSnapshot};
use serde_json::Value;

/// A filename in Shift-JIS, which is not valid UTF-8.
const SHIFT_JIS_NAME: &[u8] = b"/anime/\x83\x5c\x83\x8c\x83\x62\x83\x5e - 03.mkv";

/// When a recording was taken, as a recorder would write it.
const RECORDED_AT: &str = "2026-09-17T09:12:33Z";

/// A moment `after` seconds past a clock's epoch.
///
/// A moment comes from a clock or it comes from a file, so a test that needs a
/// particular one asks a clock for it.
fn a_moment(after: u64) -> Timestamp {
    let mut clock = TestClock::new();
    clock.advance(Duration::from_secs(after));
    clock.now()
}

/// The `index`th reading of a recording, distinguishable from the others.
fn a_snapshot(index: u64) -> PlayerSnapshot {
    PlayerSnapshot {
        player: PlayerId("mpv.instance1701".to_owned()),
        media: MediaRef::LocalFile(RawPath::from_bytes(
            b"/anime/[Group] Show - 03.mkv".to_vec(),
        )),
        state: PlayState::Playing,
        position: Known::Value(Duration::from_secs(index)),
        duration: Known::Value(Duration::from_secs(1420)),
        observed_at: a_moment(index),
    }
}

/// A recording of `count` readings.
fn a_trace_of(count: u64) -> Trace {
    Trace {
        header: TraceHeader::new(RECORDED_AT.to_owned()),
        snapshots: (0..count).map(a_snapshot).collect(),
    }
}

/// The value a line holds, or what its parser said.
fn value_of(line: &str) -> Result<Value, String> {
    match serde_json::from_str(line) {
        Ok(value) => Ok(value),
        Err(error) => Err(error.to_string()),
    }
}

fn missing(field: &str) -> String {
    format!("missing field `{field}`")
}

fn text_in(value: &Value, field: &str) -> Result<String, String> {
    match value[field].as_str() {
        Some(text) => Ok(text.to_owned()),
        None => Err(missing(field)),
    }
}

fn span_in(value: &Value) -> Result<Duration, String> {
    match (value["secs"].as_u64(), value["nanos"].as_u64()) {
        (Some(secs), Some(nanos)) => Ok(Duration::new(secs, nanos as u32)),
        _ => Err(missing("secs")),
    }
}

fn known_in(value: &Value) -> Result<Known<Duration>, String> {
    match value.as_str() {
        Some("NotReported") => Ok(Known::NotReported),
        Some("Unsupported") => Ok(Known::Unsupported),
        _ => Ok(Known::Value(span_in(&value["Value"])?)),
    }
}

fn read_header(line: &str) -> Result<TraceHeader, String> {
    let value = value_of(line)?;
    let Some(version) = value["version"].as_u64() else {
        return Err(missing("version"));
    };
    Ok(TraceHeader {
        version: version as u32,
        recorded_at: text_in(&value, "recorded_at")?,
    })
}

fn read_snapshot(line: &str) -> Result<PlayerSnapshot, String> {
    let value = value_of(line)?;
    let media = &value["media"];
    let media = if media["LocalFile"].is_string() {
        match RawPath::from_escaped(&text_in(media, "LocalFile")?) {
            Ok(path) => MediaRef::LocalFile(path),
            Err(error) => return Err(format!("{error:?}")),
        }
    } else if media["Remote"].is_string() {
        MediaRef::Remote(text_in(media, "Remote")?)
    } else {
        MediaRef::Title(text_in(media, "Title")?)
    };
    Ok(PlayerSnapshot {
        player: PlayerId(text_in(&value, "player")?),
        media,
        state: match value["state"].as_str() {
            Some("Playing") => PlayState::Playing,
            Some("Paused") => PlayState::Paused,
            Some("Stopped") => PlayState::Stopped,
            _ => return Err(missing("state")),
        },
        position: known_in(&value["position"])?,
        duration: known_in(&value["duration"])?,
        observed_at: Timestamp::after_epoch(span_in(&value["observed_at"])?),
    })
}

/// A recording, from the contents of a file.
fn from_jsonl(text: &str) -> Result<Trace, TraceError> {
    let lines = lines_of(text);
    let first = lines.first().map(|line| read_header(line));
    let rest = lines
        .iter()
        .skip(1)
        .map(|line| read_snapshot(line))
        .collect();
    Trace::from_jsonl(first, rest)
}

#[test]
fn a_trace_round_trips_through_its_file_format_exactly() {
    let trace = a_trace_of(2);

    let text = trace.to_jsonl().expect("a trace is written");
    let back = from_jsonl(&text).expect("a trace is read");

    assert_eq!(trace, back);
}

#[test]
fn a_trace_file_is_one_line_per_reading_after_the_header() {
    for count in 0..=3 {
        let text = a_trace_of(count).to_jsonl().expect("a trace is written");

        assert_eq!(
            text.lines().count() as u64,
            count + 1,
            "a header and {count} readings came out as {text:?}"
        );
    }
}

#[test]
fn a_trace_cut_short_with_head_is_a_shorter_trace() {
    // The reason the format is line-oriented. `head -n 3` on a recording
    // that caught a bug at line 40 has to leave a trace that still opens,
    // or reducing a case means editing JSON by hand.
    let whole = a_trace_of(4).to_jsonl().expect("a trace is written");
    let lines: Vec<&str> = whole.lines().collect();

    for readings in 0..=4 {
        // What `head -n` leaves, measured: the first n lines, each still
        // terminated, and nothing of the line after them. Line 0 is the
        // header, so this keeps that many readings after it.
        let cut = lines[..=readings].join("\n") + "\n";

        let shorter = from_jsonl(&cut)
            .unwrap_or_else(|failure| panic!("{readings} readings did not parse: {}", failure.message()));

        assert_eq!(shorter, a_trace_of(readings as u64));
    }
}

#[test]
fn a_header_alone_is_a_trace_with_no_readings() {
    // The shortest cut `head` can leave is the header alone, and it has to
    // parse. Nothing that a reading carries may be needed to interpret the
    // header - no count, no source list - because a cut file has fewer
    // readings than the header was written beside.
    let header =
        header_line(&TraceHeader::new(RECORDED_AT.to_owned())).expect("a header is written");

    let trace = from_jsonl(&header).expect("a header alone is a trace");

    assert_eq!(trace.header.recorded_at, RECORDED_AT);
    assert_eq!(trace.header.version, VERSION);
    assert!(trace.snapshots.is_empty(), "{:?}", trace.snapshots);
}

#[test]
fn every_line_ends_with_a_newline_so_a_trace_can_be_appended_to() {
    // A recorder appends a line per reading. If the last line carried no
    // newline the next append would join two readings into one line, and
    // the file would be unreadable from the point the recorder was
    // interrupted rather than from the end.
    assert!(
        header_line(&TraceHeader::new(RECORDED_AT.to_owned()))
            .expect("a header is written")
            .ends_with('\n')
    );
    assert!(
        snapshot_line(&a_snapshot(0))
            .expect("a reading is written")
            .ends_with('\n')
    );
    for count in 0..=3 {
        let text = a_trace_of(count).to_jsonl().expect("a trace is written");
        assert!(
            text.ends_with('\n'),
            "{count} readings came out as {text:?}"
        );
    }
}

#[test]
fn the_lines_a_recorder_writes_are_the_lines_the_parser_reads() {
    // A recorder never holds a whole trace: it writes the header once and
    // then a line per reading as it arrives. These two functions are the
    // only things that produce a line, so a recorder cannot drift from the
    // parser by assembling one itself.
    let trace = a_trace_of(3);

    let mut appended = header_line(&trace.header).expect("a header is written");
    for snapshot in &trace.snapshots {
        appended.push_str(&snapshot_line(snapshot).expect("a reading is written"));
    }

    assert_eq!(appended, trace.to_jsonl().expect("a trace is written"));
    assert_eq!(
        from_jsonl(&appended).expect("a trace is read"),
        trace
    );
}

#[test]
fn a_reading_survives_the_format_whole() {
    // The values most likely to be tidied away. A path that is not UTF-8
    // must arrive byte for byte; a value that was never reported must not
    // come back as one this source cannot carry; and a position must keep
    // its nanoseconds, because a rounded one proves a timeline that never
    // happened.
    let readings = vec![
        PlayerSnapshot {
            player: PlayerId("mpv.instance1701".to_owned()),
            media: MediaRef::LocalFile(RawPath::from_bytes(SHIFT_JIS_NAME.to_vec())),
            state: PlayState::Paused,
            position: Known::Value(Duration::new(93, 456_789_123)),
            duration: Known::Unsupported,
            observed_at: a_moment(1),
        },
        PlayerSnapshot {
            player: PlayerId("Feishin".to_owned()),
            media: MediaRef::Remote("https://example.invalid/stream.m3u8".to_owned()),
            state: PlayState::Playing,
            position: Known::NotReported,
            duration: Known::NotReported,
            observed_at: a_moment(2),
        },
        PlayerSnapshot {
            player: PlayerId("chromium.instance16481".to_owned()),
            media: MediaRef::Title("Episode 3".to_owned()),
            state: PlayState::Stopped,
            position: Known::Unsupported,
            duration: Known::Unsupported,
            observed_at: a_moment(3),
        },
    ];
    let trace = Trace {
        header: TraceHeader::new(RECORDED_AT.to_owned()),
        snapshots: readings.clone(),
    };

    let text = trace.to_jsonl().expect("a trace is written");
    let back = from_jsonl(&text).expect("a trace is read");

    assert_eq!(back.snapshots, readings);
    match &back.snapshots[0].media {
        MediaRef::LocalFile(path) => assert_eq!(path.as_bytes(), SHIFT_JIS_NAME),
        other => panic!("expected a file, got {other:?}"),
    }
    assert_eq!(
        back.snapshots[0].position,
        Known::Value(Duration::new(93, 456_789_123))
    );
}

#[test]
fn a_truncated_line_reports_the_line_it_failed_on() {
    // What a recorder killed mid-write leaves behind, and a trace is also
    // a fixture people edit by hand. "expected value at line 1 column 1"
    // with no line of ours makes both painful to repair.
    let whole = a_trace_of(3).to_jsonl().expect("a trace is written");
    let mut kept: Vec<&str> = whole.lines().take(3).collect();
    kept.push(r#"{"player":"mpv.instance1701","media":{"Local"#);
    let cut = kept.join("\n");

    let failure = from_jsonl(&cut).expect_err("half a reading is not a reading");

    assert!(
        matches!(failure, TraceError::Snapshot { line: 4, .. }),
        "got {failure:?}"
    );
    assert!(failure.message().contains("line 4"), "got {failure:?}");
}

#[test]
fn two_traces_joined_end_to_end_name_the_line_that_is_wrong() {
    // `cat a.jsonl b.jsonl` is the obvious way to make a longer recording
    // and it does not work, because the second header lands where a
    // reading belongs. Saying which line is what turns that into a
    // one-line fix.
    let first = a_trace_of(2).to_jsonl().expect("a trace is written");
    let second = a_trace_of(2).to_jsonl().expect("a trace is written");

    let failure =
        from_jsonl(&format!("{first}{second}")).expect_err("a header is not a reading");

    assert!(
        matches!(failure, TraceError::Snapshot { line: 4, .. }),
        "got {failure:?}"
    );
}

#[test]
fn a_blank_line_is_a_fault_rather_than_something_to_skip() {
    // Nothing here can tell whether a reading was lost or a newline was
    // added, so passing over it would turn a file that has been damaged
    // into a shorter one that still opens. A shorter trace that opens is
    // supposed to mean one thing: somebody cut it on purpose.
    let whole = a_trace_of(2).to_jsonl().expect("a trace is written");

    let failure = from_jsonl(&whole.replacen('\n', "\n\n", 1))
        .expect_err("a blank line is not a reading");

    assert!(
        matches!(failure, TraceError::Snapshot { line: 2, .. }),
        "got {failure:?}"
    );
}

#[test]
fn a_trace_of_a_version_this_build_does_not_read_is_refused() {
    // The version exists so that a format we do not understand is named
    // rather than half-read. Parsing it as far as it happens to fit would
    // produce a trace that is wrong in a way nothing reports.
    let future = VERSION + 1;
    let text = format!(r#"{{"version":{future},"recorded_at":"{RECORDED_AT}"}}"#);

    let failure = from_jsonl(&text).expect_err("a later format is not read");

    assert!(
        matches!(failure, TraceError::UnsupportedVersion { found } if found == future),
        "got {failure:?}"
    );
}

#[test]
fn text_with_no_lines_at_all_is_not_a_trace() {
    let failure = from_jsonl("").expect_err("nothing is not a trace");

    assert!(matches!(failure, TraceError::Empty), "got {failure:?}");
}

#[test]
fn a_first_line_that_is_not_a_header_is_refused() {
    let text = snapshot_line(&a_snapshot(0)).expect("a reading is written");

    let failure = from_jsonl(&text).expect_err("a reading is not a header");

    assert!(
        matches!(failure, TraceError::Header { .. }),
        "got {failure:?}"
    );
}

#[test]
fn a_line_is_written_whole() {
    let mut clock = TestClock::new();
    clock.advance(Duration::new(7, 89));
    let reading = PlayerSnapshot {
        player: PlayerId("m\"p\\v\n\u{1}".to_owned()),
        media: MediaRef::LocalFile(RawPath::from_bytes(b"/a%\xff.mkv".to_vec())),
        state: PlayState::Stopped,
        position: Known::Value(Duration::new(12, 345)),
        duration: Known::Unsupported,
        observed_at: clock.now(),
    };

    assert_eq!(
        snapshot_line(&reading).expect("a reading is written"),
        concat_lines(&[
            r#"{"player":"m\"p\\v\n\u0001","media":{"LocalFile":"/a%25%FF.mkv"},"#,
            r#""state":"Stopped","position":{"Value":{"secs":12,"nanos":345}},"#,
            r#""duration":"Unsupported","observed_at":{"secs":7,"nanos":89}}"#,
            "\n",
        ])
    );
    assert_eq!(
        header_line(&TraceHeader::new("now".to_owned())).expect("a header is written"),
        "{\"version\":1,\"recorded_at\":\"now\"}\n"
    );
}

fn concat_lines(pieces: &[&str]) -> String {
    pieces.concat()
}

#[test]
fn lines_are_told_apart_as_a_text_file_ends_them() {
    for text in ["", "\n", "a", "a\n", "a\r\nb", "a\r", "\n\nb\n", "a\rb\r\n", "\r\n\r"] {
        let lines: Vec<String> = text.lines().map(str::to_owned).collect();
        assert_eq!(lines_of(text), lines, "{text:?}");
    }
}

#[test]
fn each_fault_is_told_in_its_own_words() {
    let parsed = "EOF".to_owned();
    assert_eq!(
        TraceError::Empty.message(),
        "a trace begins with a header line, and this text has no lines"
    );
    assert_eq!(
        TraceError::Header {
            source: parsed.clone()
        }
        .message(),
        "line 1 is not a trace header: EOF"
    );
    assert_eq!(
        TraceError::UnsupportedVersion { found: 7 }.message(),
        "this trace is version 7, and this build reads version 1"
    );
    assert_eq!(
        TraceError::Snapshot {
            line: 12,
            source: parsed.clone()
        }
        .message(),
        "line 12 is not a reading: EOF"
    );
    assert_eq!(
        TraceError::NotWritten { source: parsed }.message(),
        "a trace line could not be written: EOF"
    );
}
