use benshi::clock::Timestamp;
use benshi::path::RawPath;
use benshi::time::Duration;
use benshi::trace::snapshot_line;
use benshi::{Known, MediaRef, PlayState, PlayerId, PlayerSnapshot};

/// What a line says of the path a file was opened by, read back.
fn path_in(line: &str) -> RawPath {
    let value: serde_json::Value = serde_json::from_str(line).expect("deserialise");
    let spelled = value["media"]["LocalFile"].as_str().expect("a file");
    RawPath::from_escaped(spelled).expect("an escaped path")
}

#[test]
fn known_distinguishes_absence_from_incapability() {
    let not_reported: Known<u8> = Known::NotReported;
    let unsupported: Known<u8> = Known::Unsupported;
    assert_ne!(not_reported, unsupported);
}

#[test]
fn a_snapshot_round_trips_through_json_exactly() {
    let bytes = b"/anime/[Group] Show - 03.mkv".to_vec();
    let snapshot = PlayerSnapshot {
        player: PlayerId("mpv".to_owned()),
        media: MediaRef::LocalFile(RawPath::from_bytes(bytes.clone())),
        state: PlayState::Playing,
        position: Known::Value(Duration::from_micros(93_456_789)),
        duration: Known::NotReported,
        observed_at: Timestamp::epoch(),
    };

    let text = snapshot_line(&snapshot).expect("serialise");
    let value: serde_json::Value = serde_json::from_str(&text).expect("deserialise");

    let back = PlayerSnapshot {
        player: PlayerId(value["player"].as_str().expect("a player").to_owned()),
        media: MediaRef::LocalFile(path_in(&text)),
        state: match value["state"].as_str() {
            Some("Playing") => PlayState::Playing,
            other => panic!("expected playing, got {other:?}"),
        },
        position: Known::Value(Duration::new(
            value["position"]["Value"]["secs"].as_u64().expect("seconds"),
            value["position"]["Value"]["nanos"].as_u64().expect("nanoseconds") as u32,
        )),
        duration: match value["duration"].as_str() {
            Some("NotReported") => Known::NotReported,
            other => panic!("expected an absence, got {other:?}"),
        },
        observed_at: Timestamp::after_epoch(Duration::new(
            value["observed_at"]["secs"].as_u64().expect("seconds"),
            value["observed_at"]["nanos"].as_u64().expect("nanoseconds") as u32,
        )),
    };
    assert_eq!(snapshot, back);
}

#[test]
fn a_snapshot_with_a_non_utf8_path_round_trips() {
    // A filename from a Japanese archive unpacked with the wrong encoding
    // is not valid UTF-8, and this is exactly the snapshot a trace has to
    // carry. Refusing it, or replacing the bytes it cannot read, would make
    // the file unrecognisable and the trace a lie.
    let broken = b"/anime/\x83\x5c\x83\x8c\x83\x62\x83\x5e.mkv".to_vec();
    let snapshot = PlayerSnapshot {
        player: PlayerId("mpv".to_owned()),
        media: MediaRef::LocalFile(RawPath::from_bytes(broken.clone())),
        state: PlayState::Playing,
        position: Known::Value(Duration::from_micros(93_456_789)),
        duration: Known::NotReported,
        observed_at: Timestamp::epoch(),
    };

    let text = snapshot_line(&snapshot).expect("serialise");

    assert_eq!(path_in(&text).as_bytes(), broken.as_slice());
}

/// A reading of what is open, with everything else fixed.
fn a_reading_of(media: MediaRef, position: Known<Duration>) -> String {
    snapshot_line(&PlayerSnapshot {
        player: PlayerId("mpv".to_owned()),
        media,
        state: PlayState::Playing,
        position,
        duration: Known::NotReported,
        observed_at: Timestamp::epoch(),
    })
    .expect("serialise")
}

#[test]
fn a_remote_reference_stays_distinct_from_a_title() {
    // A player streaming over HTTP knows the address it opened; a browser
    // knows only what the page calls itself. Carrying both as a title would
    // lose that difference, and an adapter would have to report an address
    // it holds as though it were a description.
    let address = "https://example.invalid/stream.m3u8".to_owned();
    let remote = MediaRef::Remote(address.clone());
    let title = MediaRef::Title(address);

    assert_ne!(remote, title);
    assert_ne!(
        a_reading_of(remote, Known::NotReported),
        a_reading_of(title, Known::NotReported)
    );
}

#[test]
fn unsupported_and_not_reported_stay_distinct_through_json() {
    // A "simplification" to Option would collapse these two into one, and
    // that collapse is the specific bug Known exists to prevent.
    let a = a_reading_of(MediaRef::Title("Show".to_owned()), Known::Unsupported);
    let b = a_reading_of(MediaRef::Title("Show".to_owned()), Known::NotReported);

    assert_ne!(a, b);
}
