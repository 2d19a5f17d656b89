use benshi::path::{EscapeError, RawPath, escape, unescape};

/// The Shift-JIS encoding of an ordinary Japanese filename.
///
/// Not valid UTF-8. The second byte of the first character is 0x5C, which
/// is also the ASCII backslash - the classic trap in this encoding.
const SHIFT_JIS: &[u8] = b"/anime/\x83\x5c\x83\x8c\x83\x62\x83\x5e.mkv";

/// The windows-1251 encoding of a Cyrillic filename. Not valid UTF-8.
const CP1251: &[u8] = b"/anime/\xcf\xf0\xe8\xe2\xe5\xf2.mkv";

/// A path as a JSON string.
fn json(path: &RawPath) -> String {
    serde_json::to_string(&path.escaped()).expect("serialise")
}

/// The path a JSON string spells.
fn from_json(text: &str) -> RawPath {
    let spelled: String = serde_json::from_str(text).expect("deserialise");
    RawPath::from_escaped(&spelled).expect("an escaped path")
}

#[test]
fn a_utf8_path_round_trips() {
    let path = RawPath::from_bytes(b"/anime/[Group] Show - 03.mkv".to_vec());
    let text = json(&path);
    let back = from_json(&text);
    assert_eq!(path, back);
}

#[test]
fn a_japanese_utf8_path_round_trips_and_stays_readable() {
    let path = RawPath::from_bytes("/anime/日本語.mkv".as_bytes().to_vec());
    let text = json(&path);

    // Valid UTF-8 passes through unescaped, so a trace stays greppable by
    // the name a person would type.
    assert!(
        text.contains("日本語"),
        "expected readable text, got {text}"
    );

    let back = from_json(&text);
    assert_eq!(path, back);
}

#[test]
fn a_shift_jis_path_round_trips_byte_for_byte() {
    let path = RawPath::from_bytes(SHIFT_JIS.to_vec());
    let text = json(&path);
    let back = from_json(&text);

    assert_eq!(path, back);
    assert_eq!(back.as_bytes(), SHIFT_JIS);
}

#[test]
fn a_windows_1251_path_round_trips_byte_for_byte() {
    let path = RawPath::from_bytes(CP1251.to_vec());
    let text = json(&path);
    let back = from_json(&text);

    assert_eq!(path, back);
    assert_eq!(back.as_bytes(), CP1251);
}

#[test]
fn an_invalid_path_still_serialises_as_a_string() {
    // Not an array of numbers: a trace is read by people, and a wall of
    // byte values is not readable at any length.
    let path = RawPath::from_bytes(SHIFT_JIS.to_vec());
    let text = json(&path);
    assert!(text.starts_with('"'), "expected a JSON string, got {text}");
}

#[test]
fn a_literal_percent_survives_the_escape() {
    // The escape character has to escape itself, or a filename containing
    // a per-cent sign decodes as something else entirely.
    let path = RawPath::from_bytes(b"/anime/100%25 Pascal-sensei.mkv".to_vec());
    let text = json(&path);
    let back = from_json(&text);
    assert_eq!(path, back);
}

#[test]
fn every_byte_value_round_trips() {
    // Exhaustive rather than representative: the encoding is a bijection on
    // byte strings or it is not, and there are only 256 cases to check.
    let all: Vec<u8> = (0..=u8::MAX).collect();
    let path = RawPath::from_bytes(all.clone());

    let text = json(&path);
    let back = from_json(&text);

    assert_eq!(back.as_bytes(), all.as_slice());
}

#[test]
fn the_file_name_is_what_follows_the_last_separator() {
    let path = RawPath::from_bytes(SHIFT_JIS.to_vec());
    assert_eq!(path.file_name(), &SHIFT_JIS[b"/anime/".len()..]);
}

#[test]
fn a_path_with_no_separator_is_all_file_name() {
    let path = RawPath::from_bytes(b"Show - 03.mkv".to_vec());
    assert_eq!(path.file_name(), b"Show - 03.mkv");
}

#[test]
fn a_backslash_does_not_split_a_shift_jis_character() {
    // 0x5C is both the ASCII backslash and the trailing byte of several
    // Shift-JIS characters. Splitting on it would cut a filename in half,
    // which is the exact bug that makes this encoding notorious.
    let path = RawPath::from_bytes(SHIFT_JIS.to_vec());
    assert!(path.file_name().starts_with(b"\x83\x5c"));
}

#[test]
fn a_path_is_spelled_with_its_broken_bytes_escaped() {
    let path = RawPath::from_bytes(b"a%b\x83\xff/\xe6\x97\xa5".to_vec());
    assert_eq!(path.escaped(), "a%25b%83%FF/\u{65e5}");
}

#[test]
fn an_escape_cut_short_says_where_it_began() {
    assert_eq!(
        RawPath::from_escaped("ab%4"),
        Err(EscapeError::Truncated { at: 2 })
    );
}

#[test]
fn an_escape_that_is_no_number_is_refused() {
    assert_eq!(
        RawPath::from_escaped("ab%4g"),
        Err(EscapeError::NotADigit { byte: 0x67 })
    );
}

#[test]
fn a_fault_in_an_escape_is_told() {
    assert_eq!(
        EscapeError::Truncated { at: 12 }.message(),
        "truncated escape at byte 12"
    );
    for byte in 0..=u8::MAX {
        assert_eq!(
            EscapeError::NotADigit { byte }.message(),
            format!("{:?} is not a hexadecimal digit", char::from(byte))
        );
    }
}

#[test]
fn plain_text_is_written_as_itself() {
    for name in ["", "/anime/Show - 03.mkv", "/アニメ/ソレッタ.mkv", "é\u{10ffff}"] {
        assert_eq!(RawPath::from_bytes(name.as_bytes().to_vec()).escaped(), name);
    }
    assert_eq!(RawPath::from_bytes(b"100%".to_vec()).escaped(), "100%25");
}

#[test]
fn what_is_escaped_is_unescaped() {
    let every: Vec<u8> = (0..=255).collect();

    for bytes in [&every[..], SHIFT_JIS, CP1251, b"", b"100%", "日本".as_bytes()] {
        assert_eq!(unescape(&escape(bytes)).as_deref(), Ok(bytes));
    }
    assert_eq!(escape("日本 03".as_bytes()), "日本 03");
    assert_eq!(unescape("a%4"), Err(EscapeError::Truncated { at: 1 }));
}
