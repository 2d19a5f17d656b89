//! Filenames read whatever they were encoded in.

use benshi::encoding::{Confidence, decode};

#[test]
fn plain_ascii_is_utf8_and_certain() {
    let decoded = decode(b"[Group] Show - 03.mkv");
    assert_eq!(decoded.text, "[Group] Show - 03.mkv");
    assert_eq!(decoded.encoding, "UTF-8");
    assert_eq!(decoded.confidence, Confidence::Certain);
}

#[test]
fn valid_utf8_japanese_is_certain_and_never_guessed_at() {
    let decoded = decode("日本語.mkv".as_bytes());
    assert_eq!(decoded.text, "日本語.mkv");
    assert_eq!(decoded.encoding, "UTF-8");
    assert_eq!(decoded.confidence, Confidence::Certain);
}

#[test]
fn shift_jis_is_detected_and_reported_as_a_guess() {
    // "ソレユケ" in Shift-JIS. Not valid UTF-8.
    let decoded = decode(b"\x83\x5c\x83\x8c\x83\x86\x83\x50");
    assert_eq!(decoded.text, "ソレユケ");
    assert_eq!(decoded.confidence, Confidence::Detected);
}

#[test]
fn windows_1251_is_detected_and_reported_as_a_guess() {
    // "Привет всем" in windows-1251. Not valid UTF-8.
    let decoded = decode(b"\xcf\xf0\xe8\xe2\xe5\xf2 \xe2\xf1\xe5\xec");
    assert_eq!(decoded.text, "Привет всем");
    assert_eq!(decoded.confidence, Confidence::Detected);
}

#[test]
fn a_guess_never_claims_to_be_certain() {
    // The distinction is the whole point: a caller showing a title to a
    // user, or deciding whether to trust a recognition result, must be able
    // to tell a fact from an inference. Collapsing the two is the same
    // mistake as collapsing Known into Option.
    let guessed = decode(b"\x83\x5c\x83\x8c");
    assert_ne!(guessed.confidence, Confidence::Certain);
}

#[test]
fn decoding_never_fails() {
    // Every byte string produces text. A filename benshi cannot read is
    // still a filename the user can see, and refusing to render it turns a
    // recognition problem into a blank screen.
    for bytes in [
        b"\xff\xfe\xfd".as_slice(),
        b"".as_slice(),
        b"\x00\x01\x02".as_slice(),
    ] {
        let decoded = decode(bytes);
        assert!(!decoded.encoding.is_empty());
    }
}

#[test]
fn an_empty_name_is_empty_text() {
    assert_eq!(decode(b"").text, "");
}

#[test]
fn a_guess_is_never_utf8() {
    for first in 0..=255u8 {
        for second in 0..=255u8 {
            let decoded = decode(&[first, second]);
            assert_eq!(
                decoded.confidence == Confidence::Detected,
                decoded.encoding != "UTF-8"
            );
        }
    }
}
