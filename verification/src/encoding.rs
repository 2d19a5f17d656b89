//! Turning the bytes of a filename into text that can be read and parsed.
//!
//! A filename on Linux is bytes, and those bytes are frequently not UTF-8: an
//! archive unpacked with the wrong setting, a share mounted from Windows, a
//! file copied off a disc pressed in 2004. Refusing such a name means the
//! episode is never recognised; replacing the bytes it cannot read means it is
//! recognised as the wrong thing, which is worse.
//!
//! So every name is decoded, and the decision is **reported rather than
//! hidden**: the caller learns which encoding was used and whether that was a
//! fact or a guess.

use vstd::prelude::*;
use vstd::utf8::*;

use crate::path::LONGEST;
use crate::text::read_utf8;

verus! {

/// How far the text can be trusted.
///
/// Two-valued for the same reason [`crate::Known`] is three-valued: a fact and
/// an inference lead to different behaviour, and a type that cannot tell them
/// apart forces every consumer to assume the worse of the two or the better.
#[derive(Debug, Clone, Copy, PartialEq, Eq, Structural)]
pub enum Confidence {
    /// The bytes were valid UTF-8. Nothing was inferred.
    Certain,
    /// The bytes were not valid UTF-8, so an encoding was inferred from them.
    ///
    /// The text may still be wrong. A consumer that acts on it - writing
    /// progress to a list, say - should weigh that, and an interface showing it
    /// may say where it came from.
    Detected,
}

/// Text recovered from a byte string, with the decision that produced it.
#[derive(Debug, PartialEq, Eq)]
pub struct DecodedText {
    /// The text itself.
    pub text: String,
    /// The encoding used, named as the WHATWG standard names it.
    pub encoding: &'static str,
    /// Whether the encoding was known or inferred.
    pub confidence: Confidence,
}

/// The encoding a detector guesses for bytes, by the name the encoding has.
///
/// What `chardetng::EncodingDetector::guess` answers once it has been fed all
/// of the bytes, with ISO-2022-JP among its guesses and UTF-8 not.
pub uninterp spec fn guessed_encoding(bytes: Seq<u8>) -> Seq<char>;

/// The text bytes spell in an encoding, by the name the encoding has.
///
/// What `encoding_rs::Encoding::decode_without_bom_handling` answers, with the
/// replacement character where a byte could not be read.
pub uninterp spec fn text_in(encoding: Seq<char>, bytes: Seq<u8>) -> Seq<char>;

/// The text bytes spell: as UTF-8 where they are, and in the guessed encoding
/// where they are not.
pub open spec fn decoded_text(bytes: Seq<u8>) -> Seq<char> {
    if valid_utf8(bytes) {
        decode_utf8(bytes)
    } else {
        text_in(guessed_encoding(bytes), bytes)
    }
}

/// How far the text of bytes can be trusted: wholly where they are UTF-8.
pub open spec fn decoded_confidence(bytes: Seq<u8>) -> Confidence {
    if valid_utf8(bytes) {
        Confidence::Certain
    } else {
        Confidence::Detected
    }
}

/// `EncodingDetector::guess` infers an encoding from the bytes it was fed, which
/// depends on the bytes alone, and is never UTF-8 where UTF-8 is denied. Which
/// other encoding it is is left to the detector.
/// `Encoding::decode_without_bom_handling` reads the bytes in that encoding,
/// which depends on the encoding and the bytes alone, and `Encoding::name` tells
/// one encoding from another and is never empty.
///
/// The decoder asks for up to three bytes for each one it reads, and the bound
/// keeps that sum inside a `usize`.
#[verifier::external_body]
fn guess(bytes: &[u8]) -> (read: (String, &'static str))
    requires
        bytes@.len() <= LONGEST,
    ensures
        read.0@ == text_in(guessed_encoding(bytes@), bytes@),
        read.1@ == guessed_encoding(bytes@),
        read.1@ != "UTF-8"@,
        read.1@.len() > 0,
{
    // ISO-2022-JP is allowed. The detector's own warning against it applies to
    // browsers rendering pages that can run scripts; this is a filename, and
    // the encoding is a real one that real Japanese files are named in. UTF-8
    // is denied because these bytes have been found not to be.
    let mut detector = chardetng::EncodingDetector::new(chardetng::Iso2022JpDetection::Allow);
    detector.feed(bytes, true);
    let encoding: &'static encoding_rs::Encoding =
        detector.guess(None, chardetng::Utf8Detection::Deny);
    let (text, _had_errors) = encoding.decode_without_bom_handling(bytes);
    (text.into_owned(), encoding.name())
}

/// Read a filename, whatever it was encoded in.
///
/// UTF-8 is tried first and never guessed at: valid UTF-8 is valid UTF-8, and
/// running a detector over it would invite a confident wrong answer on a short
/// name. Only when that fails is an encoding inferred, and the result then says
/// so.
///
/// This never fails. Every byte string yields text, because a name that cannot
/// be read is still a name the user can see, and refusing to render it turns a
/// recognition problem into a blank screen.
pub fn decode(bytes: &[u8]) -> (decoded: DecodedText)
    requires
        bytes@.len() <= LONGEST,
    ensures
        decoded.text@ == decoded_text(bytes@),
        decoded.encoding@ == if valid_utf8(bytes@) {
            "UTF-8"@
        } else {
            guessed_encoding(bytes@)
        },
        decoded.confidence == decoded_confidence(bytes@),
        decoded.confidence is Detected <==> decoded.encoding@ != "UTF-8"@,
        decoded.encoding@.len() > 0,
{
    proof {
        reveal_strlit("UTF-8");
    }
    match read_utf8(bytes) {
        Some(text) => DecodedText {
            text: text.to_owned(),
            encoding: "UTF-8",
            confidence: Confidence::Certain,
        },
        None => {
            let (text, encoding) = guess(bytes);
            DecodedText { text, encoding, confidence: Confidence::Detected }
        },
    }
}

/// Bytes that are UTF-8 are read as such and nothing is inferred; of all others
/// it is said that the encoding was, and they are read in the one that was
/// guessed of them.
pub proof fn law_what_is_certain_is_not_guessed(bytes: Seq<u8>)
    ensures
        valid_utf8(bytes) ==> decoded_text(bytes) == decode_utf8(bytes),
        !valid_utf8(bytes) ==> decoded_text(bytes) == text_in(guessed_encoding(bytes), bytes),
        decoded_confidence(bytes) == Confidence::Certain <==> valid_utf8(bytes),
{
}

} // verus!
