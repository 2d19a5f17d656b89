use benshi::path::RawPath;
use benshi::recognise::parse::Episode;
use benshi::recognise::{Recognition, Refusal};
use benshi::recognition::{Decided, Decision, Recogniser};
use benshi::{MediaRef, PlayerId};

fn a_path(name: &str) -> RawPath {
    RawPath::from_bytes(name.as_bytes().to_vec())
}

#[test]
fn nothing_is_decided_before_the_first_reading() {
    assert!(Decided::new().latest().is_none());
}

#[test]
fn a_decision_is_kept_where_a_client_can_read_it_and_the_next_replaces_it() {
    // `benshi why` explains the most recent decision, so the record holds
    // one and the next reading's decision takes its place.
    let mut decided = Decided::new();
    let recogniser = Recogniser::empty();
    let first = a_path("/anime/[Group] Show Title - 03.mkv");
    let second = a_path("/anime/[Group] Another Show - 07.mkv");

    for path in [&first, &second] {
        let (parsed, answer) = recogniser.decide(path);
        decided.record(Decision {
            player: PlayerId("mpv".to_owned()),
            media: MediaRef::LocalFile(path.clone()),
            parsed,
            answer,
        });
    }

    let kept = decided.latest().expect("a decision was recorded");
    assert_eq!(kept.media, MediaRef::LocalFile(second));
    assert_eq!(kept.parsed.title.as_deref(), Some("Another Show"));
}

#[test]
fn a_name_is_decided_by_the_file_and_not_by_its_directory() {
    // A directory is not part of what a release spells. A file kept under
    // a folder named after another show would otherwise carry that show's
    // words into the name the stages read.
    let (parsed, _answer) =
        Recogniser::empty().decide(&a_path("/anime/Other Show/[Group] Show Title - 03.mkv"));

    assert_eq!(parsed.title.as_deref(), Some("Show Title"));
    assert_eq!(parsed.episode, Episode::Only(3));
}

#[test]
fn with_nothing_to_match_against_every_name_is_refused() {
    // Until a list arrives there is nothing to match against, and a
    // refusal with nothing scored is the honest answer rather than a
    // guess. It is what an explanation has to show for every file.
    let (_parsed, answer) = Recogniser::empty().decide(&a_path("[Group] Show Title - 03.mkv"));

    assert!(
        matches!(
            answer,
            Recognition::Unrecognised(Refusal { best: None, .. })
        ),
        "got {answer:?}"
    );
}
