//! Turning what the daemon said into what a person reads.
//!
//! Every function here is pure, so what the daemon's answers look like on a
//! terminal can be read off without a socket, a daemon or a platform. Nothing in
//! this module talks to anything.
//!
//! This is also where bytes become text. A filename travels as bytes from the
//! adapter that read it, through the bus and the socket, to here; only
//! something showing one to a person may guess what encoding those bytes were
//! in.

use vstd::prelude::*;
#[allow(unused_imports)]
use vstd::utf8::encode_utf8;

use crate::bus::BusEvent;
#[allow(unused_imports)]
use crate::bus::EventView;
use crate::encoding::{decode, Confidence};
#[allow(unused_imports)]
use crate::encoding::decoded_text;
use crate::number::show;
#[allow(unused_imports)]
use crate::number::shown;
use crate::policy::Policy;
use crate::protocol::{DecidedBy, Explanation, Outcome, SourceListing};
#[allow(unused_imports)]
use crate::protocol::{
    listing_views, DecidedByView, ExplanationView, ListingView, ToldView,
};
use crate::recognise::parse::{Episode, Parsed};
#[allow(unused_imports)]
use crate::recognise::parse::{text_or_none, ParsedView};
use crate::text::decimal;
#[allow(unused_imports)]
use crate::text::{decimal_text, digit, texts};
use crate::time::Duration;
use crate::{Capabilities, Known, MediaRef, PlayState};
#[allow(unused_imports)]
use crate::{identities, known_nanos, MediaView, SnapshotView};

verus! {

/// Texts one after the other, with a separator between any two.
pub open spec fn joined(list: Seq<Seq<char>>, separator: Seq<char>) -> Seq<char>
    decreases list.len(),
{
    if list.len() == 0 {
        Seq::empty()
    } else if list.len() == 1 {
        list[0]
    } else {
        joined(list.drop_last(), separator) + separator + list.last()
    }
}

/// Put one more text at the end of a joined list.
fn join(out: &mut String, count: &mut usize, text: &str, separator: &str, Ghost(list): Ghost<
    Seq<Seq<char>>,
>)
    requires
        *old(count) == list.len(),
        *old(count) < usize::MAX,
        old(out)@ == joined(list, separator@),
    ensures
        *final(count) == list.len() + 1,
        final(out)@ == joined(list.push(text@), separator@),
{
    let ghost next = list.push(text@);
    assert(next.drop_last() =~= list);
    assert(next.last() == text@);
    if *count > 0 {
        out.append(separator);
    }
    out.append(text);
    *count = *count + 1;
    assert(out@ =~= joined(next, separator@));
}

/// What a source is able to report, by the names of it.
pub open spec fn tokens(of: Capabilities) -> Seq<Seq<char>> {
    let position = if of.position {
        seq!["pos"@]
    } else {
        Seq::empty()
    };
    let duration = if of.duration {
        position.push("dur"@)
    } else {
        position
    };
    let paused = if of.paused {
        duration.push("pause"@)
    } else {
        duration
    };
    if of.location {
        paused.push("loc"@)
    } else {
        paused
    }
}

/// What a source is able to report, as it is shown.
///
/// A source that publishes no location gives recognition nothing but what the
/// page or window calls itself. That is a different problem from recognising a
/// filename, and a user deciding whether to allow such a source has to be told
/// which one they are getting.
pub open spec fn capabilities_text(of: Capabilities) -> Seq<char> {
    let named = joined(tokens(of), "+"@);
    if of.location {
        named
    } else if tokens(of).len() == 0 {
        "title only"@
    } else {
        named + ", "@ + "title only"@
    }
}

/// What a source is able to report, and what that leaves recognition to work
/// from.
///
/// Two facts rather than one. The tokens say where playback has reached; the
/// trailing note says what is playing, and it is spelled out rather than left
/// to be inferred from an absent `loc`.
pub fn capabilities(of: Capabilities) -> (text: String)
    ensures
        text@ == capabilities_text(of),
{
    let mut text = String::new();
    let mut count: usize = 0;
    let ghost mut list: Seq<Seq<char>> = Seq::empty();
    assert(text@ =~= joined(list, "+"@));
    if of.position {
        join(&mut text, &mut count, "pos", "+", Ghost(list));
        proof {
            list = list.push("pos"@);
            assert(list =~= seq!["pos"@]);
        }
    }
    if of.duration {
        join(&mut text, &mut count, "dur", "+", Ghost(list));
        proof {
            list = list.push("dur"@);
        }
    }
    if of.paused {
        join(&mut text, &mut count, "pause", "+", Ghost(list));
        proof {
            list = list.push("pause"@);
        }
    }
    if of.location {
        // `loc` is already among the tokens, and the note would contradict it.
        join(&mut text, &mut count, "loc", "+", Ghost(list));
        proof {
            list = list.push("loc"@);
        }
        assert(list == tokens(of));
        return text;
    }
    assert(list == tokens(of));
    if count == 0 {
        return String::from_str("title only");
    }
    text.append(", ");
    text.append("title only");
    text
}

/// What a source is doing, as it is shown.
pub open spec fn state_text(of: PlayState) -> Seq<char> {
    match of {
        PlayState::Playing => "playing"@,
        PlayState::Paused => "paused"@,
        PlayState::Stopped => "idle"@,
    }
}

/// What a source is doing, as far as it will say.
pub fn state(of: PlayState) -> (text: &'static str)
    ensures
        text@ == state_text(of),
{
    match of {
        PlayState::Playing => "playing",
        PlayState::Paused => "paused",
        // Not "stopped", which reads as playback having been stopped. The fact
        // this state carries is that the source has nothing open at all.
        PlayState::Stopped => "idle",
    }
}

/// What the daemon does with readings from a source, as it is shown.
pub open spec fn policy_text(of: Policy) -> Seq<char> {
    match of {
        Policy::Auto => "auto"@,
        Policy::Allow => "allow"@,
        Policy::Deny => "deny"@,
    }
}

/// What the daemon does with readings from a source.
pub fn policy(of: Policy) -> (text: &'static str)
    ensures
        text@ == policy_text(of),
{
    match of {
        Policy::Auto => "auto",
        Policy::Allow => "allow",
        Policy::Deny => "deny",
    }
}

/// A number with two digits at the least.
pub open spec fn two_digits(n: nat) -> Seq<char> {
    if n < 10 {
        "0"@ + decimal_text(n)
    } else {
        decimal_text(n)
    }
}

fn with_two_digits(n: u64) -> (text: String)
    ensures
        text@ == two_digits(n as nat),
{
    if n < 10 {
        let mut text = String::from_str("0");
        text.append(decimal(n).as_str());
        text
    } else {
        decimal(n)
    }
}

/// A moment within the media, as it is shown.
///
/// "Did not say" is told from "cannot say" to the very end; collapsing them
/// here would throw the distinction away at the last place it could still be
/// seen.
pub open spec fn moment_text(of: Known<nat>) -> Seq<char> {
    match of {
        Known::Value(nanos) => {
            let seconds = nanos / 1_000_000_000;
            two_digits(seconds / 60) + ":"@ + two_digits(seconds % 60)
        },
        Known::NotReported => "--:--"@,
        Known::Unsupported => "n/a"@,
    }
}

/// A moment within the media, or why there is none.
pub fn moment(of: Known<Duration>) -> (text: String)
    ensures
        text@ == moment_text(known_nanos(of)),
{
    match of {
        Known::Value(reached) => {
            let seconds = reached.as_secs();
            let mut text = with_two_digits(seconds / 60);
            text.append(":");
            text.append(with_two_digits(seconds % 60).as_str());
            text
        },
        Known::NotReported => String::from_str("--:--"),
        Known::Unsupported => String::from_str("n/a"),
    }
}

/// What a source has open, as it is shown.
pub open spec fn media_text(of: MediaView) -> Seq<char> {
    match of {
        MediaView::LocalFile(path) => decoded_text(path),
        MediaView::Remote(address) => address,
        MediaView::Title(title) => title,
    }
}

/// What a source has open, as text.
///
/// A path is bytes and is decoded here and nowhere earlier. A name that is not
/// valid UTF-8 is read through the encoding [`decode`] infers rather than
/// replaced, because a row of replacement characters is exactly what a user
/// watching this stream is trying to get behind.
pub fn media(of: &MediaRef) -> (text: String)
    ensures
        text@ == media_text(of@),
{
    match of {
        MediaRef::LocalFile(path) => decode(path.as_bytes()).text,
        MediaRef::Remote(address) => address.clone(),
        MediaRef::Title(title) => title.clone(),
    }
}

/// So many spaces.
pub open spec fn spaces(count: nat) -> Seq<char> {
    Seq::new(count, |i: int| ' ')
}

/// A text with spaces after it up to a width, counted in characters.
pub open spec fn padded(text: Seq<char>, width: nat) -> Seq<char> {
    if text.len() < width {
        text + spaces((width - text.len()) as nat)
    } else {
        text
    }
}

fn pad(out: &mut String, text: &str, width: usize)
    ensures
        final(out)@ == old(out)@ + padded(text@, width as nat),
{
    out.append(text);
    let ghost head = out@;
    let letters = crate::text::characters(text);
    let mut count: usize = letters.len();
    assert(head + spaces(0) =~= head);
    while count < width
        invariant
            letters@ == text@,
            letters@.len() <= count,
            count <= width || count == letters@.len(),
            out@ == head + spaces((count - letters@.len()) as nat),
        decreases if count < width { width - count } else { 0 },
    {
        out.push(' ');
        assert(out@ =~= head + spaces((count + 1 - letters@.len()) as nat));
        count += 1;
    }
    assert(out@ =~= old(out)@ + padded(text@, width as nat));
}

/// The width of the widest of some texts, in bytes.
///
/// Bytes, while a column is padded in characters. That makes a column wider
/// than it needs to be and never misaligns one: a name has at most as many
/// characters as bytes, so every entry is padded to the same count. What would
/// misalign a column is a glyph the terminal draws double width, which neither
/// count sees. A D-Bus bus name is ASCII, so on the one
/// platform benshi reads today neither arises.
pub open spec fn widest(list: Seq<Seq<char>>) -> nat
    decreases list.len(),
{
    if list.len() == 0 {
        0
    } else {
        let before = widest(list.drop_last());
        let last = encode_utf8(list.last()).len();
        if last > before {
            last
        } else {
            before
        }
    }
}

/// The identities of some listed sources.
pub open spec fn players_of(listed: Seq<ListingView>) -> Seq<Seq<char>> {
    listed.map_values(|source: ListingView| source.player)
}

/// The applications of some listed sources.
pub open spec fn apps_of(listed: Seq<ListingView>) -> Seq<Seq<char>> {
    listed.map_values(|source: ListingView| source.app)
}

/// One line of a listing.
pub open spec fn listing_line(source: ListingView, identity: nat, application: nat) -> Seq<char> {
    padded(source.player, identity) + "  "@ + padded(source.app, application) + "  "@ + padded(
        policy_text(source.policy),
        5,
    ) + "  "@ + padded(state_text(source.state), 7) + "  "@ + capabilities_text(
        source.capabilities,
    ) + "\n"@
}

/// The lines of a listing, one after the other.
pub open spec fn listing_lines(
    listed: Seq<ListingView>,
    identity: nat,
    application: nat,
) -> Seq<char>
    decreases listed.len(),
{
    if listed.len() == 0 {
        Seq::empty()
    } else {
        listing_lines(listed.drop_last(), identity, application) + listing_line(
            listed.last(),
            identity,
            application,
        )
    }
}

/// Every source the daemon knows about, as it is shown.
pub open spec fn listing_text(listed: Seq<ListingView>) -> Seq<char> {
    if listed.len() == 0 {
        "no source is open\n"@
    } else {
        listing_lines(listed, widest(players_of(listed)), widest(apps_of(listed)))
    }
}

fn wider(width: usize, text: &str) -> (now: usize)
    ensures
        now == if encode_utf8(text@).len() > width {
            encode_utf8(text@).len()
        } else {
            width as nat
        },
{
    let length = text.as_bytes().len();
    if length > width {
        length
    } else {
        width
    }
}

/// Every source the daemon knows about, one to a line.
///
/// Columns are padded to the widest entry rather than to a fixed width: an
/// identity carries whatever the platform put in it, and truncating it would
/// hide the part that tells two windows of one player apart. Nothing on screen
/// cannot be told from a command that failed quietly, so an empty listing says
/// that it is one.
pub fn listing(sources: &[SourceListing]) -> (shown: String)
    ensures
        shown@ == listing_text(listing_views(sources@)),
{
    if sources.len() == 0 {
        return String::from_str("no source is open\n");
    }
    let ghost all = listing_views(sources@);
    let ghost players = players_of(all);
    let ghost apps = apps_of(all);
    let mut identity: usize = 0;
    let mut application: usize = 0;
    let mut i: usize = 0;
    while i < sources.len()
        invariant
            i <= sources@.len(),
            all == listing_views(sources@),
            players == players_of(all),
            apps == apps_of(all),
            identity == widest(players.take(i as int)),
            application == widest(apps.take(i as int)),
        decreases sources@.len() - i,
    {
        assert(all[i as int] == sources@[i as int]@);
        assert(players.take(i + 1).drop_last() =~= players.take(i as int));
        assert(apps.take(i + 1).drop_last() =~= apps.take(i as int));
        identity = wider(identity, sources[i].player.0.as_str());
        application = wider(application, sources[i].app.0.as_str());
        i += 1;
    }
    assert(players.take(i as int) =~= players);
    assert(apps.take(i as int) =~= apps);
    let mut shown = String::new();
    let mut j: usize = 0;
    while j < sources.len()
        invariant
            j <= sources@.len(),
            all == listing_views(sources@),
            shown@ == listing_lines(all.take(j as int), identity as nat, application as nat),
        decreases sources@.len() - j,
    {
        let source = &sources[j];
        let ghost before = shown@;
        pad(&mut shown, source.player.0.as_str(), identity);
        shown.append("  ");
        pad(&mut shown, source.app.0.as_str(), application);
        shown.append("  ");
        pad(&mut shown, policy(source.policy), 5);
        shown.append("  ");
        pad(&mut shown, state(source.state), 7);
        shown.append("  ");
        shown.append(capabilities(source.capabilities).as_str());
        shown.append("\n");
        assert(all[j as int] == source@);
        assert(all.take(j + 1).drop_last() =~= all.take(j as int));
        assert(shown@ =~= before + listing_line(source@, identity as nat, application as nat));
        j += 1;
    }
    assert(all.take(j as int) =~= all);
    shown
}

/// An episode, as it is shown.
pub open spec fn episode_text(of: Episode) -> Seq<char> {
    match of {
        Episode::Only(number) => "episode "@ + decimal_text(number as nat),
        Episode::Several => "several episodes"@,
        Episode::NotWhole => "an episode that is not a whole number"@,
        Episode::Absent => "no episode"@,
    }
}

/// An episode in words.
///
/// Only the first answer is a number. Several, a half and none are said as
/// such, because a number printed for any of them would read as an episode
/// somebody could record progress against.
pub fn episode_words(of: Episode) -> (text: String)
    ensures
        text@ == episode_text(of),
{
    match of {
        Episode::Only(number) => numbered("episode ", number),
        Episode::Several => String::from_str("several episodes"),
        Episode::NotWhole => String::from_str("an episode that is not a whole number"),
        Episode::Absent => String::from_str("no episode"),
    }
}

fn numbered(words: &str, number: u32) -> (text: String)
    ensures
        text@ == words@ + decimal_text(number as nat),
{
    let mut text = String::from_str(words);
    text.append(decimal(number as u64).as_str());
    text
}

fn in_quotes(words: &str, text: &str) -> (shown: String)
    ensures
        shown@ == words@ + "\""@ + text@ + "\""@,
{
    let mut shown = String::from_str(words);
    shown.append("\"");
    shown.append(text);
    shown.append("\"");
    shown
}

/// A part of what a name spelled, where it spelled one.
pub open spec fn and_part(list: Seq<Seq<char>>, part: Option<Seq<char>>) -> Seq<Seq<char>> {
    match part {
        Some(text) => list.push(text),
        None => list,
    }
}

/// A number under its name, where there is one.
pub open spec fn number_part(words: Seq<char>, number: Option<u32>) -> Option<Seq<char>> {
    match number {
        Some(n) => Some(words + decimal_text(n as nat)),
        None => None,
    }
}

/// The parts of what a name spelled, in order.
pub open spec fn spelled_parts(of: ParsedView) -> Seq<Seq<char>> {
    let title = match of.title {
        Some(title) => "title "@ + "\""@ + title + "\""@,
        None => "no title"@,
    };
    let season = and_part(seq![title], number_part("season "@, of.season));
    let part = and_part(season, number_part("part "@, of.part));
    let episode = part.push(episode_text(of.episode));
    let year = and_part(episode, number_part("year "@, of.year));
    let group = and_part(
        year,
        match of.release_group {
            Some(group) => Some("group "@ + "\""@ + group + "\""@),
            None => None,
        },
    );
    if of.confidence == Confidence::Detected {
        group.push("encoding inferred"@)
    } else {
        group
    }
}

/// What a name spelled, in words, and whether its bytes had to be inferred.
///
/// The encoding is mentioned only where it was inferred. A title recovered by
/// inference is a weaker input than one that could not have been anything
/// else, and the person reading this is the one who can tell whether the
/// guess was right.
pub fn spelled(of: &Parsed) -> (text: String)
    ensures
        text@ == joined(spelled_parts(of@), ", "@),
{
    let mut text = String::new();
    let mut count: usize = 0;
    let ghost mut list: Seq<Seq<char>> = Seq::empty();
    assert(text@ =~= joined(list, ", "@));
    let title = match &of.title {
        Some(title) => in_quotes("title ", title.as_str()),
        None => String::from_str("no title"),
    };
    join(&mut text, &mut count, title.as_str(), ", ", Ghost(list));
    proof {
        list = list.push(title@);
        assert(list =~= seq![title@]);
    }
    if let Some(season) = of.season {
        let part = numbered("season ", season);
        join(&mut text, &mut count, part.as_str(), ", ", Ghost(list));
        proof {
            list = list.push(part@);
        }
    }
    if let Some(number) = of.part {
        let part = numbered("part ", number);
        join(&mut text, &mut count, part.as_str(), ", ", Ghost(list));
        proof {
            list = list.push(part@);
        }
    }
    let episode = episode_words(of.episode);
    join(&mut text, &mut count, episode.as_str(), ", ", Ghost(list));
    proof {
        list = list.push(episode@);
    }
    if let Some(year) = of.year {
        let part = numbered("year ", year);
        join(&mut text, &mut count, part.as_str(), ", ", Ghost(list));
        proof {
            list = list.push(part@);
        }
    }
    if let Some(group) = &of.release_group {
        let part = in_quotes("group ", group.as_str());
        join(&mut text, &mut count, part.as_str(), ", ", Ghost(list));
        proof {
            list = list.push(part@);
        }
    }
    if of.confidence == Confidence::Detected {
        join(&mut text, &mut count, "encoding inferred", ", ", Ghost(list));
        proof {
            list = list.push("encoding inferred"@);
        }
    }
    assert(list == spelled_parts(of@));
    text
}

/// A number after a comma, where there is one.
pub open spec fn after_comma(words: Seq<char>, number: Option<nat>) -> Seq<char> {
    match number {
        Some(n) => words + decimal_text(n),
        None => Seq::empty(),
    }
}

/// The stage that decided, as it is shown.
pub open spec fn stage_text(of: DecidedByView) -> Seq<char> {
    match of {
        DecidedByView::Altname(assignment) => "altname, assigned "@ + "\""@ + assignment.spelled
            + "\""@ + after_comma(", season "@, assignment.season) + after_comma(
            ", part "@,
            assignment.part,
        ),
        DecidedByView::Key => "key"@,
        DecidedByView::Scored(score) => "score "@ + shown(score),
    }
}

/// The stage that decided, by its name, and what it decided by.
pub fn decided_by(of: &DecidedBy) -> (text: String)
    ensures
        text@ == stage_text(of@),
{
    match of {
        DecidedBy::Altname(assignment) => {
            let mut text = in_quotes("altname, assigned ", assignment.spelled.as_str());
            if let Some(season) = assignment.season {
                text.append(numbered(", season ", season).as_str());
            }
            if let Some(part) = assignment.part {
                text.append(numbered(", part ", part).as_str());
            }
            assert(text@ =~= stage_text(of@));
            text
        },
        DecidedBy::Key => String::from_str("key"),
        DecidedBy::Scored(score) => {
            let mut text = String::from_str("score ");
            text.append(show(*score).as_str());
            text
        },
    }
}

/// Each of some texts in quotes.
pub open spec fn quoted_each(list: Seq<Seq<char>>) -> Seq<Seq<char>> {
    list.map_values(|text: Seq<char>| "\""@ + text + "\""@)
}

/// What recognition answered, as it is shown.
pub open spec fn answer_text(of: ToldView) -> Seq<char> {
    match of {
        ToldView::Recognised { title, episode, stage } => "recognised: "@ + "\""@ + title + "\""@
            + ", "@ + episode_text(episode) + "\nstage: "@ + stage_text(stage) + "\n"@,
        ToldView::Ambiguous { candidates } => "ambiguous: "@ + joined(
            quoted_each(candidates),
            ", "@,
        ) + "\n"@,
        ToldView::Unrecognised { best: Some(score) } =>
            "unrecognised: the closest candidate scored "@ + shown(score) + "\n"@,
        ToldView::Unrecognised { best: None } => "unrecognised: nothing to score against\n"@,
    }
}

fn append_quoted_each(out: &mut String, candidates: &[String])
    ensures
        final(out)@ == old(out)@ + joined(quoted_each(texts(candidates@)), ", "@),
{
    let ghost head = out@;
    let ghost all = quoted_each(texts(candidates@));
    let mut i: usize = 0;
    assert(head + joined(all.take(0), ", "@) =~= head);
    while i < candidates.len()
        invariant
            i <= candidates@.len(),
            all == quoted_each(texts(candidates@)),
            out@ == head + joined(all.take(i as int), ", "@),
        decreases candidates@.len() - i,
    {
        let ghost before = out@;
        if i > 0 {
            out.append(", ");
        }
        out.append("\"");
        out.append(candidates[i].as_str());
        out.append("\"");
        assert(texts(candidates@)[i as int] == candidates@[i as int]@);
        assert(all.take(i + 1).drop_last() =~= all.take(i as int));
        assert(all.take(i + 1).last() == all[i as int]);
        assert(out@ =~= head + joined(all.take(i + 1), ", "@));
        i += 1;
    }
    assert(all.take(i as int) =~= all);
}

/// What recognition answered, as the lines below the parse.
///
/// Each line ends in a newline, and a match takes two: what it was recognised
/// as, and the stage that decided.
pub fn answer(of: &Outcome) -> (text: String)
    ensures
        text@ == answer_text(of@),
{
    match of {
        Outcome::Recognised { title, episode, stage } => {
            let mut text = in_quotes("recognised: ", title.as_str());
            text.append(", ");
            text.append(episode_words(*episode).as_str());
            text.append("\nstage: ");
            text.append(decided_by(stage).as_str());
            text.append("\n");
            text
        },
        Outcome::Ambiguous { candidates } => {
            let mut text = String::from_str("ambiguous: ");
            append_quoted_each(&mut text, candidates.as_slice());
            text.append("\n");
            text
        },
        Outcome::Unrecognised { best: Some(score) } => {
            let mut text = String::from_str("unrecognised: the closest candidate scored ");
            text.append(show(*score).as_str());
            text.append("\n");
            text
        },
        Outcome::Unrecognised { best: None } => String::from_str(
            "unrecognised: nothing to score against\n",
        ),
    }
}

/// One decision, as it is shown.
pub open spec fn explanation_text(of: ExplanationView) -> Seq<char> {
    of.player + "  "@ + media_text(of.media) + "\nspelled: "@ + joined(
        spelled_parts(of.spelled),
        ", "@,
    ) + "\n"@ + answer_text(of.outcome)
}

/// One decision, as a person reads it.
///
/// Whose file, what its name spelled, what was answered, and for a match the
/// stage that decided and what it decided by. The stage is printed by its name
/// and never by a number: a number computed from a position in the sequence is
/// the thing that moves when a stage is inserted.
pub fn explanation(of: &Explanation) -> (text: String)
    ensures
        text@ == explanation_text(of@),
{
    let mut text = of.player.0.clone();
    text.append("  ");
    text.append(media(&of.media).as_str());
    text.append("\nspelled: ");
    text.append(spelled(&of.spelled).as_str());
    text.append("\n");
    text.append(answer(&of.outcome).as_str());
    text
}

/// The most recent decision, or that there is none yet.
///
/// Nothing on screen cannot be told from a command that failed quietly, and a
/// client asking before the first reading is the ordinary case.
pub fn why(of: Option<&Explanation>) -> (text: String)
    ensures
        text@ == match of {
            Some(decision) => explanation_text(decision@),
            None => "nothing has been decided yet\n"@,
        },
{
    match of {
        Some(decision) => explanation(decision),
        None => String::from_str("nothing has been decided yet\n"),
    }
}

/// One event, as it is shown.
pub open spec fn event_text(of: EventView) -> Seq<char> {
    match of {
        EventView::Snapshot(reading) => reading.player + "  "@ + state_text(reading.state) + "  "@
            + moment_text(reading.position) + " / "@ + moment_text(reading.duration) + "  "@
            + media_text(reading.media),
        EventView::SourcesChanged { sources } => if sources.len() == 0 {
            "sources: no source is open"@
        } else {
            "sources: "@ + joined(sources, ", "@)
        },
        EventView::SourceFailed { player, reason } => player + "  failed: "@ + reason,
        EventView::State(Some(session)) => "state: "@ + session.player,
        EventView::State(None) => "state: nothing is playing"@,
    }
}

/// One event from the daemon, as a line for a person.
///
/// The machine-readable form is what the socket already carries, so nothing is
/// lost by rendering here: `socat - UNIX-CONNECT:...` gives the JSON unchanged.
pub fn event(of: &BusEvent) -> (text: String)
    ensures
        text@ == event_text(of@),
{
    match of {
        BusEvent::Snapshot(reading) => {
            let mut text = reading.player.0.clone();
            text.append("  ");
            text.append(state(reading.state));
            text.append("  ");
            text.append(moment(reading.position).as_str());
            text.append(" / ");
            text.append(moment(reading.duration).as_str());
            text.append("  ");
            text.append(media(&reading.media).as_str());
            text
        },
        BusEvent::SourcesChanged { sources } => {
            let ghost all = identities(sources@);
            if sources.len() == 0 {
                return String::from_str("sources: no source is open");
            }
            let mut text = String::from_str("sources: ");
            let ghost head = text@;
            let mut i: usize = 0;
            assert(head + joined(all.take(0), ", "@) =~= head);
            while i < sources.len()
                invariant
                    i <= sources@.len(),
                    all == identities(sources@),
                    text@ == head + joined(all.take(i as int), ", "@),
                decreases sources@.len() - i,
            {
                if i > 0 {
                    text.append(", ");
                }
                text.append(sources[i].0.as_str());
                assert(all[i as int] == sources@[i as int]@);
                assert(all.take(i + 1).drop_last() =~= all.take(i as int));
                assert(all.take(i + 1).last() == all[i as int]);
                assert(text@ =~= head + joined(all.take(i + 1), ", "@));
                i += 1;
            }
            assert(all.take(i as int) =~= all);
            text
        },
        BusEvent::SourceFailed { player, reason } => {
            let mut text = player.0.clone();
            text.append("  failed: ");
            text.append(reason.as_str());
            text
        },
        BusEvent::State(Some(session)) => {
            let mut text = String::from_str("state: ");
            text.append(session.snapshot.player.0.as_str());
            text
        },
        BusEvent::State(None) => String::from_str("state: nothing is playing"),
    }
}

// What rendering promises.

/// Every column of a listing starts where it starts on the line above: an
/// identity and an application are each padded to one width, whatever else the
/// two lines hold.
pub proof fn law_columns_line_up(listed: Seq<ListingView>, i: int, j: int)
    requires
        0 <= i < listed.len(),
        0 <= j < listed.len(),
    ensures
        padded(listed[i].player, widest(players_of(listed))).len() == padded(
            listed[j].player,
            widest(players_of(listed)),
        ).len(),
        padded(listed[i].app, widest(apps_of(listed))).len() == padded(
            listed[j].app,
            widest(apps_of(listed)),
        ).len(),
{
    let players = players_of(listed);
    let apps = apps_of(listed);
    lemma_nothing_is_wider(players, i);
    lemma_nothing_is_wider(players, j);
    lemma_nothing_is_wider(apps, i);
    lemma_nothing_is_wider(apps, j);
}

proof fn lemma_bytes_are_no_fewer(text: Seq<char>)
    ensures
        text.len() <= encode_utf8(text).len(),
    decreases text.len(),
{
    if text.len() > 0 {
        lemma_bytes_are_no_fewer(text.drop_first());
        assert(vstd::utf8::encode_scalar(text[0] as u32).len() >= 1);
    }
}

proof fn lemma_nothing_is_wider(list: Seq<Seq<char>>, i: int)
    requires
        0 <= i < list.len(),
    ensures
        list[i].len() <= widest(list),
    decreases list.len(),
{
    lemma_bytes_are_no_fewer(list[i]);
    if i < list.len() - 1 {
        lemma_nothing_is_wider(list.drop_last(), i);
        assert(list.drop_last()[i] == list[i]);
    }
}

/// A moment that was not reported reads differently from one that cannot be,
/// and neither reads as a moment that was.
pub proof fn law_an_absent_moment_reads_as_no_moment(nanos: nat)
    ensures
        moment_text(Known::NotReported) != moment_text(Known::Unsupported),
        moment_text(Known::NotReported) != moment_text(Known::Value(nanos)),
        moment_text(Known::Unsupported) != moment_text(Known::Value(nanos)),
{
    reveal_strlit("--:--");
    reveal_strlit("n/a");
    reveal_strlit("0");
    reveal_strlit(":");
    assert("--:--"@[0] == '-' && "n/a"@[0] == 'n');
    let minutes = nanos / 1_000_000_000 / 60;
    lemma_a_number_begins_with_a_digit(minutes);
    let first = two_digits(minutes);
    assert(moment_text(Known::Value(nanos))[0] == first[0]);
}

proof fn lemma_a_number_begins_with_a_digit(n: nat)
    ensures
        decimal_text(n).len() > 0,
        '0' <= decimal_text(n)[0] && decimal_text(n)[0] <= '9',
    decreases n,
{
    if n >= 10 {
        lemma_a_number_begins_with_a_digit(n / 10);
    }
}

/// A moment is minutes and seconds, each with two digits at the least, and what
/// is left of a second is not shown.
pub proof fn law_a_moment_is_minutes_and_seconds(minutes: nat, seconds: nat, rest: nat)
    requires
        seconds < 60,
        rest < 1_000_000_000,
    ensures
        ({
            let nanos = (60 * minutes + seconds) * 1_000_000_000 + rest;
            let behind = seq![
                ':',
                digit((seconds / 10) as int),
                digit((seconds % 10) as int),
            ];
            &&& minutes < 100 ==> moment_text(Known::Value(nanos)) == seq![
                digit((minutes / 10) as int),
                digit((minutes % 10) as int),
            ] + behind
            &&& minutes >= 100 ==> moment_text(Known::Value(nanos)) == decimal_text(minutes)
                + behind
        }),
{
    let nanos = (60 * minutes + seconds) * 1_000_000_000 + rest;
    let whole = nanos / 1_000_000_000;
    assert(whole == 60 * minutes + seconds);
    assert(whole / 60 == minutes && whole % 60 == seconds);
    lemma_two_digits(seconds);
    lemma_two_digits(minutes);
    reveal_strlit(":");
    let behind = seq![':', digit((seconds / 10) as int), digit((seconds % 10) as int)];
    if minutes < 100 {
        assert(moment_text(Known::Value(nanos)) =~= seq![
            digit((minutes / 10) as int),
            digit((minutes % 10) as int),
        ] + behind);
    } else {
        assert(moment_text(Known::Value(nanos)) =~= decimal_text(minutes) + behind);
    }
}

proof fn lemma_two_digits(n: nat)
    ensures
        n < 100 ==> two_digits(n) == seq![digit((n / 10) as int), digit((n % 10) as int)],
        n >= 100 ==> two_digits(n) == decimal_text(n),
{
    reveal_strlit("0");
    reveal_with_fuel(decimal_text, 2);
    if n < 10 {
        assert(digit(0) == '0');
        assert(two_digits(n) =~= seq![digit((n / 10) as int), digit((n % 10) as int)]);
    } else if n < 100 {
        assert(two_digits(n) =~= seq![digit((n / 10) as int), digit((n % 10) as int)]);
    }
}

/// A text that is padded stands first, has spaces and nothing else behind it, and
/// is as wide as it was to be, or as it is where it was wider.
pub proof fn law_padding_is_spaces_behind_the_text(text: Seq<char>, width: nat)
    ensures
        padded(text, width).len() == if text.len() < width {
            width
        } else {
            text.len()
        },
        padded(text, width).take(text.len() as int) == text,
        forall|i: int| text.len() <= i < padded(text, width).len() ==> padded(text, width)[i] == ' ',
{
}

/// The width of a column is that of its widest text in bytes: none is wider, and
/// one of them is as wide.
pub proof fn law_a_column_is_as_wide_as_its_widest(list: Seq<Seq<char>>)
    ensures
        forall|i: int|
            0 <= i < list.len() ==> encode_utf8(#[trigger] list[i]).len() <= widest(list),
        list.len() > 0 ==> exists|i: int|
            0 <= i < list.len() && encode_utf8(#[trigger] list[i]).len() == widest(list),
    decreases list.len(),
{
    if list.len() > 0 {
        let shorter = list.drop_last();
        let last = list.len() - 1;
        law_a_column_is_as_wide_as_its_widest(shorter);
        assert forall|i: int| 0 <= i < list.len() implies encode_utf8(#[trigger] list[i]).len()
            <= widest(list) by {
            if i < last {
                assert(shorter[i] == list[i]);
            }
        }
        if encode_utf8(list[last]).len() != widest(list) {
            let i = choose|i: int|
                0 <= i < shorter.len() && encode_utf8(#[trigger] shorter[i]).len() == widest(
                    shorter,
                );
            assert(list[i] == shorter[i]);
        }
    }
}

/// Texts that are joined have the separator between any two of them and at
/// neither end.
pub proof fn law_a_separator_stands_between(
    list: Seq<Seq<char>>,
    text: Seq<char>,
    separator: Seq<char>,
)
    ensures
        joined(Seq::empty(), separator).len() == 0,
        joined(seq![text], separator) == text,
        list.len() > 0 ==> joined(list.push(text), separator) == joined(list, separator) + separator
            + text,
{
    assert(list.push(text).drop_last() =~= list);
}

/// A listing has a line for each source, in order, and says that there is none
/// where there is none. Each line ends, and none of the others changes it but by
/// its width.
pub proof fn law_a_listing_has_a_line_for_each(
    listed: Seq<ListingView>,
    source: ListingView,
    identity: nat,
    application: nat,
)
    ensures
        listing_text(Seq::empty()) == "no source is open\n"@,
        listing_lines(listed.push(source), identity, application) == listing_lines(
            listed,
            identity,
            application,
        ) + listing_line(source, identity, application),
        listing_line(source, identity, application).last() == '\n',
{
    assert(listed.push(source).drop_last() =~= listed);
    reveal_strlit("\n");
    assert("\n"@.last() == '\n');
}

/// What a source can report is told one by one, in one order, each exactly where
/// it can: where it is, how long it is, whether it is paused, and which file it
/// is.
pub proof fn law_each_capability_is_told(of: Capabilities)
    ensures
        tokens(of) == (if of.position {
            seq!["pos"@]
        } else {
            Seq::empty()
        }) + (if of.duration {
            seq!["dur"@]
        } else {
            Seq::empty()
        }) + (if of.paused {
            seq!["pause"@]
        } else {
            Seq::empty()
        }) + (if of.location {
            seq!["loc"@]
        } else {
            Seq::empty()
        }),
        of.location ==> capabilities_text(of) == joined(tokens(of), "+"@),
        !of.location && tokens(of).len() > 0 ==> capabilities_text(of) == joined(tokens(of), "+"@)
            + ", "@ + "title only"@,
        !of.location && tokens(of).len() == 0 ==> capabilities_text(of) == "title only"@,
{
}

/// What a name spelled is told part by part: its title and its episode always,
/// and its season, part, year and group and that its encoding was inferred
/// exactly where that is so.
pub proof fn law_each_part_of_a_name_is_told(of: ParsedView)
    ensures
        ({
            let parts = spelled_parts(of);
            let season: int = if of.season is Some {
                1
            } else {
                0
            };
            let part: int = if of.part is Some {
                1
            } else {
                0
            };
            let year: int = if of.year is Some {
                1
            } else {
                0
            };
            let group: int = if of.release_group is Some {
                1
            } else {
                0
            };
            let inferred: int = if of.confidence == Confidence::Detected {
                1
            } else {
                0
            };
            &&& parts.len() == 2 + season + part + year + group + inferred
            &&& of.title is None ==> parts[0] == "no title"@
            &&& of.title matches Some(title) ==> parts[0] == "title "@ + "\""@ + title + "\""@
            &&& of.season matches Some(n) ==> parts[1] == "season "@ + decimal_text(n as nat)
            &&& of.part matches Some(n) ==> parts[1 + season] == "part "@ + decimal_text(n as nat)
            &&& parts[1 + season + part] == episode_text(of.episode)
            &&& of.year matches Some(n) ==> parts[2 + season + part] == "year "@ + decimal_text(
                n as nat,
            )
            &&& of.release_group matches Some(name) ==> parts[2 + season + part + year] == "group "@
                + "\""@ + name + "\""@
            &&& inferred == 1 ==> parts.last() == "encoding inferred"@
        }),
{
}

/// Only an episode that is one whole number is told by a number.
pub proof fn law_only_one_episode_is_a_number(of: Episode)
    ensures
        match of {
            Episode::Only(number) => episode_text(of) == "episode "@ + decimal_text(number as nat),
            Episode::Several => episode_text(of) == "several episodes"@,
            Episode::NotWhole => episode_text(of) == "an episode that is not a whole number"@,
            Episode::Absent => episode_text(of) == "no episode"@,
        },
{
}

/// What is open is told as it is: a file by its path, decoded, and anything else
/// by the text it came with.
pub proof fn law_what_is_open_is_told_as_it_is(of: MediaView)
    ensures
        match of {
            MediaView::LocalFile(path) => media_text(of) == decoded_text(path),
            MediaView::Remote(address) => media_text(of) == address,
            MediaView::Title(title) => media_text(of) == title,
        },
{
}

/// How an event reads: whose it is and what was read of it, which sources there
/// are, what went wrong and with which, or what is playing.
pub proof fn law_how_an_event_reads(of: EventView)
    ensures
        match of {
            EventView::Snapshot(reading) => event_text(of) == reading.player + "  "@ + state_text(
                reading.state,
            ) + "  "@ + moment_text(reading.position) + " / "@ + moment_text(reading.duration)
                + "  "@ + media_text(reading.media),
            EventView::SourcesChanged { sources } => {
                &&& sources.len() == 0 ==> event_text(of) == "sources: no source is open"@
                &&& sources.len() > 0 ==> event_text(of) == "sources: "@ + joined(sources, ", "@)
            },
            EventView::SourceFailed { player, reason } => event_text(of) == player + "  failed: "@
                + reason,
            EventView::State(Some(session)) => event_text(of) == "state: "@ + session.player,
            EventView::State(None) => event_text(of) == "state: nothing is playing"@,
        },
{
}

/// How a state and a policy read, each by a word of its own.
pub proof fn law_states_and_policies_read_apart(state: PlayState, policy: Policy)
    ensures
        state_text(state) == "playing"@ <==> state == PlayState::Playing,
        state_text(state) == "paused"@ <==> state == PlayState::Paused,
        state_text(state) == "idle"@ <==> state == PlayState::Stopped,
        policy_text(policy) == "auto"@ <==> policy == Policy::Auto,
        policy_text(policy) == "allow"@ <==> policy == Policy::Allow,
        policy_text(policy) == "deny"@ <==> policy == Policy::Deny,
{
    reveal_strlit("playing");
    reveal_strlit("paused");
    reveal_strlit("idle");
    reveal_strlit("auto");
    reveal_strlit("allow");
    reveal_strlit("deny");
    assert("playing"@.len() == 7 && "paused"@.len() == 6 && "idle"@.len() == 4);
    assert("auto"@.len() == 4 && "allow"@.len() == 5 && "deny"@.len() == 4);
    assert("auto"@[0] == 'a' && "deny"@[0] == 'd');
}

/// How a decision reads: the stage by its name and what it decided by, and the
/// answer as the title, the candidates or how close the best of them came.
pub proof fn law_how_an_answer_reads(of: ToldView)
    ensures
        match of {
            ToldView::Recognised { title, episode, stage } => answer_text(of) == "recognised: "@
                + "\""@ + title + "\""@ + ", "@ + episode_text(episode) + "\nstage: "@ + stage_text(
                stage,
            ) + "\n"@,
            ToldView::Ambiguous { candidates } => answer_text(of) == "ambiguous: "@ + joined(
                quoted_each(candidates),
                ", "@,
            ) + "\n"@,
            ToldView::Unrecognised { best: Some(score) } => answer_text(of)
                == "unrecognised: the closest candidate scored "@ + shown(score) + "\n"@,
            ToldView::Unrecognised { best: None } => answer_text(of)
                == "unrecognised: nothing to score against\n"@,
        },
{
}

/// How a stage reads. An assignment is told as it was spelled, with the season
/// and the part it was made for exactly where it was made for one.
pub proof fn law_how_a_stage_reads(of: DecidedByView)
    ensures
        match of {
            DecidedByView::Altname(assignment) => {
                let named = "altname, assigned "@ + "\""@ + assignment.spelled + "\""@;
                match (assignment.season, assignment.part) {
                    (None, None) => stage_text(of) == named,
                    (Some(season), None) => stage_text(of) == named + ", season "@ + decimal_text(
                        season,
                    ),
                    (None, Some(part)) => stage_text(of) == named + ", part "@ + decimal_text(part),
                    (Some(season), Some(part)) => stage_text(of) == named + ", season "@
                        + decimal_text(season) + ", part "@ + decimal_text(part),
                }
            },
            DecidedByView::Key => stage_text(of) == "key"@,
            DecidedByView::Scored(score) => stage_text(of) == "score "@ + shown(score),
        },
{
    if let DecidedByView::Altname(assignment) = of {
        let named = "altname, assigned "@ + "\""@ + assignment.spelled + "\""@;
        match (assignment.season, assignment.part) {
            (None, None) => {
                assert(stage_text(of) =~= named);
            },
            (Some(season), None) => {
                assert(stage_text(of) =~= named + ", season "@ + decimal_text(season));
            },
            (None, Some(part)) => {
                assert(stage_text(of) =~= named + ", part "@ + decimal_text(part));
            },
            (Some(season), Some(part)) => {
                assert(stage_text(of) =~= named + ", season "@ + decimal_text(season) + ", part "@
                    + decimal_text(part));
            },
        }
    }
}

/// How a line of a listing reads: who, which application, its policy, its state
/// and what it can report, in columns two spaces apart.
pub proof fn law_how_a_listed_source_reads(source: ListingView, identity: nat, application: nat)
    ensures
        listing_line(source, identity, application) == padded(source.player, identity) + "  "@
            + padded(source.app, application) + "  "@ + padded(policy_text(source.policy), 5)
            + "  "@ + padded(state_text(source.state), 7) + "  "@ + capabilities_text(
            source.capabilities,
        ) + "\n"@,
{
}

/// How a decision reads: whose file, which file, what its name spelled, and
/// below that the answer.
pub proof fn law_how_a_decision_reads(of: ExplanationView)
    ensures
        explanation_text(of) == of.player + "  "@ + media_text(of.media) + "\nspelled: "@ + joined(
            spelled_parts(of.spelled),
            ", "@,
        ) + "\n"@ + answer_text(of.outcome),
{
}

} // verus!
