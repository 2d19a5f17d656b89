//! The file a recording is written to and replayed from.
//!
//! JSON Lines: a header object on the first line, then one [`PlayerSnapshot`]
//! per line in the order they were taken. Line-oriented for two reasons, and
//! both of them are properties this module has to keep.
//!
//! **A trace can be cut short.** `head -n 12` on a recording that caught
//! something at line 11 leaves a file that still opens, so reducing a case
//! costs a shell command rather than an afternoon of editing JSON. That holds
//! only while the header is sufficient on its own: nothing a reading carries
//! may be needed to interpret it, which rules out a count, a source list, or
//! anything else the cut would falsify.
//!
//! **A trace can be appended to.** A recorder writes the header once and then a
//! line per reading, never holding the file in memory and never rewriting it.
//! Every line therefore ends with a newline, including the last: without that,
//! the next append would join two readings into one line, and an interrupted
//! recording would be unreadable from the interruption rather than merely
//! short. [`header_line`] and [`snapshot_line`] are the only two things that
//! produce a line, and [`Trace::to_jsonl`] is built from them, so a recorder
//! that appends cannot drift from the reader that parses.
//!
//! Values are written whole and are never tidied. A duration rounded to
//! milliseconds or a timestamp rounded to seconds would still look like a
//! recording and would replay a timeline that never happened. For the same
//! reason the file is UTF-8 even when a path is not:
//! [`RawPath`](crate::path::RawPath) escapes the bytes it cannot spell rather
//! than replacing them.

use vstd::prelude::*;

use crate::json::{quote, write_span};
#[allow(unused_imports)]
use crate::json::{
    law_a_number_ends_where_it_ends, law_a_string_ends_where_it_ends,
    law_a_string_holds_no_line_ending, lemma_the_rest_is_the_same, quoted, span_json,
};
#[allow(unused_imports)]
use crate::path::{escape_text, law_a_path_round_trips};
use crate::text::{characters, decimal, spelled};
#[allow(unused_imports)]
use crate::text::{decimal_text, digit, texts};
use crate::time::Duration;
use crate::{Known, MediaRef, PlayState, PlayerSnapshot};
#[allow(unused_imports)]
use crate::{MediaView, SnapshotView};

verus! {

/// The version this build writes, and the only one it reads.
pub const VERSION: u32 = 1;

/// The first line of a trace.
///
/// Read on its own, before any reading is parsed, so that a file this build
/// does not understand is named rather than half-read.
#[derive(Debug, PartialEq, Eq)]
pub struct TraceHeader {
    /// Which version of this format the file is written in.
    pub version: u32,
    /// When the recording was taken, as the recorder spelled it.
    ///
    /// A note to whoever opens the file, and nothing else: no code parses it
    /// and replay never consults it. An ISO-8601 instant by convention, and
    /// nothing checks that, because a value nothing reads cannot be validated
    /// into being true. It earns its place because a fixture outlives the
    /// player it was taken from, and "which mpv was this?" is otherwise
    /// unanswerable.
    ///
    /// Text rather than a moment because this crate has no calendar and needs
    /// none. The timeline a replay follows is in the readings, whose
    /// timestamps are monotonic from the recording clock's arbitrary epoch and
    /// so have no relation to any wall clock.
    pub recorded_at: String,
}

/// The first line of a trace, as contracts speak of it.
pub struct HeaderView {
    /// Which version the file is written in.
    pub version: u32,
    /// When the recording was taken.
    pub recorded_at: Seq<char>,
}

impl View for TraceHeader {
    type V = HeaderView;

    open spec fn view(&self) -> HeaderView {
        HeaderView { version: self.version, recorded_at: self.recorded_at@ }
    }
}

impl Clone for TraceHeader {
    fn clone(&self) -> (copy: Self)
        ensures
            copy@ == self@,
    {
        TraceHeader { version: self.version, recorded_at: self.recorded_at.clone() }
    }
}

impl TraceHeader {
    /// A header for a recording taken at `recorded_at`, in this version.
    pub fn new(recorded_at: String) -> (header: Self)
        ensures
            header@ == (HeaderView { version: VERSION, recorded_at: recorded_at@ }),
    {
        Self { version: VERSION, recorded_at }
    }
}

/// A recording: a header, and the readings taken under it.
///
/// A trace is a file of lines rather than a JSON document, so there is no way
/// to write it as one object with an array inside it.
#[derive(Debug, PartialEq, Eq)]
pub struct Trace {
    /// What the file says about itself.
    pub header: TraceHeader,
    /// The readings, in the order they were taken.
    pub snapshots: Vec<PlayerSnapshot>,
}

/// Each of some readings, as contracts speak of it.
pub open spec fn snapshot_views(snapshots: Seq<PlayerSnapshot>) -> Seq<SnapshotView> {
    snapshots.map_values(|snapshot: PlayerSnapshot| snapshot@)
}

/// Why a trace could not be read or written.
///
/// A fault that could be on any line says which one, because a trace is a
/// fixture people edit by hand and a recording is a file a killed process
/// leaves half-written. "expected value at line 1 column 1" from underneath
/// names a position within one line, which is not the line it was in. A fault
/// that can only be on the header needs no number.
#[derive(Debug)]
pub enum TraceError {
    /// The text held no lines, so there was no header to read.
    Empty,
    /// The first line is not a header.
    Header {
        /// What the parser made of it.
        source: String,
    },
    /// The header is one this build does not read.
    UnsupportedVersion {
        /// The version the header declares.
        found: u32,
    },
    /// A line after the first is not a reading.
    Snapshot {
        /// Which line, counting the header as line 1.
        line: usize,
        /// What the parser made of it.
        source: String,
    },
    /// A line could not be produced.
    NotWritten {
        /// What the serialiser said.
        source: String,
    },
}

/// Why a trace could not be read or written, as contracts speak of it.
pub enum TraceErrorView {
    /// There was no header to read.
    Empty,
    /// The first line is not a header.
    Header {
        /// What the parser made of it.
        source: Seq<char>,
    },
    /// The header is one this build does not read.
    UnsupportedVersion {
        /// The version the header declares.
        found: u32,
    },
    /// A line after the first is not a reading.
    Snapshot {
        /// Which line, counting the header as line 1.
        line: int,
        /// What the parser made of it.
        source: Seq<char>,
    },
    /// A line could not be produced.
    NotWritten {
        /// What the serialiser said.
        source: Seq<char>,
    },
}

impl View for TraceError {
    type V = TraceErrorView;

    open spec fn view(&self) -> TraceErrorView {
        match self {
            TraceError::Empty => TraceErrorView::Empty,
            TraceError::Header { source } => TraceErrorView::Header { source: source@ },
            TraceError::UnsupportedVersion { found } => TraceErrorView::UnsupportedVersion {
                found: *found,
            },
            TraceError::Snapshot { line, source } => TraceErrorView::Snapshot {
                line: *line as int,
                source: source@,
            },
            TraceError::NotWritten { source } => TraceErrorView::NotWritten { source: source@ },
        }
    }
}

impl TraceError {
    /// The fault, told to the user.
    pub fn message(&self) -> (message: String)
        ensures
            match self {
                TraceError::Empty => message@
                    == "a trace begins with a header line, and this text has no lines"@,
                TraceError::Header { source } => message@ == "line 1 is not a trace header: "@ + source@,
                TraceError::UnsupportedVersion { found } => message@ == "this trace is version "@
                    + decimal_text(*found as nat) + ", and this build reads version "@
                    + decimal_text(VERSION as nat),
                TraceError::Snapshot { line, source } => message@ == "line "@ + decimal_text(*line as nat) + " is not a reading: "@ + source@,
                TraceError::NotWritten { source } => message@ == "a trace line could not be written: "@ + source@,
            },
    {
        match self {
            TraceError::Empty => String::from_str(
                "a trace begins with a header line, and this text has no lines",
            ),
            TraceError::Header { source } => {
                let mut message = String::from_str("line 1 is not a trace header: ");
                message.append(source.as_str());
                message
            },
            TraceError::UnsupportedVersion { found } => {
                let mut message = String::from_str("this trace is version ");
                message.append(decimal(*found as u64).as_str());
                message.append(", and this build reads version ");
                message.append(decimal(VERSION as u64).as_str());
                message
            },
            TraceError::Snapshot { line, source } => {
                let mut message = String::from_str("line ");
                message.append(decimal(*line as u64).as_str());
                message.append(" is not a reading: ");
                message.append(source.as_str());
                message
            },
            TraceError::NotWritten { source } => {
                let mut message = String::from_str("a trace line could not be written: ");
                message.append(source.as_str());
                message
            },
        }
    }
}

// What a line says.

/// The header as JSON.
pub open spec fn header_json(header: HeaderView) -> Seq<char> {
    "{\"version\":"@ + decimal_text(header.version as nat) + ",\"recorded_at\":"@ + quoted(
        header.recorded_at,
    ) + "}"@
}

/// What a source has open, as JSON.
pub open spec fn media_json(media: MediaView) -> Seq<char> {
    match media {
        MediaView::LocalFile(path) => "{\"LocalFile\":"@ + quoted(escape_text(path)) + "}"@,
        MediaView::Remote(address) => "{\"Remote\":"@ + quoted(address) + "}"@,
        MediaView::Title(title) => "{\"Title\":"@ + quoted(title) + "}"@,
    }
}

/// A playback state, as JSON.
pub open spec fn state_json(state: PlayState) -> Seq<char> {
    match state {
        PlayState::Playing => "\"Playing\""@,
        PlayState::Paused => "\"Paused\""@,
        PlayState::Stopped => "\"Stopped\""@,
    }
}

/// A span that may not be known, as JSON.
pub open spec fn known_json(span: Known<nat>) -> Seq<char> {
    match span {
        Known::Value(nanos) => "{\"Value\":"@ + span_json(nanos) + "}"@,
        Known::NotReported => "\"NotReported\""@,
        Known::Unsupported => "\"Unsupported\""@,
    }
}

/// A reading as JSON.
pub open spec fn snapshot_json(reading: SnapshotView) -> Seq<char> {
    "{\"player\":"@ + quoted(reading.player) + ",\"media\":"@ + media_json(reading.media)
        + ",\"state\":"@ + state_json(reading.state) + ",\"position\":"@ + known_json(
        reading.position,
    ) + ",\"duration\":"@ + known_json(reading.duration) + ",\"observed_at\":"@ + span_json(
        reading.observed_at,
    ) + "}"@
}

/// A line of a file: what it says, and the newline every line ends with.
pub open spec fn line(json: Seq<char>) -> Seq<char> {
    json + "\n"@
}

/// What each line of a recording says: the header, then each reading.
pub open spec fn trace_jsons(header: HeaderView, readings: Seq<SnapshotView>) -> Seq<Seq<char>> {
    seq![header_json(header)] + readings.map_values(
        |reading: SnapshotView| snapshot_json(reading),
    )
}

/// Lines one after the other, each ended.
pub open spec fn ended(jsons: Seq<Seq<char>>) -> Seq<char>
    decreases jsons.len(),
{
    if jsons.len() == 0 {
        Seq::empty()
    } else {
        ended(jsons.drop_last()) + line(jsons.last())
    }
}

/// The whole recording as the contents of a file.
pub open spec fn trace_text(header: HeaderView, readings: Seq<SnapshotView>) -> Seq<char> {
    ended(trace_jsons(header, readings))
}

fn append_quoted(out: &mut String, text: &str) -> (written: Result<(), TraceError>)
    ensures
        written is Ok,
        final(out)@ == old(out)@ + quoted(text@),
{
    match quote(text) {
        Ok(string) => {
            out.append(string.as_str());
            Ok(())
        },
        Err(source) => Err(TraceError::NotWritten { source }),
    }
}

fn append_known(out: &mut String, span: Known<Duration>)
    ensures
        final(out)@ == old(out)@ + known_json(crate::known_nanos(span)),
{
    match span {
        Known::Value(held) => {
            out.append("{\"Value\":");
            write_span(out, held);
            out.append("}");
            assert(out@ =~= old(out)@ + known_json(crate::known_nanos(span)));
        },
        Known::NotReported => {
            out.append("\"NotReported\"");
        },
        Known::Unsupported => {
            out.append("\"Unsupported\"");
        },
    }
}

fn append_media(out: &mut String, media: &MediaRef) -> (written: Result<(), TraceError>)
    ensures
        written is Ok,
        final(out)@ == old(out)@ + media_json(media@),
{
    match media {
        MediaRef::LocalFile(path) => {
            out.append("{\"LocalFile\":");
            append_quoted(out, path.escaped().as_str())?;
            out.append("}");
        },
        MediaRef::Remote(address) => {
            out.append("{\"Remote\":");
            append_quoted(out, address.as_str())?;
            out.append("}");
        },
        MediaRef::Title(title) => {
            out.append("{\"Title\":");
            append_quoted(out, title.as_str())?;
            out.append("}");
        },
    }
    assert(out@ =~= old(out)@ + media_json(media@));
    Ok(())
}

/// The header as the first line of a trace, newline included.
///
/// # Errors
///
/// [`TraceError::NotWritten`] if the header cannot be written, which no header
/// gives occasion for.
pub fn header_line(header: &TraceHeader) -> (written: Result<String, TraceError>)
    ensures
        written is Ok,
        written->Ok_0@ == line(header_json(header@)),
{
    let mut out = String::from_str("{\"version\":");
    out.append(decimal(header.version as u64).as_str());
    out.append(",\"recorded_at\":");
    append_quoted(&mut out, header.recorded_at.as_str())?;
    out.append("}");
    out.append("\n");
    assert(out@ =~= line(header_json(header@)));
    Ok(out)
}

/// One reading as a line of a trace, newline included.
///
/// What a recorder appends as each reading arrives.
///
/// # Errors
///
/// [`TraceError::NotWritten`] if the reading cannot be written, which no reading
/// gives occasion for.
pub fn snapshot_line(snapshot: &PlayerSnapshot) -> (written: Result<String, TraceError>)
    ensures
        written is Ok,
        written->Ok_0@ == line(snapshot_json(snapshot@)),
{
    let mut out = String::from_str("{\"player\":");
    append_quoted(&mut out, snapshot.player.0.as_str())?;
    out.append(",\"media\":");
    append_media(&mut out, &snapshot.media)?;
    out.append(",\"state\":");
    match snapshot.state {
        PlayState::Playing => out.append("\"Playing\""),
        PlayState::Paused => out.append("\"Paused\""),
        PlayState::Stopped => out.append("\"Stopped\""),
    }
    out.append(",\"position\":");
    append_known(&mut out, snapshot.position);
    out.append(",\"duration\":");
    append_known(&mut out, snapshot.duration);
    out.append(",\"observed_at\":");
    write_span(&mut out, snapshot.observed_at.since_epoch());
    out.append("}");
    out.append("\n");
    assert(out@ =~= line(snapshot_json(snapshot@)));
    Ok(out)
}

// What a file holds.

/// Where the line that stands at a place ends: at its newline, or at the end.
pub open spec fn line_end(text: Seq<char>, from: int) -> int
    decreases text.len() - from,
{
    if from < text.len() && text[from] != '\n' {
        line_end(text, from + 1)
    } else {
        from
    }
}

/// A line without the carriage return a line ending may begin with.
pub open spec fn without_return(line: Seq<char>) -> Seq<char> {
    if line.len() > 0 && line.last() == '\r' {
        line.drop_last()
    } else {
        line
    }
}

/// The lines of a text from a place on, without their endings. The last of them
/// need not be ended.
pub open spec fn lines_from(text: Seq<char>, from: int) -> Seq<Seq<char>>
    decreases text.len() - from,
    when 0 <= from
    via a_line_ends_after_it_begins
{
    if from >= text.len() {
        Seq::empty()
    } else {
        let end = line_end(text, from);
        if end >= text.len() {
            seq![text.skip(from)]
        } else {
            seq![without_return(text.subrange(from, end))] + lines_from(text, end + 1)
        }
    }
}

#[via_fn]
proof fn a_line_ends_after_it_begins(text: Seq<char>, from: int) {
    if from < text.len() {
        lemma_a_line_ends_within(text, from);
    }
}

proof fn lemma_a_line_ends_within(text: Seq<char>, from: int)
    requires
        0 <= from <= text.len(),
    ensures
        from <= line_end(text, from) <= text.len(),
        line_end(text, from) < text.len() ==> text[line_end(text, from)] == '\n',
        forall|i: int| from <= i < line_end(text, from) ==> text[i] != '\n',
    decreases text.len() - from,
{
    if from < text.len() && text[from] != '\n' {
        lemma_a_line_ends_within(text, from + 1);
    }
}

/// The lines of a text, without their endings.
pub fn lines_of(text: &str) -> (lines: Vec<String>)
    ensures
        texts(lines@) == lines_from(text@, 0),
{
    let letters = characters(text);
    let mut lines: Vec<String> = Vec::new();
    let mut from: usize = 0;
    assert(texts(lines@) + lines_from(text@, 0) =~= lines_from(text@, 0));
    while from < letters.len()
        invariant
            from <= letters@.len(),
            letters@ == text@,
            texts(lines@) + lines_from(text@, from as int) == lines_from(text@, 0),
        decreases letters@.len() - from,
    {
        let ghost before = texts(lines@);
        let ghost start = from as int;
        let mut end: usize = from;
        while end < letters.len() && letters[end] != '\n'
            invariant
                from <= end <= letters@.len(),
                letters@ == text@,
                line_end(text@, from as int) == line_end(text@, end as int),
            decreases letters@.len() - end,
        {
            end += 1;
        }
        if end >= letters.len() {
            let last = spelled(vstd::slice::slice_subrange(letters.as_slice(), from, end));
            assert(last@ =~= text@.skip(from as int));
            lines.push(last);
            from = end;
            assert(texts(lines@) =~= before.push(text@.skip(start)));
        } else {
            let stop = if end > from && letters[end - 1] == '\r' {
                end - 1
            } else {
                end
            };
            let one = spelled(vstd::slice::slice_subrange(letters.as_slice(), from, stop));
            assert(one@ =~= without_return(text@.subrange(from as int, end as int)));
            lines.push(one);
            from = end + 1;
            assert(texts(lines@) =~= before.push(
                without_return(text@.subrange(start, end as int)),
            ));
        }
        assert(texts(lines@) + lines_from(text@, from as int) =~= before + lines_from(text@, start));
    }
    assert(texts(lines@) + lines_from(text@, from as int) =~= texts(lines@));
    lines
}

/// What a parser made of a line that should be a header.
pub type ReadHeader = Result<HeaderView, Seq<char>>;

/// What a parser made of a line that should be a reading.
pub type ReadSnapshot = Result<SnapshotView, Seq<char>>;

/// Where the first of some lines that could not be read stands, or their number.
pub open spec fn first_unread(readings: Seq<ReadSnapshot>, from: int) -> int
    decreases readings.len() - from,
{
    if from < readings.len() && readings[from] is Ok {
        first_unread(readings, from + 1)
    } else {
        from
    }
}

/// The recording the lines of a file come to, from what a parser made of each:
/// of the first as a header, where there is one, and of the others as readings.
pub open spec fn recording_of(first: Option<ReadHeader>, rest: Seq<ReadSnapshot>) -> Result<
    (HeaderView, Seq<SnapshotView>),
    TraceErrorView,
> {
    match first {
        None => Err(TraceErrorView::Empty),
        Some(Err(source)) => Err(TraceErrorView::Header { source }),
        Some(Ok(header)) => {
            let at = first_unread(rest, 0);
            if header.version != VERSION {
                Err(TraceErrorView::UnsupportedVersion { found: header.version })
            } else if at < rest.len() {
                Err(TraceErrorView::Snapshot { line: at + 2, source: rest[at]->Err_0 })
            } else {
                Ok((header, rest.map_values(|reading: ReadSnapshot| reading->Ok_0)))
            }
        },
    }
}

/// What was made of a line that should be a header, as contracts speak of it.
pub open spec fn header_read(read: Option<Result<TraceHeader, String>>) -> Option<ReadHeader> {
    match read {
        None => None,
        Some(Ok(header)) => Some(Ok(header@)),
        Some(Err(source)) => Some(Err(source@)),
    }
}

/// What was made of a line that should be a reading, as contracts speak of it.
pub open spec fn snapshot_read(read: Result<PlayerSnapshot, String>) -> ReadSnapshot {
    match read {
        Ok(snapshot) => Ok(snapshot@),
        Err(source) => Err(source@),
    }
}

/// What was made of each of some lines, as contracts speak of it.
pub open spec fn snapshots_read(reads: Seq<Result<PlayerSnapshot, String>>) -> Seq<ReadSnapshot> {
    reads.map_values(|read: Result<PlayerSnapshot, String>| snapshot_read(read))
}

/// What reading a recording came to, as contracts speak of it.
pub open spec fn recording_read(read: Result<Trace, TraceError>) -> Result<
    (HeaderView, Seq<SnapshotView>),
    TraceErrorView,
> {
    match read {
        Ok(trace) => Ok((trace.header@, snapshot_views(trace.snapshots@))),
        Err(fault) => Err(fault@),
    }
}

impl Trace {
    /// The whole recording, as the contents of a file.
    ///
    /// # Errors
    ///
    /// [`TraceError::NotWritten`] if the header or a reading cannot be written,
    /// which neither gives occasion for.
    pub fn to_jsonl(&self) -> (written: Result<String, TraceError>)
        ensures
            written is Ok,
            written->Ok_0@ == trace_text(self.header@, snapshot_views(self.snapshots@)),
    {
        let mut text = header_line(&self.header)?;
        let ghost views = snapshot_views(self.snapshots@);
        let ghost jsons = trace_jsons(self.header@, views);
        let mut i: usize = 0;
        proof {
            reveal_with_fuel(ended, 2);
            assert(jsons.take(1).drop_last() =~= Seq::empty());
            assert(ended(jsons.take(1)) =~= line(header_json(self.header@)));
        }
        while i < self.snapshots.len()
            invariant
                i <= self.snapshots@.len(),
                views == snapshot_views(self.snapshots@),
                jsons == trace_jsons(self.header@, views),
                text@ == ended(jsons.take(i + 1)),
            decreases self.snapshots@.len() - i,
        {
            text.append(snapshot_line(&self.snapshots[i])?.as_str());
            proof {
                assert(jsons.take(i + 2).drop_last() =~= jsons.take(i + 1));
                assert(jsons[i + 1] == snapshot_json(self.snapshots@[i as int]@));
            }
            i += 1;
        }
        assert(jsons.take(i + 1) =~= jsons);
        Ok(text)
    }

    /// A recording, from what the parser made of each line of a file.
    ///
    /// The first line is read as a header, where there is one, and every line
    /// after it as a reading.
    ///
    /// # Errors
    ///
    /// [`TraceError::Empty`] for text with no lines, [`TraceError::Header`]
    /// when the first line is not a header, [`TraceError::UnsupportedVersion`]
    /// when it is a header this build does not read, and
    /// [`TraceError::Snapshot`] naming the line when a later one is not a
    /// reading.
    pub fn from_jsonl(
        first: Option<Result<TraceHeader, String>>,
        rest: Vec<Result<PlayerSnapshot, String>>,
    ) -> (read: Result<Self, TraceError>)
        requires
            rest@.len() + 1 < usize::MAX,
        ensures
            recording_read(read) == recording_of(header_read(first), snapshots_read(rest@)),
    {
        let header = match first {
            None => return Err(TraceError::Empty),
            Some(Err(source)) => return Err(TraceError::Header { source }),
            Some(Ok(header)) => header,
        };
        if header.version != VERSION {
            return Err(TraceError::UnsupportedVersion { found: header.version });
        }
        let mut snapshots: Vec<PlayerSnapshot> = Vec::new();
        let ghost reads = rest@;
        let ghost all = snapshots_read(rest@);
        let mut index: usize = 0;
        for reading in it: rest
            invariant
                it.seq() == reads,
                all == snapshots_read(reads),
                index == it.index(),
                all.len() + 1 < usize::MAX,
                first_unread(all, 0) == first_unread(all, index as int),
                snapshot_views(snapshots@) == all.take(index as int).map_values(
                    |read: ReadSnapshot| read->Ok_0,
                ),
                first matches Some(Ok(held)) && held.version == VERSION,
                rest@ == reads,
        {
            assert(all[index as int] == snapshot_read(reading));
            let ghost before = snapshot_views(snapshots@);
            match reading {
                Ok(snapshot) => {
                    snapshots.push(snapshot);
                    assert(snapshot_views(snapshots@) =~= before.push(snapshot@));
                    assert(all.take(index + 1).map_values(|read: ReadSnapshot| read->Ok_0)
                        =~= before.push(snapshot@));
                },
                // The header is line 1, so the first reading is line 2. A line
                // number that does not match what an editor shows is worse than
                // no line number at all.
                Err(source) => return Err(TraceError::Snapshot { line: index + 2, source }),
            }
            index += 1;
        }
        assert(all.take(index as int) =~= all);
        Ok(Self { header, snapshots })
    }
}

// What a line keeps.

/// Whether a text stays on its line: no newline in it, and no carriage return.
pub open spec fn on_one_line(text: Seq<char>) -> bool {
    forall|i: int| 0 <= i < text.len() ==> #[trigger] text[i] != '\n' && text[i] != '\r'
}

proof fn lemma_joined_on_one_line(a: Seq<char>, b: Seq<char>)
    requires
        on_one_line(a),
        on_one_line(b),
    ensures
        on_one_line(a + b),
{
    assert forall|i: int| 0 <= i < (a + b).len() implies #[trigger] (a + b)[i] != '\n' && (a
        + b)[i] != '\r' by {
        if i < a.len() {
            assert((a + b)[i] == a[i]);
        } else {
            assert((a + b)[i] == b[i - a.len()]);
        }
    }
}

proof fn lemma_quoted_on_one_line(text: Seq<char>)
    ensures
        on_one_line(quoted(text)),
{
    law_a_string_holds_no_line_ending(text);
    assert forall|i: int| 0 <= i < quoted(text).len() implies #[trigger] quoted(text)[i] != '\n'
        && quoted(text)[i] != '\r' by {
        assert(quoted(text).contains(quoted(text)[i]));
    }
}

proof fn lemma_number_on_one_line(n: nat)
    ensures
        on_one_line(decimal_text(n)),
    decreases n,
{
    if n >= 10 {
        lemma_number_on_one_line(n / 10);
        lemma_joined_on_one_line(decimal_text(n / 10), seq![digit((n % 10) as int)]);
        assert(decimal_text(n) =~= decimal_text(n / 10) + seq![digit((n % 10) as int)]);
    }
}

proof fn lemma_span_on_one_line(nanos: nat)
    ensures
        on_one_line(span_json(nanos)),
{
    reveal_strlit("{\"secs\":");
    reveal_strlit(",\"nanos\":");
    reveal_strlit("}");
    let secs = decimal_text(nanos / 1_000_000_000);
    let rest = decimal_text(nanos % 1_000_000_000);
    lemma_number_on_one_line(nanos / 1_000_000_000);
    lemma_number_on_one_line(nanos % 1_000_000_000);
    let a = "{\"secs\":"@;
    lemma_joined_on_one_line(a, secs);
    lemma_joined_on_one_line(a + secs, ",\"nanos\":"@);
    lemma_joined_on_one_line(a + secs + ",\"nanos\":"@, rest);
    lemma_joined_on_one_line(a + secs + ",\"nanos\":"@ + rest, "}"@);
}

proof fn lemma_known_on_one_line(span: Known<nat>)
    ensures
        on_one_line(known_json(span)),
{
    reveal_strlit("{\"Value\":");
    reveal_strlit("}");
    reveal_strlit("\"NotReported\"");
    reveal_strlit("\"Unsupported\"");
    if let Known::Value(nanos) = span {
        lemma_span_on_one_line(nanos);
        lemma_joined_on_one_line("{\"Value\":"@, span_json(nanos));
        lemma_joined_on_one_line("{\"Value\":"@ + span_json(nanos), "}"@);
    }
}

proof fn lemma_media_on_one_line(media: MediaView)
    ensures
        on_one_line(media_json(media)),
{
    reveal_strlit("{\"LocalFile\":");
    reveal_strlit("{\"Remote\":");
    reveal_strlit("{\"Title\":");
    reveal_strlit("}");
    let (tag, text) = match media {
        MediaView::LocalFile(path) => ("{\"LocalFile\":"@, escape_text(path)),
        MediaView::Remote(address) => ("{\"Remote\":"@, address),
        MediaView::Title(title) => ("{\"Title\":"@, title),
    };
    lemma_quoted_on_one_line(text);
    lemma_joined_on_one_line(tag, quoted(text));
    lemma_joined_on_one_line(tag + quoted(text), "}"@);
}

/// A header is one line, whatever the recorder wrote into it.
pub proof fn law_a_header_stays_on_its_line(header: HeaderView)
    ensures
        on_one_line(header_json(header)),
{
    reveal_strlit("{\"version\":");
    reveal_strlit(",\"recorded_at\":");
    reveal_strlit("}");
    lemma_number_on_one_line(header.version as nat);
    lemma_quoted_on_one_line(header.recorded_at);
    let a = "{\"version\":"@ + decimal_text(header.version as nat);
    lemma_joined_on_one_line("{\"version\":"@, decimal_text(header.version as nat));
    lemma_joined_on_one_line(a, ",\"recorded_at\":"@);
    lemma_joined_on_one_line(a + ",\"recorded_at\":"@, quoted(header.recorded_at));
    lemma_joined_on_one_line(
        a + ",\"recorded_at\":"@ + quoted(header.recorded_at),
        "}"@,
    );
}

/// A reading is one line, whatever it was a reading of.
pub proof fn law_a_reading_stays_on_its_line(reading: SnapshotView)
    ensures
        on_one_line(snapshot_json(reading)),
{
    reveal_strlit("{\"player\":");
    reveal_strlit(",\"media\":");
    reveal_strlit(",\"state\":");
    reveal_strlit(",\"position\":");
    reveal_strlit(",\"duration\":");
    reveal_strlit(",\"observed_at\":");
    reveal_strlit("}");
    reveal_strlit("\"Playing\"");
    reveal_strlit("\"Paused\"");
    reveal_strlit("\"Stopped\"");
    lemma_quoted_on_one_line(reading.player);
    lemma_media_on_one_line(reading.media);
    lemma_known_on_one_line(reading.position);
    lemma_known_on_one_line(reading.duration);
    lemma_span_on_one_line(reading.observed_at);
    let a = "{\"player\":"@ + quoted(reading.player);
    lemma_joined_on_one_line("{\"player\":"@, quoted(reading.player));
    lemma_joined_on_one_line(a, ",\"media\":"@);
    let b = a + ",\"media\":"@ + media_json(reading.media);
    lemma_joined_on_one_line(a + ",\"media\":"@, media_json(reading.media));
    lemma_joined_on_one_line(b, ",\"state\":"@);
    let c = b + ",\"state\":"@ + state_json(reading.state);
    lemma_joined_on_one_line(b + ",\"state\":"@, state_json(reading.state));
    lemma_joined_on_one_line(c, ",\"position\":"@);
    let d = c + ",\"position\":"@ + known_json(reading.position);
    lemma_joined_on_one_line(c + ",\"position\":"@, known_json(reading.position));
    lemma_joined_on_one_line(d, ",\"duration\":"@);
    let e = d + ",\"duration\":"@ + known_json(reading.duration);
    lemma_joined_on_one_line(d + ",\"duration\":"@, known_json(reading.duration));
    lemma_joined_on_one_line(e, ",\"observed_at\":"@);
    let f = e + ",\"observed_at\":"@ + span_json(reading.observed_at);
    lemma_joined_on_one_line(e + ",\"observed_at\":"@, span_json(reading.observed_at));
    lemma_joined_on_one_line(f, "}"@);
}

proof fn lemma_a_line_ends_at_its_newline(before: Seq<char>, json: Seq<char>, after: Seq<char>, at: int)
    requires
        on_one_line(json),
        before.len() <= at <= before.len() + json.len(),
    ensures
        line_end(before + line(json) + after, at) == before.len() + json.len(),
    decreases before.len() + json.len() - at,
{
    reveal_strlit("\n");
    let text = before + line(json) + after;
    if at < before.len() + json.len() {
        assert(text[at] == json[at - before.len()]);
        lemma_a_line_ends_at_its_newline(before, json, after, at + 1);
    } else {
        assert(text[at] == '\n');
    }
}

/// Lines each on its own are read back line by line, from wherever they begin.
proof fn lemma_lines_come_back(before: Seq<char>, jsons: Seq<Seq<char>>)
    requires
        forall|i: int| 0 <= i < jsons.len() ==> on_one_line(#[trigger] jsons[i]),
    ensures
        lines_from(before + ended(jsons), before.len() as int) == jsons,
    decreases jsons.len(),
{
    let text = before + ended(jsons);
    if jsons.len() == 0 {
        assert(text =~= before);
        assert(jsons =~= Seq::empty());
    } else {
        reveal_strlit("\n");
        let first = jsons[0];
        let rest = jsons.drop_first();
        lemma_ended_from_the_front(jsons);
        assert(text =~= before + line(first) + ended(rest));
        lemma_a_line_ends_at_its_newline(before, first, ended(rest), before.len() as int);
        let end = before.len() + first.len();
        assert(text.subrange(before.len() as int, end as int) =~= first);
        assert(without_return(first) == first) by {
            if first.len() > 0 {
                assert(first[first.len() - 1] != '\r');
            }
        }
        let head = before + line(first);
        assert forall|i: int| 0 <= i < rest.len() implies on_one_line(#[trigger] rest[i]) by {
            assert(rest[i] == jsons[i + 1]);
        }
        lemma_lines_come_back(head, rest);
        assert(text =~= head + ended(rest));
        assert(head.len() == end + 1);
        assert(jsons =~= seq![first] + rest);
    }
}

proof fn lemma_ended_from_the_front(jsons: Seq<Seq<char>>)
    requires
        jsons.len() > 0,
    ensures
        ended(jsons) == line(jsons[0]) + ended(jsons.drop_first()),
    decreases jsons.len(),
{
    if jsons.len() == 1 {
        reveal_with_fuel(ended, 2);
        assert(jsons.drop_last() =~= Seq::empty());
        assert(jsons.drop_first() =~= Seq::empty());
        assert(ended(jsons) =~= line(jsons[0]) + ended(jsons.drop_first()));
    } else {
        lemma_ended_from_the_front(jsons.drop_last());
        assert(jsons.drop_last().drop_first() =~= jsons.drop_first().drop_last());
        assert(ended(jsons) =~= line(jsons[0]) + ended(jsons.drop_first()));
    }
}

/// The lines of a recording's file are its header and its readings, one each
/// and in order.
pub proof fn law_a_file_is_read_line_by_line(header: HeaderView, readings: Seq<SnapshotView>)
    ensures
        lines_from(trace_text(header, readings), 0) == trace_jsons(header, readings),
{
    let jsons = trace_jsons(header, readings);
    assert forall|i: int| 0 <= i < jsons.len() implies on_one_line(#[trigger] jsons[i]) by {
        if i == 0 {
            law_a_header_stays_on_its_line(header);
        } else {
            law_a_reading_stays_on_its_line(readings[i - 1]);
        }
    }
    lemma_lines_come_back(Seq::empty(), jsons);
    assert(Seq::<char>::empty() + ended(jsons) =~= ended(jsons));
}

/// A recording of nothing yet is its header's line.
pub proof fn law_a_recording_begins_with_its_header(header: HeaderView)
    ensures
        trace_text(header, Seq::empty()) == line(header_json(header)),
{
    reveal_with_fuel(ended, 2);
    let none = trace_jsons(header, Seq::empty());
    assert(none.drop_last() =~= Seq::empty());
    assert(ended(none) =~= line(header_json(header)));
}

/// Appending a reading's line to a file is recording one reading more.
pub proof fn law_a_recording_is_appended_to(
    header: HeaderView,
    readings: Seq<SnapshotView>,
    next: SnapshotView,
)
    ensures
        trace_text(header, readings.push(next)) == trace_text(header, readings) + line(
            snapshot_json(next),
        ),
{
    assert(trace_jsons(header, readings.push(next)).drop_last() =~= trace_jsons(header, readings));
}

/// A file cut after some of its lines is the recording of fewer readings.
pub proof fn law_a_recording_can_be_cut_short(
    header: HeaderView,
    readings: Seq<SnapshotView>,
    kept: int,
)
    requires
        0 <= kept <= readings.len(),
    ensures
        trace_jsons(header, readings.take(kept)) == trace_jsons(header, readings).take(kept + 1),
        trace_text(header, readings.take(kept)).is_prefix_of(trace_text(header, readings)),
    decreases readings.len() - kept,
{
    assert(trace_jsons(header, readings.take(kept)) =~= trace_jsons(header, readings).take(
        kept + 1,
    ));
    if kept == readings.len() {
        assert(readings.take(kept) =~= readings);
    } else {
        law_a_recording_can_be_cut_short(header, readings, kept + 1);
        law_a_recording_is_appended_to(header, readings.take(kept), readings[kept]);
        assert(readings.take(kept).push(readings[kept]) =~= readings.take(kept + 1));
        let short = trace_text(header, readings.take(kept));
        let long = trace_text(header, readings);
        let middle = trace_text(header, readings.take(kept + 1));
        assert(short =~= long.subrange(0, short.len() as int)) by {
            assert(middle == long.subrange(0, middle.len() as int));
            assert forall|i: int| 0 <= i < short.len() implies short[i] == long[i] by {
                assert(short[i] == middle[i]);
            }
        }
    }
}

/// Every line of a file ends with a newline, the last among them.
pub proof fn law_a_file_ends_with_a_newline(header: HeaderView, readings: Seq<SnapshotView>)
    ensures
        trace_text(header, readings).len() > 0,
        trace_text(header, readings).last() == '\n',
{
    reveal_strlit("\n");
    let jsons = trace_jsons(header, readings);
    let last = line(jsons.last());
    assert(last[last.len() - 1] == '\n');
    assert(ended(jsons) == ended(jsons.drop_last()) + last);
}

// What a line tells.

proof fn lemma_a_span_ends_where_it_ends(one: nat, other: nat, a: Seq<char>, b: Seq<char>)
    requires
        span_json(one) + a == span_json(other) + b,
    ensures
        one == other,
        a == b,
{
    reveal_strlit(",\"nanos\":");
    reveal_strlit("}");
    let secs = "{\"secs\":"@;
    let nanos = ",\"nanos\":"@;
    let close = "}"@;
    let (m, n) = (one / 1_000_000_000, one % 1_000_000_000);
    let (p, q) = (other / 1_000_000_000, other % 1_000_000_000);
    let x2 = close + a;
    let y2 = close + b;
    let x1 = nanos + (decimal_text(n) + x2);
    let y1 = nanos + (decimal_text(q) + y2);
    assert(span_json(one) + a =~= secs + (decimal_text(m) + x1));
    assert(span_json(other) + b =~= secs + (decimal_text(p) + y1));
    lemma_the_rest_is_the_same(secs, decimal_text(m) + x1, decimal_text(p) + y1);
    assert(x1[0] == ',' && y1[0] == ',');
    law_a_number_ends_where_it_ends(m, p, x1, y1);
    lemma_the_rest_is_the_same(nanos, decimal_text(n) + x2, decimal_text(q) + y2);
    assert(x2[0] == '}' && y2[0] == '}');
    law_a_number_ends_where_it_ends(n, q, x2, y2);
    lemma_the_rest_is_the_same(close, a, b);
}

proof fn lemma_a_known_ends_where_it_ends(
    one: Known<nat>,
    other: Known<nat>,
    a: Seq<char>,
    b: Seq<char>,
)
    requires
        known_json(one) + a == known_json(other) + b,
    ensures
        one == other,
        a == b,
{
    reveal_strlit("{\"Value\":");
    reveal_strlit("\"NotReported\"");
    reveal_strlit("\"Unsupported\"");
    let x = known_json(one);
    let y = known_json(other);
    assert((x + a)[0] == x[0] && (y + b)[0] == y[0]);
    assert((x + a)[1] == x[1] && (y + b)[1] == y[1]);
    if let (Known::Value(m), Known::Value(n)) = (one, other) {
        let tag = "{\"Value\":"@;
        let close = "}"@;
        assert(x + a =~= tag + (span_json(m) + (close + a)));
        assert(y + b =~= tag + (span_json(n) + (close + b)));
        lemma_the_rest_is_the_same(
            tag,
            span_json(m) + (close + a),
            span_json(n) + (close + b),
        );
        lemma_a_span_ends_where_it_ends(m, n, close + a, close + b);
        lemma_the_rest_is_the_same(close, a, b);
    } else {
        assert(x[0] == y[0] && x[1] == y[1]);
        assert(one == other);
        lemma_the_rest_is_the_same(x, a, b);
    }
}

/// Paths written alike are one path.
proof fn lemma_an_escape_tells_the_path(one: Seq<u8>, other: Seq<u8>)
    requires
        escape_text(one) == escape_text(other),
    ensures
        one == other,
{
    law_a_path_round_trips(one);
    law_a_path_round_trips(other);
}

proof fn lemma_media_ends_where_it_ends(
    one: MediaView,
    other: MediaView,
    a: Seq<char>,
    b: Seq<char>,
)
    requires
        media_json(one) + a == media_json(other) + b,
    ensures
        one == other,
        a == b,
{
    reveal_strlit("{\"LocalFile\":");
    reveal_strlit("{\"Remote\":");
    reveal_strlit("{\"Title\":");
    let (tag, text) = match one {
        MediaView::LocalFile(path) => ("{\"LocalFile\":"@, escape_text(path)),
        MediaView::Remote(address) => ("{\"Remote\":"@, address),
        MediaView::Title(title) => ("{\"Title\":"@, title),
    };
    let (also, words) = match other {
        MediaView::LocalFile(path) => ("{\"LocalFile\":"@, escape_text(path)),
        MediaView::Remote(address) => ("{\"Remote\":"@, address),
        MediaView::Title(title) => ("{\"Title\":"@, title),
    };
    let x = media_json(one);
    let y = media_json(other);
    assert((x + a)[2] == tag[2] && (y + b)[2] == also[2]);
    assert(tag == also);
    let close = "}"@;
    assert(x + a =~= tag + (quoted(text) + (close + a)));
    assert(y + b =~= also + (quoted(words) + (close + b)));
    lemma_the_rest_is_the_same(tag, quoted(text) + (close + a), quoted(words) + (close + b));
    law_a_string_ends_where_it_ends(text, words, close + a, close + b);
    lemma_the_rest_is_the_same(close, a, b);
    if let (MediaView::LocalFile(p), MediaView::LocalFile(q)) = (one, other) {
        lemma_an_escape_tells_the_path(p, q);
    }
}

proof fn lemma_a_state_ends_where_it_ends(
    one: PlayState,
    other: PlayState,
    a: Seq<char>,
    b: Seq<char>,
)
    requires
        state_json(one) + a == state_json(other) + b,
    ensures
        one == other,
        a == b,
{
    reveal_strlit("\"Playing\"");
    reveal_strlit("\"Paused\"");
    reveal_strlit("\"Stopped\"");
    let x = state_json(one);
    let y = state_json(other);
    assert((x + a)[1] == x[1] && (y + b)[1] == y[1]);
    assert((x + a)[2] == x[2] && (y + b)[2] == y[2]);
    assert(one == other);
    lemma_the_rest_is_the_same(x, a, b);
}

/// No two headers are written alike.
pub proof fn law_a_line_tells_its_header(one: HeaderView, other: HeaderView)
    requires
        header_json(one) == header_json(other),
    ensures
        one == other,
{
    reveal_strlit(",\"recorded_at\":");
    let open = "{\"version\":"@;
    let tag = ",\"recorded_at\":"@;
    let close = "}"@;
    let x = tag + (quoted(one.recorded_at) + close);
    let y = tag + (quoted(other.recorded_at) + close);
    assert(header_json(one) =~= open + (decimal_text(one.version as nat) + x));
    assert(header_json(other) =~= open + (decimal_text(other.version as nat) + y));
    lemma_the_rest_is_the_same(
        open,
        decimal_text(one.version as nat) + x,
        decimal_text(other.version as nat) + y,
    );
    assert(x[0] == ',' && y[0] == ',');
    law_a_number_ends_where_it_ends(one.version as nat, other.version as nat, x, y);
    lemma_the_rest_is_the_same(
        tag,
        quoted(one.recorded_at) + close,
        quoted(other.recorded_at) + close,
    );
    law_a_string_ends_where_it_ends(one.recorded_at, other.recorded_at, close, close);
}

/// A piece under its name, and what follows them.
proof fn lemma_joined_in_any_grouping(
    before: Seq<char>,
    name: Seq<char>,
    piece: Seq<char>,
    after: Seq<char>,
)
    ensures
        before + name + piece + after == before + (name + (piece + after)),
{
    assert(before + name + piece + after =~= before + (name + (piece + after)));
}

proof fn lemma_a_reading_piece_by_piece(reading: SnapshotView)
    ensures
        snapshot_json(reading) == "{\"player\":"@ + (quoted(reading.player) + (",\"media\":"@ + (
        media_json(reading.media) + (",\"state\":"@ + (state_json(reading.state) + (
        ",\"position\":"@ + (known_json(reading.position) + (",\"duration\":"@ + (known_json(
            reading.duration,
        ) + (",\"observed_at\":"@ + (span_json(reading.observed_at) + "}"@))))))))))),
{
    let close = "}"@;
    let a = "{\"player\":"@ + quoted(reading.player);
    let b = a + ",\"media\":"@ + media_json(reading.media);
    let c = b + ",\"state\":"@ + state_json(reading.state);
    let d = c + ",\"position\":"@ + known_json(reading.position);
    let e = d + ",\"duration\":"@ + known_json(reading.duration);
    let x6 = ",\"observed_at\":"@ + (span_json(reading.observed_at) + close);
    let x5 = ",\"duration\":"@ + (known_json(reading.duration) + x6);
    let x4 = ",\"position\":"@ + (known_json(reading.position) + x5);
    let x3 = ",\"state\":"@ + (state_json(reading.state) + x4);
    let x2 = ",\"media\":"@ + (media_json(reading.media) + x3);
    lemma_joined_in_any_grouping(e, ",\"observed_at\":"@, span_json(reading.observed_at), close);
    lemma_joined_in_any_grouping(d, ",\"duration\":"@, known_json(reading.duration), x6);
    lemma_joined_in_any_grouping(c, ",\"position\":"@, known_json(reading.position), x5);
    lemma_joined_in_any_grouping(b, ",\"state\":"@, state_json(reading.state), x4);
    lemma_joined_in_any_grouping(a, ",\"media\":"@, media_json(reading.media), x3);
    assert("{\"player\":"@ + quoted(reading.player) + x2 =~= "{\"player\":"@ + (quoted(
        reading.player,
    ) + x2));
}

/// No two readings are written alike: a line keeps everything its reading
/// holds, to the nanosecond and to the byte.
pub proof fn law_a_line_tells_its_reading(one: SnapshotView, other: SnapshotView)
    requires
        snapshot_json(one) == snapshot_json(other),
    ensures
        one == other,
{
    let t1 = "{\"player\":"@;
    let t2 = ",\"media\":"@;
    let t3 = ",\"state\":"@;
    let t4 = ",\"position\":"@;
    let t5 = ",\"duration\":"@;
    let t6 = ",\"observed_at\":"@;
    let close = "}"@;
    let x6 = span_json(one.observed_at) + close;
    let y6 = span_json(other.observed_at) + close;
    let x5 = known_json(one.duration) + (t6 + x6);
    let y5 = known_json(other.duration) + (t6 + y6);
    let x4 = known_json(one.position) + (t5 + x5);
    let y4 = known_json(other.position) + (t5 + y5);
    let x3 = state_json(one.state) + (t4 + x4);
    let y3 = state_json(other.state) + (t4 + y4);
    let x2 = media_json(one.media) + (t3 + x3);
    let y2 = media_json(other.media) + (t3 + y3);
    let x1 = quoted(one.player) + (t2 + x2);
    let y1 = quoted(other.player) + (t2 + y2);
    lemma_a_reading_piece_by_piece(one);
    lemma_a_reading_piece_by_piece(other);
    lemma_the_rest_is_the_same(t1, x1, y1);
    law_a_string_ends_where_it_ends(one.player, other.player, t2 + x2, t2 + y2);
    lemma_the_rest_is_the_same(t2, x2, y2);
    lemma_media_ends_where_it_ends(one.media, other.media, t3 + x3, t3 + y3);
    lemma_the_rest_is_the_same(t3, x3, y3);
    lemma_a_state_ends_where_it_ends(one.state, other.state, t4 + x4, t4 + y4);
    lemma_the_rest_is_the_same(t4, x4, y4);
    lemma_a_known_ends_where_it_ends(one.position, other.position, t5 + x5, t5 + y5);
    lemma_the_rest_is_the_same(t5, x5, y5);
    lemma_a_known_ends_where_it_ends(one.duration, other.duration, t6 + x6, t6 + y6);
    lemma_the_rest_is_the_same(t6, x6, y6);
    lemma_a_span_ends_where_it_ends(one.observed_at, other.observed_at, close, close);
}

/// A file tells its recording: no two recordings are written to one text, so
/// what was written can be read back whole.
pub proof fn law_a_file_tells_its_recording(
    header: HeaderView,
    readings: Seq<SnapshotView>,
    another: HeaderView,
    others: Seq<SnapshotView>,
)
    requires
        trace_text(header, readings) == trace_text(another, others),
    ensures
        header == another,
        readings == others,
{
    law_a_file_is_read_line_by_line(header, readings);
    law_a_file_is_read_line_by_line(another, others);
    let x = trace_jsons(header, readings);
    let y = trace_jsons(another, others);
    assert(x[0] == y[0]);
    law_a_line_tells_its_header(header, another);
    assert(x.len() == y.len());
    assert forall|i: int| 0 <= i < readings.len() implies readings[i] == others[i] by {
        assert(x[i + 1] == y[i + 1]);
        law_a_line_tells_its_reading(readings[i], others[i]);
    }
    assert(readings =~= others);
}

/// The recording a text comes to, read line by line: the first line as a header
/// and every other as a reading.
pub open spec fn recording_in(
    text: Seq<char>,
    read_header: spec_fn(Seq<char>) -> ReadHeader,
    read_snapshot: spec_fn(Seq<char>) -> ReadSnapshot,
) -> Result<(HeaderView, Seq<SnapshotView>), TraceErrorView> {
    let lines = lines_from(text, 0);
    if lines.len() == 0 {
        recording_of(None, Seq::empty())
    } else {
        recording_of(
            Some(read_header(lines[0])),
            lines.drop_first().map_values(|line: Seq<char>| read_snapshot(line)),
        )
    }
}

/// What was written is what is read, whole or cut short: from the first lines of
/// a recording's file, a parser that reads each of those lines as what was
/// written to it gives back the header and as many readings as lines were kept,
/// every one of them in its place.
pub proof fn law_what_was_written_is_read_back(
    header: HeaderView,
    readings: Seq<SnapshotView>,
    kept: int,
    read_header: spec_fn(Seq<char>) -> ReadHeader,
    read_snapshot: spec_fn(Seq<char>) -> ReadSnapshot,
)
    requires
        header.version == VERSION,
        0 <= kept <= readings.len(),
        read_header(header_json(header)) == Ok::<HeaderView, Seq<char>>(header),
        forall|i: int|
            0 <= i < kept ==> read_snapshot(snapshot_json(#[trigger] readings[i])) == Ok::<
                SnapshotView,
                Seq<char>,
            >(readings[i]),
    ensures
        recording_in(
            ended(trace_jsons(header, readings).take(kept + 1)),
            read_header,
            read_snapshot,
        ) == Ok::<(HeaderView, Seq<SnapshotView>), TraceErrorView>((header, readings.take(kept))),
        kept == readings.len() ==> recording_in(
            trace_text(header, readings),
            read_header,
            read_snapshot,
        ) == Ok::<(HeaderView, Seq<SnapshotView>), TraceErrorView>((header, readings)),
{
    let short = readings.take(kept);
    law_a_recording_can_be_cut_short(header, readings, kept);
    law_a_file_is_read_line_by_line(header, short);
    let lines = lines_from(trace_text(header, short), 0);
    let reads = lines.drop_first().map_values(|line: Seq<char>| read_snapshot(line));
    assert(reads.len() == kept);
    assert forall|i: int| 0 <= i < kept implies (#[trigger] reads[i]) == Ok::<
        SnapshotView,
        Seq<char>,
    >(readings[i]) by {
        assert(lines[i + 1] == snapshot_json(short[i]));
    }
    lemma_all_read(reads, 0);
    assert(reads.map_values(|reading: ReadSnapshot| reading->Ok_0) =~= short);
    if kept == readings.len() {
        assert(short =~= readings);
    }
}

proof fn lemma_all_read(reads: Seq<ReadSnapshot>, from: int)
    requires
        0 <= from <= reads.len(),
        forall|i: int| 0 <= i < reads.len() ==> (#[trigger] reads[i]) is Ok,
    ensures
        first_unread(reads, from) == reads.len(),
    decreases reads.len() - from,
{
    if from < reads.len() {
        lemma_all_read(reads, from + 1);
    }
}

/// What the lines of a file come to. The first has to be a header, of a version
/// that is known, and every other a reading. The first line that is not is
/// named, counted from one with the header counted.
pub proof fn law_the_first_fault_is_named(
    first: Option<ReadHeader>,
    rest: Seq<ReadSnapshot>,
    at: int,
)
    requires
        0 <= at <= rest.len(),
        forall|i: int| 0 <= i < at ==> #[trigger] rest[i] is Ok,
        at < rest.len() ==> rest[at] is Err,
    ensures
        match first {
            None => recording_of(first, rest) matches Err(TraceErrorView::Empty),
            Some(Err(said)) => recording_of(first, rest) matches Err(TraceErrorView::Header {
                source,
            }) && source == said,
            Some(Ok(header)) => if header.version != 1 {
                recording_of(first, rest) matches Err(TraceErrorView::UnsupportedVersion { found })
                    && found == header.version
            } else if at < rest.len() {
                recording_of(first, rest) matches Err(TraceErrorView::Snapshot { line, source })
                    && line == at + 2 && source == rest[at]->Err_0
            } else {
                recording_of(first, rest) matches Ok(read) && read.0 == header && read.1.len()
                    == rest.len() && forall|i: int|
                    0 <= i < rest.len() ==> rest[i] == Ok::<SnapshotView, Seq<char>>(
                        #[trigger] read.1[i],
                    )
            },
        },
{
    lemma_the_first_unread(rest, 0, at);
}

proof fn lemma_the_first_unread(rest: Seq<ReadSnapshot>, from: int, at: int)
    requires
        0 <= from <= at <= rest.len(),
        forall|i: int| 0 <= i < at ==> #[trigger] rest[i] is Ok,
        at < rest.len() ==> rest[at] is Err,
    ensures
        first_unread(rest, from) == at,
    decreases at - from,
{
    if from < at {
        assert(rest[from] is Ok);
        lemma_the_first_unread(rest, from + 1, at);
    }
}

/// A line that ends in a carriage return and a newline is the line that ends in
/// a newline, and only one carriage return is taken off it.
pub proof fn law_a_carriage_return_ends_a_line(line: Seq<char>)
    ensures
        without_return(line.push('\r')) == line,
        line.len() > 0 && line.last() != '\r' ==> without_return(line) == line,
        without_return(Seq::empty()).len() == 0,
{
    assert(line.push('\r').drop_last() =~= line);
}

/// The lines of a text are what its newlines part: the first of them, and then
/// the lines of what stands behind it. A text without a newline is one line,
/// and an empty one is none.
pub proof fn law_newlines_part_the_lines(first: Seq<char>, rest: Seq<char>)
    requires
        forall|i: int| 0 <= i < first.len() ==> first[i] != '\n',
    ensures
        first.len() > 0 ==> lines_from(first, 0) == seq![first],
        lines_from(Seq::empty(), 0).len() == 0,
        lines_from(first.push('\n') + rest, 0) == seq![without_return(first)] + lines_from(rest, 0),
{
    lemma_a_line_without_a_newline(first, 0);
    assert(first.skip(0) =~= first);
    let text = first.push('\n') + rest;
    lemma_a_line_ends_at(text, 0, first.len() as int);
    assert(text.subrange(0, first.len() as int) =~= first);
    lemma_lines_behind(first.push('\n'), rest, 0);
}

proof fn lemma_a_line_without_a_newline(text: Seq<char>, from: int)
    requires
        0 <= from <= text.len(),
        forall|i: int| 0 <= i < text.len() ==> text[i] != '\n',
    ensures
        line_end(text, from) == text.len(),
    decreases text.len() - from,
{
    if from < text.len() {
        lemma_a_line_without_a_newline(text, from + 1);
    }
}

proof fn lemma_a_line_ends_at(text: Seq<char>, from: int, end: int)
    requires
        0 <= from <= end < text.len(),
        text[end] == '\n',
        forall|i: int| from <= i < end ==> text[i] != '\n',
    ensures
        line_end(text, from) == end,
    decreases end - from,
{
    if from < end {
        lemma_a_line_ends_at(text, from + 1, end);
    }
}

proof fn lemma_an_end_behind(head: Seq<char>, rest: Seq<char>, from: int)
    requires
        0 <= from <= rest.len(),
    ensures
        line_end(head + rest, head.len() + from) == head.len() + line_end(rest, from),
    decreases rest.len() - from,
{
    if from < rest.len() {
        assert((head + rest)[head.len() + from] == rest[from]);
        if rest[from] != '\n' {
            lemma_an_end_behind(head, rest, from + 1);
        }
    }
}

proof fn lemma_lines_behind(head: Seq<char>, rest: Seq<char>, from: int)
    requires
        0 <= from <= rest.len(),
    ensures
        lines_from(head + rest, head.len() + from) == lines_from(rest, from),
    decreases rest.len() - from,
{
    let text = head + rest;
    if from < rest.len() {
        lemma_an_end_behind(head, rest, from);
        lemma_a_line_ends_within(rest, from);
        let end = line_end(rest, from);
        if end >= rest.len() {
            assert(text.skip(head.len() + from) =~= rest.skip(from));
        } else {
            assert(text.subrange(head.len() + from, head.len() + end) =~= rest.subrange(from, end));
            lemma_lines_behind(head, rest, end + 1);
        }
    }
}

} // verus!
