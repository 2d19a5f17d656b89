//! What each command asks the daemon, and what it makes of the answer.
//!
//! A command opens one connection, sends one request and renders what comes
//! back: one answer for `sources`, `policy` and `why`, and a stream for `watch`
//! and `record` until the daemon, the user or the clock ends it. Whatever
//! carries the lines asks here what to send, and hands in what came back.

use vstd::prelude::*;

use crate::bus::BusEvent;
#[allow(unused_imports)]
use crate::bus::EventView;
use crate::path::RawPath;
use crate::policy::Policy;
use crate::protocol::{Request, Response};
#[allow(unused_imports)]
use crate::protocol::{ExplanationView, RequestView, ResponseView};
use crate::render::{event, listing, why};
#[allow(unused_imports)]
use crate::render::{event_text, explanation_text, listing_text};
use crate::text::decimal;
#[allow(unused_imports)]
use crate::text::decimal_text;
use crate::time::Duration;
use crate::trace::{snapshot_line, TraceHeader};
#[allow(unused_imports)]
use crate::trace::{
    header_json, law_a_recording_begins_with_its_header, law_a_recording_is_appended_to, line,
    snapshot_json, trace_text, HeaderView, VERSION,
};
use crate::AppName;
#[allow(unused_imports)]
use crate::SnapshotView;

verus! {

/// A policy as it is typed on the command line.
///
/// Separate from [`Policy`] because the spelling a user types is a property of
/// this interface rather than of the domain.
#[derive(Debug, Clone, Copy, PartialEq, Eq, Structural)]
pub enum PolicyArgument {
    /// Accept the source when what it has open parses as anime.
    Auto,
    /// Accept the source whatever it has open.
    Allow,
    /// Ignore the source's readings, and keep listing it.
    Deny,
}

/// The policy an argument asks for.
pub open spec fn policy_asked(argument: PolicyArgument) -> Policy {
    match argument {
        PolicyArgument::Auto => Policy::Auto,
        PolicyArgument::Allow => Policy::Allow,
        PolicyArgument::Deny => Policy::Deny,
    }
}

impl From<PolicyArgument> for Policy {
    fn from(argument: PolicyArgument) -> (policy: Self) {
        match argument {
            PolicyArgument::Auto => Policy::Auto,
            PolicyArgument::Allow => Policy::Allow,
            PolicyArgument::Deny => Policy::Deny,
        }
    }
}

impl vstd::std_specs::convert::FromSpecImpl<PolicyArgument> for Policy {
    open spec fn obeys_from_spec() -> bool {
        true
    }

    open spec fn from_spec(argument: PolicyArgument) -> Self {
        policy_asked(argument)
    }
}

/// What a client can ask for.
#[derive(Debug, PartialEq, Eq)]
pub enum Command {
    /// List every source the daemon has seen, with its policy and capabilities.
    Sources,
    /// Print the daemon's events as they happen.
    Watch,
    /// Set what the daemon does with readings from an application.
    Policy {
        /// The application, as the listing names it.
        app: String,
        /// What to do with its readings.
        policy: PolicyArgument,
    },
    /// Write what the daemon sees into a trace file.
    Record {
        /// How long to record for.
        duration: Duration,
        /// Where to write the trace.
        output: RawPath,
    },
    /// Explain the most recent decision.
    Why,
}

/// What a command asks the daemon.
pub open spec fn asked_by(command: Command) -> RequestView {
    match command {
        Command::Sources => RequestView::Sources,
        Command::Watch => RequestView::Watch,
        Command::Policy { app, policy } => RequestView::SetPolicy {
            app: app@,
            policy: policy_asked(policy),
        },
        Command::Record { .. } => RequestView::Watch,
        Command::Why => RequestView::Why,
    }
}

impl Command {
    /// What the command asks the daemon.
    ///
    /// A recording asks for nothing of its own: it is what the daemon publishes
    /// to anyone who watches, written down.
    pub fn request(&self) -> (request: Request)
        ensures
            request@ == asked_by(*self),
    {
        match self {
            Command::Sources => Request::Sources,
            Command::Watch => Request::Watch,
            Command::Policy { app, policy } => Request::SetPolicy {
                app: AppName(app.clone()),
                policy: Policy::from(*policy),
            },
            Command::Record { .. } => Request::Watch,
            Command::Why => Request::Why,
        }
    }
}

// What each answer comes to. An answer no command of that kind expects is told
// with the words it is written down in for a programmer, which the caller has.

fn told(words: &str, unexpected: &str) -> (message: String)
    ensures
        message@ == words@ + unexpected@,
{
    let mut message = String::from_str(words);
    message.append(unexpected);
    message
}

fn told_on_a_stream(unexpected: &str) -> (message: String)
    ensures
        message@ == "the daemon sent "@ + unexpected@ + " on a stream"@,
{
    let mut message = told("the daemon sent ", unexpected);
    message.append(" on a stream");
    message
}

/// The text of a result, told apart by whether it is a failure.
pub open spec fn outcome_text(result: Result<String, String>) -> Result<Seq<char>, Seq<char>> {
    match result {
        Ok(text) => Ok(text@),
        Err(message) => Err(message@),
    }
}

/// What an answer to `sources` prints, or why it failed.
pub open spec fn sources_come_to(response: ResponseView, unexpected: Seq<char>) -> Result<
    Seq<char>,
    Seq<char>,
> {
    match response {
        ResponseView::Sources(listed) => Ok(listing_text(listed)),
        ResponseView::Error { message } => Err(message),
        _ => Err("the daemon answered a listing with "@ + unexpected),
    }
}

/// What an answer to `sources` prints, or why it failed.
pub fn sources(response: &Response, unexpected: &str) -> (printed: Result<String, String>)
    ensures
        outcome_text(printed) == sources_come_to(response@, unexpected@),
{
    match response {
        Response::Sources(listed) => Ok(listing(listed.as_slice())),
        Response::Error { message } => Err(message.clone()),
        _ => Err(told("the daemon answered a listing with ", unexpected)),
    }
}

/// What an answer to `why` prints, or why it failed.
pub open spec fn why_comes_to(response: ResponseView, unexpected: Seq<char>) -> Result<
    Seq<char>,
    Seq<char>,
> {
    match response {
        ResponseView::Why(Some(decision)) => Ok(explanation_text(decision)),
        ResponseView::Why(None) => Ok("nothing has been decided yet\n"@),
        ResponseView::Error { message } => Err(message),
        _ => Err("the daemon answered a question with "@ + unexpected),
    }
}

/// What an answer to `why` prints, or why it failed.
pub fn explain(response: &Response, unexpected: &str) -> (printed: Result<String, String>)
    ensures
        outcome_text(printed) == why_comes_to(response@, unexpected@),
{
    match response {
        Response::Why(Some(decision)) => Ok(why(Some(decision))),
        Response::Why(None) => Ok(why(None)),
        Response::Error { message } => Err(message.clone()),
        _ => Err(told("the daemon answered a question with ", unexpected)),
    }
}

/// What an answer on a stream prints as one line, or why it failed.
pub open spec fn watching_comes_to(response: ResponseView, unexpected: Seq<char>) -> Result<
    Seq<char>,
    Seq<char>,
> {
    match response {
        ResponseView::Event(happened) => Ok(event_text(happened)),
        ResponseView::Lagged { missed } => Ok(
            "... "@ + decimal_text(missed as nat) + " events missed ..."@,
        ),
        ResponseView::Error { message } => Err(message),
        _ => Err("the daemon sent "@ + unexpected + " on a stream"@),
    }
}

/// What an answer on a stream prints as one line, or why it failed.
///
/// A gap is said rather than passed over. One nobody reports reads as nothing
/// having happened, which on this stream is the one wrong answer it can give.
pub fn watch(response: &Response, unexpected: &str) -> (printed: Result<String, String>)
    ensures
        outcome_text(printed) == watching_comes_to(response@, unexpected@),
{
    match response {
        Response::Event(happened) => Ok(event(happened)),
        Response::Lagged { missed } => {
            let mut text = String::from_str("... ");
            text.append(decimal(*missed).as_str());
            text.append(" events missed ...");
            Ok(text)
        },
        Response::Error { message } => Err(message.clone()),
        _ => Err(told_on_a_stream(unexpected)),
    }
}

/// Nothing where a policy was set, and otherwise why it failed.
pub open spec fn setting_comes_to(response: ResponseView, unexpected: Seq<char>) -> Option<
    Seq<char>,
> {
    match response {
        ResponseView::Done => None,
        ResponseView::Error { message } => Some(message),
        _ => Some("the daemon answered a policy change with "@ + unexpected),
    }
}

/// Nothing where a policy was set, and otherwise why it failed.
pub fn set_policy(response: &Response, unexpected: &str) -> (failure: Option<String>)
    ensures
        match (failure, setting_comes_to(response@, unexpected@)) {
            (Some(message), Some(expected)) => message@ == expected,
            (None, None) => true,
            _ => false,
        },
{
    match response {
        Response::Done => None,
        Response::Error { message } => Some(message.clone()),
        _ => Some(told("the daemon answered a policy change with ", unexpected)),
    }
}

// A recording.

/// The last second a date is written of, counted from the Unix epoch: the one
/// before the year 10000.
pub const LAST_SECOND: u64 = 253_402_300_799;

/// The date and the time of day a number of seconds after the Unix epoch.
pub uninterp spec fn rfc3339_text(seconds: u64) -> Seq<char>;

/// `humantime::format_rfc3339_seconds` writes a moment as a date and a time of
/// day. Its result is named, and depends on the moment alone; it writes no moment
/// past the last second.
#[verifier::external_body]
fn rfc3339(seconds: u64) -> (written: String)
    requires
        seconds <= LAST_SECOND,
    ensures
        written@ == rfc3339_text(seconds),
{
    let moment = std::time::UNIX_EPOCH + std::time::Duration::from_secs(seconds);
    humantime::format_rfc3339_seconds(moment).to_string()
}

/// The header of a recording that begins a number of seconds after the Unix
/// epoch, which says when it was taken as a date and a time of day.
pub fn recording_header(seconds: u64) -> (header: TraceHeader)
    requires
        seconds <= LAST_SECOND,
    ensures
        header@ == (HeaderView { version: VERSION, recorded_at: rfc3339_text(seconds) }),
{
    TraceHeader::new(rfc3339(seconds))
}

/// What an answer adds to a recording, or why the recording fails.
pub open spec fn recording_comes_to(response: ResponseView, unexpected: Seq<char>) -> Result<
    Option<SnapshotView>,
    Seq<char>,
> {
    match response {
        ResponseView::Event(EventView::Snapshot(reading)) => Ok(Some(reading)),
        ResponseView::Event(_) => Ok(None),
        ResponseView::Lagged { missed } => Err(
            "missed "@ + decimal_text(missed as nat)
                + " readings, so this recording would have a gap in it"@,
        ),
        ResponseView::Error { message } => Err(message),
        _ => Err("the daemon sent "@ + unexpected + " on a stream"@),
    }
}

/// What a recording that ended says of itself.
pub open spec fn summary_text(readings: nat, output: Seq<char>, cut_short: bool) -> Seq<char> {
    let written = "recorded "@ + decimal_text(readings) + " readings to "@ + output;
    if cut_short {
        written + " - the daemon closed the connection before the time was up"@
    } else {
        written
    }
}

/// A recording in progress: how many readings it holds so far.
#[derive(Debug, Clone, Copy, PartialEq, Eq, Structural)]
pub struct Recording {
    /// How many readings were recorded.
    pub readings: usize,
}

/// Whether one more reading can be counted, where an answer is one.
pub open spec fn can_count(readings: usize, response: ResponseView) -> bool {
    response matches ResponseView::Event(EventView::Snapshot(_)) ==> readings < usize::MAX
}

impl Recording {
    /// A recording of nothing yet.
    pub fn new() -> (recording: Self)
        ensures
            recording.readings == 0,
    {
        Self { readings: 0 }
    }

    /// Whether one more reading can be counted, where an answer is one.
    pub fn can_count(&self, response: &Response) -> (answer: bool)
        ensures
            answer == can_count(self.readings, response@),
    {
        match response {
            Response::Event(BusEvent::Snapshot(_)) => self.readings < usize::MAX,
            _ => true,
        }
    }

    /// What an answer adds to the file, which may be nothing, or why the
    /// recording fails.
    ///
    /// A reading adds its line. A membership change or a source failing is a
    /// fact about the daemon rather than something a player reported, and a
    /// state is what a replay works out from the readings rather than reads off
    /// the file: they add nothing. A gap is the one answer a recorder must not
    /// carry on from. A trace with a hole in it replays a timeline that never
    /// happened, and nothing downstream of the file could tell.
    pub fn take(&mut self, response: &Response, unexpected: &str) -> (added: Result<
        Option<String>,
        String,
    >)
        requires
            can_count(old(self).readings, response@),
        ensures
            match (added, recording_comes_to(response@, unexpected@)) {
                (Ok(Some(text)), Ok(Some(reading))) => text@ == line(snapshot_json(reading))
                    && final(self).readings == old(self).readings + 1,
                (Ok(None), Ok(None)) => final(self).readings == old(self).readings,
                (Err(message), Err(expected)) => message@ == expected && final(self).readings
                    == old(self).readings,
                _ => false,
            },
    {
        match response {
            Response::Event(BusEvent::Snapshot(reading)) => match snapshot_line(reading) {
                Ok(text) => {
                    self.readings = self.readings + 1;
                    Ok(Some(text))
                },
                Err(unwritten) => Err(unwritten.message()),
            },
            // Named one by one rather than caught by a wildcard: an event added
            // later then has to state its own answer here, rather than going
            // missing in the same silence a lag would.
            Response::Event(
                BusEvent::SourcesChanged { .. }
                | BusEvent::SourceFailed { .. }
                | BusEvent::State(_),
            ) => Ok(None),
            Response::Lagged { missed } => {
                let mut message = String::from_str("missed ");
                message.append(decimal(*missed).as_str());
                message.append(" readings, so this recording would have a gap in it");
                Err(message)
            },
            Response::Error { message } => Err(message.clone()),
            _ => Err(told_on_a_stream(unexpected)),
        }
    }

    /// What a recording that ended says it wrote, and where.
    ///
    /// It says which of two things ended it, because twelve minutes of a
    /// ninety-minute recording and a complete one are the same message
    /// otherwise, and the difference decides whether the file is worth keeping.
    pub fn summary(&self, output: &str, cut_short: bool) -> (text: String)
        ensures
            text@ == summary_text(self.readings as nat, output@, cut_short),
    {
        let mut text = String::from_str("recorded ");
        text.append(decimal(self.readings as u64).as_str());
        text.append(" readings to ");
        text.append(output);
        if cut_short {
            text.append(" - the daemon closed the connection before the time was up");
        }
        text
    }
}

/// The readings among some answers, in order.
pub open spec fn readings_among(responses: Seq<ResponseView>) -> Seq<SnapshotView>
    decreases responses.len(),
{
    if responses.len() == 0 {
        Seq::empty()
    } else {
        let earlier = readings_among(responses.drop_last());
        match responses.last() {
            ResponseView::Event(EventView::Snapshot(reading)) => earlier.push(reading),
            _ => earlier,
        }
    }
}

/// What a file holds once some answers were recorded under a header.
pub open spec fn recorded(header: HeaderView, responses: Seq<ResponseView>) -> Seq<char>
    decreases responses.len(),
{
    if responses.len() == 0 {
        line(header_json(header))
    } else {
        let earlier = recorded(header, responses.drop_last());
        match recording_comes_to(responses.last(), Seq::empty()) {
            Ok(Some(reading)) => earlier + line(snapshot_json(reading)),
            _ => earlier,
        }
    }
}

// What commands promise.

/// A recording is a trace of the readings that were published while it ran, in
/// order, and of nothing else that was. It is one at every moment, so a
/// recording that is interrupted is a shorter one.
pub proof fn law_a_recording_keeps_readings_and_nothing_else(
    header: HeaderView,
    responses: Seq<ResponseView>,
)
    ensures
        recorded(header, responses) == trace_text(header, readings_among(responses)),
    decreases responses.len(),
{
    if responses.len() == 0 {
        law_a_recording_begins_with_its_header(header);
    } else {
        let earlier = responses.drop_last();
        law_a_recording_keeps_readings_and_nothing_else(header, earlier);
        if let ResponseView::Event(EventView::Snapshot(reading)) = responses.last() {
            law_a_recording_is_appended_to(header, readings_among(earlier), reading);
        }
    }
}

/// A recording that missed something fails rather than leaving a gap.
pub proof fn law_a_gap_fails_the_recording(missed: u64, unexpected: Seq<char>)
    ensures
        recording_comes_to(ResponseView::Lagged { missed }, unexpected) is Err,
{
}

/// What a stream misses is said on it: a gap prints how many events it was.
pub proof fn law_a_gap_is_said(missed: u64, unexpected: Seq<char>)
    ensures
        watching_comes_to(ResponseView::Lagged { missed }, unexpected) == Ok::<
            Seq<char>,
            Seq<char>,
        >("... "@ + decimal_text(missed as nat) + " events missed ..."@),
{
}

/// What each command asks: a recording asks what watching does, and a policy
/// that is set is asked for under the name and with the policy it was given.
pub proof fn law_what_each_command_asks(command: Command)
    ensures
        match command {
            Command::Sources => asked_by(command) is Sources,
            Command::Watch => asked_by(command) is Watch,
            Command::Record { .. } => asked_by(command) is Watch,
            Command::Why => asked_by(command) is Why,
            Command::Policy { app, policy } => asked_by(command) matches RequestView::SetPolicy {
                app: named,
                policy: asked,
            } && named == app@ && match policy {
                PolicyArgument::Auto => asked == Policy::Auto,
                PolicyArgument::Allow => asked == Policy::Allow,
                PolicyArgument::Deny => asked == Policy::Deny,
            },
        },
{
}

/// A command prints an answer of its own kind and fails on every other. What the
/// daemon said went wrong is handed on as it is, whatever was asked.
pub proof fn law_an_answer_of_another_kind_fails(response: ResponseView, unexpected: Seq<char>)
    ensures
        sources_come_to(response, unexpected) is Ok <==> response is Sources,
        why_comes_to(response, unexpected) is Ok <==> response is Why,
        watching_comes_to(response, unexpected) is Ok <==> response is Event || response is Lagged,
        setting_comes_to(response, unexpected) is None <==> response is Done,
        recording_comes_to(response, unexpected) is Ok <==> response is Event,
        response matches ResponseView::Error { message } ==> sources_come_to(response, unexpected)
            == Err::<Seq<char>, Seq<char>>(message) && why_comes_to(response, unexpected) == Err::<
            Seq<char>,
            Seq<char>,
        >(message) && watching_comes_to(response, unexpected) == Err::<Seq<char>, Seq<char>>(
            message,
        ) && setting_comes_to(response, unexpected) == Some(message) && recording_comes_to(
            response,
            unexpected,
        ) == Err::<Option<SnapshotView>, Seq<char>>(message),
{
}

/// An event is recorded exactly where it is a reading, and as it was published.
pub proof fn law_which_events_are_recorded(event: EventView, unexpected: Seq<char>)
    ensures
        match event {
            EventView::Snapshot(reading) => recording_comes_to(
                ResponseView::Event(event),
                unexpected,
            ) == Ok::<Option<SnapshotView>, Seq<char>>(Some(reading)),
            _ => recording_comes_to(ResponseView::Event(event), unexpected) == Ok::<
                Option<SnapshotView>,
                Seq<char>,
            >(None),
        },
{
}

/// A recording that ended says how many readings it wrote and where, and says
/// one thing more exactly where it was cut short.
pub proof fn law_a_recording_says_how_it_ended(readings: nat, output: Seq<char>)
    ensures
        summary_text(readings, output, false) == "recorded "@ + decimal_text(readings)
            + " readings to "@ + output,
        summary_text(readings, output, true) == summary_text(readings, output, false)
            + " - the daemon closed the connection before the time was up"@,
{
}

/// What is said of an answer of another kind names what came instead.
pub proof fn law_what_came_instead_is_named(response: ResponseView, unexpected: Seq<char>)
    requires
        !(response is Error),
    ensures
        !(response is Sources) ==> sources_come_to(response, unexpected) == Err::<
            Seq<char>,
            Seq<char>,
        >("the daemon answered a listing with "@ + unexpected),
        !(response is Why) ==> why_comes_to(response, unexpected) == Err::<Seq<char>, Seq<char>>(
            "the daemon answered a question with "@ + unexpected,
        ),
        !(response is Done) ==> setting_comes_to(response, unexpected) == Some(
            "the daemon answered a policy change with "@ + unexpected,
        ),
        !(response is Event) && !(response is Lagged) ==> watching_comes_to(response, unexpected)
            == Err::<Seq<char>, Seq<char>>("the daemon sent "@ + unexpected + " on a stream"@),
        !(response is Event) && !(response is Lagged) ==> recording_comes_to(response, unexpected)
            == Err::<Option<SnapshotView>, Seq<char>>(
            "the daemon sent "@ + unexpected + " on a stream"@,
        ),
        response matches ResponseView::Lagged { missed } ==> recording_comes_to(
            response,
            unexpected,
        ) == Err::<Option<SnapshotView>, Seq<char>>(
            "missed "@ + decimal_text(missed as nat)
                + " readings, so this recording would have a gap in it"@,
        ),
{
}

} // verus!
