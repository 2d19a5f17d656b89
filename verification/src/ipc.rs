//! Answering a client on the local socket.
//!
//! One connection carries a request on one line, and the answers to it on one
//! line each. What the lines say is [`crate::protocol`]; here is where the
//! socket is, whether it may be bound, and what each request is answered with.
//! Nothing here reads or writes: whatever carries the lines hands in what
//! arrived and sends what comes back.

use vstd::prelude::*;

use crate::bus::BusEvent;
#[allow(unused_imports)]
use crate::bus::EventView;
use crate::detection::{Round, Seen};
#[allow(unused_imports)]
use crate::detection::{source_views, SourceView};
use crate::policy::PolicyTable;
#[allow(unused_imports)]
use crate::policy::{law_setting_a_policy, policy_of, with_policy, Policy, TableView};
use crate::protocol::{listing, Explanation, Request, Response};
#[allow(unused_imports)]
use crate::protocol::{
    explained, listed_under, listed_with, listing_views, ExplanationView, RequestView,
    ResponseView,
};
use crate::recognition::Decided;
#[allow(unused_imports)]
use crate::recognition::{decision_view, DecisionView};
use crate::text::decimal;
#[allow(unused_imports)]
use crate::text::{decimal_text, digit};

verus! {

// Where the socket is.

/// The byte that separates the names of a path.
pub const SEPARATOR: u8 = 0x2f;

/// The mode the socket's directory must have: reachable by its owner and by
/// nobody else.
pub const PRIVATE: u32 = 0o700;

/// The socket's name inside whichever directory holds it: `benshi.sock`.
pub open spec fn socket_name() -> Seq<u8> {
    seq![0x62, 0x65, 0x6e, 0x73, 0x68, 0x69, 0x2e, 0x73, 0x6f, 0x63, 0x6b]
}

/// The directory the fallback puts the socket in, beneath the temporary one:
/// `benshi`.
pub open spec fn fallback_directory() -> Seq<u8> {
    seq![0x62, 0x65, 0x6e, 0x73, 0x68, 0x69]
}

/// A name beneath a directory: a separator stands between the two, unless the
/// directory ends in one or is no directory at all.
pub open spec fn beneath(directory: Seq<u8>, name: Seq<u8>) -> Seq<u8> {
    if directory.len() == 0 || directory.last() == SEPARATOR {
        directory + name
    } else {
        directory.push(SEPARATOR) + name
    }
}

/// Where the daemon listens, given a session's directories.
pub open spec fn socket_at(runtime: Option<Seq<u8>>, temporary: Seq<u8>) -> Seq<u8> {
    match runtime {
        Some(directory) => beneath(directory, socket_name()),
        None => beneath(beneath(temporary, fallback_directory()), socket_name()),
    }
}

fn put_beneath(path: &mut Vec<u8>, name: &[u8])
    ensures
        final(path)@ == beneath(old(path)@, name@),
{
    let ghost directory = path@;
    if path.len() > 0 && path[path.len() - 1] != SEPARATOR {
        path.push(SEPARATOR);
    }
    let ghost head = path@;
    let mut i: usize = 0;
    assert(head + name@.take(0) =~= head);
    while i < name.len()
        invariant
            i <= name@.len(),
            path@ == head + name@.take(i as int),
        decreases name@.len() - i,
    {
        path.push(name[i]);
        assert(head + name@.take(i + 1) =~= (head + name@.take(i as int)).push(name@[i as int]));
        i += 1;
    }
    assert(name@.take(i as int) =~= name@);
}

/// Where the daemon listens, given a session's directories, each by the bytes
/// of its path.
///
/// The runtime directory is the right place where the session gives one:
/// per-user, mode 0700, usually a tmpfs, and emptied when the user's last
/// session ends, so a socket cannot outlive the login it belonged to.
///
/// Without a runtime directory the socket goes into a directory of its own
/// beneath the temporary one rather than straight into it. A temporary
/// directory is usually `/tmp`, which every user on the machine can write to,
/// so a name both users compute the same is a name either of them may create
/// first: whoever loses cannot bind, and a client asking for that name has no
/// way to tell whose daemon answers. One directory, mode 0700, closes both: the
/// second user cannot enter it and finds out at once rather than by accident.
pub fn socket_path_from(runtime_dir: Option<&[u8]>, temporary_dir: &[u8]) -> (path: Vec<u8>)
    ensures
        path@ == socket_at(
            match runtime_dir {
                Some(directory) => Some(directory@),
                None => None,
            },
            temporary_dir@,
        ),
{
    let name: Vec<u8> = vec![0x62, 0x65, 0x6e, 0x73, 0x68, 0x69, 0x2e, 0x73, 0x6f, 0x63, 0x6b];
    assert(name@ =~= socket_name());
    let mut path = match runtime_dir {
        Some(directory) => vstd::slice::slice_to_vec(directory),
        None => {
            let own: Vec<u8> = vec![0x62, 0x65, 0x6e, 0x73, 0x68, 0x69];
            assert(own@ =~= fallback_directory());
            let mut beneath_it = vstd::slice::slice_to_vec(temporary_dir);
            put_beneath(&mut beneath_it, own.as_slice());
            beneath_it
        },
    };
    put_beneath(&mut path, name.as_slice());
    path
}

// Whether it may be bound.

/// What became of knocking on a socket that already exists.
#[derive(Debug, Clone, Copy, PartialEq, Eq, Structural)]
pub enum Knock {
    /// Something answered.
    Answered,
    /// The connection was refused.
    Refused,
    /// It failed in any other way.
    Failed,
}

/// Whether something is still listening on a socket that already exists.
///
/// A unix socket is a file that outlives the process that bound it, so a daemon
/// killed outright leaves one behind and the next start would be refused. The
/// only way to tell a leftover from a running daemon is to try it. A refused
/// connection is the one answer that proves nobody is there; every other answer
/// is read as a daemon that is running, because that is the side to be wrong
/// on.
pub fn still_listening(knock: Knock) -> (answer: bool)
    ensures
        answer == (knock != Knock::Refused),
{
    match knock {
        Knock::Refused => false,
        Knock::Answered | Knock::Failed => true,
    }
}

/// What is done about a socket before it is bound.
#[derive(Debug, Clone, Copy, PartialEq, Eq, Structural)]
pub enum Binding {
    /// It is bound as it is: nothing stands there.
    Bind,
    /// What stands there is removed first, and then it is bound.
    Replace,
    /// It is left alone: a daemon is listening there.
    Refuse,
}

/// What is done about a socket before it is bound, where the answer of knocking
/// on it is given if something stands there.
pub open spec fn binding(standing: Option<Knock>) -> Binding {
    match standing {
        None => Binding::Bind,
        Some(Knock::Refused) => Binding::Replace,
        Some(_) => Binding::Refuse,
    }
}

/// What is done about a socket before it is bound.
///
/// A socket left behind by a daemon that did not shut down cleanly is replaced.
/// One a daemon is still listening on is not: taking it would leave the first
/// daemon running and unreachable, with nothing anywhere to say so.
pub fn may_bind(standing: Option<Knock>) -> (answer: Binding)
    ensures
        answer == binding(standing),
{
    match standing {
        None => Binding::Bind,
        Some(knock) => {
            if still_listening(knock) {
                Binding::Refuse
            } else {
                Binding::Replace
            }
        },
    }
}

/// What is said of a socket a daemon is listening on.
pub fn already_listening(path: &str) -> (message: String)
    ensures
        message@ == "a daemon is already listening on "@ + path@,
{
    let mut message = String::from_str("a daemon is already listening on ");
    message.append(path);
    message
}

/// The permissions among the bits of a mode.
pub open spec fn permissions(mode: u32) -> u32 {
    mode % 0o1000
}

/// A number written in octal, without a leading nought.
pub open spec fn octal_text(n: nat) -> Seq<char>
    decreases n,
{
    if n < 8 {
        decimal_text(n)
    } else {
        octal_text(n / 8) + decimal_text(n % 8)
    }
}

fn octal(n: u32) -> (text: String)
    ensures
        text@ == octal_text(n as nat),
    decreases n,
{
    if n < 8 {
        decimal(n as u64)
    } else {
        let mut text = octal(n / 8);
        text.append(decimal((n % 8) as u64).as_str());
        text
    }
}

/// Nothing where a directory of this mode can be reached by its owner and by
/// nobody else, and otherwise what is said of it.
///
/// A socket in a directory others can reach is one others can replace.
pub fn not_private(directory: &str, mode: u32) -> (fault: Option<String>)
    ensures
        match fault {
            None => permissions(mode) == PRIVATE,
            Some(message) => permissions(mode) != PRIVATE && message@ == directory@ + " is mode "@
                + octal_text(permissions(mode) as nat) + " and must be "@ + octal_text(
                PRIVATE as nat,
            )
                + ": a socket in a directory others can reach is one others can replace"@,
        },
{
    let reach = mode % 0o1000;
    if reach == PRIVATE {
        return None;
    }
    let mut message = String::from_str(directory);
    message.append(" is mode ");
    message.append(octal(reach).as_str());
    message.append(" and must be ");
    message.append(octal(PRIVATE).as_str());
    message.append(": a socket in a directory others can reach is one others can replace");
    Some(message)
}

// What a client is answered.

/// How a connection failed.
#[derive(Debug, Clone, Copy, PartialEq, Eq, Structural)]
pub enum Fault {
    /// The pipe was closed at the other end.
    BrokenPipe,
    /// The connection was reset.
    ConnectionReset,
    /// The connection was aborted.
    ConnectionAborted,
    /// Anything else.
    Other,
}

/// Whether a failure on a connection is the client having gone away.
///
/// A client that closed is not a failure: `benshi watch` ends with Ctrl-C, and a
/// daemon that recorded a failure every time someone stopped watching would
/// report nothing worth reading.
pub fn client_left(fault: Fault) -> (answer: bool)
    ensures
        answer == (fault != Fault::Other),
{
    match fault {
        Fault::BrokenPipe | Fault::ConnectionReset | Fault::ConnectionAborted => true,
        Fault::Other => false,
    }
}

/// What is done about one line a client sent.
#[derive(Debug, PartialEq)]
pub enum Answer {
    /// One line of answer, and the connection goes on.
    Reply(Response),
    /// A stream of events. The connection reads nothing further.
    Stream,
}

/// What is done about one line, as contracts speak of it.
pub enum AnswerView {
    /// One line of answer.
    Reply(ResponseView),
    /// A stream of events.
    Stream,
}

impl View for Answer {
    type V = AnswerView;

    open spec fn view(&self) -> AnswerView {
        match self {
            Answer::Reply(response) => AnswerView::Reply(response@),
            Answer::Stream => AnswerView::Stream,
        }
    }
}

/// What clients are answered from: the table a listing reads and a policy is
/// set in, and the records each detection round leaves behind.
#[derive(Debug)]
pub struct Server {
    policy: PolicyTable,
    seen: Seen,
    decided: Decided,
}

/// What clients are answered from, as contracts speak of it.
pub struct ServerView {
    /// The policies in force.
    pub policy: TableView,
    /// What the last round saw.
    pub seen: Seq<SourceView>,
    /// The most recent decision.
    pub decided: Option<DecisionView>,
}

impl View for Server {
    type V = ServerView;

    closed spec fn view(&self) -> ServerView {
        ServerView { policy: self.policy@, seen: self.seen@, decided: self.decided@ }
    }
}

/// A line from a client: a request, or what was said of one that is none.
pub open spec fn line_view(line: Result<Request, String>) -> Result<RequestView, Seq<char>> {
    match line {
        Ok(request) => Ok(request@),
        Err(malformed) => Err(malformed@),
    }
}

/// What one line is answered with.
pub open spec fn answered(server: ServerView, line: Result<RequestView, Seq<char>>) -> AnswerView {
    match line {
        Ok(RequestView::Sources) => AnswerView::Reply(
            ResponseView::Sources(listed_under(server.policy, server.seen)),
        ),
        Ok(RequestView::SetPolicy { .. }) => AnswerView::Reply(ResponseView::Done),
        Ok(RequestView::Watch) => AnswerView::Stream,
        Ok(RequestView::Why) => AnswerView::Reply(
            ResponseView::Why(
                match server.decided {
                    Some(decision) => Some(explained(decision)),
                    None => None,
                },
            ),
        ),
        Err(message) => AnswerView::Reply(ResponseView::Error { message }),
    }
}

/// What clients are answered from once a line was: a policy that was asked for
/// is in force, and nothing else changed.
pub open spec fn once_answered(server: ServerView, line: Result<RequestView, Seq<char>>) -> ServerView {
    match line {
        Ok(RequestView::SetPolicy { app, policy }) => ServerView {
            policy: with_policy(server.policy, app, policy),
            ..server
        },
        _ => server,
    }
}

/// What clients are answered from once a round was taken: what it saw, and what
/// it decided where it decided anything.
pub open spec fn once_taken(
    server: ServerView,
    seen: Seq<SourceView>,
    decided: Option<DecisionView>,
) -> ServerView {
    ServerView {
        policy: server.policy,
        seen,
        decided: match decided {
            Some(decision) => Some(decision),
            None => server.decided,
        },
    }
}

impl Server {
    /// A server over a table, with nothing seen and nothing decided yet.
    pub fn new(policy: PolicyTable) -> (server: Self)
        ensures
            server@ == (ServerView { policy: policy@, seen: Seq::empty(), decided: None }),
    {
        Self { policy, seen: Seen::new(), decided: Decided::new() }
    }

    /// The policies in force.
    pub fn policy(&self) -> (table: &PolicyTable)
        ensures
            table@ == self@.policy,
    {
        &self.policy
    }

    /// Take what a round left behind, and give back what it publishes.
    pub fn take(&mut self, round: Round) -> (events: Vec<BusEvent>)
        ensures
            final(self)@ == once_taken(
                old(self)@,
                source_views(round.seen@),
                decision_view(round.decided),
            ),
            events == round.events,
    {
        self.seen.record(round.seen);
        if let Some(decision) = round.decided {
            self.decided.record(decision);
        }
        round.events
    }

    /// Answer one line, which may be no request at all.
    ///
    /// A client that sent nonsense is told so and may carry on. Closing the
    /// connection would make one typo in a socat session look like a daemon
    /// that had died. A [`Request::Watch`] is the last request on its
    /// connection: what follows it is a stream rather than an answer.
    pub fn answer(&mut self, line: Result<Request, String>) -> (answer: Answer)
        ensures
            answer@ == answered(old(self)@, line_view(line)),
            final(self)@ == once_answered(old(self)@, line_view(line)),
    {
        match line {
            Ok(Request::Sources) => Answer::Reply(
                Response::Sources(listing(&self.policy, self.seen.sources())),
            ),
            Ok(Request::SetPolicy { app, policy }) => {
                self.policy.set(&app, policy);
                Answer::Reply(Response::Done)
            },
            Ok(Request::Watch) => Answer::Stream,
            Ok(Request::Why) => {
                let explanation = match self.decided.latest() {
                    Some(decision) => Some(Explanation::of(&decision)),
                    None => None,
                };
                Answer::Reply(Response::Why(explanation))
            },
            Err(message) => Answer::Reply(Response::Error { message }),
        }
    }
}

/// What a subscription to the bus came back with.
#[derive(Debug, PartialEq, Eq)]
pub enum Received {
    /// One event.
    Event(BusEvent),
    /// So many events were dropped.
    Lagged(u64),
    /// Nothing further will be published.
    Closed,
}

/// What a subscription came back with, as contracts speak of it.
pub enum ReceivedView {
    /// One event.
    Event(EventView),
    /// So many events were dropped.
    Lagged(u64),
    /// Nothing further will be published.
    Closed,
}

impl View for Received {
    type V = ReceivedView;

    open spec fn view(&self) -> ReceivedView {
        match self {
            Received::Event(event) => ReceivedView::Event(event@),
            Received::Lagged(missed) => ReceivedView::Lagged(*missed),
            Received::Closed => ReceivedView::Closed,
        }
    }
}

/// What a client that watches is sent, and nothing once the stream is over.
pub open spec fn streamed(received: ReceivedView) -> Option<ResponseView> {
    match received {
        ReceivedView::Event(event) => Some(ResponseView::Event(event)),
        ReceivedView::Lagged(missed) => Some(ResponseView::Lagged { missed }),
        ReceivedView::Closed => None,
    }
}

/// What a client that watches is sent, and nothing once the stream is over.
///
/// A daemon that is shutting down publishes nothing further, so the stream is
/// over rather than broken.
pub fn stream(received: Received) -> (response: Option<Response>)
    ensures
        match (response, streamed(received@)) {
            (Some(sent), Some(expected)) => sent@ == expected,
            (None, None) => true,
            _ => false,
        },
{
    match received {
        Received::Event(event) => Some(Response::Event(event)),
        Received::Lagged(missed) => Some(Response::Lagged { missed }),
        Received::Closed => None,
    }
}

// What answers promise.

/// A policy a client sets shows in the next listing, for every source of that
/// application, and changes no other line of it.
pub proof fn law_a_policy_that_was_set_is_listed(
    server: ServerView,
    app: Seq<char>,
    policy: Policy,
    i: int,
)
    requires
        0 <= i < server.seen.len(),
    ensures
        ({
            let now = once_answered(server, Ok(RequestView::SetPolicy { app, policy }));
            let shown = answered(now, Ok(RequestView::Sources));
            let before = listed_under(server.policy, server.seen);
            &&& shown matches AnswerView::Reply(ResponseView::Sources(listed))
            &&& listed.len() == server.seen.len()
            &&& server.seen[i].app == app ==> listed[i] == listed_with(server.seen[i], policy)
            &&& crate::recognise::glyph::lowercase_form(server.seen[i].app)
                != crate::recognise::glyph::lowercase_form(app) ==> listed[i] == before[i]
        }),
{
    law_setting_a_policy(server.policy, app, policy, server.seen[i].app);
}

/// A line that is no request is answered with what is wrong with it, and
/// changes nothing.
pub proof fn law_a_malformed_line_changes_nothing(server: ServerView, message: Seq<char>)
    ensures
        answered(server, Err(message)) == AnswerView::Reply(ResponseView::Error { message }),
        once_answered(server, Err(message)) == server,
{
}

/// Only a policy being set changes what clients are answered from: asking is
/// looking.
pub proof fn law_asking_changes_nothing(server: ServerView, request: RequestView)
    requires
        !(request is SetPolicy),
    ensures
        once_answered(server, Ok(request)) == server,
{
}

/// Two daemons of two users never meet in the temporary directory itself: the
/// socket lies in a directory of its own beneath it.
pub proof fn law_the_socket_has_a_directory_of_its_own(temporary: Seq<u8>)
    ensures
        socket_at(None, temporary) == beneath(
            beneath(temporary, fallback_directory()),
            socket_name(),
        ),
        socket_at(None, temporary) != beneath(temporary, socket_name()),
{
    let one = socket_at(None, temporary);
    let other = beneath(temporary, socket_name());
    assert(beneath(temporary, fallback_directory()).last() == 0x69);
    assert(one.len() == beneath(temporary, fallback_directory()).len() + 12);
    assert(one.len() > other.len());
}

/// Where the socket is: under the session's own directory by its name alone, and
/// without one under a directory of its own beneath the temporary one. A
/// separator is put where none stands, and never twice.
pub proof fn law_where_the_socket_is(directory: Seq<u8>)
    requires
        directory.len() > 0,
        directory.last() != 0x2f,
    ensures
        socket_at(Some(directory), Seq::empty()) == directory + seq![
            0x2f,
            0x62,
            0x65,
            0x6e,
            0x73,
            0x68,
            0x69,
            0x2e,
            0x73,
            0x6f,
            0x63,
            0x6b,
        ],
        socket_at(None, directory) == directory + seq![
            0x2f,
            0x62,
            0x65,
            0x6e,
            0x73,
            0x68,
            0x69,
            0x2f,
            0x62,
            0x65,
            0x6e,
            0x73,
            0x68,
            0x69,
            0x2e,
            0x73,
            0x6f,
            0x63,
            0x6b,
        ],
        socket_at(Some(directory.push(0x2f)), Seq::empty()) == socket_at(
            Some(directory),
            Seq::empty(),
        ),
        socket_at(None, directory.push(0x2f)) == socket_at(None, directory),
{
    let named = socket_at(Some(directory), Seq::empty());
    let fallen = socket_at(None, directory);
    assert(beneath(directory, fallback_directory()).last() == 0x69);
    assert(named =~= directory + seq![
        0x2f,
        0x62,
        0x65,
        0x6e,
        0x73,
        0x68,
        0x69,
        0x2e,
        0x73,
        0x6f,
        0x63,
        0x6b,
    ]);
    assert(fallen =~= directory + seq![
        0x2f,
        0x62,
        0x65,
        0x6e,
        0x73,
        0x68,
        0x69,
        0x2f,
        0x62,
        0x65,
        0x6e,
        0x73,
        0x68,
        0x69,
        0x2e,
        0x73,
        0x6f,
        0x63,
        0x6b,
    ]);
}

/// A session's own directory is used wherever there is one: the temporary
/// directory then decides nothing.
pub proof fn law_the_temporary_directory_is_a_fallback(
    runtime: Seq<u8>,
    one: Seq<u8>,
    other: Seq<u8>,
)
    ensures
        socket_at(Some(runtime), one) == socket_at(Some(runtime), other),
{
}

/// A socket is bound where nothing stands, replaced where the knock on it was
/// refused, and left alone on any other answer.
pub proof fn law_when_a_socket_is_bound(standing: Option<Knock>)
    ensures
        binding(standing) == Binding::Bind <==> standing is None,
        binding(standing) == Binding::Replace <==> standing == Some(Knock::Refused),
        binding(standing) == Binding::Refuse <==> standing == Some(Knock::Answered) || standing
            == Some(Knock::Failed),
{
}

/// The permissions of a mode are its last nine bits: the owner's, the group's
/// and everybody's, and nothing of what stands above them.
pub proof fn law_permissions_are_the_last_bits(above: nat, owner: nat, group: nat, others: nat)
    requires
        owner < 8,
        group < 8,
        others < 8,
        512 * above + 64 * owner + 8 * group + others <= u32::MAX,
    ensures
        ({
            let mode = (512 * above + 64 * owner + 8 * group + others) as u32;
            &&& permissions(mode) == 64 * owner + 8 * group + others
            &&& permissions(mode) == PRIVATE <==> owner == 7 && group == 0 && others == 0
        }),
{
}

/// A number in octal is written digit by digit, each of them below eight.
pub proof fn law_octal_is_written_digit_by_digit(n: nat, last: nat)
    requires
        last < 8,
    ensures
        octal_text(last) == seq![digit(last as int)],
        n > 0 ==> octal_text(8 * n + last) == octal_text(n).push(digit(last as int)),
{
    if n > 0 {
        assert((8 * n + last) / 8 == n && (8 * n + last) % 8 == last);
        assert(octal_text(8 * n + last) =~= octal_text(n).push(digit(last as int)));
    }
}

/// What each request is answered with: the sources that were seen, each with its
/// policy; what was decided last, where anything was; a stream; and for a policy
/// that was set, that it was.
pub proof fn law_what_each_request_is_answered(server: ServerView, app: Seq<char>, policy: Policy)
    ensures
        answered(server, Ok(RequestView::Sources)) == AnswerView::Reply(
            ResponseView::Sources(listed_under(server.policy, server.seen)),
        ),
        answered(server, Ok(RequestView::Watch)) is Stream,
        answered(server, Ok(RequestView::SetPolicy { app, policy })) == AnswerView::Reply(
            ResponseView::Done,
        ),
        server.decided is None ==> answered(server, Ok(RequestView::Why)) == AnswerView::Reply(
            ResponseView::Why(None),
        ),
        server.decided matches Some(decision) ==> answered(server, Ok(RequestView::Why))
            == AnswerView::Reply(ResponseView::Why(Some(explained(decision)))),
{
}

/// What a round leaves: it is seen in place of the round before it, and what it
/// decided is the answer to why from then on. A round that decided nothing
/// leaves the answer there was, and none touches a policy.
pub proof fn law_a_round_is_remembered(
    server: ServerView,
    seen: Seq<SourceView>,
    decided: Option<DecisionView>,
)
    ensures
        once_taken(server, seen, decided).seen == seen,
        once_taken(server, seen, decided).policy == server.policy,
        once_taken(server, seen, decided).decided == if decided is Some {
            decided
        } else {
            server.decided
        },
{
}

/// What a client that watches is sent: each event as it is, how many were missed
/// where some were, and nothing at the end and only there.
pub proof fn law_what_a_watcher_is_sent(received: ReceivedView)
    ensures
        match received {
            ReceivedView::Event(event) => streamed(received) == Some(ResponseView::Event(event)),
            ReceivedView::Lagged(missed) => streamed(received) == Some(
                ResponseView::Lagged { missed },
            ),
            ReceivedView::Closed => streamed(received) is None,
        },
{
}

} // verus!
