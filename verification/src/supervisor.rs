//! Task supervision.
//!
//! Whatever runs the tasks owns every task's handle and hands each exit here.
//! That is the whole point: a restart limiter a failure can slip past is not a
//! limiter, and the only way to make it unslippable is to decide about every
//! exit rather than to remember to check something.
//!
//! The three error classes arrive by two routes, which is why none of them can
//! be forgotten. A *transient* failure is returned and retried with growing
//! backoff. A *permanent* failure is returned and stops that task; both are
//! variants of one enum and are matched exhaustively. A *bug* is a panic, and a
//! panic arrives as a failure on the handle, so it cannot be returned, ignored,
//! or caught by a task that would rather not mention it.
//!
//! Nothing here reads a clock. How long an attempt has existed is handed in
//! with its exit, by whatever slept before the attempt began, so the delay and
//! the time it is taken off are measured on one clock.

use vstd::arithmetic::power2::pow2;
#[allow(unused_imports)]
use vstd::arithmetic::power2::{
    lemma2_to64, lemma_pow2_pos, lemma_pow2_strictly_increases, lemma_pow2_unfold,
};
use vstd::prelude::*;

use crate::time::Duration;
#[allow(unused_imports)]
use crate::time::less;

verus! {

/// How many times in a row a task is restarted after a panic before it is left
/// stopped.
///
/// A panic is a bug, and a bug that fires on every attempt will fire on the
/// next one too. Restarting a few times covers the case where the bug needed a
/// particular input that has since passed; going on forever turns a crash loop
/// into a busy loop that hides it.
///
/// In a row, and not in total: an attempt that ran for [`PROGRESS_INTERVAL`]
/// before panicking starts the count again. A budget spent once and never
/// renewed would stop a task for the life of the process over a minute of
/// trouble it had long since recovered from.
pub const RESTART_LIMIT: u32 = 5;

/// How long to wait before the first retry of a transient failure, in
/// nanoseconds.
pub const BACKOFF_BASE: u64 = 1_000_000_000;

/// The longest a retry is ever delayed, in nanoseconds.
///
/// A transient failure is something that is expected to pass: a bus that is
/// restarting, a network that is down. Doubling without a ceiling would leave a
/// task asleep for hours after an outage it has long recovered from.
pub const BACKOFF_CEILING: u64 = 60_000_000_000;

/// How long a task must run before a panic counts as new trouble rather than
/// the continuation of a crash loop, in nanoseconds.
///
/// [`RESTART_LIMIT`] counts consecutive failures, and consecutive has to mean
/// something in time. An attempt that ran this long did work, so the panic
/// that ends it starts a fresh count. Without that, six panics inside one
/// millisecond spend the entire budget - a panic is restarted with no delay -
/// and the task never runs again however long the process lives, which is the
/// opposite of what a restart limit is for.
///
/// A minute, because the shortest-lived thing this will supervise polls once a
/// second, so a minute is sixty rounds of real work.
///
/// It equals [`BACKOFF_CEILING`] and is not derived from it: neither number
/// follows from the other and changing one must not change the other. The
/// equality is worth knowing about rather than ignoring, because it is the
/// worst case for this rule. A task retried at the ceiling sleeps for exactly
/// this long, so an attempt that woke and panicked at once would look like a
/// full interval of work. Subtracting the delay before comparing is what stops
/// it, and [`law_a_crash_loop_is_stopped`] is what holds that there.
pub const PROGRESS_INTERVAL: u64 = 60_000_000_000;

/// Why a task failed, in the two classes a task can report about itself, each
/// with what was said of it.
///
/// The third class, a bug, is not here and cannot be: it arrives as a panic on
/// the task's handle.
#[derive(Debug, PartialEq, Eq)]
pub enum TaskError {
    /// Expected to pass on its own. Retried with backoff.
    Transient(String),
    /// Will not pass on its own. Stops the task.
    Permanent(String),
}

/// Why a task failed, as contracts speak of it.
pub enum TaskErrorView {
    /// Expected to pass on its own.
    Transient(Seq<char>),
    /// Will not pass on its own.
    Permanent(Seq<char>),
}

impl View for TaskError {
    type V = TaskErrorView;

    open spec fn view(&self) -> TaskErrorView {
        match self {
            TaskError::Transient(reason) => TaskErrorView::Transient(reason@),
            TaskError::Permanent(reason) => TaskErrorView::Permanent(reason@),
        }
    }
}

impl TaskError {
    /// The failure, told to the user.
    pub fn message(&self) -> (message: String)
        ensures
            message@ == match self@ {
                TaskErrorView::Transient(reason) => reason,
                TaskErrorView::Permanent(reason) => reason,
            },
    {
        match self {
            TaskError::Transient(reason) => reason.clone(),
            TaskError::Permanent(reason) => reason.clone(),
        }
    }
}

/// Why a task is no longer running.
#[derive(Debug, PartialEq, Eq)]
pub enum Stopped {
    /// It finished what it was doing and returned.
    Finished,
    /// A failure that will not pass, rendered here for a person. Usually one
    /// the task reported; a task cancelled from outside is recorded here too,
    /// because it is not coming back either.
    Permanent(String),
    /// It kept panicking. The last panic is rendered here.
    Exhausted(String),
}

/// Why a task is no longer running, as contracts speak of it.
pub enum StoppedView {
    /// It finished.
    Finished,
    /// A failure that will not pass.
    Permanent(Seq<char>),
    /// It kept panicking.
    Exhausted(Seq<char>),
}

impl View for Stopped {
    type V = StoppedView;

    open spec fn view(&self) -> StoppedView {
        match self {
            Stopped::Finished => StoppedView::Finished,
            Stopped::Permanent(reason) => StoppedView::Permanent(reason@),
            Stopped::Exhausted(reason) => StoppedView::Exhausted(reason@),
        }
    }
}

impl Clone for Stopped {
    fn clone(&self) -> (copy: Self)
        ensures
            copy@ == self@,
    {
        match self {
            Stopped::Finished => Stopped::Finished,
            Stopped::Permanent(reason) => Stopped::Permanent(reason.clone()),
            Stopped::Exhausted(reason) => Stopped::Exhausted(reason.clone()),
        }
    }
}

impl Stopped {
    /// The reason, told to the user beside the task's name.
    pub fn message(&self) -> (message: String)
        ensures
            message@ == match self@ {
                StoppedView::Finished => "finished"@,
                StoppedView::Permanent(reason) => "stopped: "@ + reason,
                StoppedView::Exhausted(reason) => "kept panicking: "@ + reason,
            },
    {
        match self {
            Stopped::Finished => String::from_str("finished"),
            Stopped::Permanent(reason) => {
                let mut message = String::from_str("stopped: ");
                message.append(reason.as_str());
                message
            },
            Stopped::Exhausted(reason) => {
                let mut message = String::from_str("kept panicking: ");
                message.append(reason.as_str());
                message
            },
        }
    }
}

/// What became of one supervised task.
#[derive(Debug, PartialEq, Eq)]
pub struct TaskRecord {
    /// The name it was supervised under.
    pub name: String,
    /// How many times it was started again after failing.
    pub restarts: u32,
    /// Why it is no longer running.
    pub stopped_by: Stopped,
}

/// What became of one supervised task, as contracts speak of it.
pub struct RecordView {
    /// The name it was supervised under.
    pub name: Seq<char>,
    /// How many times it was started again after failing.
    pub restarts: nat,
    /// Why it is no longer running.
    pub stopped_by: StoppedView,
}

impl View for TaskRecord {
    type V = RecordView;

    open spec fn view(&self) -> RecordView {
        RecordView {
            name: self.name@,
            restarts: self.restarts as nat,
            stopped_by: self.stopped_by@,
        }
    }
}

impl Clone for TaskRecord {
    fn clone(&self) -> (copy: Self)
        ensures
            copy@ == self@,
    {
        TaskRecord {
            name: self.name.clone(),
            restarts: self.restarts,
            stopped_by: self.stopped_by.clone(),
        }
    }
}

/// How one attempt at a task ended.
#[derive(Debug, PartialEq, Eq)]
pub enum Ended {
    /// It returned.
    Returned(Result<(), TaskError>),
    /// It panicked.
    Panicked {
        /// What the panic said, where it carried a message.
        message: Option<String>,
        /// How long ago the attempt was started, its delay included.
        elapsed: Duration,
    },
    /// Its handle was taken from outside.
    Cancelled,
}

/// How one attempt at a task ended, as contracts speak of it.
pub enum EndedView {
    /// It returned without a failure.
    Finished,
    /// It returned a failure.
    Failed(TaskErrorView),
    /// It panicked.
    Panicked {
        /// What the panic said.
        message: Option<Seq<char>>,
        /// How long ago the attempt was started, in nanoseconds.
        elapsed: nat,
    },
    /// Its handle was taken from outside.
    Cancelled,
}

impl View for Ended {
    type V = EndedView;

    open spec fn view(&self) -> EndedView {
        match self {
            Ended::Returned(Ok(())) => EndedView::Finished,
            Ended::Returned(Err(error)) => EndedView::Failed(error@),
            Ended::Panicked { message, elapsed } => EndedView::Panicked {
                message: match message {
                    Some(said) => Some(said@),
                    None => None,
                },
                elapsed: elapsed@,
            },
            Ended::Cancelled => EndedView::Cancelled,
        }
    }
}

/// What is done with a task whose attempt ended.
#[derive(Debug, Clone, Copy, PartialEq, Eq)]
pub enum Next {
    /// It is started again after a delay, which may be none.
    Start {
        /// How long it sleeps before it begins.
        delay: Duration,
    },
    /// It is left stopped.
    Stop,
}

/// How long to wait before the `restarts`-th restart of a transient failure, in
/// nanoseconds.
pub open spec fn backoff_span(restarts: nat) -> nat {
    let before = if restarts == 0 {
        0
    } else {
        (restarts - 1) as nat
    };
    let doubling = pow2(if before <= 16 {
        before
    } else {
        16
    });
    if BACKOFF_BASE * doubling <= BACKOFF_CEILING {
        (BACKOFF_BASE * doubling) as nat
    } else {
        BACKOFF_CEILING as nat
    }
}

/// How long to wait before the `restarts`-th restart of a transient failure.
///
/// Doubling, from [`BACKOFF_BASE`] and never past [`BACKOFF_CEILING`]. Only a
/// transient failure is delayed: it is retried without limit, so it needs the
/// throttle. A panic is retried at most [`RESTART_LIMIT`] times, and a bounded
/// retry cannot run away.
pub fn backoff(restarts: u32) -> (delay: Duration)
    ensures
        delay@ == backoff_span(restarts as nat),
{
    // `restarts` is unbounded for a transient failure, and an exponent large
    // enough to overflow would wrap to a short delay, turning the throttle into
    // its opposite. The clamp is what prevents that.
    let before: u32 = if restarts == 0 {
        0
    } else {
        restarts - 1
    };
    let times: u32 = if before <= 16 {
        before
    } else {
        16
    };
    let mut doubling: u64 = 1;
    let mut i: u32 = 0;
    proof {
        lemma2_to64();
    }
    while i < times
        invariant
            i <= times <= 16,
            doubling == pow2(i as nat),
            pow2(16) == 0x10000,
            1 <= doubling <= 0x10000,
        decreases times - i,
    {
        proof {
            lemma_pow2_unfold((i + 1) as nat);
            if i + 1 < 16 {
                lemma_pow2_strictly_increases((i + 1) as nat, 16);
            }
        }
        doubling = doubling * 2;
        i += 1;
    }
    let delay = BACKOFF_BASE * doubling;
    if delay <= BACKOFF_CEILING {
        Duration::from_nanos(delay)
    } else {
        Duration::from_nanos(BACKOFF_CEILING)
    }
}

/// One task and what has happened to it so far.
#[derive(Debug)]
pub struct Supervised {
    name: String,
    restarts: u32,
    panics: u32,
    /// How much of the current attempt was spent asleep before it began. Taken
    /// off the time since it was started, it leaves how long it actually ran,
    /// which is what decides whether a panic continues a crash loop.
    last_delay: Duration,
    /// `None` for as long as it is still running.
    stopped_by: Option<Stopped>,
}

/// One task and what has happened to it, as contracts speak of it.
pub struct SupervisedView {
    /// The name it is supervised under.
    pub name: Seq<char>,
    /// How many times it was started again.
    pub restarts: nat,
    /// How many of those were panics in a row.
    pub panics: nat,
    /// How long the current attempt slept before it began.
    pub last_delay: nat,
    /// Why it stopped, where it has.
    pub stopped_by: Option<StoppedView>,
}

impl View for Supervised {
    type V = SupervisedView;

    closed spec fn view(&self) -> SupervisedView {
        SupervisedView {
            name: self.name@,
            restarts: self.restarts as nat,
            panics: self.panics as nat,
            last_delay: self.last_delay@,
            stopped_by: match self.stopped_by {
                Some(reason) => Some(reason@),
                None => None,
            },
        }
    }
}

/// A task as it is taken, before its first attempt.
pub open spec fn newly_supervised(name: Seq<char>) -> SupervisedView {
    SupervisedView { name, restarts: 0, panics: 0, last_delay: 0, stopped_by: None }
}

/// How long an attempt ran, its delay taken off.
pub open spec fn ran_for(task: SupervisedView, elapsed: nat) -> nat {
    less(elapsed, task.last_delay)
}

/// How many panics in a row a task has behind it when one more arrives: those
/// it had, or none where the attempt got work done first.
pub open spec fn panics_behind(task: SupervisedView, elapsed: nat) -> nat {
    if ran_for(task, elapsed) >= PROGRESS_INTERVAL {
        0
    } else {
        task.panics
    }
}

/// What a panic said, as far as it can be recovered.
pub open spec fn panic_text(message: Option<Seq<char>>) -> Seq<char> {
    match message {
        Some(said) => said,
        None => "a panic carrying no message"@,
    }
}

/// A task that stopped for a reason.
pub open spec fn stopped(task: SupervisedView, reason: StoppedView) -> SupervisedView {
    SupervisedView { stopped_by: Some(reason), ..task }
}

/// A task once an attempt at it ended.
pub open spec fn after(task: SupervisedView, ended: EndedView) -> SupervisedView {
    match ended {
        EndedView::Finished => stopped(task, StoppedView::Finished),
        EndedView::Failed(TaskErrorView::Permanent(reason)) => stopped(
            task,
            StoppedView::Permanent(reason),
        ),
        EndedView::Failed(TaskErrorView::Transient(_)) => SupervisedView {
            restarts: task.restarts + 1,
            last_delay: backoff_span(task.restarts + 1),
            ..task
        },
        EndedView::Panicked { message, elapsed } => {
            let behind = panics_behind(task, elapsed);
            if behind >= RESTART_LIMIT {
                stopped(
                    SupervisedView { panics: behind, ..task },
                    StoppedView::Exhausted(panic_text(message)),
                )
            } else {
                SupervisedView {
                    restarts: task.restarts + 1,
                    panics: behind + 1,
                    last_delay: 0,
                    ..task
                }
            }
        },
        EndedView::Cancelled => stopped(task, StoppedView::Permanent("the task was cancelled"@)),
    }
}

/// Whether an attempt at a task may end this way: the task has not stopped, and
/// how often it was started again can still be counted.
pub open spec fn may_take(task: SupervisedView, ended: EndedView) -> bool {
    task.stopped_by is None && after(task, ended).restarts <= u32::MAX
}

/// What is done with a task is what its state says: it is started again after
/// the delay it holds, unless it stopped.
pub open spec fn follows(next: Next, task: SupervisedView) -> bool {
    match next {
        Next::Start { delay } => task.stopped_by is None && delay@ == task.last_delay,
        Next::Stop => task.stopped_by is Some,
    }
}

impl Supervised {
    /// A task, to be started when the supervisor runs.
    pub fn new(name: &str) -> (task: Self)
        ensures
            task@ == newly_supervised(name@),
    {
        Self {
            name: name.to_owned(),
            restarts: 0,
            panics: 0,
            last_delay: Duration::zero(),
            stopped_by: None,
        }
    }

    /// Whether an attempt at the task is still to end.
    pub fn is_running(&self) -> (answer: bool)
        ensures
            answer == (self@.stopped_by is None),
    {
        self.stopped_by.is_none()
    }

    /// Whether an attempt may end this way: the task has not stopped, and where
    /// it is to be started again it can be counted as started once more.
    pub fn expects(&self, ended: &Ended) -> (answer: bool)
        ensures
            answer == may_take(self@, ended@),
    {
        let stays_stopped = match ended {
            Ended::Returned(Err(TaskError::Transient(_))) => false,
            Ended::Panicked { message: _, elapsed } => {
                let ran_for = elapsed.saturating_sub(self.last_delay);
                self.panics >= RESTART_LIMIT && Duration::from_nanos(PROGRESS_INTERVAL).exceeds(
                    ran_for,
                )
            },
            _ => true,
        };
        self.is_running() && (stays_stopped || self.restarts < u32::MAX)
    }

    /// Take the end of an attempt, and say what is done with the task.
    pub fn take(&mut self, ended: Ended) -> (next: Next)
        requires
            may_take(old(self)@, ended@),
        ensures
            final(self)@ == after(old(self)@, ended@),
            follows(next, final(self)@),
    {
        match ended {
            Ended::Returned(Ok(())) => {
                self.stopped_by = Some(Stopped::Finished);
                Next::Stop
            },
            Ended::Returned(Err(TaskError::Permanent(reason))) => {
                self.stopped_by = Some(Stopped::Permanent(reason));
                Next::Stop
            },
            Ended::Returned(Err(TaskError::Transient(_))) => {
                self.restarts = self.restarts + 1;
                let delay = backoff(self.restarts);
                self.last_delay = delay;
                Next::Start { delay }
            },
            Ended::Panicked { message, elapsed } => {
                let reason = match message {
                    Some(said) => said,
                    None => String::from_str("a panic carrying no message"),
                };
                // An attempt that ran longer than the progress interval got
                // work done, so the panic that ended it starts a new count
                // rather than continuing the last one.
                let ran_for = elapsed.saturating_sub(self.last_delay);
                if !Duration::from_nanos(PROGRESS_INTERVAL).exceeds(ran_for) {
                    self.panics = 0;
                }
                if self.panics >= RESTART_LIMIT {
                    self.stopped_by = Some(Stopped::Exhausted(reason));
                    Next::Stop
                } else {
                    self.panics = self.panics + 1;
                    self.restarts = self.restarts + 1;
                    self.last_delay = Duration::zero();
                    Next::Start { delay: self.last_delay }
                }
            },
            // Nothing here aborts a task, so a cancellation means something
            // else reached in and took the handle. Recorded rather than guessed
            // at.
            Ended::Cancelled => {
                self.stopped_by = Some(
                    Stopped::Permanent(String::from_str("the task was cancelled")),
                );
                Next::Stop
            },
        }
    }
}

/// A set of tasks, each of whose exits is decided about here and nowhere else.
#[derive(Debug)]
pub struct Supervisor {
    tasks: Vec<Supervised>,
}

/// Each of some tasks, as contracts speak of it.
pub open spec fn task_views(tasks: Seq<Supervised>) -> Seq<SupervisedView> {
    tasks.map_values(|task: Supervised| task@)
}

/// Each of some records, as contracts speak of it.
pub open spec fn record_views(records: Seq<TaskRecord>) -> Seq<RecordView> {
    records.map_values(|record: TaskRecord| record@)
}

impl View for Supervisor {
    type V = Seq<SupervisedView>;

    closed spec fn view(&self) -> Seq<SupervisedView> {
        task_views(self.tasks@)
    }
}

/// What became of a task that stopped.
pub open spec fn record_of(task: SupervisedView) -> RecordView {
    RecordView { name: task.name, restarts: task.restarts, stopped_by: task.stopped_by->Some_0 }
}

/// What became of each of some tasks, where every one of them stopped.
pub open spec fn records_of(tasks: Seq<SupervisedView>) -> Option<Seq<RecordView>> {
    if forall|i: int| 0 <= i < tasks.len() ==> (#[trigger] tasks[i]).stopped_by is Some {
        Some(tasks.map_values(|task: SupervisedView| record_of(task)))
    } else {
        None
    }
}

impl Supervisor {
    /// A supervisor with nothing to supervise yet.
    pub fn new() -> (supervisor: Self)
        ensures
            supervisor@ == Seq::<SupervisedView>::empty(),
    {
        let supervisor = Self { tasks: Vec::new() };
        assert(supervisor@ =~= Seq::<SupervisedView>::empty());
        supervisor
    }

    /// How many tasks are supervised.
    pub fn count(&self) -> (count: usize)
        ensures
            count == self@.len(),
    {
        self.tasks.len()
    }

    /// Take a task, to be started when the supervisor runs, and say under which
    /// number it is known.
    pub fn supervise(&mut self, name: &str) -> (index: usize)
        ensures
            final(self)@ == old(self)@.push(newly_supervised(name@)),
            index == old(self)@.len(),
    {
        let ghost before = self@;
        let index = self.tasks.len();
        self.tasks.push(Supervised::new(name));
        assert(self@ =~= before.push(newly_supervised(name@)));
        index
    }

    /// Whether an attempt at a task may end this way: there is such a task, it
    /// has not stopped, and where it is to be started again it can be counted as
    /// started once more.
    pub fn expects(&self, index: usize, ended: &Ended) -> (answer: bool)
        ensures
            answer == (index < self@.len() && may_take(self@[index as int], ended@)),
    {
        index < self.tasks.len() && self.tasks[index].expects(ended)
    }

    /// Take the end of an attempt at a task, and say what is done with it. No
    /// other task is touched.
    pub fn take(&mut self, index: usize, ended: Ended) -> (next: Next)
        requires
            index < old(self)@.len(),
            may_take(old(self)@[index as int], ended@),
        ensures
            final(self)@ == old(self)@.update(
                index as int,
                after(old(self)@[index as int], ended@),
            ),
            follows(next, final(self)@[index as int]),
    {
        let ghost before = self@;
        assert(before[index as int] == self.tasks@[index as int]@);
        let next = self.tasks[index].take(ended);
        assert(self@ =~= before.update(index as int, after(before[index as int], ended@)));
        next
    }

    /// One record per task, in the order they were supervised, once none is
    /// left running, and nothing before that.
    pub fn records(&self) -> (records: Option<Vec<TaskRecord>>)
        ensures
            match (records, records_of(self@)) {
                (Some(kept), Some(expected)) => record_views(kept@) == expected,
                (None, None) => true,
                _ => false,
            },
    {
        let mut records: Vec<TaskRecord> = Vec::new();
        let ghost all = self@;
        let mut i: usize = 0;
        while i < self.tasks.len()
            invariant
                i <= self.tasks@.len(),
                all == task_views(self.tasks@),
                all == self@,
                forall|j: int| 0 <= j < i ==> (#[trigger] all[j]).stopped_by is Some,
                record_views(records@) == all.take(i as int).map_values(
                    |task: SupervisedView| record_of(task),
                ),
            decreases self.tasks@.len() - i,
        {
            assert(all[i as int] == self.tasks@[i as int]@);
            let ghost before = record_views(records@);
            match &self.tasks[i].stopped_by {
                None => return None,
                Some(reason) => records.push(
                    TaskRecord {
                        name: self.tasks[i].name.clone(),
                        restarts: self.tasks[i].restarts,
                        stopped_by: reason.clone(),
                    },
                ),
            }
            assert(record_views(records@) =~= before.push(record_of(all[i as int])));
            assert(all.take(i + 1).map_values(|task: SupervisedView| record_of(task)) =~= before.push(
                record_of(all[i as int]),
            ));
            i += 1;
        }
        assert(all.take(i as int) =~= all);
        Some(records)
    }
}

// What supervision promises.

/// A wait never shrinks as the failures go on, and never passes the ceiling.
/// Until it reaches the ceiling each wait is twice the one before it.
pub proof fn law_the_backoff_grows_to_its_ceiling(restarts: nat)
    ensures
        backoff_span(restarts) <= backoff_span(restarts + 1) <= BACKOFF_CEILING,
        backoff_span(1) == BACKOFF_BASE,
        1 <= restarts && 2 * backoff_span(restarts) <= BACKOFF_CEILING ==> backoff_span(
            restarts + 1,
        ) == 2 * backoff_span(restarts),
        restarts >= 7 ==> backoff_span(restarts) == BACKOFF_CEILING,
{
    lemma2_to64();
    if restarts >= 1 {
        let before = (restarts - 1) as nat;
        if before < 16 {
            lemma_pow2_unfold(restarts);
        }
        if 6 < before && before <= 16 {
            lemma_pow2_strictly_increases(6, before);
        }
        if 6 < restarts && restarts <= 16 {
            lemma_pow2_strictly_increases(6, restarts);
        }
    }
}

/// A failure that will not pass stops the task at once and is never retried,
/// and the reason is kept.
pub proof fn law_a_permanent_failure_is_not_retried(task: SupervisedView, reason: Seq<char>)
    ensures
        after(task, EndedView::Failed(TaskErrorView::Permanent(reason))).stopped_by == Some(
            StoppedView::Permanent(reason),
        ),
        after(task, EndedView::Failed(TaskErrorView::Permanent(reason))).restarts == task.restarts,
{
}

/// A failure expected to pass never stops a task, however often it comes.
pub proof fn law_a_transient_failure_is_always_retried(task: SupervisedView, reason: Seq<char>)
    requires
        task.stopped_by is None,
    ensures
        after(task, EndedView::Failed(TaskErrorView::Transient(reason))).stopped_by is None,
        after(task, EndedView::Failed(TaskErrorView::Transient(reason))).panics == task.panics,
{
}

/// A panic that ends an attempt which got work done starts a new count: the
/// task is started again at once, whatever it had behind it.
pub proof fn law_work_renews_the_budget(
    task: SupervisedView,
    message: Option<Seq<char>>,
    elapsed: nat,
)
    requires
        task.stopped_by is None,
        elapsed >= task.last_delay + PROGRESS_INTERVAL,
    ensures
        after(task, EndedView::Panicked { message, elapsed }).stopped_by is None,
        after(task, EndedView::Panicked { message, elapsed }).panics == 1,
        after(task, EndedView::Panicked { message, elapsed }).last_delay == 0,
{
}

/// A task once several attempts at it ended, one after the other. Nothing
/// happens to a task that has stopped.
pub open spec fn after_all(task: SupervisedView, endings: Seq<EndedView>) -> SupervisedView
    decreases endings.len(),
{
    if endings.len() == 0 || task.stopped_by is Some {
        task
    } else {
        after_all(after(task, endings[0]), endings.drop_first())
    }
}

/// Whether each of some attempts failed without getting work done: it failed
/// in a way expected to pass, or panicked before the progress interval was
/// over, its delay not counted.
pub open spec fn without_progress(task: SupervisedView, endings: Seq<EndedView>) -> bool
    decreases endings.len(),
{
    endings.len() == 0 || task.stopped_by is Some || {
        &&& match endings[0] {
            EndedView::Failed(TaskErrorView::Transient(_)) => true,
            EndedView::Panicked { message: _, elapsed } => ran_for(task, elapsed)
                < PROGRESS_INTERVAL,
            _ => false,
        }
        &&& without_progress(after(task, endings[0]), endings.drop_first())
    }
}

/// How many of some attempts ended in a panic.
pub open spec fn panics_among(endings: Seq<EndedView>) -> nat
    decreases endings.len(),
{
    if endings.len() == 0 {
        0
    } else {
        panics_among(endings.drop_first()) + if endings[0] is Panicked {
            1nat
        } else {
            0
        }
    }
}

/// A crash loop is stopped: a task that panics more often than the limit
/// allows without getting work done in between is left stopped, however long
/// it slept between its attempts.
pub proof fn law_a_crash_loop_is_stopped(task: SupervisedView, endings: Seq<EndedView>)
    requires
        task.stopped_by is None,
        task.panics <= RESTART_LIMIT,
        without_progress(task, endings),
        task.panics + panics_among(endings) > RESTART_LIMIT,
    ensures
        after_all(task, endings).stopped_by matches Some(StoppedView::Exhausted(_)),
        after_all(task, endings).panics == RESTART_LIMIT,
    decreases endings.len(),
{
    let rest = endings.drop_first();
    let next = after(task, endings[0]);
    reveal_with_fuel(after_all, 2);
    if next.stopped_by is None {
        law_a_crash_loop_is_stopped(next, rest);
    }
}

/// A budget is not spent by fewer panics than the limit: a task that has not
/// panicked more often than that is still running.
pub proof fn law_a_few_panics_are_survived(task: SupervisedView, endings: Seq<EndedView>)
    requires
        task.stopped_by is None,
        without_progress(task, endings),
        task.panics + panics_among(endings) <= RESTART_LIMIT,
    ensures
        after_all(task, endings).stopped_by is None,
        after_all(task, endings).restarts == task.restarts + endings.len(),
    decreases endings.len(),
{
    if endings.len() > 0 {
        law_a_few_panics_are_survived(after(task, endings[0]), endings.drop_first());
    }
}

/// Some tasks once attempts at them ended, one after the other, each at the task
/// of a number. Nothing happens to a task that has stopped.
pub open spec fn taken(
    tasks: Seq<SupervisedView>,
    endings: Seq<(int, EndedView)>,
) -> Seq<SupervisedView>
    decreases endings.len(),
{
    if endings.len() == 0 {
        tasks
    } else {
        let (index, ended) = endings[0];
        let next = if 0 <= index < tasks.len() && tasks[index].stopped_by is None {
            tasks.update(index, after(tasks[index], ended))
        } else {
            tasks
        };
        taken(next, endings.drop_first())
    }
}

/// The endings among some that were at one task, in order.
pub open spec fn endings_of(endings: Seq<(int, EndedView)>, index: int) -> Seq<EndedView>
    decreases endings.len(),
{
    if endings.len() == 0 {
        Seq::empty()
    } else if endings[0].0 == index {
        seq![endings[0].1] + endings_of(endings.drop_first(), index)
    } else {
        endings_of(endings.drop_first(), index)
    }
}

/// What becomes of a task depends on its own endings alone, however the endings
/// of other tasks lie between them.
pub proof fn law_a_task_answers_for_itself(
    tasks: Seq<SupervisedView>,
    endings: Seq<(int, EndedView)>,
    index: int,
)
    requires
        0 <= index < tasks.len(),
    ensures
        taken(tasks, endings).len() == tasks.len(),
        taken(tasks, endings)[index] == after_all(tasks[index], endings_of(endings, index)),
        record_of(taken(tasks, endings)[index]) == record_of(
            after_all(tasks[index], endings_of(endings, index)),
        ),
    decreases endings.len(),
{
    if endings.len() > 0 {
        let (at, ended) = endings[0];
        let rest = endings.drop_first();
        let next = if 0 <= at < tasks.len() && tasks[at].stopped_by is None {
            tasks.update(at, after(tasks[at], ended))
        } else {
            tasks
        };
        law_a_task_answers_for_itself(next, rest, index);
        if at == index {
            let own = endings_of(endings, index);
            assert(own.drop_first() =~= endings_of(rest, index));
            assert(own[0] == ended);
        }
    }
}

/// What an ending leaves of a task. It is started again where its failure is
/// expected to pass, and after a panic where it had run for a minute, its delay
/// not counted, or had fewer than five panics in a row behind it. Everything
/// else leaves it stopped, with what was said of it. Its name is kept, and each
/// start is counted.
pub proof fn law_what_an_ending_leaves(task: SupervisedView, ended: EndedView)
    ensures
        ({
            let now = after(task, ended);
            let again = match ended {
                EndedView::Failed(TaskErrorView::Transient(_)) => true,
                EndedView::Panicked { message: _, elapsed } => elapsed >= task.last_delay
                    + 60_000_000_000 || task.panics < 5,
                _ => false,
            };
            &&& now.name == task.name
            &&& again ==> now.restarts == task.restarts + 1 && now.stopped_by == task.stopped_by
            &&& !again ==> now.restarts == task.restarts
            &&& !again ==> match ended {
                EndedView::Finished => now.stopped_by == Some(StoppedView::Finished),
                EndedView::Failed(TaskErrorView::Permanent(reason)) => now.stopped_by == Some(
                    StoppedView::Permanent(reason),
                ),
                EndedView::Failed(TaskErrorView::Transient(_)) => true,
                EndedView::Panicked { message: Some(said), elapsed: _ } => now.stopped_by == Some(
                    StoppedView::Exhausted(said),
                ),
                EndedView::Panicked { message: None, elapsed: _ } => now.stopped_by == Some(
                    StoppedView::Exhausted("a panic carrying no message"@),
                ),
                EndedView::Cancelled => now.stopped_by == Some(
                    StoppedView::Permanent("the task was cancelled"@),
                ),
            }
        }),
{
}

/// How long a task that is started again waits first: not at all after a panic,
/// and after a failure that is expected to pass a second at first, twice as long
/// with every start, and never more than a minute.
pub proof fn law_how_long_a_task_waits(task: SupervisedView, ended: EndedView)
    ensures
        ended is Panicked && after(task, ended).restarts == task.restarts + 1 ==> after(
            task,
            ended,
        ).last_delay == 0,
        ended matches EndedView::Failed(TaskErrorView::Transient(_)) ==> after(
            task,
            ended,
        ).last_delay == if task.restarts < 6 {
            1_000_000_000 * pow2(task.restarts)
        } else {
            60_000_000_000
        },
{
    lemma2_to64();
    if task.restarts == 0 || task.restarts == 1 || task.restarts == 2 || task.restarts == 3
        || task.restarts == 4 || task.restarts == 5 {
    } else if task.restarts <= 16 {
        if task.restarts > 6 {
            lemma_pow2_strictly_increases(6, task.restarts);
        }
    }
}

/// Panics are counted while they come in a row: one that ends an attempt of
/// less than a minute is one more, and one after a longer attempt is the first.
/// No other ending changes the count.
pub proof fn law_panics_in_a_row_are_counted(task: SupervisedView, ended: EndedView)
    ensures
        match ended {
            EndedView::Panicked { message: _, elapsed } => {
                let now = after(task, ended);
                &&& elapsed >= task.last_delay + 60_000_000_000 ==> now.panics == 1
                &&& elapsed < task.last_delay + 60_000_000_000 && task.panics < 5 ==> now.panics
                    == task.panics + 1
                &&& elapsed < task.last_delay + 60_000_000_000 && task.panics >= 5 ==> now.panics
                    == task.panics
            },
            _ => after(task, ended).panics == task.panics,
        },
{
}

/// Nothing is recorded while a task still runs, and once all have stopped each
/// has a record under its own name, in order.
pub proof fn law_what_is_recorded(tasks: Seq<SupervisedView>, i: int)
    requires
        0 <= i < tasks.len(),
    ensures
        tasks[i].stopped_by is None ==> records_of(tasks) is None,
        match records_of(tasks) {
            Some(records) => {
                &&& records.len() == tasks.len()
                &&& records[i].name == tasks[i].name
                &&& records[i].restarts == tasks[i].restarts
                &&& Some(records[i].stopped_by) == tasks[i].stopped_by
            },
            None => exists|j: int|
                0 <= j < tasks.len() && (#[trigger] tasks[j]).stopped_by is None,
        },
{
}

/// An ending can be taken exactly while the task runs and, where it would be
/// started again, while one start more can be counted.
pub proof fn law_which_endings_can_be_taken(task: SupervisedView, ended: EndedView)
    requires
        task.restarts <= u32::MAX,
    ensures
        may_take(task, ended) <==> task.stopped_by is None && (task.restarts < u32::MAX || after(
            task,
            ended,
        ).stopped_by is Some),
{
}

} // verus!
