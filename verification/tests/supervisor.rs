use benshi::supervisor::{
    BACKOFF_BASE, BACKOFF_CEILING, Ended, Next, PROGRESS_INTERVAL, RESTART_LIMIT, Stopped,
    Supervisor, TaskError, TaskRecord, backoff,
};
use benshi::time::Duration;

/// How one attempt went, and how long it ran after its delay.
struct Attempt {
    end: End,
    ran_for: Duration,
}

enum End {
    Finishes,
    Fails(TaskError),
    Panics(&'static str),
}

fn at_once(end: End) -> Attempt {
    Attempt {
        end,
        ran_for: Duration::zero(),
    }
}

/// One task: its name, and how its attempts go, counted from one.
type Task = (&'static str, Box<dyn Fn(u32) -> Attempt>);

/// What became of the tasks, and each delay an attempt began after.
struct Outcome {
    records: Vec<TaskRecord>,
    delays: Vec<Vec<Duration>>,
}

/// Run every task until none is left running, on a clock that only the attempts
/// and their delays move.
fn run(tasks: Vec<Task>) -> Outcome {
    let mut supervisor = Supervisor::new();
    let mut delays: Vec<Vec<Duration>> = Vec::new();
    for (name, _body) in &tasks {
        supervisor.supervise(name);
        delays.push(vec![Duration::zero()]);
    }

    for (index, (_name, body)) in tasks.iter().enumerate() {
        loop {
            let attempts = &delays[index];
            let delay = attempts[attempts.len() - 1];
            let attempt = body(attempts.len() as u32);
            let ended = match attempt.end {
                End::Finishes => Ended::Returned(Ok(())),
                End::Fails(error) => Ended::Returned(Err(error)),
                End::Panics(message) => Ended::Panicked {
                    message: Some(message.to_owned()),
                    elapsed: delay.plus(attempt.ran_for),
                },
            };
            assert!(supervisor.expects(index, &ended), "the task is running");
            match supervisor.take(index, ended) {
                Next::Start { delay } => delays[index].push(delay),
                Next::Stop => break,
            }
        }
    }

    Outcome {
        records: supervisor.records().expect("every task stopped"),
        delays,
    }
}

fn transient() -> TaskError {
    TaskError::Transient("the bus is away".to_owned())
}

#[test]
fn a_panicking_task_is_restarted() {
    let ended = run(vec![(
        "flaky",
        Box::new(|attempt| {
            at_once(if attempt > 1 {
                End::Finishes
            } else {
                End::Panics("the first attempt panics")
            })
        }),
    )]);

    assert_eq!(ended.delays[0].len(), 2);
    assert_eq!(ended.records[0].restarts, 1);
    assert_eq!(ended.records[0].stopped_by, Stopped::Finished);
}

#[test]
fn a_task_that_keeps_panicking_is_stopped_after_the_limit() {
    // A bug that fires every time is not going to stop firing. Restarting
    // for ever would turn a crash into a busy loop that hides it.
    let ended = run(vec![(
        "doomed",
        Box::new(|attempt| {
            // It stops panicking well past the limit, so a limit that stopped
            // working fails this test rather than spinning for ever.
            at_once(if attempt > RESTART_LIMIT + 10 {
                End::Finishes
            } else {
                End::Panics("this one always panics")
            })
        }),
    )]);

    assert_eq!(ended.delays[0].len() as u32, RESTART_LIMIT + 1);
    assert_eq!(ended.records[0].restarts, RESTART_LIMIT);
    assert!(matches!(
        ended.records[0].stopped_by,
        Stopped::Exhausted(_)
    ));
}

#[test]
fn a_task_that_worked_for_a_while_gets_its_budget_back() {
    // Six panics inside one millisecond and six panics across an afternoon
    // are not the same trouble. Counting from a fixed origin makes them
    // identical, and a task that met a bad minute would then be stopped for
    // the life of the process while the daemon went on looking healthy.
    let ended = run(vec![(
        "long-lived",
        Box::new(|attempt| Attempt {
            // Well past twice the limit, so that a budget which does come back
            // still leaves this test finite.
            end: if attempt > RESTART_LIMIT * 2 + 2 {
                End::Finishes
            } else {
                End::Panics("panicking again")
            },
            ran_for: Duration::from_nanos(PROGRESS_INTERVAL).times(2),
        }),
    )]);

    assert!(
        ended.delays[0].len() as u32 > RESTART_LIMIT + 1,
        "a budget counted from the first panic would have stopped it at {}",
        RESTART_LIMIT + 1
    );
    assert_eq!(ended.records[0].stopped_by, Stopped::Finished);
}

#[test]
fn a_long_backoff_does_not_count_as_work() {
    // The one way a crash loop could refund its own budget for ever: fail
    // transiently until the retry delay has grown to a minute, then panic
    // the instant the delay is over. Waiting is not working, so the attempt
    // is as short as it looks and the limit must still stop it.
    let ramp = (1..=32_u32)
        .find(|&restarts| backoff(restarts) >= Duration::from_nanos(PROGRESS_INTERVAL))
        .expect("the backoff ceiling reaches the progress interval");
    // Far past what a working limit needs, so a budget that does keep being
    // refunded still leaves this test finite.
    let escape = ramp + RESTART_LIMIT * 8;
    let ended = run(vec![(
        "sleepy",
        Box::new(move |attempt| {
            if attempt > escape {
                return at_once(End::Finishes);
            }
            // Transient until the delay reaches its ceiling, and then one
            // transient between every pair of panics to hold it there: a panic
            // on its own is restarted with no delay.
            let panics_now = attempt > ramp && attempt % 2 == 0;
            at_once(if panics_now {
                End::Panics("it panics the instant it wakes")
            } else {
                End::Fails(transient())
            })
        }),
    )]);

    assert!(
        matches!(ended.records[0].stopped_by, Stopped::Exhausted(_)),
        "a delay counted as work refunds the budget for ever, got {:?}",
        ended.records[0].stopped_by
    );
}

fn refused(attempt: u32) -> Attempt {
    // It gives up refusing after a few attempts, so a supervisor that retried a
    // permanent failure fails the test rather than retrying for ever.
    at_once(if attempt > 3 {
        End::Finishes
    } else {
        End::Fails(TaskError::Permanent("the token expired".to_owned()))
    })
}

#[test]
fn a_permanent_error_stops_the_task_without_retrying() {
    let ended = run(vec![("refused", Box::new(refused))]);

    assert_eq!(ended.delays[0].len(), 1, "it must not try again");
    assert_eq!(ended.records[0].restarts, 0);
}

#[test]
fn a_stopped_task_records_the_error_that_stopped_it() {
    // By the time a command is written to show it, the information is long
    // gone, so the record has to exist from the start.
    let ended = run(vec![("refused", Box::new(refused))]);

    match &ended.records[0].stopped_by {
        Stopped::Permanent(reason) => assert!(reason.contains("the token expired")),
        other => panic!("expected the reason to be kept, got {other:?}"),
    }
}

#[test]
fn a_transient_error_is_retried_with_growing_backoff() {
    let ended = run(vec![(
        "retrying",
        Box::new(|attempt| {
            at_once(if attempt < 4 {
                End::Fails(transient())
            } else {
                End::Finishes
            })
        }),
    )]);

    let delays = &ended.delays[0];
    assert_eq!(delays.len(), 4);
    let (first, second, third) = (delays[1], delays[2], delays[3]);
    assert!(
        second > first && third > second,
        "each wait must exceed the last, got {first:?}, {second:?}, {third:?}"
    );
    assert_eq!(ended.records[0].stopped_by, Stopped::Finished);
}

#[test]
fn one_task_panicking_does_not_disturb_another() {
    // The reason a panic must not take the process down: the other half of
    // the daemon has nothing to do with it and is still working.
    let ended = run(vec![
        (
            "panicking",
            Box::new(|attempt| {
                at_once(if attempt > RESTART_LIMIT + 10 {
                    End::Finishes
                } else {
                    End::Panics("unrelated")
                })
            }),
        ),
        ("steady", Box::new(|_attempt| at_once(End::Finishes))),
    ]);

    assert_eq!(ended.delays[1].len(), 1, "it ran exactly once");
    assert_eq!(ended.records[1].name, "steady");
    assert_eq!(ended.records[1].stopped_by, Stopped::Finished);
    assert_eq!(ended.records[1].restarts, 0);
}

#[test]
fn a_wait_doubles_from_its_base_and_stops_at_its_ceiling() {
    let expected: [u64; 10] = [1, 1, 2, 4, 8, 16, 32, 60, 60, 60];
    for (restarts, secs) in expected.into_iter().enumerate() {
        assert_eq!(
            backoff(restarts as u32),
            Duration::from_secs(secs),
            "{restarts}"
        );
    }
    assert_eq!(backoff(1), Duration::from_nanos(BACKOFF_BASE));
    assert_eq!(backoff(u32::MAX), Duration::from_nanos(BACKOFF_CEILING));
}

#[test]
fn a_task_taken_from_outside_is_recorded_as_cancelled() {
    let mut supervisor = Supervisor::new();
    let index = supervisor.supervise("taken");
    assert!(supervisor.records().is_none(), "it is still running");

    assert_eq!(supervisor.take(index, Ended::Cancelled), Next::Stop);

    assert!(!supervisor.expects(index, &Ended::Cancelled));
    assert_eq!(supervisor.count(), 1);
    let records = supervisor.records().expect("the task stopped");
    assert_eq!(
        records[0].stopped_by,
        Stopped::Permanent("the task was cancelled".to_owned())
    );
}

#[test]
fn a_panic_without_a_message_still_says_something() {
    let mut supervisor = Supervisor::new();
    let index = supervisor.supervise("mute");
    let mute = || Ended::Panicked {
        message: None,
        elapsed: Duration::zero(),
    };
    for _ in 0..RESTART_LIMIT {
        assert!(matches!(supervisor.take(index, mute()), Next::Start { .. }));
    }

    assert_eq!(supervisor.take(index, mute()), Next::Stop);

    let records = supervisor.records().expect("the task stopped");
    assert_eq!(
        records[0].stopped_by,
        Stopped::Exhausted("a panic carrying no message".to_owned())
    );
}

#[test]
fn a_reason_is_told_beside_the_task_it_stopped() {
    assert_eq!(Stopped::Finished.message(), "finished");
    assert_eq!(
        Stopped::Permanent("the token expired".to_owned()).message(),
        "stopped: the token expired"
    );
    assert_eq!(
        Stopped::Exhausted("a bug".to_owned()).message(),
        "kept panicking: a bug"
    );
    assert_eq!(transient().message(), "the bus is away");
}

#[test]
fn a_task_answers_for_itself() {
    // The same endings at one task come to the same record, whatever ends at
    // another in between.
    let endings = || {
        [
            Ended::Returned(Err(TaskError::Transient("away".to_owned()))),
            Ended::Panicked {
                message: None,
                elapsed: Duration::zero(),
            },
            Ended::Returned(Ok(())),
        ]
    };
    let mut alone = Supervisor::new();
    let only = alone.supervise("task");
    for ended in endings() {
        alone.take(only, ended);
    }

    let mut beside = Supervisor::new();
    let other = beside.supervise("other");
    let task = beside.supervise("task");
    for (round, ended) in endings().into_iter().enumerate() {
        let another = if round == 1 {
            Ended::Returned(Err(TaskError::Permanent("gone".to_owned())))
        } else {
            Ended::Returned(Err(TaskError::Transient("away".to_owned())))
        };
        if beside.expects(other, &another) {
            beside.take(other, another);
        }
        beside.take(task, ended);
    }

    let alone = alone.records().expect("the task stopped");
    let beside = beside.records().expect("both tasks stopped");
    assert_eq!(alone[0], beside[1]);
    assert_eq!(beside[0].restarts, 1);
}
