use benshi::bus::BusEvent;
use benshi::clock::Timestamp;
use benshi::detection::{
    Detection, PollOutcome, Round, Seen, SourceInfo, WatchError, classify,
};
use benshi::path::RawPath;
use benshi::policy::{Policy, PolicyTable};
use benshi::recognition::Recogniser;
use benshi::supervisor::TaskError;
use benshi::time::Duration;
use benshi::{AppName, Capabilities, Known, MediaRef, PlayState, PlayerId, PlayerSnapshot};
use std::collections::VecDeque;

fn a_source(identity: &str, app: &str) -> SourceInfo {
    SourceInfo {
        player: PlayerId(identity.to_owned()),
        app: AppName(app.to_owned()),
        capabilities: Capabilities {
            position: true,
            duration: true,
            paused: true,
            location: true,
        },
        state: PlayState::Playing,
    }
}

fn a_reading(source: &SourceInfo) -> PlayerSnapshot {
    PlayerSnapshot {
        player: source.player.clone(),
        media: MediaRef::LocalFile(RawPath::from_bytes(b"/anime/ep 03.mkv".to_vec())),
        state: source.state,
        position: Known::Value(Duration::from_secs(5)),
        duration: Known::Value(Duration::from_mins(23)),
        observed_at: Timestamp::epoch(),
    }
}

/// A round in which every source answered and had something open.
fn a_round(sources: Vec<SourceInfo>) -> PollOutcome {
    let snapshots = sources.iter().map(a_reading).collect();

    PollOutcome {
        sources,
        snapshots,
        failures: Vec::new(),
    }
}

/// Detection over a platform that answers the scripted rounds in order, with
/// what it published so far.
struct Daemon {
    detection: Detection,
    table: PolicyTable,
    recogniser: Recogniser,
    scripted: VecDeque<Result<PollOutcome, WatchError>>,
    published: Vec<BusEvent>,
}

impl Daemon {
    fn over(rounds: Vec<Result<PollOutcome, WatchError>>) -> Self {
        Self {
            detection: Detection::new(),
            table: PolicyTable::allowing_video_players(),
            recogniser: Recogniser::empty(),
            scripted: rounds.into(),
            published: Vec::new(),
        }
    }

    /// One more round. What it publishes is kept, and the rest handed back.
    fn round(&mut self) -> Result<Round, TaskError> {
        let polled = self.scripted.pop_front().expect("another round");
        let mut round = self
            .detection
            .round(polled, &self.table, &self.recogniser)?;
        self.published.append(&mut round.events);
        Ok(round)
    }

    /// Everything published since it was last asked for.
    fn drain(&mut self) -> Vec<BusEvent> {
        std::mem::take(&mut self.published)
    }
}

/// The source of every reading among these events, in the order published.
fn snapshots_in(published: &[BusEvent]) -> Vec<PlayerId> {
    published
        .iter()
        .filter_map(|event| match event {
            BusEvent::Snapshot(snapshot) => Some(snapshot.player.clone()),
            _ => None,
        })
        .collect()
}

/// Every membership among these events, in the order published.
fn listings_in(published: &[BusEvent]) -> Vec<Vec<PlayerId>> {
    published
        .iter()
        .filter_map(|event| match event {
            BusEvent::SourcesChanged { sources } => Some(sources.clone()),
            _ => None,
        })
        .collect()
}

fn id(identity: &str) -> PlayerId {
    PlayerId(identity.to_owned())
}

fn app(name: &str) -> AppName {
    AppName(name.to_owned())
}

#[test]
fn readings_from_admitted_sources_reach_the_bus() {
    let watcher = vec![Ok(a_round(vec![
        a_source("mpv.instance1701", "mpv"),
        a_source("vlc", "vlc"),
    ]))];
    let mut daemon = Daemon::over(watcher);

    daemon.round().expect("a round");

    assert_eq!(
        snapshots_in(&daemon.drain()),
        vec![id("mpv.instance1701"), id("vlc")]
    );
}

#[test]
fn a_denied_source_is_silenced_and_still_listed() {
    // Policy suppresses readings and never discovery. A source nobody can
    // see is a source nobody can diagnose, so the denied player stays in
    // the membership the bus publishes.
    let watcher = vec![Ok(a_round(vec![
        a_source("firefox.instance30062", "firefox"),
        a_source("mpv", "mpv"),
    ]))];
    let mut daemon = Daemon::over(watcher);

    daemon.round().expect("a round");
    let published = daemon.drain();

    assert_eq!(
        snapshots_in(&published),
        vec![id("mpv")],
        "the denied source produced a reading"
    );
    assert!(
        !published
            .iter()
            .any(|event| matches!(event, BusEvent::SourceFailed { .. })),
        "the denied source was reported as a failure rather than silenced: {published:?}"
    );
    assert_eq!(
        listings_in(&published),
        vec![vec![id("firefox.instance30062"), id("mpv")]],
        "the denied source is missing from the membership"
    );
}

#[test]
fn policy_is_keyed_on_the_application_and_not_on_the_identity() {
    // A browser qualifies its bus name with a process id, so the identity
    // is not what the denylist can match. The daemon reads the application
    // the adapter declared beside the reading.
    let watcher = vec![Ok(a_round(vec![a_source(
        "chromium.instance16481",
        "chromium",
    )]))];
    let mut daemon = Daemon::over(watcher);

    daemon.round().expect("a round");

    assert!(snapshots_in(&daemon.drain()).is_empty());
}

#[test]
fn a_reading_the_round_did_not_describe_is_reported_and_not_published() {
    // The contract forbids this, and the daemon must not depend on that:
    // a reading it cannot attribute to an application is a reading it
    // cannot apply policy to, and publishing it would walk past a deny.
    let stranger = a_source("firefox", "firefox");
    let watcher = vec![Ok(PollOutcome {
        sources: Vec::new(),
        snapshots: vec![a_reading(&stranger)],
        failures: Vec::new(),
    })];
    let mut daemon = Daemon::over(watcher);

    daemon.round().expect("a round");
    let published = daemon.drain();

    assert!(
        snapshots_in(&published).is_empty(),
        "an unattributable reading was published: {published:?}"
    );
    assert!(
        published
            .iter()
            .any(|event| matches!(event, BusEvent::SourceFailed { player, .. } if player == &id("firefox"))),
        "an unattributable reading was dropped without a word: {published:?}"
    );
}

#[test]
fn a_failing_source_is_reported_and_the_others_continue() {
    let working = a_source("mpv", "mpv");
    let watcher = vec![Ok(PollOutcome {
        sources: vec![working.clone()],
        snapshots: vec![a_reading(&working)],
        failures: vec![(
            id("vlc"),
            WatchError::Timeout {
                player: id("vlc"),
                deadline: Duration::from_millis(500),
            },
        )],
    })];
    let mut daemon = Daemon::over(watcher);

    daemon.round().expect("a round");
    let published = daemon.drain();

    assert_eq!(
        snapshots_in(&published),
        vec![id("mpv")],
        "one source failing blinded the daemon to the rest"
    );
    let reported = published
        .iter()
        .find_map(|event| match event {
            BusEvent::SourceFailed { player, reason } if player == &id("vlc") => Some(reason),
            _ => None,
        })
        .expect("the failure reached the bus");
    assert!(
        reported.contains("500ms"),
        "the reason does not say what happened: {reported:?}"
    );
}

#[test]
fn a_source_that_did_not_answer_stays_in_the_membership() {
    // Failing to answer is not closing. A player left out of the membership
    // for one round and put back the next reads as one that closed and
    // reopened, and a player that times out every other round would write
    // that pair of lines for as long as it ran.
    let answering = a_source("mpv", "mpv");
    let silent = || {
        (
            id("vlc"),
            WatchError::Timeout {
                player: id("vlc"),
                deadline: Duration::from_millis(500),
            },
        )
    };
    let watcher = vec![
        Ok(a_round(vec![answering.clone(), a_source("vlc", "vlc")])),
        Ok(PollOutcome {
            sources: vec![answering.clone()],
            snapshots: vec![a_reading(&answering)],
            failures: vec![silent()],
        }),
    ];
    let mut daemon = Daemon::over(watcher);

    daemon.round().expect("the first round");
    daemon.round().expect("the round it went quiet in");

    assert_eq!(
        listings_in(&daemon.drain()),
        vec![vec![id("mpv"), id("vlc")]],
        "a source that did not answer was reported as gone"
    );
}

#[test]
fn a_source_that_stopped_being_listed_leaves_the_membership() {
    // The other half of the same rule. A source that the platform no longer
    // reports at all has closed, and holding it in the membership would
    // mean nothing ever leaves.
    let watcher = vec![
        Ok(a_round(vec![
            a_source("mpv", "mpv"),
            a_source("vlc", "vlc"),
        ])),
        Ok(a_round(vec![a_source("mpv", "mpv")])),
    ];
    let mut daemon = Daemon::over(watcher);

    daemon.round().expect("the first round");
    daemon.round().expect("the round after vlc closed");

    assert_eq!(
        listings_in(&daemon.drain()),
        vec![vec![id("mpv"), id("vlc")], vec![id("mpv")]]
    );
}

#[test]
fn a_swap_is_visible_because_membership_is_published() {
    // One player closing while another opens leaves the count unchanged,
    // so a count cannot see it. The membership can.
    let watcher = vec![
        Ok(a_round(vec![a_source("mpv", "mpv")])),
        Ok(a_round(vec![a_source("vlc", "vlc")])),
    ];
    let mut daemon = Daemon::over(watcher);

    daemon.round().expect("the first round");
    daemon.round().expect("the second round");

    assert_eq!(
        listings_in(&daemon.drain()),
        vec![vec![id("mpv")], vec![id("vlc")]]
    );
}

#[test]
fn membership_that_did_not_change_is_not_republished() {
    // The bus is the log a person reads. A line every second saying the
    // same thing is how a log stops being read.
    let again = || Ok(a_round(vec![a_source("mpv", "mpv")]));
    let watcher = vec![again(), again(), again()];
    let mut daemon = Daemon::over(watcher);

    daemon.round().expect("the first round");
    daemon.round().expect("the second round");
    daemon.round().expect("the third round");

    assert_eq!(
        listings_in(&daemon.drain()).len(),
        1,
        "membership was republished without changing"
    );
}

#[test]
fn a_platform_that_cannot_be_reached_is_transient() {
    // There is no platform failure that stopping detection would improve.
    let watcher = vec![Err(WatchError::Transport(
        "the session bus is gone".to_owned(),
    ))];
    let mut daemon = Daemon::over(watcher);

    let failure = daemon.round().expect_err("the round fails");

    assert!(
        matches!(failure, TaskError::Transient(_)),
        "a lost bus stopped detection instead of retrying it: {failure:?}"
    );
}

#[test]
fn every_watch_error_is_classified() {
    // Written as an exhaustive match in the module, so a fourth variant
    // has to state its own answer rather than inherit one.
    assert!(matches!(
        classify(WatchError::Unavailable(id("mpv"))),
        TaskError::Transient(_)
    ));
    assert!(matches!(
        classify(WatchError::Timeout {
            player: id("mpv"),
            deadline: Duration::from_millis(500),
        }),
        TaskError::Transient(_)
    ));
    assert!(matches!(
        classify(WatchError::Transport("the session bus is gone".to_owned())),
        TaskError::Transient(_)
    ));
}

#[test]
fn a_deny_takes_effect_within_one_interval_and_without_a_restart() {
    // The policy is read each round rather than once at startup, so a
    // table that changes under a running loop changes what that loop
    // publishes, and the daemon is not restarted to make it take effect.
    let again = || Ok(a_round(vec![a_source("mpv", "mpv")]));
    let mut daemon = Daemon::over(vec![again(), again()]);

    daemon.round().expect("the round before");
    assert_eq!(
        snapshots_in(&daemon.drain()),
        vec![id("mpv")],
        "the loop published nothing before the policy changed"
    );

    daemon.table.set(&app("mpv"), Policy::Deny);
    daemon.round().expect("the round after");

    assert!(
        snapshots_in(&daemon.drain()).is_empty(),
        "the deny did not take effect within one interval"
    );
}

#[test]
fn a_failed_round_leaves_the_membership_alone() {
    let mut daemon = Daemon::over(vec![
        Ok(a_round(vec![a_source("mpv", "mpv")])),
        Err(WatchError::Transport("the session bus is gone".to_owned())),
        Ok(a_round(vec![a_source("mpv", "mpv")])),
    ]);

    daemon.round().expect("the first round");
    daemon.drain();
    let failure = daemon.round().expect_err("the bus is gone");
    daemon.round().expect("the bus is back");

    assert_eq!(failure.message(), "the session bus is gone");
    assert!(listings_in(&daemon.drain()).is_empty());
}

#[test]
fn a_membership_is_in_identity_order_and_names_each_source_once() {
    let mut daemon = Daemon::over(vec![Ok(PollOutcome {
        sources: vec![
            a_source("vlc", "vlc"),
            a_source("mpv", "mpv"),
            a_source("Feishin", "Feishin"),
        ],
        snapshots: Vec::new(),
        failures: vec![
            (id("mpv"), WatchError::Unavailable(id("mpv"))),
            (id("kodi"), WatchError::Unavailable(id("kodi"))),
        ],
    })]);

    daemon.round().expect("a round");

    assert_eq!(
        listings_in(&daemon.drain()),
        vec![vec![id("Feishin"), id("kodi"), id("mpv"), id("vlc")]]
    );
}

#[test]
fn a_round_publishes_its_membership_then_its_failures_then_its_readings() {
    let mpv = a_source("mpv", "mpv");
    let mut daemon = Daemon::over(vec![Ok(PollOutcome {
        sources: vec![mpv.clone()],
        snapshots: vec![a_reading(&mpv)],
        failures: vec![(id("vlc"), WatchError::Unavailable(id("vlc")))],
    })]);

    daemon.round().expect("a round");

    assert_eq!(
        daemon.drain(),
        vec![
            BusEvent::SourcesChanged {
                sources: vec![id("mpv"), id("vlc")]
            },
            BusEvent::SourceFailed {
                player: id("vlc"),
                reason: "is no longer present".to_owned()
            },
            BusEvent::Snapshot(a_reading(&mpv)),
        ]
    );
}

#[test]
fn the_last_admitted_reading_that_names_a_file_is_the_one_decided() {
    let mpv = a_source("mpv", "mpv");
    let vlc = a_source("vlc", "vlc");
    let firefox = a_source("firefox", "firefox");
    let streaming = PlayerSnapshot {
        media: MediaRef::Title("Show - Episode 4".to_owned()),
        ..a_reading(&vlc)
    };
    let mut daemon = Daemon::over(vec![
        Ok(PollOutcome {
            snapshots: vec![
                a_reading(&mpv),
                streaming,
                a_reading(&firefox),
            ],
            sources: vec![mpv, vlc, firefox.clone()],
            failures: Vec::new(),
        }),
        Ok(a_round(vec![firefox])),
    ]);

    let first = daemon.round().expect("a round");
    let second = daemon.round().expect("a round of nothing admitted");

    let decided = first.decided.expect("a file was decided");
    assert_eq!(decided.player, id("mpv"));
    assert!(second.decided.is_none());
    assert_eq!(first.seen.len(), 3);
}

#[test]
fn what_a_round_saw_is_kept_until_the_next() {
    let mut seen = Seen::new();
    assert!(seen.sources().is_empty());

    seen.record(vec![a_source("mpv", "mpv"), a_source("vlc", "vlc")]);
    seen.record(vec![a_source("kodi", "kodi")]);

    assert_eq!(seen.sources(), [a_source("kodi", "kodi")]);
}

#[test]
fn each_failure_to_read_is_told_without_naming_its_source() {
    let timeout = |deadline| WatchError::Timeout {
        player: id("mpv"),
        deadline,
    };
    assert_eq!(
        timeout(Duration::from_millis(500)).message(),
        "did not answer within 500ms"
    );
    assert_eq!(
        timeout(Duration::from_millis(1500)).message(),
        "did not answer within 1.5s"
    );
    assert_eq!(
        WatchError::Unavailable(id("mpv")).message(),
        "is no longer present"
    );
    assert_eq!(
        WatchError::Transport("the session bus is gone".to_owned()).message(),
        "the session bus is gone"
    );
}
