//! The supervisor of a tunnel: watches the ssh child, probes the link, and
//! respawns it with a climbing backoff for as long as it makes sense.
//!
//! All durations are milliseconds. The program performs what a step asks for
//! and reports the outcome as the next event.

use vstd::prelude::*;
use crate::chrome;
use crate::chrome::wall_elapsed;
use crate::relay::Now;

verus! {

/// Minimum backoff between respawn attempts; also the initial value.
pub const MIN_RESPAWN_BACKOFF: u64 = 1000;

/// Maximum backoff between respawn attempts.
pub const MAX_RESPAWN_BACKOFF: u64 = 60000;

/// A child that lived at least this long before dying had a healthy cycle.
pub const HEALTHY_CHILD_THRESHOLD: u64 = 30000;

/// How often the link is probed.
pub const PROBE_INTERVAL: u64 = 30000;

/// Consecutive probe failures before the child is killed to force a respawn.
pub const PROBE_FAILURES_BEFORE_RESPAWN: u32 = 2;

/// How long to wait after a change of the network before probing: changes come
/// in bursts, and the probe should see what they lead to.
pub const NET_PROBE_DEBOUNCE: u64 = 500;

/// How long a fresh child needs before a failed probe means anything.
pub const SPAWN_GRACE: u64 = 5000;

/// The wall clock running ahead of the other by this much means that the
/// machine slept.
pub const SUSPEND_JUMP_THRESHOLD: u64 = 5000;

/// How often to look for such a jump.
pub const SUSPEND_POLL: u64 = 2000;

/// A link that passed a probe this recently needs no check of the remote
/// server before the next child is spawned.
pub const SKIP_ENSURE_REMOTE_THRESHOLD: u64 = 60000;

/// What an exit of ssh means for the monitor.
#[derive(Debug, Clone, Copy, PartialEq, Eq, Structural)]
pub enum ExitClass {
    /// Try again.
    Transient,
    /// Give up.
    NonTransient,
}

/// The retry policy for an exit code.
pub open spec fn classified(code: Option<i32>) -> ExitClass {
    match code {
        None => ExitClass::Transient,
        Some(c) => if c == 255 || (128 <= c && c <= 159) {
            ExitClass::Transient
        } else {
            ExitClass::NonTransient
        },
    }
}

/// Map an exit code to the retry policy; `None` is a death by local signal.
/// Retried: that, ssh's own connection error (255), and a death by signal on
/// the remote side (128 and up). Anything else is a matter of configuration.
pub fn classify_exit(code: Option<i32>) -> (r: ExitClass)
    ensures
        r == classified(code),
{
    match code {
        None => ExitClass::Transient,
        Some(c) => if c == 255 || (128 <= c && c <= 159) {
            ExitClass::Transient
        } else {
            ExitClass::NonTransient
        },
    }
}

/// How long to wait before the next respawn: a child that lived long enough
/// starts over, else the backoff that was reached is used again.
pub open spec fn sleep_after(prev: u64, prior_uptime: u64) -> u64 {
    if prior_uptime >= HEALTHY_CHILD_THRESHOLD {
        MIN_RESPAWN_BACKOFF
    } else {
        prev
    }
}

pub fn respawn_sleep(prev: u64, prior_uptime: u64) -> (r: u64)
    ensures
        r == sleep_after(prev, prior_uptime),
{
    if prior_uptime >= HEALTHY_CHILD_THRESHOLD {
        MIN_RESPAWN_BACKOFF
    } else {
        prev
    }
}

/// Twice the backoff, within its bounds. A backoff of zero climbs too.
pub open spec fn doubled(cur: u64) -> u64 {
    let base = if cur < MIN_RESPAWN_BACKOFF {
        MIN_RESPAWN_BACKOFF
    } else {
        cur
    };
    if base * 2 < MAX_RESPAWN_BACKOFF {
        (base * 2) as u64
    } else {
        MAX_RESPAWN_BACKOFF
    }
}

pub fn double_backoff(cur: u64) -> (r: u64)
    ensures
        r == doubled(cur),
{
    let base: u64 = if cur < MIN_RESPAWN_BACKOFF {
        MIN_RESPAWN_BACKOFF
    } else {
        cur
    };
    if base >= MAX_RESPAWN_BACKOFF {
        MAX_RESPAWN_BACKOFF
    } else if base * 2 < MAX_RESPAWN_BACKOFF {
        base * 2
    } else {
        MAX_RESPAWN_BACKOFF
    }
}

/// Every backoff lies within the bounds and doubling never shortens one that
/// does.
pub proof fn law_respawn_backoff_bounded(cur: u64)
    ensures
        MIN_RESPAWN_BACKOFF <= doubled(cur) <= MAX_RESPAWN_BACKOFF,
        cur <= MAX_RESPAWN_BACKOFF ==> cur <= doubled(cur),
        cur < MAX_RESPAWN_BACKOFF ==> cur < doubled(cur),
{
}

/// How long to wait for the tunnel's socket to appear, in seconds, given the
/// connect timeout of ssh (zero leaves that to ssh).
pub fn socket_wait_deadline(connect_timeout: u64) -> (r: u64)
    requires
        connect_timeout <= u64::MAX - 10,
    ensures
        r == (if connect_timeout == 0 {
            60
        } else if connect_timeout < 5 {
            15
        } else {
            connect_timeout + 10
        }),
{
    if connect_timeout == 0 {
        60
    } else if connect_timeout < 5 {
        15
    } else {
        connect_timeout + 10
    }
}

/// What the monitor is in the middle of.
#[derive(Debug, Clone, Copy, PartialEq, Eq, Structural)]
pub enum Phase {
    /// A child runs.
    Watching,
    /// The child died; before anything else, does this supervisor still own
    /// the tunnel? Then sleep for the given time.
    CheckingLock { sleep: u64 },
    /// Sleeping until the deadline; the anchors tell a suspension.
    Waiting {
        sleep: u64,
        deadline: u64,
        wall_anchor: u64,
        mono_anchor: u64,
    },
    /// The remote server is being checked and started if need be.
    Ensuring,
    /// A child is being spawned.
    Spawning,
    Stopped,
}

pub struct Monitor {
    pub phase: Phase,
    pub backoff: u64,
    /// When the remote server was last known to be alive, on the wall clock.
    pub last_healthy: Option<u64>,
    /// When to probe after changes of the network.
    pub net_probe_at: Option<u64>,
    /// The monitor itself killed the child.
    pub we_killed: bool,
    /// The network was down since the last good probe.
    pub saw_unsatisfied: bool,
    /// The network went down since the child died, and has not come back.
    pub outage: bool,
    pub spawned_at: u64,
    pub probe_failures: u32,
    pub remote_sock: String,
}

/// A monitor as a mathematical value.
pub struct MonitorModel {
    pub phase: Phase,
    pub backoff: u64,
    pub last_healthy: Option<u64>,
    pub net_probe_at: Option<u64>,
    pub we_killed: bool,
    pub saw_unsatisfied: bool,
    pub outage: bool,
    pub spawned_at: u64,
    pub probe_failures: u32,
    pub remote_sock: Seq<char>,
}

impl View for Monitor {
    type V = MonitorModel;

    open spec fn view(&self) -> MonitorModel {
        MonitorModel {
            phase: self.phase,
            backoff: self.backoff,
            last_healthy: self.last_healthy,
            net_probe_at: self.net_probe_at,
            we_killed: self.we_killed,
            saw_unsatisfied: self.saw_unsatisfied,
            outage: self.outage,
            spawned_at: self.spawned_at,
            probe_failures: self.probe_failures,
            remote_sock: self.remote_sock@,
        }
    }
}

pub enum MonitorEvent {
    /// The tunnel is to be taken down.
    Cancelled,
    /// The network path changed; `unsatisfied` says that there is no route.
    NetworkChanged { unsatisfied: bool },
    /// The time of `net_probe_at` came.
    DebounceElapsed,
    /// It is time for a probe; does the lock still belong to this supervisor?
    ProbeTick { lock_owned: bool },
    /// How a probe went, and whether a change of the network was its reason.
    Probed { alive: bool, after_change: bool },
    /// The child ended, with an exit code unless a signal ended it.
    Exited { code: Option<i32> },
    /// There is no telling what became of the child.
    WaitFailed,
    LockChecked { owned: bool },
    DeadlineReached,
    /// Some time passed while sleeping.
    Polled,
    /// The remote server is there, at this socket.
    Ensured { sock: String },
    EnsureFailed,
    Spawned,
    SpawnFailed,
}

#[derive(Debug, Clone, Copy, PartialEq, Eq, Structural)]
pub enum MonitorAction {
    /// Go on waiting for events.
    Nothing,
    Probe { after_change: bool },
    /// Kill the child; its exit will be reported.
    Kill,
    KillAndStop,
    Stop,
    /// Find out whether the lock still belongs to this supervisor.
    CheckLock,
    /// Sleep until then.
    Sleep { until: u64 },
    EnsureRemote,
    Spawn,
}

/// Whether the remote server needs no check before a spawn.
pub open spec fn recently_healthy(m: MonitorModel, now: Now) -> bool {
    m.remote_sock.len() > 0 && match m.last_healthy {
        Some(t) => chrome::wall_between(t, now.wall) < SKIP_ENSURE_REMOTE_THRESHOLD,
        None => false,
    }
}

/// A sleep ended after `sleep`: the backoff climbs, and the next child is
/// spawned, after a check of the remote server unless that is superfluous.
pub open spec fn after_wait(m: MonitorModel, sleep: u64, now: Now) -> (MonitorModel, MonitorAction) {
    if recently_healthy(m, now) {
        (
            MonitorModel { backoff: doubled(sleep), phase: Phase::Spawning, ..m },
            MonitorAction::Spawn,
        )
    } else {
        (
            MonitorModel { backoff: doubled(sleep), phase: Phase::Ensuring, ..m },
            MonitorAction::EnsureRemote,
        )
    }
}

/// An attempt failed: sleep for the backoff that was reached, if the tunnel is
/// still this supervisor's.
pub open spec fn retry(m: MonitorModel) -> (MonitorModel, MonitorAction) {
    (MonitorModel { phase: Phase::CheckingLock { sleep: m.backoff }, ..m }, MonitorAction::CheckLock)
}

/// A probe found the remote server alive.
pub open spec fn healthy(m: MonitorModel, now: Now) -> MonitorModel {
    MonitorModel {
        probe_failures: 0,
        last_healthy: Some(now.wall),
        saw_unsatisfied: false,
        ..m
    }
}

/// What an event does to a monitor. Events that make no sense in a phase do
/// nothing.
pub open spec fn monitor_step(m: MonitorModel, event: MonitorEvent, now: Now) -> (
    MonitorModel,
    MonitorAction,
) {
    match m.phase {
        Phase::Watching => match event {
            MonitorEvent::Cancelled => (
                MonitorModel { phase: Phase::Stopped, ..m },
                MonitorAction::KillAndStop,
            ),
            MonitorEvent::NetworkChanged { unsatisfied } => (
                MonitorModel {
                    saw_unsatisfied: m.saw_unsatisfied || unsatisfied,
                    net_probe_at: Some((now.mono + NET_PROBE_DEBOUNCE) as u64),
                    ..m
                },
                MonitorAction::Nothing,
            ),
            MonitorEvent::DebounceElapsed => (
                MonitorModel { net_probe_at: None, ..m },
                if m.saw_unsatisfied {
                    MonitorAction::Probe { after_change: true }
                } else {
                    MonitorAction::Nothing
                },
            ),
            MonitorEvent::ProbeTick { lock_owned } => if lock_owned {
                (m, MonitorAction::Probe { after_change: false })
            } else {
                (MonitorModel { phase: Phase::Stopped, ..m }, MonitorAction::KillAndStop)
            },
            MonitorEvent::Probed { alive, after_change } => if alive {
                (healthy(m, now), MonitorAction::Nothing)
            } else if after_change {
                if chrome::wall_between(m.spawned_at, now.mono) >= SPAWN_GRACE {
                    (MonitorModel { we_killed: true, ..m }, MonitorAction::Kill)
                } else {
                    (m, MonitorAction::Nothing)
                }
            } else {
                let failures = if m.probe_failures < u32::MAX {
                    (m.probe_failures + 1) as u32
                } else {
                    u32::MAX
                };
                if failures >= PROBE_FAILURES_BEFORE_RESPAWN {
                    (
                        MonitorModel { probe_failures: failures, we_killed: true, ..m },
                        MonitorAction::Kill,
                    )
                } else {
                    (MonitorModel { probe_failures: failures, ..m }, MonitorAction::Nothing)
                }
            },
            MonitorEvent::Exited { code } => if classified(code) == ExitClass::NonTransient {
                (
                    MonitorModel { phase: Phase::Stopped, saw_unsatisfied: false, ..m },
                    MonitorAction::Stop,
                )
            } else {
                (
                    MonitorModel {
                        phase: Phase::CheckingLock {
                            sleep: if m.we_killed {
                                0
                            } else {
                                sleep_after(
                                    m.backoff,
                                    chrome::wall_between(m.spawned_at, now.mono),
                                )
                            },
                        },
                        we_killed: false,
                        saw_unsatisfied: false,
                        outage: false,
                        ..m
                    },
                    MonitorAction::CheckLock,
                )
            },
            MonitorEvent::WaitFailed => (
                MonitorModel { phase: Phase::Stopped, ..m },
                MonitorAction::Stop,
            ),
            _ => (m, MonitorAction::Nothing),
        },
        Phase::CheckingLock { sleep } => match event {
            MonitorEvent::LockChecked { owned } => if owned {
                let until = (now.mono + sleep) as u64;
                (
                    MonitorModel {
                        phase: Phase::Waiting {
                            sleep,
                            deadline: until,
                            wall_anchor: now.wall,
                            mono_anchor: now.mono,
                        },
                        ..m
                    },
                    MonitorAction::Sleep { until },
                )
            } else {
                (MonitorModel { phase: Phase::Stopped, ..m }, MonitorAction::Stop)
            },
            _ => (m, MonitorAction::Nothing),
        },
        Phase::Waiting { sleep, deadline: _, wall_anchor, mono_anchor } => match event {
            MonitorEvent::Cancelled => (
                MonitorModel { phase: Phase::Stopped, ..m },
                MonitorAction::Stop,
            ),
            MonitorEvent::DeadlineReached => after_wait(m, sleep, now),
            MonitorEvent::Polled => if chrome::wall_between(wall_anchor, now.wall)
                > chrome::wall_between(mono_anchor, now.mono) + SUSPEND_JUMP_THRESHOLD {
                after_wait(m, sleep, now)
            } else {
                (m, MonitorAction::Nothing)
            },
            MonitorEvent::NetworkChanged { unsatisfied } => if unsatisfied {
                (MonitorModel { outage: true, ..m }, MonitorAction::Nothing)
            } else if m.outage {
                after_wait(MonitorModel { outage: false, ..m }, MIN_RESPAWN_BACKOFF, now)
            } else {
                (m, MonitorAction::Nothing)
            },
            _ => (m, MonitorAction::Nothing),
        },
        Phase::Ensuring => match event {
            MonitorEvent::Ensured { sock } => (
                MonitorModel { remote_sock: sock@, phase: Phase::Spawning, ..m },
                MonitorAction::Spawn,
            ),
            MonitorEvent::EnsureFailed => retry(m),
            _ => (m, MonitorAction::Nothing),
        },
        Phase::Spawning => match event {
            MonitorEvent::Spawned => (
                MonitorModel {
                    phase: Phase::Watching,
                    spawned_at: now.mono,
                    probe_failures: 0,
                    net_probe_at: None,
                    ..m
                },
                MonitorAction::Nothing,
            ),
            MonitorEvent::SpawnFailed => retry(m),
            _ => (m, MonitorAction::Nothing),
        },
        Phase::Stopped => (m, MonitorAction::Nothing),
    }
}

/// What holds of every monitor between events.
pub open spec fn monitor_ok(m: MonitorModel) -> bool {
    &&& MIN_RESPAWN_BACKOFF <= m.backoff <= MAX_RESPAWN_BACKOFF
    &&& match m.phase {
        Phase::CheckingLock { sleep } => sleep <= MAX_RESPAWN_BACKOFF,
        Phase::Waiting { sleep, .. } => sleep <= MAX_RESPAWN_BACKOFF,
        _ => true,
    }
}

/// The state when a child was just spawned towards a socket.
pub open spec fn keeping_watch(remote_sock: Seq<char>, now: Now) -> MonitorModel {
    MonitorModel {
        phase: Phase::Watching,
        backoff: MIN_RESPAWN_BACKOFF,
        last_healthy: if remote_sock.len() == 0 {
            None
        } else {
            Some(now.wall)
        },
        net_probe_at: None,
        we_killed: false,
        saw_unsatisfied: false,
        outage: false,
        spawned_at: now.mono,
        probe_failures: 0,
        remote_sock,
    }
}

impl Monitor {
    /// A monitor for a child that was just spawned towards `remote_sock`; an
    /// empty socket path means that the remote server was not checked yet.
    pub fn new(remote_sock: String, now: Now) -> (m: Monitor)
        ensures
            m@ == keeping_watch(remote_sock@, now),
            monitor_ok(m@),
    {
        let last_healthy: Option<u64> = if remote_sock.as_str().is_empty() {
            None
        } else {
            Some(now.wall)
        };
        Monitor {
            phase: Phase::Watching,
            backoff: MIN_RESPAWN_BACKOFF,
            last_healthy,
            net_probe_at: None,
            we_killed: false,
            saw_unsatisfied: false,
            outage: false,
            spawned_at: now.mono,
            probe_failures: 0,
            remote_sock,
        }
    }

    fn finish_wait(&mut self, sleep: u64, now: Now) -> (action: MonitorAction)
        ensures
            (final(self)@, action) == after_wait(old(self)@, sleep, now),
    {
        self.backoff = double_backoff(sleep);
        let recent = match self.last_healthy {
            Some(t) => wall_elapsed(t, now.wall) < SKIP_ENSURE_REMOTE_THRESHOLD,
            None => false,
        };
        if recent && !self.remote_sock.as_str().is_empty() {
            self.phase = Phase::Spawning;
            MonitorAction::Spawn
        } else {
            self.phase = Phase::Ensuring;
            MonitorAction::EnsureRemote
        }
    }

    fn start_over(&mut self) -> (action: MonitorAction)
        ensures
            (final(self)@, action) == retry(old(self)@),
    {
        self.phase = Phase::CheckingLock { sleep: self.backoff };
        MonitorAction::CheckLock
    }

    /// React to an event.
    pub fn step(&mut self, event: MonitorEvent, now: Now) -> (action: MonitorAction)
        requires
            monitor_ok(old(self)@),
            now.mono <= u64::MAX - MAX_RESPAWN_BACKOFF,
        ensures
            (final(self)@, action) == monitor_step(old(self)@, event, now),
            monitor_ok(final(self)@),
    {
        match self.phase {
            Phase::Watching => match event {
                MonitorEvent::Cancelled => {
                    self.phase = Phase::Stopped;
                    MonitorAction::KillAndStop
                },
                MonitorEvent::NetworkChanged { unsatisfied } => {
                    if unsatisfied {
                        self.saw_unsatisfied = true;
                    }
                    self.net_probe_at = Some(now.mono + NET_PROBE_DEBOUNCE);
                    MonitorAction::Nothing
                },
                MonitorEvent::DebounceElapsed => {
                    self.net_probe_at = None;
                    if self.saw_unsatisfied {
                        MonitorAction::Probe { after_change: true }
                    } else {
                        MonitorAction::Nothing
                    }
                },
                MonitorEvent::ProbeTick { lock_owned } => {
                    if lock_owned {
                        MonitorAction::Probe { after_change: false }
                    } else {
                        self.phase = Phase::Stopped;
                        MonitorAction::KillAndStop
                    }
                },
                MonitorEvent::Probed { alive, after_change } => {
                    if alive {
                        self.probe_failures = 0;
                        self.last_healthy = Some(now.wall);
                        self.saw_unsatisfied = false;
                        MonitorAction::Nothing
                    } else if after_change {
                        if wall_elapsed(self.spawned_at, now.mono) >= SPAWN_GRACE {
                            self.we_killed = true;
                            MonitorAction::Kill
                        } else {
                            MonitorAction::Nothing
                        }
                    } else {
                        self.probe_failures = self.probe_failures.saturating_add(1);
                        if self.probe_failures >= PROBE_FAILURES_BEFORE_RESPAWN {
                            self.we_killed = true;
                            MonitorAction::Kill
                        } else {
                            MonitorAction::Nothing
                        }
                    }
                },
                MonitorEvent::Exited { code } => {
                    self.saw_unsatisfied = false;
                    if classify_exit(code) == ExitClass::NonTransient {
                        self.phase = Phase::Stopped;
                        MonitorAction::Stop
                    } else {
                        let uptime: u64 = wall_elapsed(self.spawned_at, now.mono);
                        let sleep: u64 = if self.we_killed {
                            0
                        } else {
                            respawn_sleep(self.backoff, uptime)
                        };
                        self.we_killed = false;
                        self.outage = false;
                        self.phase = Phase::CheckingLock { sleep };
                        MonitorAction::CheckLock
                    }
                },
                MonitorEvent::WaitFailed => {
                    self.phase = Phase::Stopped;
                    MonitorAction::Stop
                },
                _ => MonitorAction::Nothing,
            },
            Phase::CheckingLock { sleep } => match event {
                MonitorEvent::LockChecked { owned } => {
                    if owned {
                        let until: u64 = now.mono + sleep;
                        self.phase = Phase::Waiting {
                            sleep,
                            deadline: until,
                            wall_anchor: now.wall,
                            mono_anchor: now.mono,
                        };
                        MonitorAction::Sleep { until }
                    } else {
                        self.phase = Phase::Stopped;
                        MonitorAction::Stop
                    }
                },
                _ => MonitorAction::Nothing,
            },
            Phase::Waiting { sleep, deadline: _, wall_anchor, mono_anchor } => match event {
                MonitorEvent::Cancelled => {
                    self.phase = Phase::Stopped;
                    MonitorAction::Stop
                },
                MonitorEvent::DeadlineReached => self.finish_wait(sleep, now),
                MonitorEvent::Polled => {
                    let wall: u64 = wall_elapsed(wall_anchor, now.wall);
                    let mono: u64 = wall_elapsed(mono_anchor, now.mono);
                    if wall > mono && wall - mono > SUSPEND_JUMP_THRESHOLD {
                        self.finish_wait(sleep, now)
                    } else {
                        MonitorAction::Nothing
                    }
                },
                MonitorEvent::NetworkChanged { unsatisfied } => {
                    if unsatisfied {
                        self.outage = true;
                        MonitorAction::Nothing
                    } else if self.outage {
                        self.outage = false;
                        self.finish_wait(MIN_RESPAWN_BACKOFF, now)
                    } else {
                        MonitorAction::Nothing
                    }
                },
                _ => MonitorAction::Nothing,
            },
            Phase::Ensuring => match event {
                MonitorEvent::Ensured { sock } => {
                    self.remote_sock = sock;
                    self.phase = Phase::Spawning;
                    MonitorAction::Spawn
                },
                MonitorEvent::EnsureFailed => self.start_over(),
                _ => MonitorAction::Nothing,
            },
            Phase::Spawning => match event {
                MonitorEvent::Spawned => {
                    self.phase = Phase::Watching;
                    self.spawned_at = now.mono;
                    self.probe_failures = 0;
                    self.net_probe_at = None;
                    MonitorAction::Nothing
                },
                MonitorEvent::SpawnFailed => self.start_over(),
                _ => MonitorAction::Nothing,
            },
            Phase::Stopped => MonitorAction::Nothing,
        }
    }
}

/// A death that ssh reports as transient never ends the monitor by itself,
/// however often it happens.
pub proof fn law_transient_exits_are_retried(m: MonitorModel, code: Option<i32>, now: Now)
    requires
        m.phase is Watching,
        classified(code) == ExitClass::Transient,
    ensures
        monitor_step(m, MonitorEvent::Exited { code }, now).1 == MonitorAction::CheckLock,
        !(monitor_step(m, MonitorEvent::Exited { code }, now).0.phase is Stopped),
{
}

/// An outage is remembered across failed attempts: only a new child's death or
/// the network's return clears it.
pub proof fn law_outage_outlives_attempts(m: MonitorModel, event: MonitorEvent, now: Now)
    requires
        m.outage,
        !(m.phase is Watching),
    ensures
        monitor_step(m, event, now).0.outage || (m.phase is Waiting && event
            == MonitorEvent::NetworkChanged { unsatisfied: false }),
{
}

/// Once the network is back after an outage, the wait is over at once, and the
/// climb of the backoff starts from the bottom.
pub proof fn law_recovery_ends_the_wait(m: MonitorModel, now: Now)
    requires
        m.phase is Waiting,
        m.outage,
    ensures
        ({
            let (post, action) = monitor_step(
                m,
                MonitorEvent::NetworkChanged { unsatisfied: false },
                now,
            );
            &&& action == MonitorAction::Spawn || action == MonitorAction::EnsureRemote
            &&& post.backoff == doubled(MIN_RESPAWN_BACKOFF)
        }),
{
}

/// A supervisor that lost its lock spawns nothing more: a child is only ever
/// spawned out of a wait, and a wait only ever starts with the lock in hand.
pub proof fn law_only_the_owner_spawns(m: MonitorModel, event: MonitorEvent, now: Now)
    ensures
        ({
            let (post, action) = monitor_step(m, event, now);
            &&& action == MonitorAction::Spawn || action == MonitorAction::EnsureRemote
                ==> m.phase is Waiting || m.phase is Ensuring
            &&& post.phase is Ensuring ==> m.phase is Waiting || m.phase is Ensuring
            &&& post.phase is Spawning ==> m.phase is Waiting || m.phase is Ensuring || m.phase is Spawning
            &&& post.phase is Waiting && !(m.phase is Waiting) ==> (event matches MonitorEvent::LockChecked {
                owned,
            } && owned)
        }),
{
}

/// A failed attempt makes the next wait longer, up to the longest: the climb
/// is never lost to the attempts themselves.
pub proof fn law_failed_attempts_climb(m: MonitorModel, now: Now, owned_at: Now, later: Now)
    requires
        monitor_ok(m),
        m.phase is Ensuring || m.phase is Spawning,
    ensures
        ({
            let e = if m.phase is Ensuring {
                MonitorEvent::EnsureFailed
            } else {
                MonitorEvent::SpawnFailed
            };
            let a = monitor_step(m, e, now).0;
            let b = monitor_step(a, MonitorEvent::LockChecked { owned: true }, owned_at).0;
            let c = monitor_step(b, MonitorEvent::DeadlineReached, later).0;
            &&& a.phase == Phase::CheckingLock { sleep: m.backoff }
            &&& b.phase is Waiting
            &&& c.backoff == doubled(m.backoff)
            &&& c.backoff >= m.backoff
        }),
{
}

/// A new child starts with a clean record.
pub proof fn law_new_child_starts_clean(m: MonitorModel, now: Now)
    requires
        m.phase is Spawning,
    ensures
        ({
            let post = monitor_step(m, MonitorEvent::Spawned, now).0;
            post.phase is Watching && post.probe_failures == 0 && post.spawned_at == now.mono
                && post.net_probe_at is None
        }),
{
}

/// Changes of the network during which there always was a route never lead to
/// a probe, and so never to a kill.
pub proof fn law_network_noise_never_probes(m: MonitorModel, a: Now, b: Now)
    requires
        m.phase is Watching,
        !m.saw_unsatisfied,
    ensures
        ({
            let c = monitor_step(m, MonitorEvent::NetworkChanged { unsatisfied: false }, a).0;
            monitor_step(c, MonitorEvent::DebounceElapsed, b).1 == MonitorAction::Nothing
        }),
{
}

/// A child is not killed over a change of the network before it has had time
/// to come up.
pub proof fn law_spawn_grace(m: MonitorModel, now: Now)
    requires
        m.phase is Watching,
        chrome::wall_between(m.spawned_at, now.mono) < SPAWN_GRACE,
    ensures
        monitor_step(m, MonitorEvent::Probed { alive: false, after_change: true }, now) == (
            m,
            MonitorAction::Nothing,
        ),
{
}

/// One event of a monitor's life, with what was done.
pub struct Incident {
    pub pre: MonitorModel,
    pub event: MonitorEvent,
    pub now: Now,
    pub post: MonitorModel,
    pub action: MonitorAction,
}

/// Whether a monitor that began like this lived through these events.
pub open spec fn is_life(sock: Seq<char>, start: Now, run: Seq<Incident>) -> bool
    decreases run.len(),
{
    run.len() == 0 || {
        let before = run.drop_last();
        let t = run.last();
        &&& is_life(sock, start, before)
        &&& (t.post, t.action) == monitor_step(t.pre, t.event, t.now)
        &&& t.pre == (if before.len() == 0 {
            keeping_watch(sock, start)
        } else {
            before.last().post
        })
    }
}

/// What a monitor is at.
#[derive(Clone, Copy, PartialEq, Eq, Structural)]
pub enum Stage {
    /// A child runs.
    Watching,
    /// It is found out whether the tunnel is still this supervisor's.
    Checking,
    /// The time until the next attempt passes.
    Waiting,
    /// The remote server is looked for.
    Looking,
    /// A child is spawned.
    Spawning,
    Stopped,
}

/// What a monitor is at after some events, by what it did last.
pub open spec fn stage(run: Seq<Incident>) -> Stage
    decreases run.len(),
{
    if run.len() == 0 {
        Stage::Watching
    } else {
        let was = stage(run.drop_last());
        match run.last().action {
            MonitorAction::CheckLock => Stage::Checking,
            MonitorAction::Sleep { .. } => Stage::Waiting,
            MonitorAction::EnsureRemote => Stage::Looking,
            MonitorAction::Spawn => Stage::Spawning,
            MonitorAction::Stop => Stage::Stopped,
            MonitorAction::KillAndStop => Stage::Stopped,
            _ => if was is Spawning && run.last().event is Spawned {
                Stage::Watching
            } else {
                was
            },
        }
    }
}

/// When the child was spawned.
pub open spec fn born(start: Now, run: Seq<Incident>) -> u64
    decreases run.len(),
{
    if run.len() == 0 {
        start.mono
    } else if run.last().event is Spawned && stage(run.drop_last()) is Spawning {
        run.last().now.mono
    } else {
        born(start, run.drop_last())
    }
}

/// How many of the latest regular probes of the child went unanswered.
pub open spec fn unanswered(run: Seq<Incident>) -> nat
    decreases run.len(),
{
    if run.len() == 0 {
        0
    } else {
        let before = run.drop_last();
        match run.last().event {
            MonitorEvent::Spawned => if stage(before) is Spawning {
                0
            } else {
                unanswered(before)
            },
            MonitorEvent::Probed { alive, after_change } => if stage(before) is Watching {
                if alive {
                    0
                } else if after_change {
                    unanswered(before)
                } else {
                    unanswered(before) + 1
                }
            } else {
                unanswered(before)
            },
            _ => unanswered(before),
        }
    }
}

/// Whether there was no route at some time since the child last answered.
pub open spec fn was_cut_off(run: Seq<Incident>) -> bool
    decreases run.len(),
{
    if run.len() == 0 {
        false
    } else {
        let before = run.drop_last();
        if stage(before) is Watching {
            match run.last().event {
                MonitorEvent::NetworkChanged { unsatisfied } => unsatisfied || was_cut_off(before),
                MonitorEvent::Probed { alive, .. } => !alive && was_cut_off(before),
                MonitorEvent::Exited { .. } => false,
                _ => was_cut_off(before),
            }
        } else {
            was_cut_off(before)
        }
    }
}

/// Whether the monitor killed the child that runs, or ran last.
pub open spec fn has_killed(run: Seq<Incident>) -> bool
    decreases run.len(),
{
    if run.len() == 0 {
        false
    } else if run.last().action is Kill {
        true
    } else if run.last().action is CheckLock && run.last().event is Exited {
        false
    } else {
        has_killed(run.drop_last())
    }
}

/// Whether the network went down during the wait for the next attempt, or an
/// earlier one, and has not come back.
pub open spec fn is_down(run: Seq<Incident>) -> bool
    decreases run.len(),
{
    if run.len() == 0 {
        false
    } else {
        let before = run.drop_last();
        match run.last().event {
            MonitorEvent::NetworkChanged { unsatisfied } => if stage(before) is Waiting {
                unsatisfied
            } else {
                is_down(before)
            },
            MonitorEvent::Exited { .. } => !(run.last().action is CheckLock) && is_down(before),
            _ => is_down(before),
        }
    }
}

/// When the remote server was last known to be alive.
pub open spec fn seen_alive(sock: Seq<char>, start: Now, run: Seq<Incident>) -> Option<u64>
    decreases run.len(),
{
    if run.len() == 0 {
        if sock.len() == 0 {
            None
        } else {
            Some(start.wall)
        }
    } else {
        match run.last().event {
            MonitorEvent::Probed { alive: true, .. } => if stage(run.drop_last()) is Watching {
                Some(run.last().now.wall)
            } else {
                seen_alive(sock, start, run.drop_last())
            },
            _ => seen_alive(sock, start, run.drop_last()),
        }
    }
}

/// Where the remote server is, as far as it was told.
pub open spec fn leads_to(sock: Seq<char>, run: Seq<Incident>) -> Seq<char>
    decreases run.len(),
{
    if run.len() == 0 {
        sock
    } else {
        match run.last().event {
            MonitorEvent::Ensured { sock: s } => if stage(run.drop_last()) is Looking {
                s@
            } else {
                leads_to(sock, run.drop_last())
            },
            _ => leads_to(sock, run.drop_last()),
        }
    }
}

/// The wait that a failure now would lead to: a second at first, and after
/// each wait twice as long, up to a minute.
pub open spec fn next_wait(start: Now, run: Seq<Incident>) -> int
    decreases run.len(),
{
    if run.len() == 0 {
        1000
    } else {
        let before = run.drop_last();
        if stage(before) is Waiting && stage(run) != Stage::Waiting && stage(run)
            != Stage::Stopped {
            let w = if run.last().event is NetworkChanged {
                1000
            } else {
                wait_due(start, before)
            };
            if w < 1000 {
                2000
            } else if w < 30000 {
                2 * w
            } else {
                60000
            }
        } else {
            next_wait(start, before)
        }
    }
}

/// The wait that goes with the latest death or failed attempt: none after a
/// child that the monitor killed itself, a second after one that had lived for
/// half a minute.
pub open spec fn wait_due(start: Now, run: Seq<Incident>) -> int
    decreases run.len(),
{
    if run.len() == 0 {
        0
    } else {
        let before = run.drop_last();
        if run.last().action is CheckLock {
            if !(run.last().event is Exited) {
                next_wait(start, before)
            } else if has_killed(before) {
                0
            } else if run.last().now.mono - born(start, before) >= 30000 {
                1000
            } else {
                next_wait(start, before)
            }
        } else {
            wait_due(start, before)
        }
    }
}

/// When the wait began.
pub open spec fn wait_begun(start: Now, run: Seq<Incident>) -> Now
    decreases run.len(),
{
    if run.len() == 0 {
        start
    } else if run.last().action is Sleep {
        run.last().now
    } else {
        wait_begun(start, run.drop_last())
    }
}

spec fn stage_fits(m: MonitorModel, s: Stage) -> bool {
    match m.phase {
        Phase::Watching => s is Watching,
        Phase::CheckingLock { .. } => s is Checking,
        Phase::Waiting { .. } => s is Waiting,
        Phase::Ensuring => s is Looking,
        Phase::Spawning => s is Spawning,
        Phase::Stopped => s is Stopped,
    }
}

proof fn lemma_stage(sock: Seq<char>, start: Now, run: Seq<Incident>)
    requires
        is_life(sock, start, run),
        run.len() > 0,
    ensures
        stage_fits(run.last().post, stage(run)),
        stage_fits(run.last().pre, stage(run.drop_last())),
    decreases run.len(),
{
    reveal_with_fuel(stage, 2);
    if run.len() > 1 {
        lemma_stage(sock, start, run.drop_last());
    }
}

proof fn lemma_life(sock: Seq<char>, start: Now, run: Seq<Incident>)
    requires
        is_life(sock, start, run),
        run.len() > 0,
    ensures
        ({
            let m = run.last().post;
            &&& m.spawned_at == born(start, run)
            &&& m.probe_failures == (if unanswered(run) < u32::MAX {
                unanswered(run) as int
            } else {
                u32::MAX as int
            })
            &&& m.saw_unsatisfied == was_cut_off(run)
            &&& m.we_killed == has_killed(run)
        }),
    decreases run.len(),
{
    reveal_with_fuel(born, 2);
    reveal_with_fuel(unanswered, 2);
    reveal_with_fuel(was_cut_off, 2);
    reveal_with_fuel(has_killed, 2);
    lemma_stage(sock, start, run);
    if run.len() > 1 {
        lemma_life(sock, start, run.drop_last());
    }
}

proof fn lemma_waits(sock: Seq<char>, start: Now, run: Seq<Incident>)
    requires
        is_life(sock, start, run),
        run.len() > 0,
    ensures
        ({
            let m = run.last().post;
            &&& m.outage == is_down(run)
            &&& m.last_healthy == seen_alive(sock, start, run)
            &&& m.remote_sock == leads_to(sock, run)
            &&& m.backoff == next_wait(start, run)
            &&& m.phase matches Phase::CheckingLock { sleep } ==> sleep == wait_due(start, run)
            &&& m.phase matches Phase::Waiting { sleep, wall_anchor, mono_anchor, .. } ==> {
                &&& sleep == wait_due(start, run)
                &&& wall_anchor == wait_begun(start, run).wall
                &&& mono_anchor == wait_begun(start, run).mono
            }
        }),
    decreases run.len(),
{
    reveal_with_fuel(is_down, 2);
    reveal_with_fuel(seen_alive, 2);
    reveal_with_fuel(leads_to, 2);
    reveal_with_fuel(next_wait, 2);
    reveal_with_fuel(wait_due, 2);
    reveal_with_fuel(wait_begun, 2);
    lemma_stage(sock, start, run);
    lemma_life(sock, start, run);
    if run.len() > 1 {
        lemma_life(sock, start, run.drop_last());
        lemma_waits(sock, start, run.drop_last());
    }
}

/// A tunnel is brought back for as long as it is wanted. A child that dies of a
/// broken connection is spawned again, after a wait, as often as that takes;
/// one that dies of anything else or whose fate cannot be learnt, or a lock that
/// went to somebody else, ends the monitor. The remote server is looked for before a spawn unless it was
/// alive within the last minute.
pub proof fn law_tunnels_are_respawned(sock: Seq<char>, start: Now, run: Seq<Incident>)
    requires
        is_life(sock, start, run),
        run.len() > 0,
    ensures
        ({
            let before = run.drop_last();
            let a = run.last().action;
            let now = run.last().now;
            let broken = |code: Option<i32>| code is None || code == Some(255i32) || 128 <= code->0
                <= 159;
            let fresh = leads_to(sock, before).len() > 0 && seen_alive(sock, start, before) is Some
                && now.wall - seen_alive(sock, start, before)->0 < 60000;
            match (stage(before), run.last().event) {
                (Stage::Watching, MonitorEvent::Exited { code }) => if broken(code) {
                    a is CheckLock
                } else {
                    a is Stop
                },
                (Stage::Watching, MonitorEvent::ProbeTick { lock_owned }) => if lock_owned {
                    a == (MonitorAction::Probe { after_change: false })
                } else {
                    a is KillAndStop
                },
                (Stage::Watching, MonitorEvent::Cancelled) => a is KillAndStop,
                (Stage::Watching, MonitorEvent::WaitFailed) => a is Stop,
                (Stage::Checking, MonitorEvent::LockChecked { owned }) => if owned {
                    &&& a is Sleep
                    &&& now.mono <= u64::MAX - 60000 ==> a->until == now.mono + wait_due(
                        start,
                        before,
                    )
                } else {
                    a is Stop
                },
                (Stage::Waiting, MonitorEvent::DeadlineReached) => if fresh {
                    a is Spawn
                } else {
                    a is EnsureRemote
                },
                (Stage::Waiting, MonitorEvent::Cancelled) => a is Stop,
                (Stage::Looking, MonitorEvent::Ensured { .. }) => a is Spawn,
                (Stage::Looking, MonitorEvent::EnsureFailed) => a is CheckLock,
                (Stage::Spawning, MonitorEvent::SpawnFailed) => a is CheckLock,
                (Stage::Stopped, _) => a is Nothing,
                (_, _) => !(a is Stop) && !(a is CheckLock),
            }
        }),
{
    reveal_with_fuel(next_wait, 2);
    reveal_with_fuel(wait_due, 2);
    lemma_stage(sock, start, run);
    if run.len() > 1 {
        lemma_waits(sock, start, run.drop_last());
        lemma_wait_bound(start, run.drop_last());
    }
}

proof fn lemma_wait_bound(start: Now, run: Seq<Incident>)
    ensures
        0 <= next_wait(start, run) <= 60000,
        0 <= wait_due(start, run) <= 60000,
    decreases run.len(),
{
    reveal_with_fuel(next_wait, 2);
    reveal_with_fuel(wait_due, 2);
    if run.len() > 0 {
        lemma_wait_bound(start, run.drop_last());
    }
}

/// A wait is cut short when the machine was asleep for most of it, or when the
/// network comes back after it was gone; nothing else cuts it short.
pub proof fn law_waits_are_cut_short(sock: Seq<char>, start: Now, run: Seq<Incident>)
    requires
        is_life(sock, start, run),
        run.len() > 0,
        stage(run.drop_last()) is Waiting,
    ensures
        ({
            let before = run.drop_last();
            let a = run.last().action;
            let now = run.last().now;
            let since = wait_begun(start, before);
            let on_the_wall: int = if now.wall >= since.wall {
                now.wall - since.wall
            } else {
                0
            };
            let awake: int = if now.mono >= since.mono {
                now.mono - since.mono
            } else {
                0
            };
            (a is Spawn || a is EnsureRemote) <==> match run.last().event {
                MonitorEvent::DeadlineReached => true,
                MonitorEvent::Polled => on_the_wall > awake + 5000,
                MonitorEvent::NetworkChanged { unsatisfied } => !unsatisfied && is_down(before),
                _ => false,
            }
        }),
{
    lemma_stage(sock, start, run);
    if run.len() > 1 {
        lemma_waits(sock, start, run.drop_last());
    }
}

/// A child is killed when two regular probes in a row go unanswered, or when
/// one does after the network was gone and the child has had five seconds to
/// come up; and for no other reason while the tunnel is wanted. After a change
/// of the network it is probed only where there was no route in between.
pub proof fn law_dead_tunnels_are_killed(sock: Seq<char>, start: Now, run: Seq<Incident>)
    requires
        is_life(sock, start, run),
        run.len() > 0,
    ensures
        ({
            let before = run.drop_last();
            let a = run.last().action;
            let watching = stage(before) is Watching;
            &&& a is Kill <==> watching && match run.last().event {
                MonitorEvent::Probed { alive, after_change } => !alive && if after_change {
                    run.last().now.mono - born(start, before) >= 5000
                } else {
                    unanswered(run) >= 2
                },
                _ => false,
            }
            &&& watching && run.last().event is DebounceElapsed ==> (a is Probe <==> was_cut_off(
                before,
            ))
            &&& a is Probe ==> watching && (run.last().event is ProbeTick || run.last().event
                is DebounceElapsed)
            &&& a is Probe ==> (a->after_change <==> run.last().event is DebounceElapsed)
        }),
{
    reveal_with_fuel(unanswered, 2);
    reveal_with_fuel(born, 2);
    reveal_with_fuel(was_cut_off, 2);
    lemma_stage(sock, start, run);
    lemma_life(sock, start, run);
    if run.len() > 1 {
        lemma_life(sock, start, run.drop_last());
    }
}

} // verus!
