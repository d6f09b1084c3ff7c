//! The per-proxy worker state machine.
//!
//! A worker alternates remote work (building a proxied client, probing
//! candidates, sleeping through a cooldown, recording a hit) with decisions.
//! The decisions live here, in one flat transition function from state and
//! feedback to the next state, the action to perform and the events to
//! emit; the surrounding application performs the actions and hands back
//! what happened.

use crate::probe::{BalanceOutcome, OwnershipOutcome};
use crate::{GroupId, CONNECT_ATTEMPTS, MAX_GROUP_ID, RECONNECT_THRESHOLD};
use vstd::prelude::*;

verus! {

/// A snapshot of the live configuration, as a worker observes it at one
/// decision point.
#[derive(Clone, Copy, Debug, PartialEq, Eq, Structural)]
pub struct ConfigSnapshot {
    pub running: bool,
    pub minimum_robux: u16,
    pub premium_groups: bool,
}

/// What the worker waits on.
#[derive(Clone, Copy, Debug, PartialEq, Eq, Structural)]
pub enum WorkerPhase {
    /// Spawned, nothing done yet.
    Idle,
    /// A client build for the proxy is in flight.
    Connecting,
    /// A balance probe for this candidate is in flight.
    CheckingBalance { id: GroupId },
    /// An ownership probe is in flight; the balance already qualified.
    CheckingOwnership { id: GroupId, balance: u32 },
    /// The fixed cooldown sleep is in flight.
    RateLimitCooldown,
    /// A store write for a discovered hit is in flight.
    Recording { id: GroupId, balance: u32 },
    /// The worker's loop has ended.
    Stopped,
}

/// What the application must do next.
#[derive(Clone, Copy, Debug, PartialEq, Eq, Structural)]
pub enum Action {
    /// Build a probe client bound to the worker's proxy.
    BuildClient,
    /// Probe the balance of this candidate.
    CheckBalance { id: GroupId },
    /// Probe the ownership of this candidate.
    CheckOwnership { id: GroupId },
    /// Sleep through the fixed cooldown.
    Sleep,
    /// Record a hit in the result store.
    Record { id: GroupId, balance: u32 },
    /// Exit the worker's loop.
    Stop,
}

/// What happened to the action last issued.
#[derive(Clone, Debug)]
pub enum Feedback {
    /// First call after spawning; no action was issued yet.
    Started,
    /// The client build succeeded.
    Connected,
    /// The client build failed; `connect_error` tells a network or proxy
    /// failure from any other error.  Either way the attempt is consumed.
    ConnectFailed { connect_error: bool },
    /// The balance probe answered with a body, already classified.
    Balance { outcome: BalanceOutcome },
    /// The ownership probe answered with a body, already classified.
    Ownership { outcome: OwnershipOutcome },
    /// The probe's transport failed before any body arrived.
    Transport { connect_error: bool },
    /// The cooldown sleep finished.
    Slept,
    /// The store write finished; a failure is logged by the application and
    /// changes nothing here.
    Recorded { ok: bool },
}

/// An event for the engine's per-worker stream.
#[derive(Clone, Debug, PartialEq, Eq)]
pub enum WorkerEvent {
    ProxyConnected,
    ProxyDisconnected,
    HitFound { id: GroupId, name: Option<String>, balance: u32 },
    CandidateChecked,
}

/// One worker's state between two steps.
#[derive(Clone, Debug)]
pub struct WorkerState {
    pub phase: WorkerPhase,
    /// Failed connection attempts in the current reconnect cycle.
    pub attempts: u32,
    /// Candidates checked since the last successful connect.
    pub checked: u64,
    /// Whether a `ProxyConnected` was emitted and not yet taken back.
    pub connected: bool,
}

/// What one step yields.
pub struct StepOutcome {
    pub action: Action,
    pub events: Vec<WorkerEvent>,
}

/// Which feedback a phase can receive.
pub open spec fn accepts(phase: WorkerPhase, fb: Feedback) -> bool {
    match phase {
        WorkerPhase::Idle => fb is Started,
        WorkerPhase::Connecting => fb is Connected || fb is ConnectFailed,
        WorkerPhase::CheckingBalance { .. } => fb is Balance || fb is Transport,
        WorkerPhase::CheckingOwnership { .. } => fb is Ownership || fb is Transport,
        WorkerPhase::RateLimitCooldown => fb is Slept,
        WorkerPhase::Recording { .. } => fb is Recorded,
        WorkerPhase::Stopped => false,
    }
}

// ---------------------------------------------------------------------------
// The transition function, as a mathematical spec.
// ---------------------------------------------------------------------------

/// Top of the scan loop: the cancellation point before every new candidate.
pub open spec fn spec_scan_top(
    s: WorkerState,
    cfg: ConfigSnapshot,
    candidate: GroupId,
    evs: Seq<WorkerEvent>,
) -> (WorkerState, Action, Seq<WorkerEvent>) {
    if !cfg.running {
        (
            WorkerState { phase: WorkerPhase::Stopped, connected: false, ..s },
            Action::Stop,
            if s.connected {
                evs.push(WorkerEvent::ProxyDisconnected)
            } else {
                evs
            },
        )
    } else {
        (
            WorkerState { phase: WorkerPhase::CheckingBalance { id: candidate }, ..s },
            Action::CheckBalance { id: candidate },
            evs,
        )
    }
}

/// Top of the reconnect loop: the cancellation point before a fresh
/// connection cycle.
pub open spec fn spec_reconnect_top(
    s: WorkerState,
    cfg: ConfigSnapshot,
    evs: Seq<WorkerEvent>,
) -> (WorkerState, Action, Seq<WorkerEvent>) {
    if !cfg.running {
        (
            WorkerState { phase: WorkerPhase::Stopped, connected: false, ..s },
            Action::Stop,
            if s.connected {
                evs.push(WorkerEvent::ProxyDisconnected)
            } else {
                evs
            },
        )
    } else {
        (
            WorkerState { phase: WorkerPhase::Connecting, attempts: 0, ..s },
            Action::BuildClient,
            evs,
        )
    }
}

/// A candidate is done with: count it, announce it, go back to the top of
/// the scan loop.
pub open spec fn spec_candidate_done(
    s: WorkerState,
    cfg: ConfigSnapshot,
    candidate: GroupId,
) -> (WorkerState, Action, Seq<WorkerEvent>) {
    let counted = WorkerState {
        checked: if s.checked == u64::MAX {
            s.checked
        } else {
            (s.checked + 1) as u64
        },
        ..s
    };
    spec_scan_top(counted, cfg, candidate, seq![WorkerEvent::CandidateChecked])
}

/// A failed connection attempt: consume it; after the last one, a proxy
/// that checked too little since its last successful connect is abandoned,
/// any other re-enters a fresh connection cycle.
pub open spec fn spec_connect_failed(s: WorkerState, cfg: ConfigSnapshot) -> (
    WorkerState,
    Action,
    Seq<WorkerEvent>,
) {
    if s.attempts + 1 < CONNECT_ATTEMPTS {
        (
            WorkerState { attempts: (s.attempts + 1) as u32, ..s },
            Action::BuildClient,
            Seq::empty(),
        )
    } else if s.checked < RECONNECT_THRESHOLD {
        (
            WorkerState { phase: WorkerPhase::Stopped, attempts: 0, connected: false, ..s },
            Action::Stop,
            Seq::empty(),
        )
    } else {
        spec_reconnect_top(WorkerState { attempts: 0, ..s }, cfg, Seq::empty())
    }
}

/// A transport failure mid-scan: the connection is gone; a fresh reconnect
/// cycle begins.
pub open spec fn spec_probe_transport(s: WorkerState, cfg: ConfigSnapshot) -> (
    WorkerState,
    Action,
    Seq<WorkerEvent>,
) {
    spec_reconnect_top(
        WorkerState { connected: false, attempts: 0, ..s },
        cfg,
        seq![WorkerEvent::ProxyDisconnected],
    )
}

/// The whole transition function.
pub open spec fn spec_step(
    s: WorkerState,
    cfg: ConfigSnapshot,
    candidate: GroupId,
    fb: Feedback,
) -> (WorkerState, Action, Seq<WorkerEvent>) {
    match fb {
        Feedback::Started => spec_reconnect_top(s, cfg, Seq::empty()),
        Feedback::Connected => spec_scan_top(
            WorkerState { attempts: 0, checked: 0, connected: true, ..s },
            cfg,
            candidate,
            seq![WorkerEvent::ProxyConnected],
        ),
        Feedback::ConnectFailed { .. } => spec_connect_failed(s, cfg),
        Feedback::Balance { outcome } => match outcome {
            BalanceOutcome::RateLimited => (
                WorkerState { phase: WorkerPhase::RateLimitCooldown, ..s },
                Action::Sleep,
                Seq::empty(),
            ),
            BalanceOutcome::Malformed => spec_candidate_done(s, cfg, candidate),
            BalanceOutcome::Empty => spec_candidate_done(s, cfg, candidate),
            BalanceOutcome::Found(balance) => {
                if balance >= cfg.minimum_robux as u32 {
                    let id = s.phase->CheckingBalance_id;
                    (
                        WorkerState {
                            phase: WorkerPhase::CheckingOwnership { id, balance },
                            ..s
                        },
                        Action::CheckOwnership { id },
                        Seq::empty(),
                    )
                } else {
                    spec_candidate_done(s, cfg, candidate)
                }
            },
        },
        Feedback::Ownership { outcome } => match outcome {
            OwnershipOutcome::RateLimited => (
                WorkerState { phase: WorkerPhase::RateLimitCooldown, ..s },
                Action::Sleep,
                Seq::empty(),
            ),
            OwnershipOutcome::Malformed => spec_candidate_done(s, cfg, candidate),
            OwnershipOutcome::Ineligible => spec_candidate_done(s, cfg, candidate),
            OwnershipOutcome::Eligible { name } => {
                let id = s.phase->CheckingOwnership_id;
                let balance = s.phase->CheckingOwnership_balance;
                (
                    WorkerState { phase: WorkerPhase::Recording { id, balance }, ..s },
                    Action::Record { id, balance },
                    seq![WorkerEvent::HitFound { id, name, balance }],
                )
            },
        },
        Feedback::Transport { .. } => spec_probe_transport(s, cfg),
        Feedback::Slept => spec_scan_top(s, cfg, candidate, Seq::empty()),
        Feedback::Recorded { .. } => spec_candidate_done(s, cfg, candidate),
    }
}

impl WorkerState {
    /// Well-formedness between steps.
    pub open spec fn wf(self) -> bool {
        &&& self.attempts < CONNECT_ATTEMPTS
        &&& match self.phase {
            WorkerPhase::Idle => !self.connected && self.attempts == 0 && self.checked == 0,
            WorkerPhase::Connecting => !self.connected,
            WorkerPhase::CheckingBalance { id } => self.connected && id < MAX_GROUP_ID,
            WorkerPhase::CheckingOwnership { .. } => self.connected,
            WorkerPhase::RateLimitCooldown => self.connected,
            WorkerPhase::Recording { .. } => self.connected,
            WorkerPhase::Stopped => true,
        }
    }

    /// A freshly spawned worker.
    pub fn new() -> (s: Self)
        ensures
            s.wf(),
            s == (WorkerState {
                phase: WorkerPhase::Idle,
                attempts: 0,
                checked: 0,
                connected: false,
            }),
    {
        WorkerState { phase: WorkerPhase::Idle, attempts: 0, checked: 0, connected: false }
    }

    /// One step of the worker: `fb` reports what happened to the action
    /// last issued, `cfg` is the live configuration read at this instant,
    /// and `candidate` is the identifier to probe if a new candidate is
    /// started.
    pub fn step(&mut self, cfg: ConfigSnapshot, candidate: GroupId, fb: Feedback) -> (out:
        StepOutcome)
        requires
            old(self).wf(),
            accepts(old(self).phase, fb),
            candidate < MAX_GROUP_ID,
        ensures
            final(self).wf(),
            (*final(self), out.action, out.events@) == spec_step(*old(self), cfg, candidate, fb),
    {
        let mut events: Vec<WorkerEvent> = Vec::new();
        let action = match fb {
            Feedback::Started => self.reconnect_top(cfg, &mut events),
            Feedback::Connected => {
                self.attempts = 0;
                self.checked = 0;
                self.connected = true;
                events.push(WorkerEvent::ProxyConnected);
                self.scan_top(cfg, candidate, &mut events)
            },
            Feedback::ConnectFailed { .. } => {
                if self.attempts + 1 < CONNECT_ATTEMPTS {
                    self.attempts = self.attempts + 1;
                    Action::BuildClient
                } else if self.checked < RECONNECT_THRESHOLD {
                    self.attempts = 0;
                    self.connected = false;
                    self.phase = WorkerPhase::Stopped;
                    Action::Stop
                } else {
                    self.attempts = 0;
                    self.reconnect_top(cfg, &mut events)
                }
            },
            Feedback::Balance { outcome } => match outcome {
                BalanceOutcome::RateLimited => {
                    self.phase = WorkerPhase::RateLimitCooldown;
                    Action::Sleep
                },
                BalanceOutcome::Malformed => self.candidate_done(cfg, candidate, &mut events),
                BalanceOutcome::Empty => self.candidate_done(cfg, candidate, &mut events),
                BalanceOutcome::Found(balance) => {
                    if balance >= cfg.minimum_robux as u32 {
                        let id = match self.phase {
                            WorkerPhase::CheckingBalance { id } => id,
                            _ => 0,
                        };
                        self.phase = WorkerPhase::CheckingOwnership { id, balance };
                        Action::CheckOwnership { id }
                    } else {
                        self.candidate_done(cfg, candidate, &mut events)
                    }
                },
            },
            Feedback::Ownership { outcome } => match outcome {
                OwnershipOutcome::RateLimited => {
                    self.phase = WorkerPhase::RateLimitCooldown;
                    Action::Sleep
                },
                OwnershipOutcome::Malformed => self.candidate_done(cfg, candidate, &mut events),
                OwnershipOutcome::Ineligible => self.candidate_done(cfg, candidate, &mut events),
                OwnershipOutcome::Eligible { name } => {
                    let (id, balance) = match self.phase {
                        WorkerPhase::CheckingOwnership { id, balance } => (id, balance),
                        _ => (0, 0),
                    };
                    self.phase = WorkerPhase::Recording { id, balance };
                    events.push(WorkerEvent::HitFound { id, name, balance });
                    Action::Record { id, balance }
                },
            },
            Feedback::Transport { .. } => {
                self.connected = false;
                self.attempts = 0;
                events.push(WorkerEvent::ProxyDisconnected);
                self.reconnect_top(cfg, &mut events)
            },
            Feedback::Slept => self.scan_top(cfg, candidate, &mut events),
            Feedback::Recorded { .. } => self.candidate_done(cfg, candidate, &mut events),
        };
        StepOutcome { action, events }
    }

    /// The cancellation point at the top of the scan loop.
    fn scan_top(&mut self, cfg: ConfigSnapshot, candidate: GroupId, events: &mut Vec<
        WorkerEvent,
    >) -> (a: Action)
        ensures
            ({
                let r = spec_scan_top(*old(self), cfg, candidate, old(events)@);
                *final(self) == r.0 && a == r.1 && final(events)@ == r.2
            }),
    {
        if !cfg.running {
            if self.connected {
                events.push(WorkerEvent::ProxyDisconnected);
            }
            self.connected = false;
            self.phase = WorkerPhase::Stopped;
            Action::Stop
        } else {
            self.phase = WorkerPhase::CheckingBalance { id: candidate };
            Action::CheckBalance { id: candidate }
        }
    }

    /// The cancellation point at the top of the reconnect loop.
    fn reconnect_top(&mut self, cfg: ConfigSnapshot, events: &mut Vec<WorkerEvent>) -> (a: Action)
        ensures
            ({
                let r = spec_reconnect_top(*old(self), cfg, old(events)@);
                *final(self) == r.0 && a == r.1 && final(events)@ == r.2
            }),
    {
        if !cfg.running {
            if self.connected {
                events.push(WorkerEvent::ProxyDisconnected);
            }
            self.connected = false;
            self.phase = WorkerPhase::Stopped;
            Action::Stop
        } else {
            self.attempts = 0;
            self.phase = WorkerPhase::Connecting;
            Action::BuildClient
        }
    }

    /// Count a finished candidate and return to the top of the scan loop.
    fn candidate_done(&mut self, cfg: ConfigSnapshot, candidate: GroupId, events: &mut Vec<
        WorkerEvent,
    >) -> (a: Action)
        requires
            old(events)@ == Seq::<WorkerEvent>::empty(),
        ensures
            ({
                let r = spec_candidate_done(*old(self), cfg, candidate);
                *final(self) == r.0 && a == r.1 && final(events)@ == r.2
            }),
    {
        if self.checked < u64::MAX {
            self.checked = self.checked + 1;
        }
        events.push(WorkerEvent::CandidateChecked);
        proof {
            assert(old(events)@.push(WorkerEvent::CandidateChecked) =~= seq![
                WorkerEvent::CandidateChecked,
            ]);
        }
        self.scan_top(cfg, candidate, events)
    }
}


// ---------------------------------------------------------------------------
// Laws of the state machine.
// ---------------------------------------------------------------------------

/// A rate-limited balance probe does not count the candidate: the worker
/// sleeps through the cooldown and resumes scanning afterwards on the same
/// connection, emitting no candidate-checked, connect or disconnect event
/// and touching neither its checked-count nor its attempt budget.
pub proof fn lemma_rate_limit_keeps_connection(
    s: WorkerState,
    cfg1: ConfigSnapshot,
    cfg2: ConfigSnapshot,
    c1: GroupId,
    c2: GroupId,
)
    requires
        s.wf(),
        s.phase is CheckingBalance,
        cfg2.running,
    ensures
        ({
            let r1 = spec_step(s, cfg1, c1, Feedback::Balance { outcome: BalanceOutcome::RateLimited });
            let r2 = spec_step(r1.0, cfg2, c2, Feedback::Slept);
            &&& r1.1 == Action::Sleep
            &&& r1.2 == Seq::<WorkerEvent>::empty()
            &&& r1.0.phase is RateLimitCooldown
            &&& r1.0.checked == s.checked
            &&& r1.0.attempts == s.attempts
            &&& r1.0.connected == s.connected
            &&& r2.1 == Action::CheckBalance { id: c2 }
            &&& r2.2 == Seq::<WorkerEvent>::empty()
            &&& r2.0.checked == s.checked
            &&& r2.0.connected == s.connected
        }),
{
}

/// Two rate-limit envelopes in a row make the worker sleep twice, with no
/// candidate counted in between, no connect error recorded, and the
/// connection kept throughout.
pub proof fn lemma_rate_limit_twice(
    s: WorkerState,
    cfg: ConfigSnapshot,
    c1: GroupId,
    c2: GroupId,
)
    requires
        s.wf(),
        s.phase is CheckingBalance,
        cfg.running,
    ensures
        ({
            let rl = Feedback::Balance { outcome: BalanceOutcome::RateLimited };
            let r1 = spec_step(s, cfg, c1, rl);
            let r2 = spec_step(r1.0, cfg, c1, Feedback::Slept);
            let r3 = spec_step(r2.0, cfg, c2, rl);
            let r4 = spec_step(r3.0, cfg, c2, Feedback::Slept);
            &&& r1.1 == Action::Sleep
            &&& r3.1 == Action::Sleep
            &&& r2.1 == Action::CheckBalance { id: c1 }
            &&& r4.1 == Action::CheckBalance { id: c2 }
            &&& r1.2 + r2.2 + r3.2 + r4.2 == Seq::<WorkerEvent>::empty()
            &&& r4.0.connected == s.connected
            &&& r4.0.checked == s.checked
            &&& r4.0.attempts == s.attempts
        }),
{
    let rl = Feedback::Balance { outcome: BalanceOutcome::RateLimited };
    let r1 = spec_step(s, cfg, c1, rl);
    let r2 = spec_step(r1.0, cfg, c1, Feedback::Slept);
    let r3 = spec_step(r2.0, cfg, c2, rl);
    let r4 = spec_step(r3.0, cfg, c2, Feedback::Slept);
    assert(r1.2 + r2.2 + r3.2 + r4.2 =~= Seq::<WorkerEvent>::empty());
}

/// The reconnect budget's last attempt decides: a worker whose checked-count
/// since the last successful connect is below the threshold stops for good;
/// one at or above the threshold re-enters a fresh connecting cycle (or
/// stops if cancellation was requested meanwhile).
pub proof fn lemma_reconnect_budget(s: WorkerState, cfg: ConfigSnapshot, fb: Feedback)
    requires
        s.wf(),
        s.phase is Connecting,
        s.attempts == CONNECT_ATTEMPTS - 1,
        fb is ConnectFailed,
    ensures
        ({
            let r = spec_step(s, cfg, 0, fb);
            &&& s.checked < RECONNECT_THRESHOLD ==> r.0.phase is Stopped && r.1 == Action::Stop
            &&& s.checked >= RECONNECT_THRESHOLD && cfg.running ==> r.0.phase is Connecting
                && r.0.attempts == 0 && r.1 == Action::BuildClient
            &&& s.checked >= RECONNECT_THRESHOLD && !cfg.running ==> r.0.phase is Stopped && r.1
                == Action::Stop
        }),
{
}

/// Five consecutive failed connection attempts from a fresh cycle: the
/// first four keep rebuilding, the fifth abandons a proxy that has checked
/// too little since its last successful connect.
pub proof fn lemma_five_connect_failures(s: WorkerState, cfg: ConfigSnapshot, fb: Feedback)
    requires
        s.wf(),
        s.phase is Connecting,
        s.attempts == 0,
        s.checked < RECONNECT_THRESHOLD,
        fb is ConnectFailed,
    ensures
        ({
            let r1 = spec_step(s, cfg, 0, fb);
            let r2 = spec_step(r1.0, cfg, 0, fb);
            let r3 = spec_step(r2.0, cfg, 0, fb);
            let r4 = spec_step(r3.0, cfg, 0, fb);
            let r5 = spec_step(r4.0, cfg, 0, fb);
            &&& r1.1 == Action::BuildClient && r1.0.phase is Connecting
            &&& r2.1 == Action::BuildClient && r2.0.phase is Connecting
            &&& r3.1 == Action::BuildClient && r3.0.phase is Connecting
            &&& r4.1 == Action::BuildClient && r4.0.phase is Connecting
            &&& r5.1 == Action::Stop && r5.0.phase is Stopped
        }),
{
}

/// Which combinations of phase and feedback reach a cancellation point in
/// the very step that consumes the feedback.
pub open spec fn reaches_poll(
    s: WorkerState,
    cfg: ConfigSnapshot,
    fb: Feedback,
) -> bool {
    match fb {
        Feedback::Started => true,
        Feedback::Connected => true,
        Feedback::ConnectFailed { .. } => s.attempts + 1 == CONNECT_ATTEMPTS && s.checked
            >= RECONNECT_THRESHOLD,
        Feedback::Balance { outcome } => match outcome {
            BalanceOutcome::RateLimited => false,
            BalanceOutcome::Malformed => true,
            BalanceOutcome::Empty => true,
            BalanceOutcome::Found(balance) => balance < cfg.minimum_robux as u32,
        },
        Feedback::Ownership { outcome } => outcome is Malformed || outcome is Ineligible,
        Feedback::Transport { .. } => true,
        Feedback::Slept => true,
        Feedback::Recorded { .. } => true,
    }
}

/// Cancellation: once `running` is off, no step issues a new candidate, and
/// every step that reaches a polling point stops the worker, with a
/// `ProxyDisconnected` exactly for a worker whose connection was up.
pub proof fn lemma_cancellation(
    s: WorkerState,
    cfg: ConfigSnapshot,
    candidate: GroupId,
    fb: Feedback,
)
    requires
        s.wf(),
        accepts(s.phase, fb),
        !cfg.running,
    ensures
        ({
            let r = spec_step(s, cfg, candidate, fb);
            &&& !(r.1 is CheckBalance)
            &&& reaches_poll(s, cfg, fb) ==> r.0.phase is Stopped && r.1 == Action::Stop
                && (r.2.contains(WorkerEvent::ProxyDisconnected) <==> (s.connected
                || fb is Connected || fb is Transport))
        }),
{
    let r = spec_step(s, cfg, candidate, fb);
    if reaches_poll(s, cfg, fb) {
        match fb {
            Feedback::Transport { .. } => {
                assert(r.2.contains(WorkerEvent::ProxyDisconnected)) by {
                    assert(r.2[0] == WorkerEvent::ProxyDisconnected);
                }
            },
            Feedback::Connected => {
                assert(r.2.contains(WorkerEvent::ProxyDisconnected)) by {
                    assert(r.2 == seq![WorkerEvent::ProxyConnected].push(
                        WorkerEvent::ProxyDisconnected,
                    ));
                    assert(r.2[1] == WorkerEvent::ProxyDisconnected);
                }
            },
            _ => {
                if s.connected {
                    assert(r.2.contains(WorkerEvent::ProxyDisconnected)) by {
                        assert(r.2.last() == WorkerEvent::ProxyDisconnected);
                    }
                } else {
                    assert(!r.2.contains(WorkerEvent::ProxyDisconnected)) by {
                        assert(forall|i: int|
                            0 <= i < r.2.len() ==> #[trigger] r.2[i]
                                != WorkerEvent::ProxyDisconnected);
                    }
                }
            },
        }
    }
}

} // verus!
