use group_scraper::probe::{BalanceOutcome, OwnershipOutcome};
use group_scraper::store::ResultStore;
use group_scraper::worker::{
    Action, ConfigSnapshot, Feedback, WorkerEvent, WorkerPhase, WorkerState,
};

fn running_cfg() -> ConfigSnapshot {
    ConfigSnapshot { running: true, minimum_robux: 1, premium_groups: false }
}

fn stopped_cfg() -> ConfigSnapshot {
    ConfigSnapshot { running: false, minimum_robux: 1, premium_groups: false }
}

#[test]
fn discovery_scenario_emits_hit_and_records() {
    // one proxy, minimum threshold 1, balance 50 for candidate 42, ownership
    // eligible: expect the hit event and the store line
    let cfg = running_cfg();
    let mut w = WorkerState::new();

    let out = w.step(cfg, 42, Feedback::Started);
    assert_eq!(out.action, Action::BuildClient);
    assert!(out.events.is_empty());

    let out = w.step(cfg, 42, Feedback::Connected);
    assert_eq!(out.events, vec![WorkerEvent::ProxyConnected]);
    assert_eq!(out.action, Action::CheckBalance { id: 42 });

    let out = w.step(cfg, 42, Feedback::Balance { outcome: BalanceOutcome::Found(50) });
    assert_eq!(out.action, Action::CheckOwnership { id: 42 });
    assert!(out.events.is_empty());

    let out = w.step(
        cfg,
        42,
        Feedback::Ownership { outcome: OwnershipOutcome::Eligible { name: None } },
    );
    assert_eq!(
        out.events,
        vec![WorkerEvent::HitFound { id: 42, name: None, balance: 50 }]
    );
    assert_eq!(out.action, Action::Record { id: 42, balance: 50 });

    // the application then records the hit in the store
    let mut st = ResultStore::new();
    st.record(42, 50);
    assert_eq!(st.render(), "Group 42 has 50 robux.");

    let out = w.step(cfg, 43, Feedback::Recorded { ok: true });
    assert_eq!(out.events, vec![WorkerEvent::CandidateChecked]);
    assert_eq!(out.action, Action::CheckBalance { id: 43 });
    assert_eq!(w.checked, 1);
}

#[test]
fn rate_limit_sleeps_without_counting_or_reconnecting() {
    let cfg = running_cfg();
    let mut w = WorkerState::new();
    w.step(cfg, 7, Feedback::Started);
    w.step(cfg, 7, Feedback::Connected);
    let checked_before = w.checked;

    let out = w.step(cfg, 7, Feedback::Balance { outcome: BalanceOutcome::RateLimited });
    assert_eq!(out.action, Action::Sleep);
    assert!(out.events.is_empty());
    assert_eq!(w.checked, checked_before);
    assert!(w.connected);
    assert_eq!(w.phase, WorkerPhase::RateLimitCooldown);

    let out = w.step(cfg, 8, Feedback::Slept);
    assert_eq!(out.action, Action::CheckBalance { id: 8 });
    assert!(out.events.is_empty());
    assert!(w.connected);
}

#[test]
fn rate_limit_twice_sleeps_twice_and_stays_connected() {
    let cfg = running_cfg();
    let mut w = WorkerState::new();
    w.step(cfg, 7, Feedback::Started);
    w.step(cfg, 7, Feedback::Connected);

    let out = w.step(cfg, 7, Feedback::Balance { outcome: BalanceOutcome::RateLimited });
    assert_eq!(out.action, Action::Sleep);
    let out = w.step(cfg, 8, Feedback::Slept);
    assert_eq!(out.action, Action::CheckBalance { id: 8 });
    let out = w.step(cfg, 8, Feedback::Balance { outcome: BalanceOutcome::RateLimited });
    assert_eq!(out.action, Action::Sleep);
    let out = w.step(cfg, 9, Feedback::Slept);
    assert_eq!(out.action, Action::CheckBalance { id: 9 });
    assert!(w.connected);
    assert_eq!(w.attempts, 0);
    assert_eq!(w.checked, 0);
}

#[test]
fn five_failures_on_unproductive_proxy_stop_the_worker() {
    let cfg = running_cfg();
    let mut w = WorkerState::new();
    let out = w.step(cfg, 1, Feedback::Started);
    assert_eq!(out.action, Action::BuildClient);
    for _ in 0..4 {
        let out = w.step(cfg, 1, Feedback::ConnectFailed { connect_error: true });
        assert_eq!(out.action, Action::BuildClient);
        assert_eq!(w.phase, WorkerPhase::Connecting);
    }
    let out = w.step(cfg, 1, Feedback::ConnectFailed { connect_error: true });
    assert_eq!(out.action, Action::Stop);
    assert_eq!(w.phase, WorkerPhase::Stopped);
}

#[test]
fn five_failures_on_productive_proxy_reconnect() {
    let cfg = running_cfg();
    let mut w = WorkerState {
        phase: WorkerPhase::Connecting,
        attempts: 4,
        checked: 5,
        connected: false,
    };
    let out = w.step(cfg, 1, Feedback::ConnectFailed { connect_error: true });
    assert_eq!(out.action, Action::BuildClient);
    assert_eq!(w.phase, WorkerPhase::Connecting);
    assert_eq!(w.attempts, 0);
}

#[test]
fn checked_count_below_threshold_is_abandoned() {
    let cfg = running_cfg();
    let mut w = WorkerState {
        phase: WorkerPhase::Connecting,
        attempts: 4,
        checked: 4,
        connected: false,
    };
    let out = w.step(cfg, 1, Feedback::ConnectFailed { connect_error: true });
    assert_eq!(out.action, Action::Stop);
    assert_eq!(w.phase, WorkerPhase::Stopped);
}

#[test]
fn transport_failure_disconnects_and_rebuilds() {
    let cfg = running_cfg();
    let mut w = WorkerState::new();
    w.step(cfg, 7, Feedback::Started);
    w.step(cfg, 7, Feedback::Connected);
    let out = w.step(cfg, 7, Feedback::Transport { connect_error: true });
    assert_eq!(out.events, vec![WorkerEvent::ProxyDisconnected]);
    assert_eq!(out.action, Action::BuildClient);
    assert!(!w.connected);
}

#[test]
fn cancellation_stops_before_any_candidate() {
    let mut w = WorkerState::new();
    let out = w.step(stopped_cfg(), 1, Feedback::Started);
    assert_eq!(out.action, Action::Stop);
    assert!(out.events.is_empty());
    assert_eq!(w.phase, WorkerPhase::Stopped);
}

#[test]
fn cancellation_of_connected_worker_emits_disconnect() {
    let cfg = running_cfg();
    let mut w = WorkerState::new();
    w.step(cfg, 7, Feedback::Started);
    w.step(cfg, 7, Feedback::Connected);
    let out = w.step(stopped_cfg(), 8, Feedback::Balance { outcome: BalanceOutcome::Empty });
    assert_eq!(
        out.events,
        vec![WorkerEvent::CandidateChecked, WorkerEvent::ProxyDisconnected]
    );
    assert_eq!(out.action, Action::Stop);
    assert_eq!(w.phase, WorkerPhase::Stopped);
}

#[test]
fn below_threshold_balance_skips_ownership() {
    let cfg = ConfigSnapshot { running: true, minimum_robux: 100, premium_groups: false };
    let mut w = WorkerState::new();
    w.step(cfg, 7, Feedback::Started);
    w.step(cfg, 7, Feedback::Connected);
    let out = w.step(cfg, 9, Feedback::Balance { outcome: BalanceOutcome::Found(50) });
    assert_eq!(out.events, vec![WorkerEvent::CandidateChecked]);
    assert_eq!(out.action, Action::CheckBalance { id: 9 });
    assert_eq!(w.checked, 1);
}

#[test]
fn malformed_and_empty_count_the_candidate() {
    let cfg = running_cfg();
    let mut w = WorkerState::new();
    w.step(cfg, 7, Feedback::Started);
    w.step(cfg, 7, Feedback::Connected);
    let out = w.step(cfg, 8, Feedback::Balance { outcome: BalanceOutcome::Malformed });
    assert_eq!(out.events, vec![WorkerEvent::CandidateChecked]);
    let out = w.step(cfg, 9, Feedback::Balance { outcome: BalanceOutcome::Empty });
    assert_eq!(out.events, vec![WorkerEvent::CandidateChecked]);
    assert_eq!(w.checked, 2);
    assert_eq!(out.action, Action::CheckBalance { id: 9 });
}

#[test]
fn ineligible_ownership_counts_and_continues() {
    let cfg = running_cfg();
    let mut w = WorkerState::new();
    w.step(cfg, 7, Feedback::Started);
    w.step(cfg, 7, Feedback::Connected);
    w.step(cfg, 7, Feedback::Balance { outcome: BalanceOutcome::Found(50) });
    let out = w.step(cfg, 8, Feedback::Ownership { outcome: OwnershipOutcome::Ineligible });
    assert_eq!(out.events, vec![WorkerEvent::CandidateChecked]);
    assert_eq!(out.action, Action::CheckBalance { id: 8 });
    assert_eq!(w.checked, 1);
}

#[test]
fn failed_record_still_counts_the_candidate() {
    let cfg = running_cfg();
    let mut w = WorkerState::new();
    w.step(cfg, 7, Feedback::Started);
    w.step(cfg, 7, Feedback::Connected);
    w.step(cfg, 7, Feedback::Balance { outcome: BalanceOutcome::Found(50) });
    w.step(
        cfg,
        7,
        Feedback::Ownership { outcome: OwnershipOutcome::Eligible { name: Some("g".to_string()) } },
    );
    let out = w.step(cfg, 8, Feedback::Recorded { ok: false });
    assert_eq!(out.events, vec![WorkerEvent::CandidateChecked]);
    assert_eq!(out.action, Action::CheckBalance { id: 8 });
    assert_eq!(w.checked, 1);
}
