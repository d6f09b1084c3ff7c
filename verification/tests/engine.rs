use group_scraper::engine::{
    worker_event_to_msg, Connectedness, Directive, GroupInfo, GroupScraper, Msg, Scraping,
};
use group_scraper::proxies::{make_proxy_uris, parse_proxy_list, ProxyListError};
use group_scraper::worker::{WorkerEvent, WorkerPhase};

fn chars(s: &str) -> Vec<char> {
    s.chars().collect()
}

#[test]
fn proxy_list_parses_json_arrays() {
    let list = parse_proxy_list(r#"["socks5://p1","socks5://p2"]"#).unwrap();
    assert_eq!(list, vec!["socks5://p1".to_string(), "socks5://p2".to_string()]);
}

#[test]
fn proxy_list_rejects_other_json() {
    assert_eq!(parse_proxy_list("not json"), Err(ProxyListError::Malformed));
    assert_eq!(parse_proxy_list(r#"{"a":1}"#), Err(ProxyListError::Malformed));
    assert_eq!(parse_proxy_list("[1,2]"), Err(ProxyListError::Malformed));
}

#[test]
fn fetched_text_becomes_socks_uris() {
    assert_eq!(
        make_proxy_uris("  1.2.3.4:80\r\n5.6.7.8:1080\n"),
        vec!["socks5://1.2.3.4:80".to_string(), "socks5://5.6.7.8:1080".to_string()]
    );
    assert_eq!(make_proxy_uris("host:1"), vec!["socks5://host:1".to_string()]);
    assert_eq!(make_proxy_uris(""), vec!["socks5://".to_string()]);
}

#[test]
fn missing_proxy_list_is_distinguishable() {
    let (mut s, _) = GroupScraper::new();
    s.update(Msg::ProxyListLoaded(Err(ProxyListError::NotFound)));
    assert_eq!(s.proxies_list, Some(Err(ProxyListError::NotFound)));
    assert!(s.proxies_connected.is_empty());
    s.update(Msg::ProxyListLoaded(Err(ProxyListError::Io)));
    assert_eq!(s.proxies_list, Some(Err(ProxyListError::Io)));
}

#[test]
fn toggle_running_opens_a_fresh_generation() {
    let (mut s, d) = GroupScraper::new();
    assert_eq!(d, Directive::LoadProxyList);
    assert!(!s.running);
    let d = s.update(Msg::ToggleRunning);
    assert!(s.running);
    assert_eq!(d, Directive::FreshRunningChannel(true));
    let d = s.update(Msg::ToggleRunning);
    assert!(!s.running);
    assert_eq!(d, Directive::BroadcastRunning(false));
}

#[test]
fn groups_are_deduplicated_and_sorted() {
    let (mut s, _) = GroupScraper::new();
    s.update(Msg::GroupFound { group: (None, 1), robux: 10 });
    s.update(Msg::GroupFound { group: (Some("b".to_string()), 2), robux: 30 });
    s.update(Msg::GroupFound { group: (None, 3), robux: 20 });
    // a rediscovered id changes nothing
    s.update(Msg::GroupFound { group: (None, 1), robux: 99 });
    assert_eq!(
        s.groups,
        vec![
            GroupInfo { name: Some("b".to_string()), id: 2, robux: 30 },
            GroupInfo { name: None, id: 3, robux: 20 },
            GroupInfo { name: None, id: 1, robux: 10 },
        ]
    );
}

#[test]
fn minimum_robux_updates_broadcast() {
    let (mut s, _) = GroupScraper::new();
    assert_eq!(
        s.update(Msg::UpdateMinimumRobux(chars("250"))),
        Directive::BroadcastMinimum(250)
    );
    assert_eq!(s.minimum_robux, Some(250));
    // unparseable text falls back to the default threshold
    assert_eq!(s.update(Msg::UpdateMinimumRobux(chars("abc"))), Directive::BroadcastMinimum(1));
    assert_eq!(s.minimum_robux, None);
    assert_eq!(s.update(Msg::UpdateMinimumRobux(chars(""))), Directive::BroadcastMinimum(1));
    // a value too large for the threshold field is rejected
    assert_eq!(
        s.update(Msg::UpdateMinimumRobux(chars("70000"))),
        Directive::BroadcastMinimum(1)
    );
    assert_eq!(s.minimum_robux, None);
}

#[test]
fn premium_toggle_broadcasts() {
    let (mut s, _) = GroupScraper::new();
    assert_eq!(s.update(Msg::SetPremiumGroups(true)), Directive::BroadcastPremium(true));
    assert!(s.premium_groups);
}

#[test]
fn proxy_states_update_only_while_running() {
    let (mut s, _) = GroupScraper::new();
    s.update(Msg::ProxyListLoaded(Ok(vec!["a".to_string(), "b".to_string()])));
    assert_eq!(
        s.proxies_connected,
        vec![Connectedness::Unconnected, Connectedness::Unconnected]
    );
    // not running: a stray connect event changes nothing
    s.update(Msg::ProxyConnected(0, Connectedness::Connected));
    assert_eq!(s.proxies_connected[0], Connectedness::Unconnected);
    s.update(Msg::ToggleRunning);
    s.update(Msg::ProxyConnected(0, Connectedness::Connected));
    assert_eq!(s.proxies_connected[0], Connectedness::Connected);
    s.update(Msg::ProxyConnected(1, Connectedness::RateLimited));
    assert_eq!(s.proxies_connected[1], Connectedness::RateLimited);
    // stopping clears every proxy state
    s.update(Msg::ToggleRunning);
    assert_eq!(
        s.proxies_connected,
        vec![Connectedness::Unconnected, Connectedness::Unconnected]
    );
}

#[test]
fn group_checked_counts() {
    let (mut s, _) = GroupScraper::new();
    s.update(Msg::GroupChecked);
    s.update(Msg::GroupChecked);
    assert_eq!(s.groups_checked, 2);
}

#[test]
fn open_group_is_delegated() {
    let (mut s, _) = GroupScraper::new();
    assert_eq!(s.update(Msg::OpenGroup(42)), Directive::OpenGroupPage(42));
}

#[test]
fn generate_proxies_is_delegated() {
    let (mut s, _) = GroupScraper::new();
    assert_eq!(s.update(Msg::GenerateProxies), Directive::FetchProxyList);
}

#[test]
fn worker_events_map_to_messages() {
    assert_eq!(
        worker_event_to_msg(3, WorkerEvent::ProxyConnected),
        Msg::ProxyConnected(3, Connectedness::Connected)
    );
    assert_eq!(
        worker_event_to_msg(3, WorkerEvent::ProxyDisconnected),
        Msg::ProxyConnected(3, Connectedness::Unconnected)
    );
    assert_eq!(
        worker_event_to_msg(0, WorkerEvent::HitFound { id: 42, name: None, balance: 50 }),
        Msg::GroupFound { group: (None, 42), robux: 50 }
    );
    assert_eq!(worker_event_to_msg(0, WorkerEvent::CandidateChecked), Msg::GroupChecked);
}

#[test]
fn one_worker_per_proxy() {
    let scraping = Scraping { proxy_list: vec!["socks5://p1".to_string(), "socks5://p2".to_string()] };
    let states = scraping.initial_states();
    assert_eq!(states.len(), 2);
    for st in states {
        assert_eq!(st.phase, WorkerPhase::Idle);
        assert_eq!(st.checked, 0);
    }
}
