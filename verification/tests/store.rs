use group_scraper::store::{parse_line, robux_format_str, ResultStore, StoreEntry};

fn chars(s: &str) -> Vec<char> {
    s.chars().collect()
}

#[test]
fn format_line_exact() {
    assert_eq!(robux_format_str(42, 50), "Group 42 has 50 robux.");
    assert_eq!(robux_format_str(0, 0), "Group 0 has 0 robux.");
    assert_eq!(
        robux_format_str(4_294_967_295, 1_000_000),
        "Group 4294967295 has 1000000 robux."
    );
}

#[test]
fn parse_line_well_formed() {
    assert_eq!(parse_line(&chars("Group 42 has 50 robux.")), Some((42, 50)));
    assert_eq!(parse_line(&chars("Group 0 has 0 robux.")), Some((0, 0)));
    assert_eq!(
        parse_line(&chars("Group 4294967295 has 4294967295 robux.")),
        Some((4_294_967_295, 4_294_967_295))
    );
}

#[test]
fn parse_line_leading_zeros() {
    assert_eq!(parse_line(&chars("Group 007 has 0050 robux.")), Some((7, 50)));
}

#[test]
fn parse_line_rejects_garbage() {
    assert_eq!(parse_line(&chars("")), None);
    assert_eq!(parse_line(&chars("Group has 50 robux.")), None);
    assert_eq!(parse_line(&chars("Group 42 has robux.")), None);
    assert_eq!(parse_line(&chars("Group 42 has 50 robux")), None);
    assert_eq!(parse_line(&chars("group 42 has 50 robux.")), None);
    assert_eq!(parse_line(&chars("Group 42 has 50 robux. ")), None);
    assert_eq!(parse_line(&chars("Group 42 has 50 dollars.")), None);
}

#[test]
fn parse_line_rejects_oversized_numbers() {
    // matches the digit grammar but does not fit in u32: dropped, no panic
    assert_eq!(parse_line(&chars("Group 99999999999 has 5 robux.")), None);
    assert_eq!(parse_line(&chars("Group 5 has 4294967296 robux.")), None);
}

#[test]
fn record_sorts_by_balance_descending() {
    let mut st = ResultStore::new();
    st.record(1, 10);
    st.record(2, 30);
    st.record(3, 20);
    assert_eq!(
        st.render(),
        "Group 2 has 30 robux.\nGroup 3 has 20 robux.\nGroup 1 has 10 robux."
    );
}

#[test]
fn record_breaks_ties_by_ascending_id() {
    let mut st = ResultStore::new();
    st.record(9, 50);
    st.record(3, 50);
    st.record(6, 50);
    assert_eq!(
        st.render(),
        "Group 3 has 50 robux.\nGroup 6 has 50 robux.\nGroup 9 has 50 robux."
    );
}

#[test]
fn record_overwrites_in_place() {
    // one line per distinct id, bearing the most recently recorded balance
    let mut st = ResultStore::new();
    st.record(1, 10);
    st.record(2, 20);
    st.record(1, 99);
    assert_eq!(st.render(), "Group 1 has 99 robux.\nGroup 2 has 20 robux.");
    assert_eq!(st.entries.len(), 2);
}

#[test]
fn record_twice_is_idempotent() {
    let mut once = ResultStore::new();
    once.record(5, 77);
    let mut twice = ResultStore::new();
    twice.record(5, 77);
    twice.record(5, 77);
    assert_eq!(once.render(), twice.render());
    assert_eq!(once.entries, twice.entries);
}

#[test]
fn render_empty_store() {
    let st = ResultStore::new();
    assert_eq!(st.render(), "");
}

#[test]
fn round_trip_reconstructs_all_pairs() {
    let mut st = ResultStore::new();
    let pairs = [(7u32, 100u32), (1, 250), (9, 100), (1234567, 1)];
    for (id, bal) in pairs {
        st.record(id, bal);
    }
    let text = st.render();
    let reloaded = ResultStore::load(&text);
    assert_eq!(reloaded.entries, st.entries);
    assert_eq!(reloaded.entries.len(), 4);
}

#[test]
fn load_drops_lines_outside_the_grammar() {
    let text = "Group 1 has 10 robux.\nnot a line\nGroup 2 has 20 robux.\n\njunk";
    let st = ResultStore::load(text);
    assert_eq!(
        st.entries,
        vec![
            StoreEntry { id: 2, balance: 20 },
            StoreEntry { id: 1, balance: 10 },
        ]
    );
    // dropped lines are not resurrected by the next write
    let mut st = st;
    st.record(3, 5);
    assert_eq!(
        st.render(),
        "Group 2 has 20 robux.\nGroup 1 has 10 robux.\nGroup 3 has 5 robux."
    );
}

#[test]
fn load_keeps_last_line_for_duplicate_ids() {
    let st = ResultStore::load("Group 1 has 10 robux.\nGroup 1 has 30 robux.");
    assert_eq!(st.entries, vec![StoreEntry { id: 1, balance: 30 }]);
}

#[test]
fn load_empty_text_is_empty_store() {
    let st = ResultStore::load("");
    assert!(st.entries.is_empty());
}
