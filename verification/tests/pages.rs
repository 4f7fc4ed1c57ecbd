use mission_centre_pg::collector::relations::IndexStats;
use mission_centre_pg::collector::snapshot::Session;
use mission_centre_pg::pages::filters::{contains_text, index_matches, session_matches, statement_matches};
use mission_centre_pg::pages::plan::{node_label, one_line, state_for, PlanState};

#[test]
fn an_old_server_says_so_whatever_else_has_happened() {
    for state in [
        PlanState::Empty,
        PlanState::Pending,
        PlanState::Failed,
        PlanState::Shown,
    ] {
        assert_eq!(state_for(state, 150000), "unsupported");
    }
}

#[test]
fn the_state_follows_what_is_known_on_a_supported_server() {
    assert_eq!(state_for(PlanState::Empty, 160000), "empty");
    assert_eq!(state_for(PlanState::Pending, 160000), "pending");
    assert_eq!(state_for(PlanState::Failed, 160000), "failed");
    assert_eq!(state_for(PlanState::Shown, 180000), "plan");
}

#[test]
fn a_node_is_labelled_with_its_relation_when_it_has_one() {
    assert_eq!(node_label("Seq Scan", Some("orders"), 0), "Seq Scan on orders");
    assert_eq!(node_label("Aggregate", None, 0), "Aggregate");
}

#[test]
fn depth_shows_as_indentation() {
    let deep = node_label("Seq Scan", Some("orders"), 2);
    assert!(deep.starts_with("        "), "expected indent: {deep:?}");
    assert!(deep.trim_start().starts_with("Seq Scan"));
    assert_eq!(deep, "        Seq Scan on orders");
}

#[test]
fn a_formatted_statement_is_collapsed_onto_one_line() {
    assert_eq!(
        one_line("SELECT *\n  FROM orders\n  WHERE id = $1"),
        "SELECT * FROM orders WHERE id = $1"
    );
}

#[test]
fn collapsing_matches_splitting_on_white_space_and_joining_with_spaces() {
    for text in [
        "",
        "   ",
        "  a  ",
        "a\tb\u{3000}c\u{2028}d",
        "\n\nSELECT\u{a0}1 ;\r\n",
        "x",
        "é  ü",
    ] {
        let expected = text.split_whitespace().collect::<Vec<_>>().join(" ");
        assert_eq!(one_line(text), expected, "for {text:?}");
    }
}

#[test]
fn containment_follows_str_contains() {
    for (haystack, needle) in [
        ("", ""),
        ("abc", ""),
        ("abc", "abc"),
        ("abc", "abcd"),
        ("abcabd", "abd"),
        ("ünïcödé", "ïcö"),
        ("aaa", "aa"),
        ("ab", "ba"),
    ] {
        assert_eq!(contains_text(haystack, needle), haystack.contains(needle), "{haystack:?} {needle:?}");
    }
}

fn session() -> Session {
    Session {
        pid: 1,
        user_name: Some("Alice".to_string()),
        application_name: Some("Orders-API".to_string()),
        client_addr: None,
        database: Some("prod".to_string()),
        state: Some("idle".to_string()),
        wait_event_type: None,
        wait_event: None,
        backend_type: None,
        query: None,
    }
}

#[test]
fn the_session_filter_hides_idle_backends_and_matches_case_insensitively() {
    assert!(!session_matches(&session(), true, ""));
    assert!(session_matches(&session(), false, ""));
    assert!(session_matches(&session(), false, "alice"));
    assert!(session_matches(&session(), false, "orders-api"));
    assert!(!session_matches(&session(), false, "nobody"));
    let active = Session { state: Some("active".to_string()), ..session() };
    assert!(session_matches(&active, true, "prod"));
}

#[test]
fn the_query_filter_reads_the_text_the_user_and_the_database() {
    assert!(statement_matches("SELECT * FROM Orders", &None, &None, "orders"));
    assert!(statement_matches("SELECT 1", &Some("Reporting".to_string()), &None, "report"));
    assert!(!statement_matches("SELECT 1", &None, &Some("prod".to_string()), "dev"));
    assert!(statement_matches("SELECT 1", &None, &None, ""));
}

#[test]
fn the_index_filter_can_ask_for_unused_indexes_only() {
    let index = IndexStats {
        schema_name: "public".to_string(),
        table_name: "Orders".to_string(),
        index_name: "orders_note_idx".to_string(),
        idx_scan: 3,
        idx_tup_read: 0,
        idx_tup_fetch: 0,
        bytes: 0,
        is_primary: false,
        is_unique: false,
        is_valid: true,
    };
    assert!(index_matches(&index, false, "orders"));
    assert!(!index_matches(&index, true, ""));
    let unused = IndexStats { idx_scan: 0, ..index };
    assert!(index_matches(&unused, true, "note"));
    assert!(!index_matches(&unused, true, "customers"));
}

#[test]
fn the_query_text_is_collapsed_onto_one_line() {
    assert_eq!(one_line("SELECT   1\n  FROM t"), "SELECT 1 FROM t");
}
