use mission_centre_pg::collector::queries::count_sessions;
use mission_centre_pg::collector::rates::interval_deltas;
use mission_centre_pg::collector::snapshot::{DatabaseCounters, Session, SessionCounts};

fn session(state: Option<&str>) -> Session {
    Session {
        pid: 1,
        user_name: None,
        application_name: None,
        client_addr: None,
        database: None,
        state: state.map(str::to_string),
        wait_event_type: None,
        wait_event: None,
        backend_type: None,
        query: None,
    }
}

#[test]
fn counts_sessions_by_state() {
    let sessions = vec![
        session(Some("active")),
        session(Some("active")),
        session(Some("idle")),
        session(Some("idle in transaction")),
        session(Some("fastpath function call")),
        session(None),
    ];
    let counts = count_sessions(&sessions);
    assert_eq!(counts.active, 2);
    assert_eq!(counts.idle, 1);
    assert_eq!(counts.idle_in_transaction, 1);
    assert_eq!(counts.other, 2);
    assert_eq!(counts.total(), 6);
}

#[test]
fn idle_in_transaction_aborted_counts_as_idle_in_transaction() {
    let counts = count_sessions(&[session(Some("idle in transaction (aborted)"))]);
    assert_eq!(counts.idle_in_transaction, 1);
    assert_eq!(counts.idle, 0);
}

fn counters(commit: i64, rollback: i64, hit: i64, read: i64) -> DatabaseCounters {
    DatabaseCounters {
        xact_commit: commit,
        xact_rollback: rollback,
        blks_hit: hit,
        blks_read: read,
        ..DatabaseCounters::default()
    }
}

#[test]
fn sums_counters_across_databases() {
    let a = counters(10, 1, 100, 5);
    let b = counters(20, 2, 200, 10);
    let total = DatabaseCounters::sum(&[a, b]);
    assert_eq!(total.xact_commit, 30);
    assert_eq!(total.xact_rollback, 3);
    assert_eq!(total.blks_hit, 300);
    assert_eq!(total.blks_read, 15);
}

#[test]
fn returns_none_when_a_counter_goes_backwards() {
    let prev = counters(5_000, 100, 900, 100);
    let cur = counters(12, 0, 4, 1);
    assert_eq!(interval_deltas(&prev, &cur, 2_000_000_000), None);
}

#[test]
fn returns_none_when_no_time_has_elapsed() {
    let prev = counters(1_000, 0, 0, 0);
    let cur = counters(2_000, 0, 0, 0);
    assert_eq!(interval_deltas(&prev, &cur, 0), None);
}

#[test]
fn the_interval_deltas_are_the_differences_of_every_counter() {
    let prev = counters(1_000, 100, 999_900, 100);
    let cur = counters(3_000, 200, 999_900, 1_100);
    let delta = interval_deltas(&prev, &cur, 1).unwrap();
    assert_eq!(delta.xact_commit, 2_000);
    assert_eq!(delta.xact_rollback, 100);
    assert_eq!(delta.blks_hit, 0);
    assert_eq!(delta.blks_read, 1_000);
    assert!(!cur.went_backwards_from(&prev));
    assert!(prev.went_backwards_from(&cur));
    assert!(!cur.went_backwards_from(&cur));
}

#[test]
fn an_empty_sum_is_all_zeros() {
    assert_eq!(DatabaseCounters::sum(&[]), DatabaseCounters::default());
}

#[test]
fn the_total_counts_every_class() {
    let counts = SessionCounts { active: 3, idle: 5, idle_in_transaction: 1, other: 2 };
    assert_eq!(counts.total(), 11);
}

#[test]
fn the_sum_does_not_depend_on_row_order() {
    let a = counters(10, 1, 100, 5);
    let b = counters(20, 2, 200, 10);
    let c = DatabaseCounters { deadlocks: 3, temp_bytes: 4096, ..counters(7, 0, 0, 1) };
    let forward = DatabaseCounters::sum(&[a, b, c]);
    assert_eq!(DatabaseCounters::sum(&[c, a, b]), forward);
    assert_eq!(DatabaseCounters::sum(&[b, c, a]), forward);
    assert_eq!(forward.deadlocks, 3);
    assert_eq!(forward.temp_bytes, 4096);
}
