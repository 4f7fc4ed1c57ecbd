use mission_centre_pg::collector::replication::{slots_sql, sort_slots, subscriptions_sql, SlotEntry};
use mission_centre_pg::pages::replication::{publications_note, slots_note, visible_sections};

#[test]
fn postgres_14_asks_for_no_column_it_does_not_have() {
    let sql = slots_sql(140000);
    assert!(!sql.contains("s.inactive_since"));
    assert!(!sql.contains("s.conflicting"));
    assert!(sql.contains("wal_status"));
}

#[test]
fn postgres_16_asks_for_conflicting_but_not_inactive_since() {
    let sql = slots_sql(160000);
    assert!(sql.contains("s.conflicting"));
    assert!(!sql.contains("s.inactive_since"));
}

#[test]
fn postgres_17_asks_for_inactive_since() {
    let sql = slots_sql(170000);
    assert!(sql.contains("s.inactive_since"));
    assert!(sql.contains("s.conflicting"));
}

#[test]
fn subscription_statistics_are_only_requested_from_15_onwards() {
    assert!(!subscriptions_sql(140000).contains("pg_stat_subscription_stats"));
    assert!(subscriptions_sql(150000).contains("pg_stat_subscription_stats"));
}

#[test]
fn worker_type_is_only_requested_from_17_onwards() {
    assert!(!subscriptions_sql(160000).contains("s.worker_type"));
    assert!(subscriptions_sql(170000).contains("s.worker_type"));
}

fn expected_slots_sql(inactive_since: &str, conflicting: &str) -> String {
    format!(
        "SELECT s.slot_name          AS slot_name,
       s.slot_type::text            AS slot_type,
       s.plugin::text               AS plugin,
       s.database::text             AS database,
       s.active                     AS active,
       s.wal_status::text           AS wal_status,
       s.safe_wal_size              AS safe_wal_size,
       {inactive_since}             AS inactive_since_secs,
       {conflicting}                AS conflicting
FROM pg_replication_slots s"
    )
}

fn expected_subscriptions_sql(worker_type: &str, errors: &str, join: &str) -> String {
    format!(
        "SELECT s.subname::text      AS subname,
       s.pid                        AS pid,
       {worker_type}                AS worker_type,
       EXTRACT(EPOCH FROM (now() - s.latest_end_time))::float8
                                    AS latest_end_lag_secs,
       {errors}
FROM pg_stat_subscription s
{join}"
    )
}

#[test]
fn the_slot_query_is_exactly_the_expected_text_for_each_release() {
    assert_eq!(
        slots_sql(140000),
        expected_slots_sql("NULL::float8", "NULL::boolean")
    );
    assert_eq!(
        slots_sql(160000),
        expected_slots_sql("NULL::float8", "s.conflicting")
    );
    assert_eq!(
        slots_sql(170000),
        expected_slots_sql(
            "EXTRACT(EPOCH FROM (now() - s.inactive_since))::float8",
            "s.conflicting"
        )
    );
}

#[test]
fn the_subscription_query_is_exactly_the_expected_text_for_each_release() {
    assert_eq!(
        subscriptions_sql(140000),
        expected_subscriptions_sql(
            "NULL::text",
            "NULL::bigint                    AS apply_error_count,\n       NULL::bigint                    AS sync_error_count",
            ""
        )
    );
    assert_eq!(
        subscriptions_sql(170000),
        expected_subscriptions_sql(
            "s.worker_type::text",
            "st.apply_error_count            AS apply_error_count,\n       st.sync_error_count             AS sync_error_count",
            "LEFT JOIN pg_stat_subscription_stats st ON st.subid = s.subid"
        )
    );
}

fn slot(name: &str, active: bool, position: usize) -> SlotEntry {
    SlotEntry {
        active,
        slot_name: name.to_string(),
        position,
    }
}

#[test]
fn inactive_slots_sort_above_active_ones() {
    let mut slots = vec![slot("live", true, 0), slot("abandoned", false, 1)];
    sort_slots(&mut slots);
    assert_eq!(slots[0].slot_name, "abandoned");
}

#[test]
fn slots_of_equal_activity_sort_by_name() {
    let mut slots = vec![slot("b", true, 0), slot("a", true, 1)];
    sort_slots(&mut slots);
    assert_eq!(slots[0].slot_name, "a");
}

#[test]
fn the_slot_order_matches_a_stable_sort_by_activity_then_name() {
    let names = ["zeta", "alpha", "Beta", "alpha", "ébène", "eve", "al", ""];
    let actives = [true, false, true, false, false, true, true, false];
    let mut slots: Vec<SlotEntry> = names
        .iter()
        .zip(actives.iter())
        .enumerate()
        .map(|(i, (name, active))| slot(name, *active, i))
        .collect();
    let mut expected: Vec<(bool, String, usize)> = names
        .iter()
        .zip(actives.iter())
        .enumerate()
        .map(|(i, (name, active))| (*active, name.to_string(), i))
        .collect();
    expected.sort_by(|a, b| a.0.cmp(&b.0).then_with(|| a.1.cmp(&b.1)));
    sort_slots(&mut slots);
    let got: Vec<(bool, String, usize)> = slots
        .iter()
        .map(|s| (s.active, s.slot_name.clone(), s.position))
        .collect();
    assert_eq!(got, expected);
}

#[test]
fn a_primary_shows_standbys_and_a_standby_shows_its_upstream() {
    let primary = visible_sections(false, false, false);
    assert!(primary.contains(&"standbys"));
    assert!(!primary.contains(&"receiver"));

    let standby = visible_sections(true, false, false);
    assert!(standby.contains(&"receiver"));
    assert!(!standby.contains(&"standbys"));
}

#[test]
fn slots_are_always_shown_and_logical_only_when_it_is_used() {
    let sample = visible_sections(false, false, false);
    assert!(sample.contains(&"slots"));
    assert!(!sample.contains(&"logical"));
}

#[test]
fn a_subscription_or_a_publication_brings_in_the_logical_section() {
    assert_eq!(visible_sections(false, true, false), vec!["standbys", "slots", "logical"]);
    assert_eq!(visible_sections(true, false, true), vec!["receiver", "slots", "logical"]);
}

#[test]
fn slots_note_only_for_old_servers_with_slots() {
    assert_eq!(
        slots_note(160004, true),
        Some("Inactive duration requires PostgreSQL 17 or later.")
    );
    assert_eq!(slots_note(160004, false), None);
    assert_eq!(slots_note(170000, true), None);
    assert_eq!(slots_note(169999, true).is_some(), true);
}

#[test]
fn publications_note_names_each_publication() {
    assert_eq!(publications_note("app", &[]), "No publications in app.");
    assert_eq!(
        publications_note("app", &["orders".to_string()]),
        "Publications in app: orders"
    );
    assert_eq!(
        publications_note("app", &["orders".to_string(), "users".to_string(), "audit".to_string()]),
        "Publications in app: orders, users, audit"
    );
}
