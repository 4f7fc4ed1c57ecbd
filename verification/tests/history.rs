use mission_centre_pg::clock::{Moment, Span};
use mission_centre_pg::connection::params::HistoryMode;
use mission_centre_pg::history::pgconsole::PgConsoleAvailability;
use mission_centre_pg::collector::statements::{StatementId, StatementKey};
use mission_centre_pg::history::{choose_store, history_query_ids, is_history_tick, retention_cutoff, HistoryStore};

const SECOND: u64 = 1_000_000_000;

fn now() -> Moment {
    Moment { nanos: 5_000 * SECOND }
}

#[test]
fn the_first_history_write_happens_immediately() {
    assert!(is_history_tick(None, now(), Span::from_secs(60)));
}

#[test]
fn a_write_waits_for_its_interval() {
    let recent = Moment { nanos: now().nanos - 30 * SECOND };
    assert!(!is_history_tick(Some(recent), now(), Span::from_secs(60)));
}

#[test]
fn a_write_happens_once_the_interval_has_elapsed() {
    let stale = Moment { nanos: now().nanos - 61 * SECOND };
    assert!(is_history_tick(Some(stale), now(), Span::from_secs(60)));
}

#[test]
fn missing_tables_classify_as_schema_missing() {
    assert_eq!(
        PgConsoleAvailability::classify(false, false),
        PgConsoleAvailability::SchemaMissing
    );
}

#[test]
fn present_but_unwritable_tables_classify_as_not_writable() {
    assert_eq!(
        PgConsoleAvailability::classify(true, false),
        PgConsoleAvailability::NotWritable
    );
}

#[test]
fn present_and_insertable_tables_classify_as_writable() {
    assert_eq!(
        PgConsoleAvailability::classify(true, true),
        PgConsoleAvailability::Writable
    );
}

#[test]
fn can_insert_without_the_tables_still_reads_as_schema_missing() {
    assert_eq!(
        PgConsoleAvailability::classify(false, true),
        PgConsoleAvailability::SchemaMissing
    );
}

#[test]
fn an_unusable_pgconsole_schema_falls_back_to_local_history() {
    assert_eq!(
        choose_store(HistoryMode::PgConsole, PgConsoleAvailability::Writable),
        HistoryStore::PgConsole
    );
    assert_eq!(
        choose_store(HistoryMode::PgConsole, PgConsoleAvailability::NotWritable),
        HistoryStore::Local
    );
    assert_eq!(
        choose_store(HistoryMode::PgConsole, PgConsoleAvailability::SchemaMissing),
        HistoryStore::Local
    );
    assert_eq!(
        choose_store(HistoryMode::Off, PgConsoleAvailability::Writable),
        HistoryStore::Off
    );
    assert_eq!(
        choose_store(HistoryMode::Local, PgConsoleAvailability::Writable),
        HistoryStore::Local
    );
}

#[test]
fn history_is_off_until_the_user_opts_in() {
    assert_eq!(HistoryMode::default(), HistoryMode::Off);
}

#[test]
fn the_retention_cutoff_is_whole_days_before_now() {
    assert_eq!(retention_cutoff(1_700_000_000, 30), 1_700_000_000 - 30 * 86_400);
    assert_eq!(retention_cutoff(1_000, 0), 1_000);
    assert_eq!(retention_cutoff(0, 1), -86_400);
}

#[test]
fn history_keeps_the_leading_statements_with_their_query_ids() {
    let key = |id| StatementKey { user_oid: 10, db_oid: 5, id };
    let keys = [
        key(StatementId::QueryId(-42)),
        key(StatementId::TextHash(7)),
        key(StatementId::QueryId(9)),
    ];
    assert_eq!(history_query_ids(&keys, 2), vec![Some(-42), None]);
    assert_eq!(history_query_ids(&keys, 10), vec![Some(-42), None, Some(9)]);
    assert!(history_query_ids(&keys, 0).is_empty());
}
