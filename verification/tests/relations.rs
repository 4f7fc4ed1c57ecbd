use mission_centre_pg::collector::relations::{tables_sql, IndexStats};
use mission_centre_pg::pages::relations::render_kind;

fn index(scans: i64, primary: bool, unique: bool) -> IndexStats {
    IndexStats {
        schema_name: "public".to_string(),
        table_name: "orders".to_string(),
        index_name: "orders_pkey".to_string(),
        idx_scan: scans,
        idx_tup_read: 0,
        idx_tup_fetch: 0,
        bytes: 0,
        is_primary: primary,
        is_unique: unique,
        is_valid: true,
    }
}

#[test]
fn an_index_with_no_scans_and_no_constraint_is_unused() {
    assert!(index(0, false, false).is_unused());
}

#[test]
fn a_scanned_index_is_not_unused() {
    assert!(!index(1, false, false).is_unused());
}

#[test]
fn an_unscanned_primary_key_is_not_reported_as_unused() {
    assert!(!index(0, true, true).is_unused());
}

#[test]
fn an_unscanned_unique_index_is_not_reported_as_unused() {
    assert!(!index(0, false, true).is_unused());
}

#[test]
fn postgres_17_and_later_ask_for_the_maintain_privilege() {
    for version in [170000, 180004] {
        let sql = tables_sql(version);
        assert!(
            sql.contains("has_table_privilege(current_user, c.oid, 'MAINTAIN')"),
            "{version} should use the MAINTAIN privilege"
        );
    }
}

#[test]
fn postgres_16_and_earlier_fall_back_to_ownership() {
    for version in [140011, 160002] {
        let sql = tables_sql(version);
        assert!(
            sql.contains("pg_has_role(current_user, c.relowner, 'MEMBER')"),
            "{version} should fall back to an ownership check"
        );
        assert!(
            !sql.contains("'MAINTAIN'"),
            "{version} must never mention a privilege it cannot parse"
        );
    }
}

#[test]
fn every_version_still_selects_the_same_columns() {
    for version in [140011, 180004] {
        let sql = tables_sql(version);
        assert!(sql.contains("AS can_maintain"));
        assert!(sql.contains("pg_total_relation_size"));
        assert!(sql.ends_with("LIMIT $1"));
    }
}

fn expected_tables_sql(can_maintain: &str) -> String {
    format!(
        "\
SELECT t.schemaname::text AS schema_name,
       t.relname::text    AS table_name,
       t.seq_scan,
       t.seq_tup_read,
       COALESCE(t.idx_scan, 0)      AS idx_scan,
       COALESCE(t.idx_tup_fetch, 0) AS idx_tup_fetch,
       t.n_tup_ins,
       t.n_tup_upd,
       t.n_tup_del,
       t.n_live_tup,
       t.n_dead_tup,
       EXTRACT(EPOCH FROM (now() - GREATEST(t.last_vacuum, t.last_autovacuum)))::float8
         AS secs_since_vacuum,
       pg_total_relation_size(t.relid)::int8 AS total_bytes,
       {can_maintain} AS can_maintain
  FROM pg_stat_user_tables t
  JOIN pg_class c ON c.oid = t.relid
 ORDER BY total_bytes DESC
 LIMIT $1"
    )
}

#[test]
fn the_table_query_is_exactly_the_expected_text_on_both_sides_of_17() {
    assert_eq!(
        tables_sql(169999),
        expected_tables_sql("pg_has_role(current_user, c.relowner, 'MEMBER')")
    );
    assert_eq!(
        tables_sql(170000),
        expected_tables_sql("has_table_privilege(current_user, c.oid, 'MAINTAIN')")
    );
}

fn index_stats() -> IndexStats {
    IndexStats {
        schema_name: "public".to_string(),
        table_name: "orders".to_string(),
        index_name: "orders_note_idx".to_string(),
        idx_scan: 0,
        idx_tup_read: 0,
        idx_tup_fetch: 0,
        bytes: 8_192,
        is_primary: false,
        is_unique: false,
        is_valid: true,
    }
}

#[test]
fn a_plain_index_is_described_as_an_index() {
    assert_eq!(render_kind(&index_stats()), "index");
}

#[test]
fn constraint_indexes_are_described_by_their_constraint() {
    let mut primary = index_stats();
    primary.is_primary = true;
    primary.is_unique = true;
    assert_eq!(render_kind(&primary), "primary");

    let mut unique = index_stats();
    unique.is_unique = true;
    assert_eq!(render_kind(&unique), "unique");
}

#[test]
fn an_invalid_index_is_flagged() {
    let mut invalid = index_stats();
    invalid.is_valid = false;
    assert_eq!(render_kind(&invalid), "index (invalid)");
}

#[test]
fn an_invalid_primary_key_keeps_its_kind_and_its_flag() {
    let mut broken = index_stats();
    broken.is_primary = true;
    broken.is_valid = false;
    assert_eq!(render_kind(&broken), "primary (invalid)");
}
