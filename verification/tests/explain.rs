use mission_centre_pg::explain::{explain_sql, ExplainError};

#[test]
fn a_single_statement_is_wrapped_for_explaining() {
    let sql = explain_sql("SELECT * FROM t WHERE id = $1").expect("accepted");

    assert!(sql.starts_with("EXPLAIN (GENERIC_PLAN, FORMAT JSON) "));
    assert!(sql.ends_with("SELECT * FROM t WHERE id = $1"));
    assert!(!sql.contains("ANALYZE"), "ANALYZE must never be emitted");
}

#[test]
fn a_trailing_semicolon_is_accepted_but_a_second_statement_is_not() {
    assert!(explain_sql("SELECT 1;").is_some());
    assert!(explain_sql("SELECT 1;   \n").is_some());
    assert!(explain_sql("SELECT 1; DROP TABLE t").is_none());
    assert!(explain_sql("SELECT 1;SELECT 2").is_none());
    assert!(explain_sql("   ").is_none());
}

#[test]
fn surrounding_white_space_is_trimmed_before_wrapping() {
    assert_eq!(
        explain_sql("  SELECT 1;\n").as_deref(),
        Some("EXPLAIN (GENERIC_PLAN, FORMAT JSON) SELECT 1;")
    );
    assert_eq!(explain_sql(""), None);
}

#[test]
fn a_malformed_plan_error_names_its_cause() {
    let error = ExplainError::Malformed("missing Plan".to_string());
    assert!(error.message().contains("missing Plan"));
}

#[test]
fn only_what_follows_the_first_semicolon_decides() {
    assert!(explain_sql("SELECT ';'").is_none());
    assert!(explain_sql("SELECT 1; ;").is_none());
    assert!(explain_sql("; SELECT 1").is_none());
    assert_eq!(
        explain_sql(";\t").as_deref(),
        Some("EXPLAIN (GENERIC_PLAN, FORMAT JSON) ;")
    );
}
