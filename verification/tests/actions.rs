use mission_centre_pg::actions::sql::{plan_for, qualified_name, quote_ident};
use mission_centre_pg::actions::{signal_outcome, Action, ActionOutcome, MaintenanceKind};

#[test]
fn actions_affecting_other_users_or_destroying_data_are_confirmed() {
    assert!(Action::CancelBackend { pid: 1 }.requires_confirmation());
    assert!(Action::TerminateBackend { pid: 1 }.requires_confirmation());
    assert!(Action::ResetStatements.requires_confirmation());
}

#[test]
fn idempotent_and_routine_actions_are_not_confirmed() {
    assert!(!Action::ReloadConfig.requires_confirmation());
    for kind in [
        MaintenanceKind::Analyze,
        MaintenanceKind::Vacuum,
        MaintenanceKind::VacuumAnalyze,
    ] {
        assert!(!Action::Maintain {
            kind,
            schema: "public".to_string(),
            table: "orders".to_string(),
        }
        .requires_confirmation());
    }
}

#[test]
fn a_signal_that_found_its_backend_succeeded() {
    assert_eq!(signal_outcome(true), ActionOutcome::Succeeded);
}

#[test]
fn a_signal_that_found_nothing_is_neither_success_nor_failure() {
    assert_eq!(signal_outcome(false), ActionOutcome::NoSuchBackend);
}

#[test]
fn maintenance_reports_the_relation_it_targeted() {
    let action = Action::Maintain {
        kind: MaintenanceKind::Vacuum,
        schema: "public".to_string(),
        table: "orders".to_string(),
    };
    assert_eq!(action.target(), Some("public.orders".to_string()));
    assert_eq!(
        Action::CancelBackend { pid: 4821 }.target(),
        Some("4821".to_string())
    );
    assert_eq!(Action::ReloadConfig.target(), None);
}

#[test]
fn only_maintenance_is_long_running() {
    assert!(Action::Maintain {
        kind: MaintenanceKind::Vacuum,
        schema: "public".to_string(),
        table: "orders".to_string(),
    }
    .is_long_running());
    assert!(!Action::CancelBackend { pid: 1 }.is_long_running());
    assert!(!Action::ResetStatements.is_long_running());
}

#[test]
fn a_negative_pid_target_keeps_its_sign() {
    assert_eq!(
        Action::TerminateBackend { pid: -12 }.target(),
        Some("-12".to_string())
    );
}

#[test]
fn no_action_is_both_confirmed_and_long_running() {
    let all = [
        Action::CancelBackend { pid: 1 },
        Action::TerminateBackend { pid: 1 },
        Action::Maintain {
            kind: MaintenanceKind::Analyze,
            schema: "s".to_string(),
            table: "t".to_string(),
        },
        Action::ResetStatements,
        Action::ReloadConfig,
    ];
    for action in all {
        assert!(!(action.requires_confirmation() && action.is_long_running()));
    }
}

#[test]
fn a_plain_identifier_is_still_quoted() {
    assert_eq!(quote_ident("orders"), "\"orders\"");
}

#[test]
fn an_embedded_double_quote_is_doubled() {
    assert_eq!(quote_ident("we\"ird"), "\"we\"\"ird\"");
}

#[test]
fn a_name_carrying_sql_is_neutralised() {
    assert_eq!(
        quote_ident("x\"; DROP TABLE bar --"),
        "\"x\"\"; DROP TABLE bar --\""
    );
}

#[test]
fn case_is_preserved_because_quoting_makes_it_significant() {
    assert_eq!(quote_ident("MyTable"), "\"MyTable\"");
}

#[test]
fn a_qualified_name_quotes_both_parts() {
    assert_eq!(qualified_name("public", "orders"), "\"public\".\"orders\"");
}

#[test]
fn an_empty_name_is_still_a_quoted_identifier() {
    assert_eq!(quote_ident(""), "\"\"");
    assert_eq!(quote_ident("\"\""), "\"\"\"\"\"\"");
}

#[test]
fn analyze_runs_on_the_simple_protocol_with_no_statement_timeout() {
    let plan = plan_for(&Action::Maintain {
        kind: MaintenanceKind::Analyze,
        schema: "public".to_string(),
        table: "orders".to_string(),
    });
    assert_eq!(plan.sql, "ANALYZE \"public\".\"orders\"");
    assert!(plan.batch, "maintenance must not use the extended protocol");
    assert_eq!(plan.pid, None);
    assert_eq!(
        plan.setup,
        "SET statement_timeout = 0; SET lock_timeout = '30s'"
    );
}

#[test]
fn vacuum_and_vacuum_analyze_have_distinct_spellings() {
    let vacuum = plan_for(&Action::Maintain {
        kind: MaintenanceKind::Vacuum,
        schema: "public".to_string(),
        table: "orders".to_string(),
    });
    assert_eq!(vacuum.sql, "VACUUM \"public\".\"orders\"");

    let both = plan_for(&Action::Maintain {
        kind: MaintenanceKind::VacuumAnalyze,
        schema: "public".to_string(),
        table: "orders".to_string(),
    });
    assert_eq!(both.sql, "VACUUM (ANALYZE) \"public\".\"orders\"");
}

#[test]
fn the_signal_actions_bind_the_pid_rather_than_interpolating_it() {
    let cancel = plan_for(&Action::CancelBackend { pid: 4821 });
    assert_eq!(cancel.sql, "SELECT pg_cancel_backend($1)");
    assert_eq!(cancel.pid, Some(4821));
    assert!(!cancel.batch);
    assert_eq!(cancel.setup, "SET statement_timeout = '5s'");

    let terminate = plan_for(&Action::TerminateBackend { pid: 4821 });
    assert_eq!(terminate.sql, "SELECT pg_terminate_backend($1)");
    assert_eq!(terminate.pid, Some(4821));
}

#[test]
fn the_server_wide_actions_take_no_parameter() {
    let reset = plan_for(&Action::ResetStatements);
    assert_eq!(reset.sql, "SELECT pg_stat_statements_reset()");
    assert_eq!(reset.pid, None);
    assert!(!reset.batch);

    let reload = plan_for(&Action::ReloadConfig);
    assert_eq!(reload.sql, "SELECT pg_reload_conf()");
    assert_eq!(reload.pid, None);
    assert!(!reload.batch);
}

#[test]
fn only_maintenance_lifts_the_statement_timeout() {
    for action in [
        Action::CancelBackend { pid: 1 },
        Action::TerminateBackend { pid: 1 },
        Action::ResetStatements,
        Action::ReloadConfig,
    ] {
        assert_eq!(
            plan_for(&action).setup,
            "SET statement_timeout = '5s'",
            "{action:?} must keep the sampler's timeout"
        );
    }
}

#[test]
fn a_hostile_table_name_stays_inside_its_quotes_in_the_plan() {
    let plan = plan_for(&Action::Maintain {
        kind: MaintenanceKind::Vacuum,
        schema: "public".to_string(),
        table: "t\"; DROP TABLE x; --".to_string(),
    });
    assert_eq!(plan.sql, "VACUUM \"public\".\"t\"\"; DROP TABLE x; --\"");
}
