use mission_centre_pg::actions::{Action, ActionOutcome, MaintenanceKind};
use mission_centre_pg::collector::snapshot::Session;
use mission_centre_pg::connection::probe::{
    format_version, Capabilities, PrivilegeLevel, ServerInfo, StatementsAvailability,
};
use mission_centre_pg::window::{
    floor_warning, graph_points, is_current, sampling_settings, ConnectionState, StatusBanner, StatusEvent,
};
use mission_centre_pg::window_actions::{confirmation_body, in_flight_message, outcome_message};

#[test]
fn is_current_when_the_generation_matches() {
    assert!(is_current(3, 3));
}

#[test]
fn is_stale_when_the_generation_is_older_than_current() {
    assert!(!is_current(1, 2));
}

#[test]
fn is_current_at_generation_zero() {
    assert!(is_current(0, 0));
}

fn session() -> Session {
    Session {
        pid: 4821,
        user_name: Some("alice".to_string()),
        application_name: Some("orders-api".to_string()),
        client_addr: None,
        database: Some("prod".to_string()),
        state: Some("idle in transaction".to_string()),
        wait_event_type: None,
        wait_event: None,
        backend_type: Some("client backend".to_string()),
        query: Some("UPDATE orders SET status = 'sent'".to_string()),
    }
}

#[test]
fn a_confirmation_names_every_field_needed_to_identify_the_backend() {
    let body = confirmation_body(&session(), &Some("842".to_string()));
    assert!(body.contains("4821"));
    assert!(body.contains("alice"));
    assert!(body.contains("prod"));
    assert!(body.contains("idle in transaction"));
    assert!(body.contains("UPDATE orders SET status = 'sent'"));
}

#[test]
fn a_confirmation_survives_a_session_with_nothing_but_a_pid() {
    let bare = Session {
        user_name: None,
        application_name: None,
        database: None,
        state: None,
        query: None,
        ..session()
    };
    let body = confirmation_body(&bare, &None);
    assert!(body.contains("4821"));
}

#[test]
fn a_confirmation_puts_one_field_per_line_and_the_query_last() {
    let body = confirmation_body(&session(), &Some("842".to_string()));
    assert_eq!(
        body,
        "PID 4821\nUser alice\nDatabase prod\nApplication orders-api\nState idle in transaction\nRunning for 842 seconds\n\nUPDATE orders SET status = 'sent'"
    );
    let bare = Session {
        user_name: None,
        application_name: None,
        database: None,
        state: None,
        query: None,
        ..session()
    };
    assert_eq!(confirmation_body(&bare, &None), "PID 4821");
}

#[test]
fn a_missing_backend_is_reported_as_neither_success_nor_failure() {
    let message = outcome_message(
        &Action::CancelBackend { pid: 4821 },
        &ActionOutcome::NoSuchBackend,
    );
    assert!(message.contains("4821"));
    assert!(message.contains("no longer running"));
}

#[test]
fn a_maintenance_success_names_the_relation() {
    let message = outcome_message(
        &Action::Maintain {
            kind: MaintenanceKind::Vacuum,
            schema: "public".to_string(),
            table: "orders".to_string(),
        },
        &ActionOutcome::Succeeded,
    );
    assert!(message.contains("public.orders"));
}

#[test]
fn a_failure_carries_the_servers_own_words() {
    let message = outcome_message(
        &Action::ReloadConfig,
        &ActionOutcome::Failed("permission denied for function pg_reload_conf".to_string()),
    );
    assert!(message.contains("permission denied for function pg_reload_conf"));
}

#[test]
fn every_success_says_what_was_done() {
    assert_eq!(
        outcome_message(&Action::CancelBackend { pid: 7 }, &ActionOutcome::Succeeded),
        "Cancelled the query on backend 7."
    );
    assert_eq!(
        outcome_message(&Action::TerminateBackend { pid: 7 }, &ActionOutcome::Succeeded),
        "Terminated backend 7."
    );
    assert_eq!(
        outcome_message(
            &Action::Maintain {
                kind: MaintenanceKind::VacuumAnalyze,
                schema: "s".to_string(),
                table: "t".to_string()
            },
            &ActionOutcome::Succeeded
        ),
        "Vacuumed and analysed s.t."
    );
    assert_eq!(
        outcome_message(&Action::ResetStatements, &ActionOutcome::Succeeded),
        "Query statistics reset."
    );
    assert_eq!(
        outcome_message(&Action::ReloadConfig, &ActionOutcome::Succeeded),
        "Configuration reloaded."
    );
}

#[test]
fn a_long_running_action_names_its_command_and_target() {
    assert_eq!(
        in_flight_message(&Action::Maintain {
            kind: MaintenanceKind::Analyze,
            schema: "public".to_string(),
            table: "orders".to_string()
        }),
        "Running ANALYZE on public.orders…"
    );
    assert_eq!(
        in_flight_message(&Action::Maintain {
            kind: MaintenanceKind::VacuumAnalyze,
            schema: "public".to_string(),
            table: "orders".to_string()
        }),
        "Running VACUUM (ANALYZE) on public.orders…"
    );
}

fn server(version_num: i32) -> ServerInfo {
    ServerInfo {
        version_num,
        version_display: format_version(version_num),
        privilege: PrivilegeLevel::Superuser,
        statements: StatementsAvailability::NotInstalled,
        capabilities: Capabilities::default(),
    }
}

#[test]
fn an_old_server_is_warned_about_and_a_supported_one_is_not() {
    assert_eq!(
        floor_warning(&server(130015)).as_deref(),
        Some("PostgreSQL 13.15 is older than the supported floor of 14. Some statistics may be missing.")
    );
    assert_eq!(floor_warning(&server(140000)), None);
}

#[test]
fn a_sample_keeps_the_floor_warning_up_but_clears_a_transient_error() {
    let mut banner = StatusBanner::new();
    let warning = floor_warning(&server(130015));
    assert_eq!(banner.apply(StatusEvent::Connecting), ConnectionState::Connecting);
    assert!(!banner.revealed);
    assert_eq!(
        banner.apply(StatusEvent::Connected { floor_warning: warning.clone() }),
        ConnectionState::Connected
    );
    assert!(banner.revealed);
    assert_eq!(banner.apply(StatusEvent::Error("Query failed: x".to_string())), ConnectionState::Failed);
    assert_eq!(banner.title, "Query failed: x");
    assert_eq!(banner.apply(StatusEvent::Sample), ConnectionState::Connected);
    assert!(banner.revealed);
    assert_eq!(Some(banner.title.clone()), warning);

    let mut banner = StatusBanner::new();
    banner.apply(StatusEvent::Connected { floor_warning: None });
    banner.apply(StatusEvent::Error("The connection to the server was lost".to_string()));
    assert!(banner.revealed);
    banner.apply(StatusEvent::Sample);
    assert!(!banner.revealed);
    assert_eq!(banner.apply(StatusEvent::Disconnected), ConnectionState::Disconnected);
}

#[test]
fn a_floor_warning_does_not_follow_the_user_to_the_next_server() {
    let mut banner = StatusBanner::new();
    banner.apply(StatusEvent::Connected { floor_warning: floor_warning(&server(120000)) });
    assert!(banner.floor_warning.is_some());
    banner.server_selected();
    assert!(banner.floor_warning.is_none());
    banner.apply(StatusEvent::Sample);
    assert!(!banner.revealed);
}

#[test]
fn stored_settings_are_raised_to_their_floors() {
    let low = sampling_settings(0, -5, 3, i32::MIN);
    assert_eq!(low.interval.nanos, 500_000_000);
    assert_eq!(low.slow_interval.nanos, 2_000_000_000);
    assert_eq!(low.statements_limit, 10);
    assert_eq!(low.relations_limit, 10);

    let kept = sampling_settings(1500, 30_000, 250, 10);
    assert_eq!(kept.interval.nanos, 1_500_000_000);
    assert_eq!(kept.slow_interval.nanos, 30_000_000_000);
    assert_eq!(kept.statements_limit, 250);
    assert_eq!(kept.relations_limit, 10);

    let largest = sampling_settings(i32::MAX, i32::MAX, i32::MAX, i32::MAX);
    assert_eq!(largest.interval.nanos, i32::MAX as u64 * 1_000_000);
    assert_eq!(largest.statements_limit, i32::MAX as i64);
}

#[test]
fn graph_keeps_at_least_one_point() {
    assert_eq!(graph_points(0), 1);
    assert_eq!(graph_points(-3), 1);
    assert_eq!(graph_points(1), 1);
    assert_eq!(graph_points(600), 600);
}
