use mission_centre_pg::actions::{Action, MaintenanceKind};
use mission_centre_pg::collector::locks::{build_forest, stub_participant, LockParticipant};
use mission_centre_pg::connection::params::SslMode;
use mission_centre_pg::connection::probe::{Capabilities, StatementsAvailability};
use mission_centre_pg::dialogs::add_server::{read_server_form, ServerFormError};
use mission_centre_pg::pages::filters::table_matches;
use mission_centre_pg::pages::locks::{flatten, selected_session};
use mission_centre_pg::pages::queries::statements_notice;
use mission_centre_pg::window::ConnectionState;
use mission_centre_pg::window_actions::{
    action_enablement, action_for, confirmation_for, ACTION_ANALYZE, ACTION_CANCEL,
    ACTION_RELOAD_CONF, ACTION_RESET_STATEMENTS, ACTION_TERMINATE, ACTION_VACUUM,
    ACTION_VACUUM_ANALYZE,
};

#[test]
fn a_blank_host_is_refused_before_the_port_is_read() {
    assert_eq!(
        read_server_form("   ", "nonsense", "", "", "", 1).err(),
        Some(ServerFormError::MissingHost)
    );
}

#[test]
fn a_port_must_be_a_port_number() {
    for port in ["", "abc", "65536", "-1", "5432x"] {
        assert_eq!(
            read_server_form("db", port, "", "", "", 1).err(),
            Some(ServerFormError::InvalidPort),
            "{port:?}"
        );
    }
}

#[test]
fn a_form_is_trimmed_and_labelled_by_host_and_port_when_unnamed() {
    let fields = read_server_form(" db.example.com ", " 5433 ", "  ", " appdb ", " monitor ", 2)
        .expect("a valid form");
    assert_eq!(fields.host, "db.example.com");
    assert_eq!(fields.port, 5433);
    assert_eq!(fields.label, "db.example.com:5433");
    assert_eq!(fields.database, "appdb");
    assert_eq!(fields.user, "monitor");
    assert_eq!(fields.ssl_mode, SslMode::Require);

    let named = read_server_form("db", "+5432", " prod ", "", "", 0).expect("a valid form");
    assert_eq!(named.label, "prod");
    assert_eq!(named.port, 5432);
    assert_eq!(named.ssl_mode, SslMode::Disable);
    assert_eq!(read_server_form("db", "5432", "", "", "", 7).unwrap().ssl_mode, SslMode::Prefer);
}

#[test]
fn action_names_need_their_targets() {
    assert_eq!(action_for(ACTION_CANCEL, Some(42), None), Some(Action::CancelBackend { pid: 42 }));
    assert_eq!(action_for(ACTION_TERMINATE, None, None), None);
    assert_eq!(
        action_for(ACTION_VACUUM_ANALYZE, None, Some(("public".to_string(), "orders".to_string()))),
        Some(Action::Maintain {
            kind: MaintenanceKind::VacuumAnalyze,
            schema: "public".to_string(),
            table: "orders".to_string()
        })
    );
    assert_eq!(action_for(ACTION_ANALYZE, Some(1), None), None);
    assert!(matches!(
        action_for(ACTION_VACUUM, None, Some(("a".to_string(), "b".to_string()))),
        Some(Action::Maintain { kind: MaintenanceKind::Vacuum, .. })
    ));
    assert_eq!(action_for(ACTION_RESET_STATEMENTS, None, None), Some(Action::ResetStatements));
    assert_eq!(action_for(ACTION_RELOAD_CONF, None, None), Some(Action::ReloadConfig));
    assert_eq!(action_for("shutdown-server", Some(1), None), None);
}

#[test]
fn only_a_cancel_is_confirmed_without_a_destructive_button() {
    let cancel = confirmation_for(&Action::CancelBackend { pid: 1 }, "PID 1".to_string());
    assert_eq!(cancel.heading, "Cancel this query?");
    assert_eq!(cancel.body, "PID 1");
    assert_eq!(cancel.verb, "Cancel query");
    assert!(!cancel.destructive);

    let terminate = confirmation_for(&Action::TerminateBackend { pid: 1 }, "PID 1".to_string());
    assert_eq!(terminate.verb, "Terminate");
    assert!(terminate.destructive);

    let reset = confirmation_for(&Action::ResetStatements, String::new());
    assert_eq!(reset.heading, "Reset query statistics?");
    assert!(reset.body.contains("cannot be undone"));
    assert!(reset.destructive);
}

#[test]
fn nothing_is_offered_while_disconnected() {
    let all = Capabilities::from_flags(Some(true), Some(true), Some(true), Some(true));
    let e = action_enablement(false, &all, true, Some(true));
    assert!(!(e.cancel || e.terminate || e.analyze || e.vacuum || e.vacuum_analyze || e.reset_statements || e.reload_conf));
}

#[test]
fn an_owned_table_is_maintainable_without_the_server_wide_privilege() {
    let none = Capabilities::default();
    let e = action_enablement(true, &none, false, Some(true));
    assert!(e.analyze && e.vacuum && e.vacuum_analyze);
    assert!(!e.cancel && !e.reset_statements && !e.reload_conf);
    let e = action_enablement(true, &none, true, Some(false));
    assert!(!e.analyze && !e.cancel);
    let maintain = Capabilities::from_flags(Some(true), None, None, Some(true));
    let e = action_enablement(true, &maintain, true, Some(false));
    assert!(e.analyze && e.cancel && e.terminate);
}

#[test]
fn the_queries_page_explains_a_missing_or_old_extension() {
    assert_eq!(
        statements_notice(&StatementsAvailability::Available { version: "1.10".to_string() }, "prod"),
        None
    );
    let (title, description) =
        statements_notice(&StatementsAvailability::NotInstalled, "prod").expect("a notice");
    assert_eq!(title, "pg_stat_statements is not installed");
    assert!(description.contains("database prod."));
    let (title, description) = statements_notice(
        &StatementsAvailability::TooOld { version: "1.7".to_string() },
        "prod",
    )
    .expect("a notice");
    assert_eq!(title, "pg_stat_statements is too old");
    assert!(description.starts_with("Version 1.7 is installed"));
}

fn participant(pid: i32, blocked_by: &[i32]) -> LockParticipant {
    LockParticipant {
        blocked_by: blocked_by.to_vec(),
        user_name: Some("app".to_string()),
        query: Some("UPDATE t SET x = 1".to_string()),
        ..stub_participant(pid)
    }
}

#[test]
fn a_selected_lock_line_acts_on_its_backend_but_a_stub_has_none() {
    let forest = build_forest(&[participant(200, &[999])]);
    let rows = flatten(&forest);
    assert!(selected_session(&rows[0]).is_none());
    let session = selected_session(&rows[1]).expect("the waiter");
    assert_eq!(session.pid, 200);
    assert_eq!(session.user_name.as_deref(), Some("app"));
    assert_eq!(session.query.as_deref(), Some("UPDATE t SET x = 1"));
}

#[test]
fn the_table_filter_reads_schema_and_name() {
    assert!(table_matches("public", "Orders", "orders"));
    assert!(table_matches("Sales", "items", "sales"));
    assert!(!table_matches("public", "orders", "customers"));
    assert!(table_matches("public", "orders", ""));
}

#[test]
fn each_connection_state_has_its_icon() {
    assert_eq!(ConnectionState::Disconnected.icon_name(), "media-playback-stop-symbolic");
    assert_eq!(ConnectionState::Connecting.icon_name(), "content-loading-symbolic");
    assert_eq!(ConnectionState::Connected.icon_name(), "media-record-symbolic");
    assert_eq!(ConnectionState::Failed.icon_name(), "dialog-warning-symbolic");
}
