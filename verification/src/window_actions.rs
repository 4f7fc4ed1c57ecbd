//! What the window tells the user about an action: the confirmation before
//! it, the notice while it runs, and the message when it ends.

use vstd::prelude::*;

use crate::actions::{target_of, Action, ActionOutcome, MaintenanceKind};
use crate::collector::snapshot::Session;
use crate::connection::probe::Capabilities;
use crate::text::{append, decimal, push_char, same_text, write_signed};

verus! {

/// A labelled line for a field the server may have withheld: nothing at all
/// when it did, rather than a blank that would read as "no such field".
pub open spec fn optional_line(label: Seq<char>, value: Option<String>) -> Seq<char> {
    match value {
        Some(text) => "\n"@ + label + text@,
        None => Seq::empty(),
    }
}

/// The confirmation for signalling `session`: everything needed to tell its
/// backend apart from another that looks like it, one field per line, the
/// query last after a blank line. `running_for` is how long its query has
/// run, in whole seconds, when the server reported it.
pub open spec fn confirmation_text(session: Session, running_for: Option<String>) -> Seq<char> {
    "PID "@ + decimal(session.pid as int) + optional_line("User "@, session.user_name)
        + optional_line("Database "@, session.database) + optional_line(
        "Application "@,
        session.application_name,
    ) + optional_line("State "@, session.state) + match running_for {
        Some(seconds) => "\nRunning for "@ + seconds@ + " seconds"@,
        None => Seq::empty(),
    } + match session.query {
        Some(query) => "\n\n"@ + query@,
        None => Seq::empty(),
    }
}

fn push_optional_line(body: &mut String, label: &str, value: &Option<String>)
    ensures
        final(body)@ == old(body)@ + optional_line(label@, *value),
{
    if let Some(text) = value {
        push_char(body, '\n');
        append(body, label);
        append(body, text.as_str());
        proof {
            reveal_strlit("\n");
        }
        assert(final(body)@ =~= old(body)@ + optional_line(label@, *value));
    } else {
        assert(final(body)@ =~= old(body)@ + optional_line(label@, *value));
    }
}

/// Everything needed to tell one backend apart from another that looks like
/// it, for the dialog that confirms a signal.
pub fn confirmation_body(session: &Session, running_for: &Option<String>) -> (body: String)
    ensures
        body@ == confirmation_text(*session, *running_for),
{
    let mut body = String::new();
    append(&mut body, "PID ");
    write_signed(session.pid as i128, &mut body);
    push_optional_line(&mut body, "User ", &session.user_name);
    push_optional_line(&mut body, "Database ", &session.database);
    push_optional_line(&mut body, "Application ", &session.application_name);
    push_optional_line(&mut body, "State ", &session.state);
    let ghost before_duration = body@;
    if let Some(seconds) = running_for {
        append(&mut body, "\nRunning for ");
        append(&mut body, seconds.as_str());
        append(&mut body, " seconds");
    }
    assert(body@ =~= before_duration + match *running_for {
        Some(seconds) => "\nRunning for "@ + seconds@ + " seconds"@,
        None => Seq::<char>::empty(),
    });
    let ghost before_query = body@;
    if let Some(query) = &session.query {
        append(&mut body, "\n\n");
        append(&mut body, query.as_str());
    }
    assert(body@ =~= before_query + match session.query {
        Some(query) => "\n\n"@ + query@,
        None => Seq::<char>::empty(),
    });
    assert(body@ =~= confirmation_text(*session, *running_for));
    body
}

/// What an action was aimed at, or nothing for the server-wide ones.
pub open spec fn target_text(action: Action) -> Seq<char> {
    match target_of(action) {
        Some(target) => target,
        None => Seq::empty(),
    }
}

/// The message for a finished action: what was done to what on success,
/// that the backend had already gone when the signal found nothing, and the
/// server's own words on failure.
pub open spec fn outcome_text(action: Action, outcome: ActionOutcome) -> Seq<char> {
    match outcome {
        ActionOutcome::Succeeded => match action {
            Action::CancelBackend { .. } => "Cancelled the query on backend "@ + target_text(action) + "."@,
            Action::TerminateBackend { .. } => "Terminated backend "@ + target_text(action) + "."@,
            Action::Maintain { kind, .. } => match kind {
                MaintenanceKind::Analyze => "Analysed "@ + target_text(action) + "."@,
                MaintenanceKind::Vacuum => "Vacuumed "@ + target_text(action) + "."@,
                MaintenanceKind::VacuumAnalyze => "Vacuumed and analysed "@ + target_text(action) + "."@,
            },
            Action::ResetStatements => "Query statistics reset."@,
            Action::ReloadConfig => "Configuration reloaded."@,
        },
        ActionOutcome::NoSuchBackend => "Backend "@ + target_text(action) + " was no longer running."@,
        ActionOutcome::Failed(message) => "Action failed: "@ + message@,
    }
}

fn target_string(action: &Action) -> (text: String)
    ensures
        text@ == target_text(*action),
{
    match action.target() {
        Some(target) => target,
        None => String::new(),
    }
}

/// The message for a finished action.
pub fn outcome_message(action: &Action, outcome: &ActionOutcome) -> (message: String)
    ensures
        message@ == outcome_text(*action, *outcome),
{
    let mut message = String::new();
    match outcome {
        ActionOutcome::Succeeded => match action {
            Action::CancelBackend { .. } => {
                append(&mut message, "Cancelled the query on backend ");
                append(&mut message, target_string(action).as_str());
                append(&mut message, ".");
            },
            Action::TerminateBackend { .. } => {
                append(&mut message, "Terminated backend ");
                append(&mut message, target_string(action).as_str());
                append(&mut message, ".");
            },
            Action::Maintain { kind, .. } => {
                match kind {
                    MaintenanceKind::Analyze => append(&mut message, "Analysed "),
                    MaintenanceKind::Vacuum => append(&mut message, "Vacuumed "),
                    MaintenanceKind::VacuumAnalyze => append(&mut message, "Vacuumed and analysed "),
                }
                append(&mut message, target_string(action).as_str());
                append(&mut message, ".");
            },
            Action::ResetStatements => append(&mut message, "Query statistics reset."),
            Action::ReloadConfig => append(&mut message, "Configuration reloaded."),
        },
        ActionOutcome::NoSuchBackend => {
            append(&mut message, "Backend ");
            append(&mut message, target_string(action).as_str());
            append(&mut message, " was no longer running.");
        },
        ActionOutcome::Failed(detail) => {
            append(&mut message, "Action failed: ");
            append(&mut message, detail.as_str());
        },
    }
    assert(message@ =~= outcome_text(*action, *outcome));
    message
}

/// The command a long-running action runs, as its notice names it.
pub open spec fn command_name(action: Action) -> Seq<char> {
    match action {
        Action::Maintain { kind: MaintenanceKind::Analyze, .. } => "ANALYZE"@,
        Action::Maintain { kind: MaintenanceKind::Vacuum, .. } => "VACUUM"@,
        _ => "VACUUM (ANALYZE)"@,
    }
}

/// The notice that stays up while a long-running action runs.
pub open spec fn in_flight_text(action: Action) -> Seq<char> {
    "Running "@ + command_name(action) + " on "@ + target_text(action) + "…"@
}

/// The notice that stays up while a long-running action runs.
pub fn in_flight_message(action: &Action) -> (message: String)
    ensures
        message@ == in_flight_text(*action),
{
    let command = match action {
        Action::Maintain { kind: MaintenanceKind::Analyze, .. } => "ANALYZE",
        Action::Maintain { kind: MaintenanceKind::Vacuum, .. } => "VACUUM",
        _ => "VACUUM (ANALYZE)",
    };
    let mut message = String::new();
    append(&mut message, "Running ");
    append(&mut message, command);
    append(&mut message, " on ");
    append(&mut message, target_string(action).as_str());
    append(&mut message, "…");
    assert(message@ =~= in_flight_text(*action));
    message
}

pub const ACTION_CANCEL: &'static str = "cancel-backend";
pub const ACTION_TERMINATE: &'static str = "terminate-backend";
pub const ACTION_ANALYZE: &'static str = "analyze-table";
pub const ACTION_VACUUM: &'static str = "vacuum-table";
pub const ACTION_VACUUM_ANALYZE: &'static str = "vacuum-analyze-table";
pub const ACTION_RESET_STATEMENTS: &'static str = "reset-statements";
pub const ACTION_RELOAD_CONF: &'static str = "reload-configuration";

/// The action a window action name stands for, given what is selected:
/// the backend a signal would reach, and the table (schema and name) a
/// maintenance command would run on. Nothing when the name is unknown or
/// its target is not selected.
pub open spec fn action_named(
    name: Seq<char>,
    signal_target: Option<i32>,
    table: Option<(String, String)>,
) -> Option<Action> {
    if name == ACTION_CANCEL@ {
        match signal_target {
            Some(pid) => Some(Action::CancelBackend { pid }),
            None => None,
        }
    } else if name == ACTION_TERMINATE@ {
        match signal_target {
            Some(pid) => Some(Action::TerminateBackend { pid }),
            None => None,
        }
    } else if name == ACTION_ANALYZE@ || name == ACTION_VACUUM@ || name == ACTION_VACUUM_ANALYZE@ {
        match table {
            Some((schema, table)) => Some(
                Action::Maintain {
                    kind: if name == ACTION_ANALYZE@ {
                        MaintenanceKind::Analyze
                    } else if name == ACTION_VACUUM@ {
                        MaintenanceKind::Vacuum
                    } else {
                        MaintenanceKind::VacuumAnalyze
                    },
                    schema,
                    table,
                },
            ),
            None => None,
        }
    } else if name == ACTION_RESET_STATEMENTS@ {
        Some(Action::ResetStatements)
    } else if name == ACTION_RELOAD_CONF@ {
        Some(Action::ReloadConfig)
    } else {
        None
    }
}

fn maintenance(kind: MaintenanceKind, table: Option<(String, String)>) -> (action: Option<Action>)
    ensures
        action == match table {
            Some((schema, table)) => Some(Action::Maintain { kind, schema, table }),
            None => None::<Action>,
        },
{
    match table {
        Some((schema, table)) => Some(Action::Maintain { kind, schema, table }),
        None => None,
    }
}

/// The action a window action name stands for, given the selection.
pub fn action_for(name: &str, signal_target: Option<i32>, table: Option<(String, String)>) -> (action: Option<Action>)
    ensures
        action == action_named(name@, signal_target, table),
{
    if same_text(name, ACTION_CANCEL) {
        match signal_target {
            Some(pid) => Some(Action::CancelBackend { pid }),
            None => None,
        }
    } else if same_text(name, ACTION_TERMINATE) {
        match signal_target {
            Some(pid) => Some(Action::TerminateBackend { pid }),
            None => None,
        }
    } else if same_text(name, ACTION_ANALYZE) {
        maintenance(MaintenanceKind::Analyze, table)
    } else if same_text(name, ACTION_VACUUM) {
        maintenance(MaintenanceKind::Vacuum, table)
    } else if same_text(name, ACTION_VACUUM_ANALYZE) {
        maintenance(MaintenanceKind::VacuumAnalyze, table)
    } else if same_text(name, ACTION_RESET_STATEMENTS) {
        Some(Action::ResetStatements)
    } else if same_text(name, ACTION_RELOAD_CONF) {
        Some(Action::ReloadConfig)
    } else {
        None
    }
}

/// The dialog that asks before an action: a heading, the body naming the
/// exact target, the verb on the confirming button, and whether that button
/// warns of destruction.
#[derive(Debug)]
pub struct Confirmation {
    pub heading: String,
    pub body: String,
    pub verb: String,
    pub destructive: bool,
}

/// The confirmation for `action`: a cancel or a terminate names the backend
/// in `session_body`; anything else is the statistics reset, which names
/// what is lost. Only cancelling a query is not destructive.
pub open spec fn dialog_text(action: Action, session_body: Seq<char>) -> (Seq<char>, Seq<char>, Seq<char>, bool) {
    match action {
        Action::CancelBackend { .. } => ("Cancel this query?"@, session_body, "Cancel query"@, false),
        Action::TerminateBackend { .. } => ("Terminate this backend?"@, session_body, "Terminate"@, true),
        _ => (
            "Reset query statistics?"@,
            "Every statistic pg_stat_statements has accumulated since the last reset is discarded. This cannot be undone."@,
            "Reset"@,
            true,
        ),
    }
}

/// The confirmation dialog's contents for `action`.
pub fn confirmation_for(action: &Action, session_body: String) -> (dialog: Confirmation)
    ensures
        (dialog.heading@, dialog.body@, dialog.verb@, dialog.destructive) == dialog_text(
            *action,
            session_body@,
        ),
{
    let mut heading = String::new();
    let mut verb = String::new();
    match action {
        Action::CancelBackend { .. } => {
            append(&mut heading, "Cancel this query?");
            append(&mut verb, "Cancel query");
            Confirmation { heading, body: session_body, verb, destructive: false }
        },
        Action::TerminateBackend { .. } => {
            append(&mut heading, "Terminate this backend?");
            append(&mut verb, "Terminate");
            Confirmation { heading, body: session_body, verb, destructive: true }
        },
        _ => {
            let mut body = String::new();
            append(&mut heading, "Reset query statistics?");
            append(
                &mut body,
                "Every statistic pg_stat_statements has accumulated since the last reset is discarded. This cannot be undone.",
            );
            append(&mut verb, "Reset");
            Confirmation { heading, body, verb, destructive: true }
        },
    }
}

/// Which of the seven actions are offered.
#[derive(Debug, Clone, Copy, PartialEq, Eq, Structural)]
pub struct ActionEnablement {
    pub cancel: bool,
    pub terminate: bool,
    pub analyze: bool,
    pub vacuum: bool,
    pub vacuum_analyze: bool,
    pub reset_statements: bool,
    pub reload_conf: bool,
}

/// Which actions are offered: none while disconnected; a signal when the
/// role may signal and a session is selected; maintenance when a table is
/// selected that the role owns or may maintain server-wide; the two
/// server-wide actions when the role holds their capability.
/// `selected_table_maintainable` is the selected table's own answer.
pub open spec fn enablement_for(
    connected: bool,
    capabilities: Capabilities,
    has_session: bool,
    selected_table_maintainable: Option<bool>,
) -> ActionEnablement {
    let can_signal = connected && capabilities.signal_backend && has_session;
    let can_maintain = connected && match selected_table_maintainable {
        Some(own) => own || capabilities.maintain,
        None => false,
    };
    ActionEnablement {
        cancel: can_signal,
        terminate: can_signal,
        analyze: can_maintain,
        vacuum: can_maintain,
        vacuum_analyze: can_maintain,
        reset_statements: connected && capabilities.reset_statements,
        reload_conf: connected && capabilities.reload_conf,
    }
}

/// Which actions are offered, recomputed on connect, disconnect and every
/// change of selection.
pub fn action_enablement(
    connected: bool,
    capabilities: &Capabilities,
    has_session: bool,
    selected_table_maintainable: Option<bool>,
) -> (enabled: ActionEnablement)
    ensures
        enabled == enablement_for(connected, *capabilities, has_session, selected_table_maintainable),
{
    let can_signal = connected && capabilities.signal_backend && has_session;
    let can_maintain = connected && match selected_table_maintainable {
        Some(own) => own || capabilities.maintain,
        None => false,
    };
    ActionEnablement {
        cancel: can_signal,
        terminate: can_signal,
        analyze: can_maintain,
        vacuum: can_maintain,
        vacuum_analyze: can_maintain,
        reset_statements: connected && capabilities.reset_statements,
        reload_conf: connected && capabilities.reload_conf,
    }
}

/// Nothing is offered without a connection, and nothing is offered that the
/// role's capabilities do not allow: a signal needs the signal capability, a
/// reset or a reload its own.
pub proof fn lemma_actions_need_a_connection_and_a_capability(
    connected: bool,
    capabilities: Capabilities,
    has_session: bool,
    selected_table_maintainable: Option<bool>,
)
    ensures
        ({
            let e = enablement_for(connected, capabilities, has_session, selected_table_maintainable);
            &&& !connected ==> e == ActionEnablement {
                cancel: false,
                terminate: false,
                analyze: false,
                vacuum: false,
                vacuum_analyze: false,
                reset_statements: false,
                reload_conf: false,
            }
            &&& (e.cancel || e.terminate) ==> capabilities.signal_backend && has_session
            &&& e.reset_statements ==> capabilities.reset_statements
            &&& e.reload_conf ==> capabilities.reload_conf
            &&& (e.analyze || e.vacuum || e.vacuum_analyze) ==> selected_table_maintainable is Some
        }),
{
}

/// Each of the seven window actions asks for the request its name says, on
/// the selected target: the signals reach exactly the selected backend, the
/// maintenance commands run exactly on the selected table, and the two
/// server-wide actions need no selection. A signal or a maintenance command
/// with nothing selected is no request, and neither is an unknown name.
pub proof fn lemma_each_action_name_asks_for_its_request(
    pid: i32,
    schema: String,
    table: String,
    signal_target: Option<i32>,
    selected_table: Option<(String, String)>,
    name: Seq<char>,
)
    ensures
        action_named("cancel-backend"@, Some(pid), selected_table) == Some(Action::CancelBackend { pid }),
        action_named("terminate-backend"@, Some(pid), selected_table) == Some(Action::TerminateBackend { pid }),
        action_named("analyze-table"@, signal_target, Some((schema, table))) == Some(
            Action::Maintain { kind: MaintenanceKind::Analyze, schema, table },
        ),
        action_named("vacuum-table"@, signal_target, Some((schema, table))) == Some(
            Action::Maintain { kind: MaintenanceKind::Vacuum, schema, table },
        ),
        action_named("vacuum-analyze-table"@, signal_target, Some((schema, table))) == Some(
            Action::Maintain { kind: MaintenanceKind::VacuumAnalyze, schema, table },
        ),
        action_named("reset-statements"@, signal_target, selected_table) == Some(Action::ResetStatements),
        action_named("reload-configuration"@, signal_target, selected_table) == Some(Action::ReloadConfig),
        action_named("cancel-backend"@, None, selected_table) is None,
        action_named("terminate-backend"@, None, selected_table) is None,
        action_named("analyze-table"@, signal_target, None) is None,
        action_named("vacuum-table"@, signal_target, None) is None,
        action_named("vacuum-analyze-table"@, signal_target, None) is None,
        name != "cancel-backend"@ && name != "terminate-backend"@ && name != "analyze-table"@ && name
            != "vacuum-table"@ && name != "vacuum-analyze-table"@ && name != "reset-statements"@ && name
            != "reload-configuration"@ ==> action_named(name, signal_target, selected_table) is None,
{
    reveal_strlit("cancel-backend");
    reveal_strlit("terminate-backend");
    reveal_strlit("analyze-table");
    reveal_strlit("vacuum-table");
    reveal_strlit("vacuum-analyze-table");
    reveal_strlit("reset-statements");
    reveal_strlit("reload-configuration");
    assert("terminate-backend"@.len() != "cancel-backend"@.len());
    assert("analyze-table"@.len() != "cancel-backend"@.len());
    assert("analyze-table"@.len() != "terminate-backend"@.len());
    assert("vacuum-table"@.len() != "cancel-backend"@.len());
    assert("vacuum-table"@.len() != "terminate-backend"@.len());
    assert("vacuum-table"@.len() != "analyze-table"@.len());
    assert("vacuum-analyze-table"@.len() != "cancel-backend"@.len());
    assert("vacuum-analyze-table"@.len() != "terminate-backend"@.len());
    assert("vacuum-analyze-table"@.len() != "analyze-table"@.len());
    assert("vacuum-analyze-table"@.len() != "vacuum-table"@.len());
    assert("reset-statements"@.len() != "cancel-backend"@.len());
    assert("reset-statements"@.len() != "terminate-backend"@.len());
    assert("reset-statements"@.len() != "analyze-table"@.len());
    assert("reset-statements"@.len() != "vacuum-table"@.len());
    assert("reset-statements"@.len() != "vacuum-analyze-table"@.len());
    assert("reload-configuration"@.len() != "cancel-backend"@.len());
    assert("reload-configuration"@.len() != "terminate-backend"@.len());
    assert("reload-configuration"@.len() != "analyze-table"@.len());
    assert("reload-configuration"@.len() != "vacuum-table"@.len());
    assert("reload-configuration"@[0] != "vacuum-analyze-table"@[0]);
    assert("reload-configuration"@.len() != "reset-statements"@.len());
}

/// On a connection, the two server-wide actions are offered exactly when the
/// role holds their capability, whatever is or is not selected; a signal is
/// offered, as both cancel and terminate, exactly when the role may signal
/// and a session is selected; and the three maintenance commands go
/// together, offered for a selected table the role owns, or for any selected
/// table when it may maintain server-wide, and never with no table selected.
pub proof fn lemma_offers_follow_the_role_and_the_selection(
    connected: bool,
    capabilities: Capabilities,
    has_session: bool,
    selected_table_maintainable: Option<bool>,
)
    ensures
        ({
            let e = enablement_for(connected, capabilities, has_session, selected_table_maintainable);
            &&& connected ==> e.reset_statements == capabilities.reset_statements
            &&& connected ==> e.reload_conf == capabilities.reload_conf
            &&& e.cancel == (connected && capabilities.signal_backend && has_session)
            &&& e.terminate == e.cancel
            &&& e.vacuum == e.analyze && e.vacuum_analyze == e.analyze
            &&& connected && selected_table_maintainable == Some(true) ==> e.analyze
            &&& connected && capabilities.maintain && selected_table_maintainable is Some ==> e.analyze
            &&& selected_table_maintainable == Some(false) && !capabilities.maintain ==> !e.analyze
            &&& selected_table_maintainable is None ==> !e.analyze
        }),
{
}

} // verus!
