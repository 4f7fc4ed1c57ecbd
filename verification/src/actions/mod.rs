//! The operations a user can ask for, and how each one ended.

pub mod sql;

use vstd::prelude::*;

use crate::text::signed_decimal;

verus! {

/// Which maintenance command to run. Kept separate from `Action` so the three
/// variants share one target and one capability check.
#[derive(Debug, Clone, Copy, PartialEq, Eq)]
pub enum MaintenanceKind {
    Analyze,
    Vacuum,
    VacuumAnalyze,
}

/// A single operation the user asked for. Never constructed by the collector
/// or by a timer — only by a control the user activated.
#[derive(Debug, Clone, PartialEq, Eq)]
pub enum Action {
    CancelBackend { pid: i32 },
    TerminateBackend { pid: i32 },
    Maintain { kind: MaintenanceKind, schema: String, table: String },
    ResetStatements,
    ReloadConfig,
}

/// How an action ended.
#[derive(Debug, Clone, PartialEq, Eq)]
pub enum ActionOutcome {
    Succeeded,
    /// The signal functions return false when the PID has already gone.
    NoSuchBackend,
    Failed(String),
}

/// Actions that interrupt another user's work or destroy data that cannot be
/// recovered.
pub open spec fn needs_confirmation(action: Action) -> bool {
    match action {
        Action::CancelBackend { .. } | Action::TerminateBackend { .. } | Action::ResetStatements => true,
        _ => false,
    }
}

/// Actions that may take minutes rather than milliseconds.
pub open spec fn long_running(action: Action) -> bool {
    action is Maintain
}

/// What an action was aimed at, as the result message names it.
pub open spec fn target_of(action: Action) -> Option<Seq<char>> {
    match action {
        Action::CancelBackend { pid } => Some(crate::text::decimal(pid as int)),
        Action::TerminateBackend { pid } => Some(crate::text::decimal(pid as int)),
        Action::Maintain { schema, table, .. } => Some(schema@ + seq!['.'] + table@),
        _ => None,
    }
}

impl Action {
    /// True for anything that interrupts another user's work or destroys data
    /// that cannot be recovered. `pg_reload_conf` is idempotent and loses
    /// nothing; VACUUM and ANALYZE are what autovacuum does unprompted.
    pub fn requires_confirmation(&self) -> (r: bool)
        ensures
            r == needs_confirmation(*self),
    {
        match self {
            Action::CancelBackend { .. } => true,
            Action::TerminateBackend { .. } => true,
            Action::ResetStatements => true,
            _ => false,
        }
    }

    /// What the action was aimed at, for the result message. `None` for the
    /// server-wide actions, whose message names no target.
    pub fn target(&self) -> (r: Option<String>)
        ensures
            r.is_some() == target_of(*self).is_some(),
            r.is_some() ==> r.unwrap()@ == target_of(*self).unwrap(),
    {
        match self {
            Action::CancelBackend { pid } => Some(signed_decimal(*pid as i64)),
            Action::TerminateBackend { pid } => Some(signed_decimal(*pid as i64)),
            Action::Maintain { schema, table, .. } => {
                let mut s = String::from_str(schema.as_str());
                s.append(".");
                s.append(table.as_str());
                proof {
                    reveal_strlit(".");
                }
                assert(s@ =~= schema@ + seq!['.'] + table@);
                Some(s)
            },
            Action::ResetStatements => None,
            Action::ReloadConfig => None,
        }
    }

    /// True when the action may take minutes rather than milliseconds, so the
    /// window knows to post a persistent in-flight notice rather than assume
    /// the result toast will follow immediately.
    pub fn is_long_running(&self) -> (r: bool)
        ensures
            r == long_running(*self),
    {
        match self {
            Action::Maintain { .. } => true,
            _ => false,
        }
    }
}

/// Classifies the boolean `pg_cancel_backend` and `pg_terminate_backend`
/// return.
pub fn signal_outcome(returned: bool) -> (r: ActionOutcome)
    ensures
        returned ==> r is Succeeded,
        !returned ==> r is NoSuchBackend,
{
    if returned {
        ActionOutcome::Succeeded
    } else {
        ActionOutcome::NoSuchBackend
    }
}

/// No action both asks for confirmation and runs for minutes: the
/// confirmation dialog and the in-flight notice never compete for one action.
pub proof fn lemma_confirmed_actions_are_quick(action: Action)
    ensures
        needs_confirmation(action) ==> !long_running(action),
{
}

} // verus!
