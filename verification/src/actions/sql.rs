//! The statement each action runs, and the session settings around it.

use vstd::prelude::*;

use crate::actions::{Action, MaintenanceKind};
use crate::text::push_char;

verus! {

/// `name` with every double quote doubled: the body of a quoted identifier.
pub open spec fn escape_quotes(name: Seq<char>) -> Seq<char>
    decreases name.len(),
{
    if name.len() == 0 {
        seq![]
    } else {
        escape_quotes(name.drop_last()) + if name.last() == '"' {
            seq!['"', '"']
        } else {
            seq![name.last()]
        }
    }
}

/// A quoted identifier: the escaped name between double quotes.
pub open spec fn quoted_ident(name: Seq<char>) -> Seq<char> {
    seq!['"'] + escape_quotes(name) + seq!['"']
}

/// Reads the body of a quoted identifier back, turning each doubled quote
/// into one.
pub open spec fn unescape_quotes(body: Seq<char>) -> Seq<char>
    decreases body.len(),
{
    if body.len() == 0 {
        seq![]
    } else if body.len() >= 2 && body.last() == '"' && body[body.len() - 2] == '"' {
        unescape_quotes(body.subrange(0, body.len() - 2)) + seq!['"']
    } else {
        unescape_quotes(body.drop_last()) + seq![body.last()]
    }
}

/// The name a quoted identifier denotes.
pub open spec fn unquote_ident(quoted: Seq<char>) -> Seq<char> {
    unescape_quotes(quoted.subrange(1, quoted.len() - 1))
}

/// `schema.table` with both parts quoted.
pub open spec fn qualified(schema: Seq<char>, table: Seq<char>) -> Seq<char> {
    quoted_ident(schema) + seq!['.'] + quoted_ident(table)
}

/// Wraps a name in double quotes, doubling any it already contains.
///
/// `VACUUM` cannot be parameterised, so its identifiers are interpolated. The
/// names come from the catalogue rather than from the user, but
/// `CREATE TABLE "x""; DROP TABLE bar --"` is legal PostgreSQL, so the quoting
/// is required rather than decorative. Quoting unconditionally also preserves
/// case, which matters the moment a name is not all lower case.
pub fn quote_ident(name: &str) -> (r: String)
    ensures
        r@ == quoted_ident(name@),
{
    let mut out = String::new();
    push_char(&mut out, '"');
    for c in it: name.chars()
        invariant
            out@ == seq!['"'] + escape_quotes(it.seq().take(it.index() as int)),
            it.seq() == name@,
    {
        let ghost before = it.seq().take(it.index() as int);
        if c == '"' {
            push_char(&mut out, '"');
            push_char(&mut out, '"');
        } else {
            push_char(&mut out, c);
        }
        proof {
            let after = it.seq().take(it.index() + 1);
            assert(after.drop_last() =~= before);
            assert(after.last() == c);
            assert(out@ =~= seq!['"'] + escape_quotes(after));
        }
    }
    push_char(&mut out, '"');
    assert(name@.take(name@.len() as int) =~= name@);
    assert(out@ =~= quoted_ident(name@));
    out
}

pub fn qualified_name(schema: &str, table: &str) -> (r: String)
    ensures
        r@ == qualified(schema@, table@),
{
    let mut out = quote_ident(schema);
    push_char(&mut out, '.');
    let quoted_table = quote_ident(table);
    out.append(quoted_table.as_str());
    assert(out@ =~= qualified(schema@, table@));
    out
}

/// Everything the runner needs to execute one action: the session settings to
/// apply first, the statement, whether a PID binds as `$1`, and whether the
/// simple protocol is required.
#[derive(Debug, Clone, PartialEq, Eq)]
pub struct Plan {
    pub setup: String,
    pub sql: String,
    pub pid: Option<i32>,
    /// True when the statement must go through `batch_execute`. `VACUUM`
    /// cannot run inside a transaction block, and the extended protocol wraps
    /// its statement in an implicit one.
    pub batch: bool,
}

/// A plan as values: setup, statement, bound pid, simple protocol.
pub struct PlanView {
    pub setup: Seq<char>,
    pub sql: Seq<char>,
    pub pid: Option<i32>,
    pub batch: bool,
}

impl View for Plan {
    type V = PlanView;

    open spec fn view(&self) -> PlanView {
        PlanView { setup: self.setup@, sql: self.sql@, pid: self.pid, batch: self.batch }
    }
}

/// The sampler's own guard against a wedged server; short actions inherit it.
pub const QUICK_SETUP: &'static str = "SET statement_timeout = '5s'";

/// Maintenance runs without a statement timeout — a VACUUM may legitimately
/// take an hour, and a timeout firing part-way discards the work already done
/// — but keeps a lock timeout, so a VACUUM blocked behind conflicting DDL
/// reports rather than hanging invisibly.
pub const MAINTENANCE_SETUP: &'static str = "SET statement_timeout = 0; SET lock_timeout = '30s'";

pub const CANCEL_SQL: &'static str = "SELECT pg_cancel_backend($1)";

pub const TERMINATE_SQL: &'static str = "SELECT pg_terminate_backend($1)";

pub const RESET_SQL: &'static str = "SELECT pg_stat_statements_reset()";

pub const RELOAD_SQL: &'static str = "SELECT pg_reload_conf()";

/// The command word that opens a maintenance statement, with its trailing
/// space.
pub open spec fn maintenance_command(kind: MaintenanceKind) -> Seq<char> {
    match kind {
        MaintenanceKind::Analyze => "ANALYZE "@,
        MaintenanceKind::Vacuum => "VACUUM "@,
        MaintenanceKind::VacuumAnalyze => "VACUUM (ANALYZE) "@,
    }
}

/// The plan each action is carried out by.
pub open spec fn plan_of(action: Action) -> PlanView {
    match action {
        Action::CancelBackend { pid } => PlanView {
            setup: QUICK_SETUP@,
            sql: CANCEL_SQL@,
            pid: Some(pid),
            batch: false,
        },
        Action::TerminateBackend { pid } => PlanView {
            setup: QUICK_SETUP@,
            sql: TERMINATE_SQL@,
            pid: Some(pid),
            batch: false,
        },
        Action::ResetStatements => PlanView {
            setup: QUICK_SETUP@,
            sql: RESET_SQL@,
            pid: None,
            batch: false,
        },
        Action::ReloadConfig => PlanView {
            setup: QUICK_SETUP@,
            sql: RELOAD_SQL@,
            pid: None,
            batch: false,
        },
        Action::Maintain { kind, schema, table } => PlanView {
            setup: MAINTENANCE_SETUP@,
            sql: maintenance_command(kind) + qualified(schema@, table@),
            pid: None,
            batch: true,
        },
    }
}

pub fn plan_for(action: &Action) -> (p: Plan)
    ensures
        p@ == plan_of(*action),
{
    match action {
        Action::CancelBackend { pid } => Plan {
            setup: String::from_str(QUICK_SETUP),
            sql: String::from_str(CANCEL_SQL),
            pid: Some(*pid),
            batch: false,
        },
        Action::TerminateBackend { pid } => Plan {
            setup: String::from_str(QUICK_SETUP),
            sql: String::from_str(TERMINATE_SQL),
            pid: Some(*pid),
            batch: false,
        },
        Action::ResetStatements => Plan {
            setup: String::from_str(QUICK_SETUP),
            sql: String::from_str(RESET_SQL),
            pid: None,
            batch: false,
        },
        Action::ReloadConfig => Plan {
            setup: String::from_str(QUICK_SETUP),
            sql: String::from_str(RELOAD_SQL),
            pid: None,
            batch: false,
        },
        Action::Maintain { kind, schema, table } => {
            let relation = qualified_name(schema.as_str(), table.as_str());
            let mut sql = match kind {
                MaintenanceKind::Analyze => String::from_str("ANALYZE "),
                MaintenanceKind::Vacuum => String::from_str("VACUUM "),
                MaintenanceKind::VacuumAnalyze => String::from_str("VACUUM (ANALYZE) "),
            };
            sql.append(relation.as_str());
            Plan { setup: String::from_str(MAINTENANCE_SETUP), sql, pid: None, batch: true }
        },
    }
}

proof fn lemma_unescape_escape(name: Seq<char>)
    ensures
        unescape_quotes(escape_quotes(name)) == name,
    decreases name.len(),
{
    if name.len() > 0 {
        let prefix = name.drop_last();
        lemma_unescape_escape(prefix);
        let body = escape_quotes(name);
        if name.last() == '"' {
            assert(body.subrange(0, body.len() - 2) =~= escape_quotes(prefix));
        } else {
            assert(body.drop_last() =~= escape_quotes(prefix));
        }
        assert(name =~= prefix + seq![name.last()]);
    }
}

/// Quoting loses nothing: reading a quoted identifier back gives the name it
/// was made from, whatever quotes or statement text the name contains.
pub proof fn lemma_quote_ident_round_trip(name: Seq<char>)
    ensures
        unquote_ident(quoted_ident(name)) == name,
{
    let q = quoted_ident(name);
    assert(q.subrange(1, q.len() - 1) =~= escape_quotes(name));
    lemma_unescape_escape(name);
}

/// Distinct names always produce distinct quoted identifiers, so no table
/// name can be quoted into another table's identifier.
pub proof fn lemma_quote_ident_injective(a: Seq<char>, b: Seq<char>)
    requires
        quoted_ident(a) == quoted_ident(b),
    ensures
        a == b,
{
    lemma_quote_ident_round_trip(a);
    lemma_quote_ident_round_trip(b);
}

/// Only maintenance lifts the statement timeout, runs on the simple protocol,
/// and runs for minutes; only the two signals bind a pid.
pub proof fn lemma_plan_shape(action: Action)
    ensures
        plan_of(action).batch == crate::actions::long_running(action),
        (plan_of(action).setup == QUICK_SETUP@) == !crate::actions::long_running(action),
        plan_of(action).pid.is_some() == (action is CancelBackend || action is TerminateBackend),
{
    if action is Maintain {
        assert(MAINTENANCE_SETUP@.len() != QUICK_SETUP@.len()) by {
            reveal_strlit("SET statement_timeout = 0; SET lock_timeout = '30s'");
            reveal_strlit("SET statement_timeout = '5s'");
        }
    }
}

/// Each action runs its own statement: each signal calls its own server
/// function on exactly the chosen backend, the reset and the reload call
/// theirs, and each maintenance command names its kind and then the table
/// as the quoted schema, a dot and the quoted name.
pub proof fn lemma_each_action_runs_its_own_statement(action: Action)
    ensures
        action matches Action::CancelBackend { pid } ==> plan_of(action).sql == "SELECT pg_cancel_backend($1)"@
            && plan_of(action).pid == Some(pid),
        action matches Action::TerminateBackend { pid } ==> plan_of(action).sql
            == "SELECT pg_terminate_backend($1)"@ && plan_of(action).pid == Some(pid),
        action is ResetStatements ==> plan_of(action).sql == "SELECT pg_stat_statements_reset()"@,
        action is ReloadConfig ==> plan_of(action).sql == "SELECT pg_reload_conf()"@,
        action matches Action::Maintain { kind: MaintenanceKind::Analyze, schema, table } ==> plan_of(action).sql
            == "ANALYZE "@ + quoted_ident(schema@) + "."@ + quoted_ident(table@),
        action matches Action::Maintain { kind: MaintenanceKind::Vacuum, schema, table } ==> plan_of(action).sql
            == "VACUUM "@ + quoted_ident(schema@) + "."@ + quoted_ident(table@),
        action matches Action::Maintain { kind: MaintenanceKind::VacuumAnalyze, schema, table } ==> plan_of(
            action,
        ).sql == "VACUUM (ANALYZE) "@ + quoted_ident(schema@) + "."@ + quoted_ident(table@),
{
    reveal_strlit(".");
    if let Action::Maintain { kind, schema, table } = action {
        assert(maintenance_command(kind) + qualified(schema@, table@) =~= maintenance_command(kind) + quoted_ident(
            schema@,
        ) + "."@ + quoted_ident(table@));
    }
}

/// `body` read as SQL reads the inside of a quoted identifier, from the
/// front: a double quote there is only ever the first of a doubled pair, so
/// no quote in it ends the identifier early.
pub open spec fn stays_quoted(body: Seq<char>) -> bool
    decreases body.len(),
{
    if body.len() == 0 {
        true
    } else if body[0] == '"' {
        body.len() >= 2 && body[1] == '"' && stays_quoted(body.subrange(2, body.len() as int))
    } else {
        stays_quoted(body.drop_first())
    }
}

proof fn lemma_stays_quoted_joined(x: Seq<char>, y: Seq<char>)
    requires
        stays_quoted(x),
        stays_quoted(y),
    ensures
        stays_quoted(x + y),
    decreases x.len(),
{
    if x.len() > 0 {
        if x[0] == '"' {
            let rest = x.subrange(2, x.len() as int);
            lemma_stays_quoted_joined(rest, y);
            assert((x + y).subrange(2, (x + y).len() as int) =~= rest + y);
        } else {
            lemma_stays_quoted_joined(x.drop_first(), y);
            assert((x + y).drop_first() =~= x.drop_first() + y);
        }
    } else {
        assert(x + y =~= y);
    }
}

/// A quoted identifier is one token whatever the name holds: it opens and
/// closes with a double quote, and every double quote between them is
/// doubled, so a name such as `x"; DROP TABLE t --` cannot end it early.
pub proof fn lemma_quoted_name_is_one_identifier(name: Seq<char>)
    ensures
        quoted_ident(name).len() >= 2,
        quoted_ident(name)[0] == '"',
        quoted_ident(name).last() == '"',
        stays_quoted(quoted_ident(name).subrange(1, quoted_ident(name).len() - 1)),
{
    let q = quoted_ident(name);
    assert(q.subrange(1, q.len() - 1) =~= escape_quotes(name));
    lemma_escape_stays_quoted(name);
}

proof fn lemma_escape_stays_quoted(name: Seq<char>)
    ensures
        stays_quoted(escape_quotes(name)),
    decreases name.len(),
{
    if name.len() > 0 {
        lemma_escape_stays_quoted(name.drop_last());
        let piece = if name.last() == '"' {
            seq!['"', '"']
        } else {
            seq![name.last()]
        };
        assert(stays_quoted(Seq::<char>::empty()));
        if name.last() == '"' {
            assert(piece[0] == '"' && piece[1] == '"');
            assert(piece.subrange(2, 2) =~= Seq::<char>::empty());
        } else {
            assert(piece[0] != '"');
            assert(piece.drop_first() =~= Seq::<char>::empty());
        }
        assert(stays_quoted(piece));
        lemma_stays_quoted_joined(escape_quotes(name.drop_last()), piece);
    }
}

} // verus!
