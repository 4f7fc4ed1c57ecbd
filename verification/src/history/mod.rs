//! History: when a row is written, and which store receives it.

pub mod pgconsole;

use vstd::prelude::*;

use crate::clock::{elapsed, Moment, Span};
use crate::collector::statements::{StatementId, StatementKey};
use crate::connection::params::HistoryMode;
use pgconsole::PgConsoleAvailability;

verus! {

/// Whether a history row is due at `now`: at once for the first write of a
/// connection, then once `interval` has passed since the last.
pub open spec fn history_tick_due(last_write: Option<Moment>, now: Moment, interval: Span) -> bool {
    match last_write {
        None => true,
        Some(previous) => elapsed(previous, now) >= interval.nanos,
    }
}

/// True when a history row should be written this tick. A coarser clock
/// than the sample loop's: writing every sample would flood the store.
pub fn is_history_tick(last_write: Option<Moment>, now: Moment, interval: Span) -> (due: bool)
    ensures
        due == history_tick_due(last_write, now, interval),
{
    match last_write {
        None => true,
        Some(previous) => now.duration_since(previous).nanos >= interval.nanos,
    }
}

/// Where a connection's history goes.
#[derive(Debug, Clone, Copy, PartialEq, Eq, Structural)]
pub enum HistoryStore {
    Off,
    Local,
    PgConsole,
}

/// The store for a connection, given the configured mode and, in pgconsole
/// mode, what the probe found: a pgconsole schema that is missing or cannot
/// be written falls back to the local store rather than failing the
/// connection.
pub open spec fn store_for(mode: HistoryMode, probe: PgConsoleAvailability) -> HistoryStore {
    match mode {
        HistoryMode::Off => HistoryStore::Off,
        HistoryMode::Local => HistoryStore::Local,
        HistoryMode::PgConsole => if probe == PgConsoleAvailability::Writable {
            HistoryStore::PgConsole
        } else {
            HistoryStore::Local
        },
    }
}

/// Picks the store for a connection. `probe` is only read in pgconsole mode.
pub fn choose_store(mode: HistoryMode, probe: PgConsoleAvailability) -> (store: HistoryStore)
    ensures
        store == store_for(mode, probe),
{
    match mode {
        HistoryMode::Off => HistoryStore::Off,
        HistoryMode::Local => HistoryStore::Local,
        HistoryMode::PgConsole => match probe {
            PgConsoleAvailability::Writable => HistoryStore::PgConsole,
            _ => HistoryStore::Local,
        },
    }
}

/// The Unix second before which local history rows are pruned:
/// `retention_days` whole days before `now_secs`.
pub fn retention_cutoff(now_secs: i64, retention_days: i64) -> (cutoff: i64)
    requires
        i64::MIN <= now_secs - retention_days * 86_400 <= i64::MAX,
    ensures
        cutoff == now_secs - retention_days * 86_400,
{
    let day: i128 = 86_400;
    let cutoff: i128 = now_secs as i128 - retention_days as i128 * day;
    cutoff as i64
}

/// The query id a history row keeps for a statement: the server's query id,
/// or none for a statement known only by the hash of its text.
pub open spec fn kept_query_id(key: StatementKey) -> Option<i64> {
    match key.id {
        StatementId::QueryId(id) => Some(id),
        StatementId::TextHash(_) => None,
    }
}

/// The query ids of the history rows for the leading `top` statements, whose
/// keys are `keys` in the order the caller ranked them by cumulative time:
/// the list is cut, not sorted again.
pub fn history_query_ids(keys: &[StatementKey], top: usize) -> (ids: Vec<Option<i64>>)
    ensures
        ids@.len() == if keys@.len() < top {
            keys@.len() as int
        } else {
            top as int
        },
        forall|k: int| 0 <= k < ids@.len() ==> ids@[k] == kept_query_id(#[trigger] keys@[k]),
{
    let mut ids: Vec<Option<i64>> = Vec::new();
    let mut k: usize = 0;
    while k < keys.len() && k < top
        invariant
            k <= keys@.len(),
            k <= top,
            ids@.len() == k,
            forall|q: int| 0 <= q < k ==> ids@[q] == kept_query_id(#[trigger] keys@[q]),
        decreases keys.len() - k,
    {
        let id = match keys[k].id {
            StatementId::QueryId(id) => Some(id),
            StatementId::TextHash(_) => None,
        };
        ids.push(id);
        k = k + 1;
    }
    ids
}

} // verus!
