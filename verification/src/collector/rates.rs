//! Turning two consecutive counter readings into per-interval figures.

use vstd::prelude::*;

use super::snapshot::{counter, lemma_counters_are_the_fields, went_backwards, DatabaseCounters};

verus! {

/// The growth of every counter between two readings, or `None` when no rate
/// can honestly be reported: zero elapsed time, or a counter that went
/// backwards because the statistics were reset. The caller divides by the
/// elapsed time.
pub fn interval_deltas(
    prev: &DatabaseCounters,
    cur: &DatabaseCounters,
    elapsed_nanos: u128,
) -> (r: Option<DatabaseCounters>)
    requires
        elapsed_nanos > 0 && !super::snapshot::went_backwards(*cur, *prev) ==> forall|i: int|
            0 <= i < 11 ==> #[trigger] super::snapshot::counter(*cur, i) - super::snapshot::counter(
                *prev,
                i,
            ) <= i64::MAX,
    ensures
        r.is_none() == (elapsed_nanos == 0 || super::snapshot::went_backwards(*cur, *prev)),
        r.is_some() ==> forall|i: int|
            0 <= i < 11 ==> #[trigger] super::snapshot::counter(r.unwrap(), i)
                == super::snapshot::counter(*cur, i) - super::snapshot::counter(*prev, i),
{
    if elapsed_nanos == 0 {
        return None;
    }
    if cur.went_backwards_from(prev) {
        return None;
    }
    proof {
        assert forall|i: int| 0 <= i < 11 implies 0 <= #[trigger] counter(*cur, i) - counter(*prev, i) <= i64::MAX by {
            if counter(*cur, i) < counter(*prev, i) {
                assert(went_backwards(*cur, *prev));
            }
        }
        lemma_counters_are_the_fields(*cur);
        lemma_counters_are_the_fields(*prev);
    }
    let d = DatabaseCounters {
        xact_commit: cur.xact_commit - prev.xact_commit,
        xact_rollback: cur.xact_rollback - prev.xact_rollback,
        blks_read: cur.blks_read - prev.blks_read,
        blks_hit: cur.blks_hit - prev.blks_hit,
        tup_returned: cur.tup_returned - prev.tup_returned,
        tup_fetched: cur.tup_fetched - prev.tup_fetched,
        tup_inserted: cur.tup_inserted - prev.tup_inserted,
        tup_updated: cur.tup_updated - prev.tup_updated,
        tup_deleted: cur.tup_deleted - prev.tup_deleted,
        deadlocks: cur.deadlocks - prev.deadlocks,
        temp_bytes: cur.temp_bytes - prev.temp_bytes,
    };
    Some(d)
}

/// A reported interval never shows a counter shrinking.
pub proof fn lemma_deltas_never_negative(cur: DatabaseCounters, prev: DatabaseCounters, i: int)
    requires
        !super::snapshot::went_backwards(cur, prev),
        0 <= i < 11,
    ensures
        super::snapshot::counter(cur, i) - super::snapshot::counter(prev, i) >= 0,
{
}

} // verus!
