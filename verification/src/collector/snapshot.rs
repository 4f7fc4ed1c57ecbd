//! The plain-valued parts of one sample.

use vstd::prelude::*;

verus! {

/// Server-wide cumulative counters from `pg_stat_database`.
#[derive(Debug, Clone, Copy, PartialEq, Eq)]
pub struct DatabaseCounters {
    pub xact_commit: i64,
    pub xact_rollback: i64,
    pub blks_read: i64,
    pub blks_hit: i64,
    pub tup_returned: i64,
    pub tup_fetched: i64,
    pub tup_inserted: i64,
    pub tup_updated: i64,
    pub tup_deleted: i64,
    pub deadlocks: i64,
    pub temp_bytes: i64,
}

/// Counter `i` of `c`, `0 <= i < 11`, in declaration order.
pub open spec fn counter(c: DatabaseCounters, i: int) -> int {
    if i == 0 {
        c.xact_commit as int
    } else if i == 1 {
        c.xact_rollback as int
    } else if i == 2 {
        c.blks_read as int
    } else if i == 3 {
        c.blks_hit as int
    } else if i == 4 {
        c.tup_returned as int
    } else if i == 5 {
        c.tup_fetched as int
    } else if i == 6 {
        c.tup_inserted as int
    } else if i == 7 {
        c.tup_updated as int
    } else if i == 8 {
        c.tup_deleted as int
    } else if i == 9 {
        c.deadlocks as int
    } else {
        c.temp_bytes as int
    }
}

/// The counters of `c`, in declaration order.
pub open spec fn fields_of(c: DatabaseCounters) -> Seq<int> {
    seq![
        c.xact_commit as int,
        c.xact_rollback as int,
        c.blks_read as int,
        c.blks_hit as int,
        c.tup_returned as int,
        c.tup_fetched as int,
        c.tup_inserted as int,
        c.tup_updated as int,
        c.tup_deleted as int,
        c.deadlocks as int,
        c.temp_bytes as int,
    ]
}

/// Counter `i` is the field at position `i`.
pub proof fn lemma_counters_are_the_fields(c: DatabaseCounters)
    ensures
        fields_of(c) == Seq::new(11, |i: int| counter(c, i)),
{
    assert(fields_of(c) =~= Seq::new(11, |i: int| counter(c, i)));
}

/// Counter `i` summed over `rows`.
pub open spec fn column_total(rows: Seq<DatabaseCounters>, i: int) -> int
    decreases rows.len(),
{
    if rows.len() == 0 {
        0
    } else {
        column_total(rows.drop_last(), i) + counter(rows.last(), i)
    }
}

/// The total of two runs of rows is the sum of their totals.
pub proof fn lemma_column_total_splits(a: Seq<DatabaseCounters>, b: Seq<DatabaseCounters>, i: int)
    ensures
        column_total(a + b, i) == column_total(a, i) + column_total(b, i),
    decreases b.len(),
{
    if b.len() > 0 {
        lemma_column_total_splits(a, b.drop_last(), i);
        assert((a + b).drop_last() =~= a + b.drop_last());
        assert((a + b).last() == b.last());
    } else {
        assert(a + b =~= a);
    }
}

/// The totals do not depend on the order of the rows: any rearrangement of
/// them sums to the same counters.
pub proof fn lemma_totals_ignore_row_order(rows: Seq<DatabaseCounters>, others: Seq<DatabaseCounters>, i: int)
    requires
        rows.to_multiset() == others.to_multiset(),
    ensures
        column_total(rows, i) == column_total(others, i),
    decreases rows.len(),
{
    vstd::seq_lib::to_multiset_len(rows);
    vstd::seq_lib::to_multiset_len(others);
    if rows.len() == 0 {
        assert(others.len() == 0);
        assert(others =~= rows);
    } else {
        let x = rows.last();
        let init = rows.drop_last();
        assert(init.push(x) =~= rows);
        vstd::seq_lib::to_multiset_build(init, x);
        vstd::seq_lib::to_multiset_contains(others, x);
        assert(rows.to_multiset().count(x) > 0) by {
            broadcast use vstd::multiset::group_multiset_axioms;
        }
        let j = choose|j: int| 0 <= j < others.len() && others[j] == x;
        vstd::seq_lib::to_multiset_remove(others, j);
        assert(others.remove(j).to_multiset() =~= init.to_multiset()) by {
            broadcast use vstd::multiset::group_multiset_axioms;
        }
        lemma_totals_ignore_row_order(init, others.remove(j), i);
        let front = others.subrange(0, j);
        let back = others.subrange(j + 1, others.len() as int);
        assert(others =~= front + seq![x] + back);
        assert(others.remove(j) =~= front + back);
        lemma_column_total_splits(front + seq![x], back, i);
        lemma_column_total_splits(front, seq![x], i);
        lemma_column_total_splits(front, back, i);
        assert(column_total(seq![x], i) == counter(x, i)) by {
            let single = seq![x];
            assert(single.len() == 1);
            assert(single.last() == x);
            assert(single.drop_last() =~= Seq::<DatabaseCounters>::empty());
            assert(column_total(single.drop_last(), i) == 0);
        }
        assert(column_total(others, i) == column_total(front, i) + counter(x, i) + column_total(back, i));
        assert(column_total(rows, i) == column_total(init, i) + counter(x, i));
    }
}

/// Every running total the summation passes through fits in an `i64`.
pub open spec fn sums_fit(rows: Seq<DatabaseCounters>) -> bool {
    forall|k: int, i: int|
        0 <= k <= rows.len() && 0 <= i < 11 ==> i64::MIN <= #[trigger] column_total(
            rows.take(k),
            i,
        ) <= i64::MAX
}

/// Some counter of `cur` is lower than in `prev`.
pub open spec fn went_backwards(cur: DatabaseCounters, prev: DatabaseCounters) -> bool {
    exists|i: int| 0 <= i < 11 && #[trigger] counter(cur, i) < counter(prev, i)
}

impl Default for DatabaseCounters {
    /// Every counter at zero.
    fn default() -> (r: Self)
        ensures
            forall|i: int| 0 <= i < 11 ==> #[trigger] counter(r, i) == 0,
    {
        DatabaseCounters {
            xact_commit: 0,
            xact_rollback: 0,
            blks_read: 0,
            blks_hit: 0,
            tup_returned: 0,
            tup_fetched: 0,
            tup_inserted: 0,
            tup_updated: 0,
            tup_deleted: 0,
            deadlocks: 0,
            temp_bytes: 0,
        }
    }
}

impl DatabaseCounters {
    /// Server-wide totals. `pg_stat_database` returns one row per database;
    /// the Overview page shows the sum, because "how loaded is this server"
    /// is the question it answers.
    pub fn sum(rows: &[DatabaseCounters]) -> (r: DatabaseCounters)
        requires
            sums_fit(rows@),
        ensures
            forall|i: int| 0 <= i < 11 ==> #[trigger] counter(r, i) == column_total(rows@, i),
    {
        let mut acc = DatabaseCounters {
            xact_commit: 0,
            xact_rollback: 0,
            blks_read: 0,
            blks_hit: 0,
            tup_returned: 0,
            tup_fetched: 0,
            tup_inserted: 0,
            tup_updated: 0,
            tup_deleted: 0,
            deadlocks: 0,
            temp_bytes: 0,
        };
        let mut k: usize = 0;
        assert(rows@.take(0) =~= Seq::<DatabaseCounters>::empty());
        while k < rows.len()
            invariant
                k <= rows@.len(),
                sums_fit(rows@),
                forall|i: int| 0 <= i < 11 ==> #[trigger] counter(acc, i) == column_total(rows@.take(k as int), i),
            decreases rows@.len() - k,
        {
            let r = rows[k];
            let ghost next = rows@.take(k + 1);
            proof {
                assert(next.drop_last() =~= rows@.take(k as int));
                assert(next.last() == r);
                assert forall|i: int| 0 <= i < 11 implies i64::MIN <= #[trigger] (counter(acc, i) + counter(r, i)) <= i64::MAX by {
                    assert(column_total(next, i) == column_total(rows@.take(k as int), i) + counter(r, i));
                    assert(i64::MIN <= column_total(next, i) <= i64::MAX);
                }
                assert(i64::MIN <= counter(acc, 0) + counter(r, 0) <= i64::MAX);
                assert(i64::MIN <= counter(acc, 1) + counter(r, 1) <= i64::MAX);
                assert(i64::MIN <= counter(acc, 2) + counter(r, 2) <= i64::MAX);
                assert(i64::MIN <= counter(acc, 3) + counter(r, 3) <= i64::MAX);
                assert(i64::MIN <= counter(acc, 4) + counter(r, 4) <= i64::MAX);
                assert(i64::MIN <= counter(acc, 5) + counter(r, 5) <= i64::MAX);
                assert(i64::MIN <= counter(acc, 6) + counter(r, 6) <= i64::MAX);
                assert(i64::MIN <= counter(acc, 7) + counter(r, 7) <= i64::MAX);
                assert(i64::MIN <= counter(acc, 8) + counter(r, 8) <= i64::MAX);
                assert(i64::MIN <= counter(acc, 9) + counter(r, 9) <= i64::MAX);
                assert(i64::MIN <= counter(acc, 10) + counter(r, 10) <= i64::MAX);
            }
            let ghost before = acc;
            acc.xact_commit = acc.xact_commit + r.xact_commit;
            acc.xact_rollback = acc.xact_rollback + r.xact_rollback;
            acc.blks_read = acc.blks_read + r.blks_read;
            acc.blks_hit = acc.blks_hit + r.blks_hit;
            acc.tup_returned = acc.tup_returned + r.tup_returned;
            acc.tup_fetched = acc.tup_fetched + r.tup_fetched;
            acc.tup_inserted = acc.tup_inserted + r.tup_inserted;
            acc.tup_updated = acc.tup_updated + r.tup_updated;
            acc.tup_deleted = acc.tup_deleted + r.tup_deleted;
            acc.deadlocks = acc.deadlocks + r.deadlocks;
            acc.temp_bytes = acc.temp_bytes + r.temp_bytes;
            proof {
                assert forall|i: int| 0 <= i < 11 implies #[trigger] counter(acc, i) == column_total(next, i) by {
                    assert(counter(acc, i) == counter(before, i) + counter(r, i));
                }
            }
            k = k + 1;
        }
        assert(rows@.take(rows@.len() as int) =~= rows@);
        acc
    }

    /// True if any counter is lower than in `previous`, which means the
    /// statistics were reset or the server restarted.
    pub fn went_backwards_from(&self, previous: &DatabaseCounters) -> (r: bool)
        ensures
            r == went_backwards(*self, *previous),
    {
        let r = self.xact_commit < previous.xact_commit || self.xact_rollback
            < previous.xact_rollback || self.blks_read < previous.blks_read || self.blks_hit
            < previous.blks_hit || self.tup_returned < previous.tup_returned || self.tup_fetched
            < previous.tup_fetched || self.tup_inserted < previous.tup_inserted || self.tup_updated
            < previous.tup_updated || self.tup_deleted < previous.tup_deleted || self.deadlocks
            < previous.deadlocks || self.temp_bytes < previous.temp_bytes;
        proof {
            if r {
                if self.xact_commit < previous.xact_commit {
                    assert(counter(*self, 0) < counter(*previous, 0));
                } else if self.xact_rollback < previous.xact_rollback {
                    assert(counter(*self, 1) < counter(*previous, 1));
                } else if self.blks_read < previous.blks_read {
                    assert(counter(*self, 2) < counter(*previous, 2));
                } else if self.blks_hit < previous.blks_hit {
                    assert(counter(*self, 3) < counter(*previous, 3));
                } else if self.tup_returned < previous.tup_returned {
                    assert(counter(*self, 4) < counter(*previous, 4));
                } else if self.tup_fetched < previous.tup_fetched {
                    assert(counter(*self, 5) < counter(*previous, 5));
                } else if self.tup_inserted < previous.tup_inserted {
                    assert(counter(*self, 6) < counter(*previous, 6));
                } else if self.tup_updated < previous.tup_updated {
                    assert(counter(*self, 7) < counter(*previous, 7));
                } else if self.tup_deleted < previous.tup_deleted {
                    assert(counter(*self, 8) < counter(*previous, 8));
                } else if self.deadlocks < previous.deadlocks {
                    assert(counter(*self, 9) < counter(*previous, 9));
                } else {
                    assert(counter(*self, 10) < counter(*previous, 10));
                }
            }
        }
        r
    }
}

/// A reading never went backwards from itself.
pub proof fn lemma_no_reset_without_change(c: DatabaseCounters)
    ensures
        !went_backwards(c, c),
{
}

#[derive(Debug, Clone, PartialEq, Eq)]
pub struct SessionCounts {
    pub active: usize,
    pub idle: usize,
    pub idle_in_transaction: usize,
    pub other: usize,
}

impl SessionCounts {
    pub fn total(&self) -> (r: usize)
        requires
            self.active + self.idle + self.idle_in_transaction + self.other <= usize::MAX,
        ensures
            r == self.active + self.idle + self.idle_in_transaction + self.other,
    {
        self.active + self.idle + self.idle_in_transaction + self.other
    }
}

/// One backend from `pg_stat_activity`. The running query's duration is
/// carried beside it by the caller: the classification here never reads it.
#[derive(Debug, Clone, PartialEq)]
pub struct Session {
    pub pid: i32,
    pub user_name: Option<String>,
    pub application_name: Option<String>,
    pub client_addr: Option<String>,
    pub database: Option<String>,
    pub state: Option<String>,
    pub wait_event_type: Option<String>,
    pub wait_event: Option<String>,
    pub backend_type: Option<String>,
    /// `None` when the connected role lacks `pg_monitor` and the backend
    /// belongs to another user.
    pub query: Option<String>,
}

#[derive(Debug, Clone, PartialEq, Eq)]
pub struct ServerSettings {
    pub max_connections: i32,
}

} // verus!
