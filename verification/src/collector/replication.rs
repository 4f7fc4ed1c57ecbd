//! The replication queries, which change shape with the server's release.

use vstd::prelude::*;

use crate::text::{append, chars_of, has_text, lemma_has_text_at, lemma_has_text_between, lemma_has_text_within};

verus! {

#[derive(Debug, Clone, PartialEq)]
pub struct Publication {
    pub pubname: String,
    pub all_tables: bool,
}

/// The slot query up to the inactive-since column.
pub const SLOTS_SQL_HEAD: &'static str = "SELECT s.slot_name          AS slot_name,
       s.slot_type::text            AS slot_type,
       s.plugin::text               AS plugin,
       s.database::text             AS database,
       s.active                     AS active,
       s.wal_status::text           AS wal_status,
       s.safe_wal_size              AS safe_wal_size,
       ";

/// Between the inactive-since column and the conflicting one.
pub const SLOTS_SQL_MIDDLE: &'static str = "             AS inactive_since_secs,
       ";

/// After the conflicting column.
pub const SLOTS_SQL_TAIL: &'static str = "                AS conflicting
FROM pg_replication_slots s";

/// How long a slot has been inactive: asked for from 17 on, a NULL before.
pub open spec fn inactive_since_column(version_num: i32) -> Seq<char> {
    if version_num >= 170000 {
        "EXTRACT(EPOCH FROM (now() - s.inactive_since))::float8"@
    } else {
        "NULL::float8"@
    }
}

/// Whether a slot conflicts with recovery: asked for from 16 on, a NULL
/// before.
pub open spec fn conflicting_column(version_num: i32) -> Seq<char> {
    if version_num >= 160000 {
        "s.conflicting"@
    } else {
        "NULL::boolean"@
    }
}

/// The slot query for a server of `version_num`.
pub open spec fn slots_query(version_num: i32) -> Seq<char> {
    SLOTS_SQL_HEAD@ + inactive_since_column(version_num) + SLOTS_SQL_MIDDLE@ + conflicting_column(version_num)
        + SLOTS_SQL_TAIL@
}

proof fn lemma_slots_query_fixed_parts(version_num: i32)
    ensures
        has_text(slots_query(version_num), "wal_status"@),
        has_text(slots_query(version_num), "AS inactive_since_secs"@),
        has_text(slots_query(version_num), "AS conflicting"@),
{
    reveal_strlit("SELECT s.slot_name          AS slot_name,
       s.slot_type::text            AS slot_type,
       s.plugin::text               AS plugin,
       s.database::text             AS database,
       s.active                     AS active,
       s.wal_status::text           AS wal_status,
       s.safe_wal_size              AS safe_wal_size,
       ");
    reveal_strlit("             AS inactive_since_secs,
       ");
    reveal_strlit("                AS conflicting
FROM pg_replication_slots s");
    reveal_strlit("wal_status");
    reveal_strlit("AS inactive_since_secs");
    reveal_strlit("AS conflicting");
    let q = slots_query(version_num);
    let middle_start = (SLOTS_SQL_HEAD@.len() + inactive_since_column(version_num).len()) as int;
    let tail_start = (middle_start + SLOTS_SQL_MIDDLE@.len() + conflicting_column(version_num).len()) as int;
    assert(q.subrange(244, 254) =~= "wal_status"@);
    lemma_has_text_at(q, "wal_status"@, 244);
    assert(q.subrange(middle_start + 13, middle_start + 35) =~= "AS inactive_since_secs"@);
    lemma_has_text_at(q, "AS inactive_since_secs"@, middle_start + 13);
    assert(q.subrange(tail_start + 16, tail_start + 30) =~= "AS conflicting"@);
    lemma_has_text_at(q, "AS conflicting"@, tail_start + 16);
}

proof fn lemma_slots_query_before_16(version_num: i32)
    requires
        version_num < 160000,
    ensures
        !has_text(slots_query(version_num), "s.conflicting"@),
{
    reveal_strlit("SELECT s.slot_name          AS slot_name,
       s.slot_type::text            AS slot_type,
       s.plugin::text               AS plugin,
       s.database::text             AS database,
       s.active                     AS active,
       s.wal_status::text           AS wal_status,
       s.safe_wal_size              AS safe_wal_size,
       ");
    reveal_strlit("             AS inactive_since_secs,
       ");
    reveal_strlit("                AS conflicting
FROM pg_replication_slots s");
    reveal_strlit("NULL::float8");
    reveal_strlit("NULL::boolean");
    reveal_strlit("s.conflicting");
    let q = slots_query(version_num);
    assert(!has_text(q, "s.conflicting"@)) by {
        let p = "s.conflicting"@;
        assert forall|i: int| 0 <= i && i + p.len() <= q.len() implies #[trigger] q.subrange(i, i + p.len()) != p by {
            let w = q.subrange(i, i + p.len());
            assert(w[0] == q[i] && w[1] == q[i + 1] && w[2] == q[i + 2]);
            assert(p[0] == 's' && p[1] == '.' && p[2] == 'c');
            assert(!(q[i] == 's' && q[i + 1] == '.' && q[i + 2] == 'c'));
        }
    }
}

proof fn lemma_slots_query_before_17(version_num: i32)
    requires
        version_num < 170000,
    ensures
        !has_text(slots_query(version_num), "s.inactive_since"@),
{
    reveal_strlit("SELECT s.slot_name          AS slot_name,
       s.slot_type::text            AS slot_type,
       s.plugin::text               AS plugin,
       s.database::text             AS database,
       s.active                     AS active,
       s.wal_status::text           AS wal_status,
       s.safe_wal_size              AS safe_wal_size,
       ");
    reveal_strlit("             AS inactive_since_secs,
       ");
    reveal_strlit("                AS conflicting
FROM pg_replication_slots s");
    reveal_strlit("NULL::float8");
    reveal_strlit("NULL::boolean");
    reveal_strlit("s.conflicting");
    reveal_strlit("s.inactive_since");
    let q = slots_query(version_num);
    assert(!has_text(q, "s.inactive_since"@)) by {
        let p = "s.inactive_since"@;
        assert forall|i: int| 0 <= i && i + p.len() <= q.len() implies #[trigger] q.subrange(i, i + p.len()) != p by {
            let w = q.subrange(i, i + p.len());
            assert(w[0] == q[i] && w[1] == q[i + 1] && w[2] == q[i + 2]);
            assert(p[0] == 's' && p[1] == '.' && p[2] == 'i');
            assert(!(q[i] == 's' && q[i + 1] == '.' && q[i + 2] == 'i'));
        }
    }
}

proof fn lemma_inactive_since_column_names_it()
    ensures
        has_text("EXTRACT(EPOCH FROM (now() - s.inactive_since))::float8"@, "s.inactive_since"@),
{
    let column = "EXTRACT(EPOCH FROM (now() - s.inactive_since))::float8"@;
    reveal_strlit("EXTRACT(EPOCH FROM (now() - s.inactive_since))::float8");
    reveal_strlit("s.inactive_since");
    assert(column.subrange(28, 44) =~= "s.inactive_since"@);
    lemma_has_text_at(column, "s.inactive_since"@, 28);
}

/// The slot query asks for `inactive_since` exactly when the server is 17
/// or later and for `conflicting` exactly when it is 16 or later, with typed
/// NULLs in their place before; on every release it reports the WAL status
/// and both columns under their names.
pub proof fn lemma_slots_query_follows_version(version_num: i32)
    ensures
        has_text(slots_query(version_num), "s.inactive_since"@) == (version_num >= 170000),
        version_num < 170000 ==> has_text(slots_query(version_num), "NULL::float8"@),
        has_text(slots_query(version_num), "s.conflicting"@) == (version_num >= 160000),
        version_num < 160000 ==> has_text(slots_query(version_num), "NULL::boolean"@),
        has_text(slots_query(version_num), "wal_status"@),
        has_text(slots_query(version_num), "AS inactive_since_secs"@),
        has_text(slots_query(version_num), "AS conflicting"@),
{
    let inactive = inactive_since_column(version_num);
    let conflicting = conflicting_column(version_num);
    let head = SLOTS_SQL_HEAD@;
    let middle = SLOTS_SQL_MIDDLE@;
    let tail = SLOTS_SQL_TAIL@;
    lemma_slots_query_fixed_parts(version_num);
    lemma_has_text_between(head + inactive + middle, conflicting, tail);
    lemma_has_text_between(head, inactive, middle + conflicting + tail);
    assert(head + inactive + (middle + conflicting + tail) =~= slots_query(version_num));
    if version_num >= 170000 {
        lemma_inactive_since_column_names_it();
        lemma_has_text_within(slots_query(version_num), inactive, "s.inactive_since"@);
    } else {
        lemma_slots_query_before_17(version_num);
    }
    if version_num < 160000 {
        lemma_slots_query_before_16(version_num);
    }
}

/// Slot columns arrive across three releases, so the query is built rather
/// than branched wholesale: 16 adds `conflicting`, 17 adds `inactive_since`.
/// Asking an older server for either is an error, not a NULL, so substituted
/// literals keep the row shape the same on every release.
pub fn slots_sql(version_num: i32) -> (sql: String)
    ensures
        sql@ == slots_query(version_num),
{
    let mut sql = String::new();
    append(&mut sql, SLOTS_SQL_HEAD);
    if version_num >= 170000 {
        append(&mut sql, "EXTRACT(EPOCH FROM (now() - s.inactive_since))::float8");
    } else {
        append(&mut sql, "NULL::float8");
    }
    append(&mut sql, SLOTS_SQL_MIDDLE);
    if version_num >= 160000 {
        append(&mut sql, "s.conflicting");
    } else {
        append(&mut sql, "NULL::boolean");
    }
    append(&mut sql, SLOTS_SQL_TAIL);
    sql
}

/// The subscription query up to the worker-type column.
pub const SUBSCRIPTIONS_SQL_HEAD: &'static str = "SELECT s.subname::text      AS subname,
       s.pid                        AS pid,
       ";

/// Between the worker-type column and the error counts.
pub const SUBSCRIPTIONS_SQL_MIDDLE: &'static str = "                AS worker_type,
       EXTRACT(EPOCH FROM (now() - s.latest_end_time))::float8
                                    AS latest_end_lag_secs,
       ";

/// Between the error counts and the join.
pub const SUBSCRIPTIONS_SQL_FROM: &'static str = "
FROM pg_stat_subscription s
";

/// The worker type: asked for from 17 on, a NULL before.
pub open spec fn worker_type_column(version_num: i32) -> Seq<char> {
    if version_num >= 170000 {
        "s.worker_type::text"@
    } else {
        "NULL::text"@
    }
}

/// The error counts: from `pg_stat_subscription_stats` from 15 on, NULLs
/// before.
pub open spec fn error_columns(version_num: i32) -> Seq<char> {
    if version_num >= 150000 {
        "st.apply_error_count            AS apply_error_count,\n       st.sync_error_count             AS sync_error_count"@
    } else {
        "NULL::bigint                    AS apply_error_count,\n       NULL::bigint                    AS sync_error_count"@
    }
}

/// The join that brings in the error counts, from 15 on.
pub open spec fn stats_join(version_num: i32) -> Seq<char> {
    if version_num >= 150000 {
        "LEFT JOIN pg_stat_subscription_stats st ON st.subid = s.subid"@
    } else {
        ""@
    }
}

/// The subscription query for a server of `version_num`.
pub open spec fn subscriptions_query(version_num: i32) -> Seq<char> {
    SUBSCRIPTIONS_SQL_HEAD@ + worker_type_column(version_num) + SUBSCRIPTIONS_SQL_MIDDLE@
        + error_columns(version_num) + SUBSCRIPTIONS_SQL_FROM@ + stats_join(version_num)
}

proof fn lemma_worker_type_column_names_it()
    ensures
        has_text("s.worker_type::text"@, "s.worker_type"@),
{
    reveal_strlit("s.worker_type::text");
    reveal_strlit("s.worker_type");
    assert("s.worker_type::text"@.subrange(0, 13) =~= "s.worker_type"@);
    lemma_has_text_at("s.worker_type::text"@, "s.worker_type"@, 0);
}

proof fn lemma_stats_join_names_the_view()
    ensures
        has_text("LEFT JOIN pg_stat_subscription_stats st ON st.subid = s.subid"@, "pg_stat_subscription_stats"@),
{
    let join = "LEFT JOIN pg_stat_subscription_stats st ON st.subid = s.subid"@;
    reveal_strlit("LEFT JOIN pg_stat_subscription_stats st ON st.subid = s.subid");
    reveal_strlit("pg_stat_subscription_stats");
    assert(join.subrange(10, 36) =~= "pg_stat_subscription_stats"@);
    lemma_has_text_at(join, "pg_stat_subscription_stats"@, 10);
}

proof fn lemma_subscriptions_query_fixed_parts(version_num: i32)
    ensures
        has_text(subscriptions_query(version_num), "AS worker_type"@),
        has_text(subscriptions_query(version_num), "AS apply_error_count"@),
        has_text(subscriptions_query(version_num), "AS sync_error_count"@),
{
    reveal_strlit("                AS worker_type,
       EXTRACT(EPOCH FROM (now() - s.latest_end_time))::float8
                                    AS latest_end_lag_secs,
       ");
    reveal_strlit("st.apply_error_count            AS apply_error_count,\n       st.sync_error_count             AS sync_error_count");
    reveal_strlit("NULL::bigint                    AS apply_error_count,\n       NULL::bigint                    AS sync_error_count");
    reveal_strlit("AS worker_type");
    reveal_strlit("AS apply_error_count");
    reveal_strlit("AS sync_error_count");
    let q = subscriptions_query(version_num);
    let middle_start = (SUBSCRIPTIONS_SQL_HEAD@.len() + worker_type_column(version_num).len()) as int;
    let errors_start = (middle_start + SUBSCRIPTIONS_SQL_MIDDLE@.len()) as int;
    assert(q.subrange(middle_start + 16, middle_start + 30) =~= "AS worker_type"@);
    lemma_has_text_at(q, "AS worker_type"@, middle_start + 16);
    assert(q.subrange(errors_start + 32, errors_start + 52) =~= "AS apply_error_count"@);
    lemma_has_text_at(q, "AS apply_error_count"@, errors_start + 32);
    assert(q.subrange(errors_start + 93, errors_start + 112) =~= "AS sync_error_count"@);
    lemma_has_text_at(q, "AS sync_error_count"@, errors_start + 93);
}

proof fn lemma_subscriptions_query_before_15(version_num: i32)
    requires
        version_num < 150000,
    ensures
        !has_text(subscriptions_query(version_num), "pg_stat_subscription_stats"@),
{
    reveal_strlit("SELECT s.subname::text      AS subname,
       s.pid                        AS pid,
       ");
    reveal_strlit("                AS worker_type,
       EXTRACT(EPOCH FROM (now() - s.latest_end_time))::float8
                                    AS latest_end_lag_secs,
       ");
    reveal_strlit("
FROM pg_stat_subscription s
");
    reveal_strlit("NULL::text");
    reveal_strlit("NULL::bigint                    AS apply_error_count,\n       NULL::bigint                    AS sync_error_count");
    reveal_strlit("");
    reveal_strlit("pg_stat_subscription_stats");
    let q = subscriptions_query(version_num);
    assert(!has_text(q, "pg_stat_subscription_stats"@)) by {
        let p = "pg_stat_subscription_stats"@;
        assert forall|i: int| 0 <= i && i + p.len() <= q.len() implies #[trigger] q.subrange(i, i + p.len()) != p by {
            let w = q.subrange(i, i + p.len());
            assert(w[19] == q[i + 19] && w[20] == q[i + 20] && w[21] == q[i + 21]);
            assert(p[19] == 'n' && p[20] == '_' && p[21] == 's');
            assert(!(q[i + 19] == 'n' && q[i + 20] == '_' && q[i + 21] == 's'));
        }
    }
}

proof fn lemma_subscriptions_query_before_17(version_num: i32)
    requires
        version_num < 170000,
    ensures
        !has_text(subscriptions_query(version_num), "s.worker_type"@),
{
    reveal_strlit("SELECT s.subname::text      AS subname,
       s.pid                        AS pid,
       ");
    reveal_strlit("                AS worker_type,
       EXTRACT(EPOCH FROM (now() - s.latest_end_time))::float8
                                    AS latest_end_lag_secs,
       ");
    reveal_strlit("
FROM pg_stat_subscription s
");
    reveal_strlit("NULL::text");
    reveal_strlit("st.apply_error_count            AS apply_error_count,\n       st.sync_error_count             AS sync_error_count");
    reveal_strlit("NULL::bigint                    AS apply_error_count,\n       NULL::bigint                    AS sync_error_count");
    reveal_strlit("LEFT JOIN pg_stat_subscription_stats st ON st.subid = s.subid");
    reveal_strlit("");
    reveal_strlit("s.worker_type");
    let q = subscriptions_query(version_num);
    assert(!has_text(q, "s.worker_type"@)) by {
        let p = "s.worker_type"@;
        assert forall|i: int| 0 <= i && i + p.len() <= q.len() implies #[trigger] q.subrange(i, i + p.len()) != p by {
            let w = q.subrange(i, i + p.len());
            assert(w[0] == q[i] && w[1] == q[i + 1] && w[2] == q[i + 2]);
            assert(p[0] == 's' && p[1] == '.' && p[2] == 'w');
            assert(!(q[i] == 's' && q[i + 1] == '.' && q[i + 2] == 'w'));
        }
    }
}

/// The subscription query asks for `worker_type` exactly when the server is
/// 17 or later and joins `pg_stat_subscription_stats` exactly when it is 15
/// or later, with typed NULLs in their place before; on every release it
/// reports the worker type and both error counts under their names.
pub proof fn lemma_subscriptions_query_follows_version(version_num: i32)
    ensures
        has_text(subscriptions_query(version_num), "s.worker_type"@) == (version_num >= 170000),
        version_num < 170000 ==> has_text(subscriptions_query(version_num), "NULL::text"@),
        has_text(subscriptions_query(version_num), "pg_stat_subscription_stats"@) == (version_num >= 150000),
        version_num < 150000 ==> has_text(
            subscriptions_query(version_num),
            "NULL::bigint                    AS apply_error_count,\n       NULL::bigint                    AS sync_error_count"@,
        ),
        has_text(subscriptions_query(version_num), "AS worker_type"@),
        has_text(subscriptions_query(version_num), "AS apply_error_count"@),
        has_text(subscriptions_query(version_num), "AS sync_error_count"@),
{
    lemma_subscriptions_query_fixed_parts(version_num);
    let head = SUBSCRIPTIONS_SQL_HEAD@;
    let worker = worker_type_column(version_num);
    let middle = SUBSCRIPTIONS_SQL_MIDDLE@;
    let errors = error_columns(version_num);
    let from = SUBSCRIPTIONS_SQL_FROM@;
    let join = stats_join(version_num);
    let query = subscriptions_query(version_num);
    assert(has_text(query, worker)) by {
        lemma_has_text_between(head, worker, middle + errors + from + join);
        assert(head + worker + (middle + errors + from + join) =~= query);
    }
    assert(has_text(query, errors)) by {
        lemma_has_text_between(head + worker + middle, errors, from + join);
        assert(head + worker + middle + errors + (from + join) =~= query);
    }
    assert(has_text(query, join)) by {
        lemma_has_text_between(head + worker + middle + errors + from, join, Seq::empty());
        assert(head + worker + middle + errors + from + join + Seq::<char>::empty() =~= query);
    }
    if version_num >= 170000 {
        lemma_worker_type_column_names_it();
        lemma_has_text_within(query, worker, "s.worker_type"@);
    } else {
        lemma_subscriptions_query_before_17(version_num);
    }
    if version_num >= 150000 {
        lemma_stats_join_names_the_view();
        lemma_has_text_within(query, join, "pg_stat_subscription_stats"@);
    } else {
        lemma_subscriptions_query_before_15(version_num);
    }
}

proof fn lemma_error_columns_name_their_source()
    ensures
        has_text("st.apply_error_count            AS apply_error_count,\n       st.sync_error_count             AS sync_error_count"@, "st.apply_error_count"@),
        has_text("st.apply_error_count            AS apply_error_count,\n       st.sync_error_count             AS sync_error_count"@, "st.sync_error_count"@),
        has_text("NULL::bigint                    AS apply_error_count,\n       NULL::bigint                    AS sync_error_count"@, "NULL::bigint"@),
{
    reveal_strlit("st.apply_error_count            AS apply_error_count,\n       st.sync_error_count             AS sync_error_count");
    reveal_strlit("NULL::bigint                    AS apply_error_count,\n       NULL::bigint                    AS sync_error_count");
    reveal_strlit("st.apply_error_count");
    reveal_strlit("st.sync_error_count");
    reveal_strlit("NULL::bigint");
    assert("st.apply_error_count            AS apply_error_count,\n       st.sync_error_count             AS sync_error_count"@.subrange(0, 20) =~= "st.apply_error_count"@);
    lemma_has_text_at("st.apply_error_count            AS apply_error_count,\n       st.sync_error_count             AS sync_error_count"@, "st.apply_error_count"@, 0);
    assert("st.apply_error_count            AS apply_error_count,\n       st.sync_error_count             AS sync_error_count"@.subrange(61, 80) =~= "st.sync_error_count"@);
    lemma_has_text_at("st.apply_error_count            AS apply_error_count,\n       st.sync_error_count             AS sync_error_count"@, "st.sync_error_count"@, 61);
    assert("NULL::bigint                    AS apply_error_count,\n       NULL::bigint                    AS sync_error_count"@.subrange(0, 12) =~= "NULL::bigint"@);
    lemma_has_text_at("NULL::bigint                    AS apply_error_count,\n       NULL::bigint                    AS sync_error_count"@, "NULL::bigint"@, 0);
}

proof fn lemma_old_subscriptions_query_reads_no_error_counts(version_num: i32)
    requires
        version_num < 150000,
    ensures
        !has_text(subscriptions_query(version_num), "st.apply_error_count"@),
        !has_text(subscriptions_query(version_num), "st.sync_error_count"@),
{
    reveal_strlit("SELECT s.subname::text      AS subname,
       s.pid                        AS pid,
       ");
    reveal_strlit("                AS worker_type,
       EXTRACT(EPOCH FROM (now() - s.latest_end_time))::float8
                                    AS latest_end_lag_secs,
       ");
    reveal_strlit("
FROM pg_stat_subscription s
");
    reveal_strlit("NULL::text");
    reveal_strlit("NULL::bigint                    AS apply_error_count,\n       NULL::bigint                    AS sync_error_count");
    reveal_strlit("");
    reveal_strlit("st.apply_error_count");
    reveal_strlit("st.sync_error_count");
    let q = subscriptions_query(version_num);
    assert(!has_text(q, "st.apply_error_count"@)) by {
        let p = "st.apply_error_count"@;
        assert forall|i: int| 0 <= i && i + p.len() <= q.len() implies #[trigger] q.subrange(i, i + p.len()) != p by {
            let w = q.subrange(i, i + p.len());
            assert(w[0] == q[i] && w[1] == q[i + 1] && w[2] == q[i + 2] && w[3] == q[i + 3]);
            assert(p[0] == 's' && p[1] == 't' && p[2] == '.' && p[3] == 'a');
            assert(!(q[i] == 's' && q[i + 1] == 't' && q[i + 2] == '.' && q[i + 3] == 'a'));
        }
    }
    assert(!has_text(q, "st.sync_error_count"@)) by {
        let p = "st.sync_error_count"@;
        assert forall|i: int| 0 <= i && i + p.len() <= q.len() implies #[trigger] q.subrange(i, i + p.len()) != p by {
            let w = q.subrange(i, i + p.len());
            assert(w[0] == q[i] && w[1] == q[i + 1] && w[2] == q[i + 2] && w[3] == q[i + 3] && w[4] == q[i + 4]);
            assert(p[0] == 's' && p[1] == 't' && p[2] == '.' && p[3] == 's' && p[4] == 'y');
            assert(!(q[i] == 's' && q[i + 1] == 't' && q[i + 2] == '.' && q[i + 3] == 's' && q[i + 4] == 'y'));
        }
    }
}

proof fn lemma_new_subscriptions_query_has_no_null_counts(version_num: i32)
    requires
        version_num >= 150000,
    ensures
        !has_text(subscriptions_query(version_num), "NULL::bigint"@),
{
    reveal_strlit("SELECT s.subname::text      AS subname,
       s.pid                        AS pid,
       ");
    reveal_strlit("                AS worker_type,
       EXTRACT(EPOCH FROM (now() - s.latest_end_time))::float8
                                    AS latest_end_lag_secs,
       ");
    reveal_strlit("
FROM pg_stat_subscription s
");
    reveal_strlit("s.worker_type::text");
    reveal_strlit("NULL::text");
    reveal_strlit("st.apply_error_count            AS apply_error_count,\n       st.sync_error_count             AS sync_error_count");
    reveal_strlit("LEFT JOIN pg_stat_subscription_stats st ON st.subid = s.subid");
    reveal_strlit("NULL::bigint");
    let q = subscriptions_query(version_num);
    assert(!has_text(q, "NULL::bigint"@)) by {
        let p = "NULL::bigint"@;
        assert forall|i: int| 0 <= i && i + p.len() <= q.len() implies #[trigger] q.subrange(i, i + p.len()) != p by {
            let w = q.subrange(i, i + p.len());
            assert(w[4] == q[i + 4] && w[5] == q[i + 5] && w[6] == q[i + 6]);
            assert(p[4] == ':' && p[5] == ':' && p[6] == 'b');
            assert(!(q[i + 4] == ':' && q[i + 5] == ':' && q[i + 6] == 'b'));
        }
    }
}

/// The subscription query reads each subscription's apply and sync error
/// counts from `pg_stat_subscription_stats` on every server from 15 on, and
/// exactly when it joins that view; an older server gets typed NULLs in
/// their place, and a newer one never does.
pub proof fn lemma_subscription_error_counts_come_from_the_view(version_num: i32)
    ensures
        has_text(subscriptions_query(version_num), "st.apply_error_count"@) == (version_num >= 150000),
        has_text(subscriptions_query(version_num), "st.sync_error_count"@) == (version_num >= 150000),
        has_text(subscriptions_query(version_num), "NULL::bigint"@) == (version_num < 150000),
        has_text(subscriptions_query(version_num), "st.apply_error_count"@) == has_text(
            subscriptions_query(version_num),
            "pg_stat_subscription_stats"@,
        ),
{
    let head = SUBSCRIPTIONS_SQL_HEAD@;
    let worker = worker_type_column(version_num);
    let middle = SUBSCRIPTIONS_SQL_MIDDLE@;
    let errors = error_columns(version_num);
    let from = SUBSCRIPTIONS_SQL_FROM@;
    let join = stats_join(version_num);
    let query = subscriptions_query(version_num);
    lemma_subscriptions_query_follows_version(version_num);
    lemma_error_columns_name_their_source();
    assert(has_text(query, errors)) by {
        lemma_has_text_between(head + worker + middle, errors, from + join);
        assert(head + worker + middle + errors + (from + join) =~= query);
    }
    if version_num >= 150000 {
        lemma_has_text_within(query, errors, "st.apply_error_count"@);
        lemma_has_text_within(query, errors, "st.sync_error_count"@);
        lemma_new_subscriptions_query_has_no_null_counts(version_num);
    } else {
        lemma_has_text_within(query, errors, "NULL::bigint"@);
        lemma_old_subscriptions_query_reads_no_error_counts(version_num);
    }
}

/// `pg_stat_subscription_stats` is 15 and later; `worker_type` is 17 and
/// later. As with the slots, absent columns become substituted literals so
/// every release returns the same shape.
pub fn subscriptions_sql(version_num: i32) -> (sql: String)
    ensures
        sql@ == subscriptions_query(version_num),
{
    let mut sql = String::new();
    append(&mut sql, SUBSCRIPTIONS_SQL_HEAD);
    if version_num >= 170000 {
        append(&mut sql, "s.worker_type::text");
    } else {
        append(&mut sql, "NULL::text");
    }
    append(&mut sql, SUBSCRIPTIONS_SQL_MIDDLE);
    if version_num >= 150000 {
        append(
            &mut sql,
            "st.apply_error_count            AS apply_error_count,\n       st.sync_error_count             AS sync_error_count",
        );
        append(&mut sql, SUBSCRIPTIONS_SQL_FROM);
        append(&mut sql, "LEFT JOIN pg_stat_subscription_stats st ON st.subid = s.subid");
    } else {
        append(
            &mut sql,
            "NULL::bigint                    AS apply_error_count,\n       NULL::bigint                    AS sync_error_count",
        );
        append(&mut sql, SUBSCRIPTIONS_SQL_FROM);
        append(&mut sql, "");
    }
    sql
}

/// A replication slot as the page orders it: whether it is active, its name,
/// and where it stood in the sample, which settles ties.
#[derive(Debug)]
pub struct SlotEntry {
    pub active: bool,
    pub slot_name: String,
    pub position: usize,
}

/// `a` sorts before `b` character by character, a proper prefix first.
/// UTF-8 keeps the order of code points, so this is the order in which
/// `str::cmp` compares the bytes.
pub open spec fn name_before(a: Seq<char>, b: Seq<char>) -> bool
    decreases a.len(),
{
    if b.len() == 0 {
        false
    } else if a.len() == 0 {
        true
    } else if a[0] != b[0] {
        (a[0] as u32) < (b[0] as u32)
    } else {
        name_before(a.drop_first(), b.drop_first())
    }
}

/// Inactive slots first: a slot with no consumer retains write-ahead log
/// until the disk fills, which is the one thing on the page that can take a
/// server down by itself. Then by name, so the order is stable between
/// samples, and then by place in the sample.
pub open spec fn slot_before(a: SlotEntry, b: SlotEntry) -> bool {
    ||| !a.active && b.active
    ||| a.active == b.active && name_before(a.slot_name@, b.slot_name@)
    ||| a.active == b.active && a.slot_name@ == b.slot_name@ && a.position < b.position
}

/// No slot in `slots` sorts before one that precedes it.
pub open spec fn slots_in_order(slots: Seq<SlotEntry>) -> bool {
    forall|i: int, j: int| 0 <= i < j < slots.len() ==> !slot_before(#[trigger] slots[j], #[trigger] slots[i])
}

proof fn lemma_name_before_asymmetric(a: Seq<char>, b: Seq<char>)
    ensures
        name_before(a, b) ==> !name_before(b, a),
    decreases a.len(),
{
    if a.len() > 0 && b.len() > 0 && a[0] == b[0] {
        lemma_name_before_asymmetric(a.drop_first(), b.drop_first());
    }
}

proof fn lemma_name_before_transitive(a: Seq<char>, b: Seq<char>, c: Seq<char>)
    ensures
        name_before(a, b) && name_before(b, c) ==> name_before(a, c),
    decreases a.len(),
{
    if a.len() > 0 && b.len() > 0 && c.len() > 0 && a[0] == b[0] && b[0] == c[0] {
        lemma_name_before_transitive(a.drop_first(), b.drop_first(), c.drop_first());
    }
}

proof fn lemma_name_before_irreflexive(a: Seq<char>)
    ensures
        !name_before(a, a),
    decreases a.len(),
{
    if a.len() > 0 {
        lemma_name_before_irreflexive(a.drop_first());
    }
}

/// The slot order is a strict order: it never puts a slot before itself,
/// never puts two slots each before the other, and chains.
pub proof fn lemma_slot_order_is_strict(a: SlotEntry, b: SlotEntry, c: SlotEntry)
    ensures
        !slot_before(a, a),
        slot_before(a, b) ==> !slot_before(b, a),
        slot_before(a, b) && slot_before(b, c) ==> slot_before(a, c),
{
    lemma_name_before_irreflexive(a.slot_name@);
    lemma_name_before_asymmetric(a.slot_name@, b.slot_name@);
    lemma_name_before_transitive(a.slot_name@, b.slot_name@, c.slot_name@);
    lemma_name_before_irreflexive(b.slot_name@);
}

fn names_in_order(a: &str, b: &str) -> (before: bool)
    ensures
        before == name_before(a@, b@),
{
    let x = chars_of(a);
    let y = chars_of(b);
    let mut i: usize = 0;
    assert(a@.skip(0) =~= a@);
    assert(b@.skip(0) =~= b@);
    while i < x.len() && i < y.len()
        invariant
            x@ == a@,
            y@ == b@,
            i <= x@.len(),
            i <= y@.len(),
            name_before(a@, b@) == name_before(a@.skip(i as int), b@.skip(i as int)),
        decreases x.len() - i,
    {
        if x[i] != y[i] {
            assert(a@.skip(i as int)[0] == x@[i as int]);
            assert(b@.skip(i as int)[0] == y@[i as int]);
            return (x[i] as u32) < (y[i] as u32);
        }
        assert(a@.skip(i as int).drop_first() =~= a@.skip(i + 1));
        assert(b@.skip(i as int).drop_first() =~= b@.skip(i + 1));
        i = i + 1;
    }
    i == x.len() && i < y.len()
}

fn slot_goes_before(a: &SlotEntry, b: &SlotEntry) -> (before: bool)
    ensures
        before == slot_before(*a, *b),
{
    if a.active != b.active {
        return !a.active;
    }
    if names_in_order(a.slot_name.as_str(), b.slot_name.as_str()) {
        return true;
    }
    if names_in_order(b.slot_name.as_str(), a.slot_name.as_str()) {
        proof {
            lemma_name_before_asymmetric(b.slot_name@, a.slot_name@);
        }
        assert(a.slot_name@ != b.slot_name@) by {
            lemma_name_before_irreflexive(a.slot_name@);
        }
        return false;
    }
    let same = crate::text::same_text(a.slot_name.as_str(), b.slot_name.as_str());
    same && a.position < b.position
}

/// Puts the slots in page order: inactive ones first, then by name, then by
/// place in the sample. The slots themselves are only moved.
pub fn sort_slots(slots: &mut Vec<SlotEntry>)
    ensures
        final(slots)@.to_multiset() == old(slots)@.to_multiset(),
        slots_in_order(final(slots)@),
{
    broadcast use vstd::multiset::group_multiset_axioms;

    let ghost given = slots@;
    let mut ordered: Vec<SlotEntry> = Vec::new();
    proof {
        vstd::seq_lib::to_multiset_len(ordered@);
        vstd::multiset::lemma_multiset_empty_len(ordered@.to_multiset());
    }
    assert(ordered@.to_multiset() =~= vstd::multiset::Multiset::<SlotEntry>::empty());
    while slots.len() > 0
        invariant
            ordered@.to_multiset().add(slots@.to_multiset()) == given.to_multiset(),
            slots_in_order(ordered@),
        decreases slots@.len(),
    {
        let ghost before = slots@;
        let item = slots.pop().unwrap();
        assert(before =~= slots@.push(item));
        let mut k: usize = 0;
        while k < ordered.len() && !slot_goes_before(&item, &ordered[k])
            invariant
                k <= ordered@.len(),
                forall|m: int| 0 <= m < k ==> !slot_before(item, #[trigger] ordered@[m]),
            decreases ordered@.len() - k,
        {
            k = k + 1;
        }
        let ghost prior = ordered@;
        ordered.insert(k, item);
        proof {
            assert forall|i: int, j: int| 0 <= i < j < ordered@.len() implies !slot_before(
                #[trigger] ordered@[j],
                #[trigger] ordered@[i],
            ) by {
                if j < k {
                    assert(ordered@[i] == prior[i] && ordered@[j] == prior[j]);
                } else if j == k {
                    assert(ordered@[i] == prior[i]);
                } else if i == k {
                    let x = ordered@[j];
                    assert(x == prior[j - 1]);
                    assert(k < prior.len());
                    assert(slot_before(item, prior[k as int]));
                    lemma_slot_order_is_strict(x, item, prior[k as int]);
                    if j - 1 > k {
                        assert(!slot_before(prior[j - 1], prior[k as int]));
                    }
                } else if i < k {
                    assert(ordered@[i] == prior[i] && ordered@[j] == prior[j - 1]);
                } else {
                    assert(ordered@[i] == prior[i - 1] && ordered@[j] == prior[j - 1]);
                }
            }
            assert(ordered@ == prior.insert(k as int, item));
            vstd::seq_lib::to_multiset_insert(prior, k as int, item);
            vstd::seq_lib::to_multiset_build(slots@, item);
            assert(ordered@.to_multiset().add(slots@.to_multiset()) =~= prior.to_multiset().add(before.to_multiset()));
        }
    }
    proof {
        vstd::seq_lib::to_multiset_len(slots@);
        vstd::multiset::lemma_multiset_empty_len(slots@.to_multiset());
    }
    assert(slots@.to_multiset() =~= vstd::multiset::Multiset::<SlotEntry>::empty());
    assert(ordered@.to_multiset() =~= given.to_multiset());
    *slots = ordered;
}

/// Names sort by code point, character by character: `a` comes before `b`
/// exactly when, after a common start, either `a` has ended and `b` has not,
/// or `a` has the lower character where they first differ.
pub proof fn lemma_names_sort_by_code_point(a: Seq<char>, b: Seq<char>)
    ensures
        name_before(a, b) <==> exists|k: int|
            0 <= k <= a.len() && k < b.len() && #[trigger] a.subrange(0, k) == b.subrange(0, k) && (k == a.len()
                || (a[k] as u32) < (b[k] as u32)),
    decreases a.len(),
{
    if b.len() == 0 {
    } else if a.len() == 0 {
        assert(a.subrange(0, 0) =~= b.subrange(0, 0));
    } else if a[0] != b[0] {
        assert(a.subrange(0, 0) =~= b.subrange(0, 0));
        if exists|k: int|
            0 <= k <= a.len() && k < b.len() && #[trigger] a.subrange(0, k) == b.subrange(0, k) && (k == a.len()
                || (a[k] as u32) < (b[k] as u32)) {
            let k = choose|k: int|
                0 <= k <= a.len() && k < b.len() && #[trigger] a.subrange(0, k) == b.subrange(0, k) && (k == a.len()
                    || (a[k] as u32) < (b[k] as u32));
            if k > 0 {
                assert(a.subrange(0, k)[0] == b.subrange(0, k)[0]);
            }
        }
    } else {
        let a1 = a.drop_first();
        let b1 = b.drop_first();
        lemma_names_sort_by_code_point(a1, b1);
        if name_before(a, b) {
            let k = choose|k: int|
                0 <= k <= a1.len() && k < b1.len() && #[trigger] a1.subrange(0, k) == b1.subrange(0, k) && (k
                    == a1.len() || (a1[k] as u32) < (b1[k] as u32));
            let sa = a.subrange(0, k + 1);
            let sb = b.subrange(0, k + 1);
            assert(sa =~= sb) by {
                assert forall|i: int| 0 <= i < k + 1 implies sa[i] == sb[i] by {
                    if i > 0 {
                        assert(a1.subrange(0, k)[i - 1] == b1.subrange(0, k)[i - 1]);
                    }
                }
            }
        }
        if exists|k: int|
            0 <= k <= a.len() && k < b.len() && #[trigger] a.subrange(0, k) == b.subrange(0, k) && (k == a.len()
                || (a[k] as u32) < (b[k] as u32)) {
            let k = choose|k: int|
                0 <= k <= a.len() && k < b.len() && #[trigger] a.subrange(0, k) == b.subrange(0, k) && (k == a.len()
                    || (a[k] as u32) < (b[k] as u32));
            if k == 0 {
                assert((a[0] as u32) < (b[0] as u32));
            } else {
                let sa = a1.subrange(0, k - 1);
                let sb = b1.subrange(0, k - 1);
                assert(sa =~= sb) by {
                    assert forall|i: int| 0 <= i < k - 1 implies sa[i] == sb[i] by {
                        assert(a.subrange(0, k)[i + 1] == b.subrange(0, k)[i + 1]);
                    }
                }
                assert(k - 1 == a1.len() || (a1[k - 1] as u32) < (b1[k - 1] as u32));
            }
        }
    }
}

/// The page order puts every inactive slot before every active one, and
/// among slots alike in that, no name comes after one that sorts later.
pub proof fn lemma_slot_page_order(slots: Seq<SlotEntry>)
    requires
        slots_in_order(slots),
    ensures
        forall|i: int, j: int| 0 <= i < j < slots.len() && (#[trigger] slots[i]).active ==> (#[trigger] slots[j]).active,
        forall|i: int, j: int|
            0 <= i < j < slots.len() && (#[trigger] slots[i]).active == (#[trigger] slots[j]).active ==> !name_before(
                slots[j].slot_name@,
                slots[i].slot_name@,
            ),
{
    assert forall|i: int, j: int| 0 <= i < j < slots.len() && (#[trigger] slots[i]).active implies (#[trigger] slots[j]).active by {
        assert(!slot_before(slots[j], slots[i]));
    }
    assert forall|i: int, j: int|
        0 <= i < j < slots.len() && (#[trigger] slots[i]).active == (#[trigger] slots[j]).active implies !name_before(
        slots[j].slot_name@,
        slots[i].slot_name@,
    ) by {
        assert(!slot_before(slots[j], slots[i]));
    }
}

} // verus!
