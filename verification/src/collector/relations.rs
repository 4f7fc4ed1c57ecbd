//! Table and index statistics for the connected database.

use vstd::prelude::*;

use crate::text::{append, has_text, lemma_has_text_at, lemma_has_text_between, lemma_has_text_within};

verus! {

/// The first release whose `has_table_privilege` knows the MAINTAIN
/// privilege. Earlier releases raise an error for it, so they fall back to
/// an ownership check, which also covers superusers, members of every role.
pub const MAINTAIN_PRIVILEGE_VERSION: i32 = 170000;

/// The table query up to the column that says whether the role may
/// maintain the table.
pub const TABLES_SQL_HEAD: &'static str = "\
SELECT t.schemaname::text AS schema_name,
       t.relname::text    AS table_name,
       t.seq_scan,
       t.seq_tup_read,
       COALESCE(t.idx_scan, 0)      AS idx_scan,
       COALESCE(t.idx_tup_fetch, 0) AS idx_tup_fetch,
       t.n_tup_ins,
       t.n_tup_upd,
       t.n_tup_del,
       t.n_live_tup,
       t.n_dead_tup,
       EXTRACT(EPOCH FROM (now() - GREATEST(t.last_vacuum, t.last_autovacuum)))::float8
         AS secs_since_vacuum,
       pg_total_relation_size(t.relid)::int8 AS total_bytes,
       ";

/// The table query after that column.
pub const TABLES_SQL_TAIL: &'static str = " AS can_maintain
  FROM pg_stat_user_tables t
  JOIN pg_class c ON c.oid = t.relid
 ORDER BY total_bytes DESC
 LIMIT $1";

/// May the role maintain the table, from 17 on.
pub const MAINTAIN_CHECK: &'static str = "has_table_privilege(current_user, c.oid, 'MAINTAIN')";

/// May the role maintain the table, before 17: does it own it.
pub const OWNERSHIP_CHECK: &'static str = "pg_has_role(current_user, c.relowner, 'MEMBER')";

/// The privilege check a server of `version_num` understands.
pub open spec fn maintain_check(version_num: i32) -> Seq<char> {
    if version_num >= MAINTAIN_PRIVILEGE_VERSION {
        MAINTAIN_CHECK@
    } else {
        OWNERSHIP_CHECK@
    }
}

/// The table query for a server of `version_num`.
pub open spec fn tables_query(version_num: i32) -> Seq<char> {
    TABLES_SQL_HEAD@ + maintain_check(version_num) + TABLES_SQL_TAIL@
}

proof fn lemma_tables_query_fixed_parts(version_num: i32)
    ensures
        has_text(tables_query(version_num), "AS can_maintain"@),
        has_text(tables_query(version_num), "pg_total_relation_size"@),
        tables_query(version_num).len() >= 8,
        tables_query(version_num).subrange(tables_query(version_num).len() - 8, tables_query(version_num).len() as int)
            == "LIMIT $1"@,
{
    reveal_strlit("\
SELECT t.schemaname::text AS schema_name,
       t.relname::text    AS table_name,
       t.seq_scan,
       t.seq_tup_read,
       COALESCE(t.idx_scan, 0)      AS idx_scan,
       COALESCE(t.idx_tup_fetch, 0) AS idx_tup_fetch,
       t.n_tup_ins,
       t.n_tup_upd,
       t.n_tup_del,
       t.n_live_tup,
       t.n_dead_tup,
       EXTRACT(EPOCH FROM (now() - GREATEST(t.last_vacuum, t.last_autovacuum)))::float8
         AS secs_since_vacuum,
       pg_total_relation_size(t.relid)::int8 AS total_bytes,
       ");
    reveal_strlit(" AS can_maintain
  FROM pg_stat_user_tables t
  JOIN pg_class c ON c.oid = t.relid
 ORDER BY total_bytes DESC
 LIMIT $1");
    reveal_strlit("AS can_maintain");
    reveal_strlit("pg_total_relation_size");
    reveal_strlit("LIMIT $1");
    let q = tables_query(version_num);
    let tail_start = (TABLES_SQL_HEAD@.len() + maintain_check(version_num).len()) as int;
    assert(q.subrange(456, 478) =~= "pg_total_relation_size"@);
    lemma_has_text_at(q, "pg_total_relation_size"@, 456);
    assert(q.subrange(tail_start + 1, tail_start + 16) =~= "AS can_maintain"@);
    lemma_has_text_at(q, "AS can_maintain"@, tail_start + 1);
    assert(q.subrange(q.len() - 8, q.len() as int) =~= "LIMIT $1"@);
}

proof fn lemma_maintain_check_names_the_privilege()
    ensures
        has_text(MAINTAIN_CHECK@, "'MAINTAIN'"@),
{
    reveal_strlit("has_table_privilege(current_user, c.oid, 'MAINTAIN')");
    reveal_strlit("'MAINTAIN'");
    assert(MAINTAIN_CHECK@.subrange(41, 51) =~= "'MAINTAIN'"@);
    lemma_has_text_at(MAINTAIN_CHECK@, "'MAINTAIN'"@, 41);
}

proof fn lemma_new_tables_query_checks_no_ownership(version_num: i32)
    requires
        version_num >= MAINTAIN_PRIVILEGE_VERSION,
    ensures
        !has_text(tables_query(version_num), OWNERSHIP_CHECK@),
{
    reveal_strlit("\
SELECT t.schemaname::text AS schema_name,
       t.relname::text    AS table_name,
       t.seq_scan,
       t.seq_tup_read,
       COALESCE(t.idx_scan, 0)      AS idx_scan,
       COALESCE(t.idx_tup_fetch, 0) AS idx_tup_fetch,
       t.n_tup_ins,
       t.n_tup_upd,
       t.n_tup_del,
       t.n_live_tup,
       t.n_dead_tup,
       EXTRACT(EPOCH FROM (now() - GREATEST(t.last_vacuum, t.last_autovacuum)))::float8
         AS secs_since_vacuum,
       pg_total_relation_size(t.relid)::int8 AS total_bytes,
       ");
    reveal_strlit(" AS can_maintain
  FROM pg_stat_user_tables t
  JOIN pg_class c ON c.oid = t.relid
 ORDER BY total_bytes DESC
 LIMIT $1");
    reveal_strlit("has_table_privilege(current_user, c.oid, 'MAINTAIN')");
    reveal_strlit("pg_has_role(current_user, c.relowner, 'MEMBER')");
    let q = tables_query(version_num);
    assert(!has_text(q, OWNERSHIP_CHECK@)) by {
        let p = OWNERSHIP_CHECK@;
        assert forall|i: int| 0 <= i && i + p.len() <= q.len() implies #[trigger] q.subrange(i, i + p.len()) != p by {
            let w = q.subrange(i, i + p.len());
            assert(w[0] == q[i] && w[1] == q[i + 1] && w[2] == q[i + 2] && w[3] == q[i + 3]);
            assert(p[0] == 'p' && p[1] == 'g' && p[2] == '_' && p[3] == 'h');
            assert(!(q[i] == 'p' && q[i + 1] == 'g' && q[i + 2] == '_' && q[i + 3] == 'h'));
        }
    }
}

proof fn lemma_old_tables_query_names_no_privilege(version_num: i32)
    requires
        version_num < MAINTAIN_PRIVILEGE_VERSION,
    ensures
        !has_text(tables_query(version_num), MAINTAIN_CHECK@),
        !has_text(tables_query(version_num), "'MAINTAIN'"@),
{
    reveal_strlit("\
SELECT t.schemaname::text AS schema_name,
       t.relname::text    AS table_name,
       t.seq_scan,
       t.seq_tup_read,
       COALESCE(t.idx_scan, 0)      AS idx_scan,
       COALESCE(t.idx_tup_fetch, 0) AS idx_tup_fetch,
       t.n_tup_ins,
       t.n_tup_upd,
       t.n_tup_del,
       t.n_live_tup,
       t.n_dead_tup,
       EXTRACT(EPOCH FROM (now() - GREATEST(t.last_vacuum, t.last_autovacuum)))::float8
         AS secs_since_vacuum,
       pg_total_relation_size(t.relid)::int8 AS total_bytes,
       ");
    reveal_strlit(" AS can_maintain
  FROM pg_stat_user_tables t
  JOIN pg_class c ON c.oid = t.relid
 ORDER BY total_bytes DESC
 LIMIT $1");
    reveal_strlit("has_table_privilege(current_user, c.oid, 'MAINTAIN')");
    reveal_strlit("pg_has_role(current_user, c.relowner, 'MEMBER')");
    reveal_strlit("'MAINTAIN'");
    let q = tables_query(version_num);
    assert(!has_text(q, MAINTAIN_CHECK@)) by {
        let p = MAINTAIN_CHECK@;
        assert forall|i: int| 0 <= i && i + p.len() <= q.len() implies #[trigger] q.subrange(i, i + p.len()) != p by {
            let w = q.subrange(i, i + p.len());
            assert(w[0] == q[i] && w[1] == q[i + 1] && w[2] == q[i + 2] && w[3] == q[i + 3] && w[4] == q[i + 4]);
            assert(p[0] == 'h' && p[1] == 'a' && p[2] == 's' && p[3] == '_' && p[4] == 't');
            assert(!(q[i] == 'h' && q[i + 1] == 'a' && q[i + 2] == 's' && q[i + 3] == '_' && q[i + 4] == 't'));
        }
    }
    assert(!has_text(q, "'MAINTAIN'"@)) by {
        let p = "'MAINTAIN'"@;
        assert forall|i: int| 0 <= i && i + p.len() <= q.len() implies #[trigger] q.subrange(i, i + p.len()) != p by {
            let w = q.subrange(i, i + p.len());
            assert(w[0] == q[i] && w[1] == q[i + 1] && w[2] == q[i + 2]);
            assert(p[0] == '\'' && p[1] == 'M' && p[2] == 'A');
            assert(!(q[i] == '\'' && q[i + 1] == 'M' && q[i + 2] == 'A'));
        }
    }
}

/// The table query names the `MAINTAIN` privilege exactly when the server
/// is 17 or later and the ownership check exactly when it is older; on every
/// release it reports the column as `can_maintain`, sizes the tables, and
/// ends by taking the row limit.
pub proof fn lemma_tables_query_follows_version(version_num: i32)
    ensures
        has_text(tables_query(version_num), MAINTAIN_CHECK@) == (version_num >= MAINTAIN_PRIVILEGE_VERSION),
        has_text(tables_query(version_num), OWNERSHIP_CHECK@) == (version_num < MAINTAIN_PRIVILEGE_VERSION),
        has_text(tables_query(version_num), "'MAINTAIN'"@) == (version_num >= MAINTAIN_PRIVILEGE_VERSION),
        has_text(tables_query(version_num), "AS can_maintain"@),
        has_text(tables_query(version_num), "pg_total_relation_size"@),
        tables_query(version_num).len() >= 8,
        tables_query(version_num).subrange(tables_query(version_num).len() - 8, tables_query(version_num).len() as int)
            == "LIMIT $1"@,
{
    lemma_tables_query_fixed_parts(version_num);
    lemma_has_text_between(TABLES_SQL_HEAD@, maintain_check(version_num), TABLES_SQL_TAIL@);
    if version_num >= MAINTAIN_PRIVILEGE_VERSION {
        lemma_maintain_check_names_the_privilege();
        lemma_has_text_within(tables_query(version_num), MAINTAIN_CHECK@, "'MAINTAIN'"@);
        lemma_new_tables_query_checks_no_ownership(version_num);
    } else {
        lemma_old_tables_query_names_no_privilege(version_num);
    }
}

/// Table statistics for the connected database, largest first, with
/// whether the connected role may maintain each table. `pg_stat_user_tables`
/// is per-database; there is no server-wide equivalent.
pub fn tables_sql(version_num: i32) -> (sql: String)
    ensures
        sql@ == tables_query(version_num),
{
    let mut sql = String::new();
    append(&mut sql, TABLES_SQL_HEAD);
    if version_num >= MAINTAIN_PRIVILEGE_VERSION {
        append(&mut sql, MAINTAIN_CHECK);
    } else {
        append(&mut sql, OWNERSHIP_CHECK);
    }
    append(&mut sql, TABLES_SQL_TAIL);
    sql
}

/// Index statistics joined to `pg_index` for the constraint flags. Those
/// flags are what stop every primary key being reported as an unused index.
pub const INDEXES_SQL: &'static str = "\
SELECT i.schemaname::text   AS schema_name,
       i.relname::text      AS table_name,
       i.indexrelname::text AS index_name,
       COALESCE(i.idx_scan, 0)      AS idx_scan,
       COALESCE(i.idx_tup_read, 0)  AS idx_tup_read,
       COALESCE(i.idx_tup_fetch, 0) AS idx_tup_fetch,
       pg_relation_size(i.indexrelid)::int8 AS bytes,
       x.indisprimary AS is_primary,
       x.indisunique  AS is_unique,
       x.indisvalid   AS is_valid
  FROM pg_stat_user_indexes i
  JOIN pg_index x ON x.indexrelid = i.indexrelid
 ORDER BY bytes DESC
 LIMIT $1";

#[derive(Debug, Clone, PartialEq)]
pub struct IndexStats {
    pub schema_name: String,
    pub table_name: String,
    pub index_name: String,
    pub idx_scan: i64,
    pub idx_tup_read: i64,
    pub idx_tup_fetch: i64,
    pub bytes: i64,
    pub is_primary: bool,
    pub is_unique: bool,
    pub is_valid: bool,
}

impl IndexStats {
    /// Zero scans and backing no constraint. The flag checks are the point:
    /// an unscanned primary key is not a removal candidate, and including
    /// those rows drowns the real answers.
    pub fn is_unused(&self) -> (unused: bool)
        ensures
            unused == (self.idx_scan == 0 && !self.is_primary && !self.is_unique),
    {
        self.idx_scan == 0 && !self.is_primary && !self.is_unique
    }
}

} // verus!
