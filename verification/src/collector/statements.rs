//! How a statement from `pg_stat_statements` is recognised from one sample
//! to the next.

use vstd::prelude::*;

verus! {

/// How a statement is identified across samples. `queryid` is NULL for some
/// utility statements, so those fall back to a hash of the query text:
/// without a stable key no row can be matched to its previous reading and no
/// delta can be derived.
#[derive(Debug, Clone, Copy, PartialEq, Eq, Hash, Structural)]
pub enum StatementId {
    QueryId(i64),
    TextHash(u64),
}

#[derive(Debug, Clone, Copy, PartialEq, Eq, Hash, Structural)]
pub struct StatementKey {
    pub user_oid: i64,
    pub db_oid: i64,
    pub id: StatementId,
}

/// The hash that std's default hasher, freshly made, gives `text`.
pub uninterp spec fn text_hash(text: Seq<char>) -> u64;

/// Hashes `text` with std's default hasher
/// (`BuildHasher::hash_one` on a `BuildHasherDefault<DefaultHasher>`).
/// Every such hasher starts from the same keys, so the result depends on the
/// text alone; what the hash is, is left to std.
#[verifier::external_body]
fn hash_text(text: &str) -> (hash: u64)
    ensures
        hash == text_hash(text@),
{
    std::hash::BuildHasher::hash_one(
        &std::hash::BuildHasherDefault::<std::hash::DefaultHasher>::default(),
        text,
    )
}

/// The key of a statement whose text hashes to `hash`: the query id when
/// the server reported one, the text's hash otherwise, always scoped by the
/// role and the database.
pub open spec fn key_of(user_oid: i64, db_oid: i64, query_id: Option<i64>, hash: u64) -> StatementKey {
    StatementKey {
        user_oid,
        db_oid,
        id: match query_id {
            Some(id) => StatementId::QueryId(id),
            None => StatementId::TextHash(hash),
        },
    }
}

/// The key of a statement, given the hash of its text (read only when the
/// server reported no query id).
pub fn key_with_hash(user_oid: i64, db_oid: i64, query_id: Option<i64>, hash: u64) -> (key: StatementKey)
    ensures
        key == key_of(user_oid, db_oid, query_id, hash),
{
    let id = match query_id {
        Some(id) => StatementId::QueryId(id),
        None => StatementId::TextHash(hash),
    };
    StatementKey { user_oid, db_oid, id }
}

/// The key a statement is recognised by across samples.
pub fn statement_key(user_oid: i64, db_oid: i64, query_id: Option<i64>, query: &str) -> (key: StatementKey)
    ensures
        key == key_of(user_oid, db_oid, query_id, text_hash(query@)),
{
    let hash = match query_id {
        Some(_) => 0,
        None => hash_text(query),
    };
    key_with_hash(user_oid, db_oid, query_id, hash)
}

/// Statements under different roles or in different databases never share
/// a key, whatever their ids.
pub proof fn lemma_keys_are_scoped(
    user_a: i64,
    db_a: i64,
    id_a: Option<i64>,
    hash_a: u64,
    user_b: i64,
    db_b: i64,
    id_b: Option<i64>,
    hash_b: u64,
)
    requires
        user_a != user_b || db_a != db_b,
    ensures
        key_of(user_a, db_a, id_a, hash_a) != key_of(user_b, db_b, id_b, hash_b),
{
}

} // verus!
