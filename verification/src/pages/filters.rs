//! The search boxes of the Sessions, Queries and Relations pages: which rows
//! a filter text keeps.

use vstd::prelude::*;

use crate::collector::relations::IndexStats;
use crate::collector::snapshot::Session;
use crate::text::{chars_of, has_text, same_text};

verus! {

/// What `str::to_lowercase` gives for `text`.
pub uninterp spec fn lowercase(text: Seq<char>) -> Seq<char>;

/// Lower-cases `text` by the Unicode rules (`str::to_lowercase`). What the
/// rules map each character to is left to std.
#[verifier::external_body]
fn to_lowercase(text: &str) -> (lower: String)
    ensures
        lower@ == lowercase(text@),
{
    text.to_lowercase()
}

fn occurs_at(haystack: &Vec<char>, needle: &Vec<char>, start: usize) -> (found: bool)
    requires
        start + needle@.len() <= haystack@.len(),
    ensures
        found == (haystack@.subrange(start as int, start + needle@.len()) == needle@),
{
    let mut k: usize = 0;
    while k < needle.len()
        invariant
            k <= needle@.len(),
            start + needle@.len() <= haystack@.len(),
            haystack@.len() == haystack.len(),
            forall|m: int| 0 <= m < k ==> haystack@[start + m] == needle@[m],
        decreases needle.len() - k,
    {
        if haystack[start + k] != needle[k] {
            assert(haystack@.subrange(start as int, start + needle@.len())[k as int] != needle@[k as int]);
            return false;
        }
        k = k + 1;
    }
    assert(haystack@.subrange(start as int, start + needle@.len()) =~= needle@);
    true
}

/// Whether `needle` occurs in `haystack`, as `str::contains` answers it.
pub fn contains_text(haystack: &str, needle: &str) -> (found: bool)
    ensures
        found == has_text(haystack@, needle@),
{
    let hay = chars_of(haystack);
    let pin = chars_of(needle);
    if pin.len() > hay.len() {
        return false;
    }
    let last = hay.len() - pin.len();
    let mut start: usize = 0;
    loop
        invariant
            hay@ == haystack@,
            pin@ == needle@,
            last + pin@.len() == hay@.len(),
            start <= last,
            forall|i: int|
                0 <= i < start ==> #[trigger] haystack@.subrange(i, i + needle@.len()) != needle@,
        decreases last - start,
    {
        if occurs_at(&hay, &pin, start) {
            return true;
        }
        if start == last {
            return false;
        }
        start = start + 1;
    }
}

/// A text field the filter reads: kept when, lower-cased, it contains the
/// filter text. A withheld field matches nothing.
pub open spec fn field_has(field: Option<String>, needle: Seq<char>) -> bool {
    match field {
        Some(text) => has_text(lowercase(text@), needle),
        None => false,
    }
}

fn field_contains(field: &Option<String>, needle: &str) -> (found: bool)
    ensures
        found == field_has(*field, needle@),
{
    match field {
        Some(text) => {
            let lower = to_lowercase(text.as_str());
            contains_text(lower.as_str(), needle)
        },
        None => false,
    }
}

/// Whether the Sessions page lists `session`: idle backends are hidden
/// when asked, and otherwise an empty filter keeps everything while a
/// filter text keeps the sessions whose user, database, application or
/// query contains it.
pub open spec fn session_kept(session: Session, hide_idle: bool, needle: Seq<char>) -> bool {
    if hide_idle && session.state.is_some() && session.state.unwrap()@ == "idle"@ {
        false
    } else if needle.len() == 0 {
        true
    } else {
        ||| field_has(session.user_name, needle)
        ||| field_has(session.database, needle)
        ||| field_has(session.application_name, needle)
        ||| field_has(session.query, needle)
    }
}

/// Whether the Sessions page lists `session`. `needle` is the filter text,
/// already lower-cased.
pub fn session_matches(session: &Session, hide_idle: bool, needle: &str) -> (kept: bool)
    ensures
        kept == session_kept(*session, hide_idle, needle@),
{
    if hide_idle {
        if let Some(state) = &session.state {
            if same_text(state.as_str(), "idle") {
                return false;
            }
        }
    }
    if chars_of(needle).len() == 0 {
        return true;
    }
    field_contains(&session.user_name, needle) || field_contains(&session.database, needle)
        || field_contains(&session.application_name, needle) || field_contains(&session.query, needle)
}

/// Whether the Queries page lists a statement: an empty filter keeps
/// everything, and a filter text keeps the statements whose text, user or
/// database contains it.
pub open spec fn statement_kept(query: Seq<char>, user_name: Option<String>, database: Option<String>, needle: Seq<char>) -> bool {
    if needle.len() == 0 {
        true
    } else {
        ||| has_text(lowercase(query), needle)
        ||| field_has(user_name, needle)
        ||| field_has(database, needle)
    }
}

/// Whether the Queries page lists a statement. `needle` is the filter text,
/// already lower-cased.
pub fn statement_matches(query: &str, user_name: &Option<String>, database: &Option<String>, needle: &str) -> (kept: bool)
    ensures
        kept == statement_kept(query@, *user_name, *database, needle@),
{
    if chars_of(needle).len() == 0 {
        return true;
    }
    let lower = to_lowercase(query);
    contains_text(lower.as_str(), needle) || field_contains(user_name, needle) || field_contains(database, needle)
}

/// Whether the Relations page lists a table: an empty filter keeps
/// everything, and a filter text keeps the tables whose schema or name
/// contains it.
pub open spec fn table_kept(schema_name: Seq<char>, table_name: Seq<char>, needle: Seq<char>) -> bool {
    if needle.len() == 0 {
        true
    } else {
        has_text(lowercase(schema_name), needle) || has_text(lowercase(table_name), needle)
    }
}

/// Whether the Relations page lists a table. `needle` is the filter text,
/// already lower-cased.
pub fn table_matches(schema_name: &str, table_name: &str, needle: &str) -> (kept: bool)
    ensures
        kept == table_kept(schema_name@, table_name@, needle@),
{
    if chars_of(needle).len() == 0 {
        return true;
    }
    let schema = to_lowercase(schema_name);
    let table = to_lowercase(table_name);
    contains_text(schema.as_str(), needle) || contains_text(table.as_str(), needle)
}

/// Whether the Relations page lists an index: only unused ones when asked,
/// and then those whose schema, table or index name contains the filter
/// text.
pub open spec fn index_kept(index: IndexStats, unused_only: bool, needle: Seq<char>) -> bool {
    if unused_only && !(index.idx_scan == 0 && !index.is_primary && !index.is_unique) {
        false
    } else if needle.len() == 0 {
        true
    } else {
        ||| has_text(lowercase(index.schema_name@), needle)
        ||| has_text(lowercase(index.table_name@), needle)
        ||| has_text(lowercase(index.index_name@), needle)
    }
}

/// Whether the Relations page lists an index. `needle` is the filter text,
/// already lower-cased.
pub fn index_matches(index: &IndexStats, unused_only: bool, needle: &str) -> (kept: bool)
    ensures
        kept == index_kept(*index, unused_only, needle@),
{
    if unused_only && !index.is_unused() {
        return false;
    }
    if chars_of(needle).len() == 0 {
        return true;
    }
    let schema = to_lowercase(index.schema_name.as_str());
    let table = to_lowercase(index.table_name.as_str());
    let name = to_lowercase(index.index_name.as_str());
    contains_text(schema.as_str(), needle) || contains_text(table.as_str(), needle) || contains_text(
        name.as_str(),
        needle,
    )
}

/// A session hidden as idle is never listed. Otherwise an empty filter lists
/// it, and a filter text lists it exactly when its user, database,
/// application or query text, lower-cased, contains the filter: a match in
/// any one of them is enough, and a session matching in none is not listed.
pub proof fn lemma_session_filter_searches_every_field(session: Session, hide_idle: bool, needle: Seq<char>)
    ensures
        ({
            let hidden = hide_idle && session.state is Some && session.state.unwrap()@ == "idle"@;
            let kept = session_kept(session, hide_idle, needle);
            &&& hidden ==> !kept
            &&& !hidden && needle.len() == 0 ==> kept
            &&& !hidden && (session.user_name is Some && has_text(lowercase(session.user_name.unwrap()@), needle)) ==> kept
            &&& !hidden && (session.database is Some && has_text(lowercase(session.database.unwrap()@), needle)) ==> kept
            &&& !hidden && (session.application_name is Some && has_text(lowercase(session.application_name.unwrap()@), needle)) ==> kept
            &&& !hidden && (session.query is Some && has_text(lowercase(session.query.unwrap()@), needle)) ==> kept
            &&& kept && needle.len() > 0 ==> (session.user_name is Some && has_text(lowercase(session.user_name.unwrap()@), needle)) || (session.database is Some && has_text(lowercase(session.database.unwrap()@), needle)) || (session.application_name is Some && has_text(lowercase(session.application_name.unwrap()@), needle))
                || (session.query is Some && has_text(lowercase(session.query.unwrap()@), needle))
        }),
{
}

/// A statement is listed under an empty filter, and under a filter text
/// exactly when its lower-cased text, user or database contains it.
pub proof fn lemma_statement_filter_searches_every_field(
    query: Seq<char>,
    user_name: Option<String>,
    database: Option<String>,
    needle: Seq<char>,
)
    ensures
        needle.len() == 0 ==> statement_kept(query, user_name, database, needle),
        has_text(lowercase(query), needle) ==> statement_kept(query, user_name, database, needle),
        user_name is Some && has_text(lowercase(user_name.unwrap()@), needle) ==> statement_kept(
            query,
            user_name,
            database,
            needle,
        ),
        database is Some && has_text(lowercase(database.unwrap()@), needle) ==> statement_kept(
            query,
            user_name,
            database,
            needle,
        ),
        statement_kept(query, user_name, database, needle) && needle.len() > 0 ==> has_text(lowercase(query), needle)
            || (user_name is Some && has_text(lowercase(user_name.unwrap()@), needle)) || (database is Some
            && has_text(lowercase(database.unwrap()@), needle)),
{
}

/// A table is listed under an empty filter, and under a filter text exactly
/// when its lower-cased schema or name contains it.
pub proof fn lemma_table_filter_searches_schema_and_name(schema_name: Seq<char>, table_name: Seq<char>, needle: Seq<char>)
    ensures
        table_kept(schema_name, table_name, needle) == (needle.len() == 0 || has_text(lowercase(schema_name), needle)
            || has_text(lowercase(table_name), needle)),
{
}

/// Asked for unused indexes only, a used, primary or unique index is never
/// listed; any other index is listed under an empty filter, and under a
/// filter text exactly when its lower-cased schema, table or index name
/// contains it.
pub proof fn lemma_index_filter(index: IndexStats, unused_only: bool, needle: Seq<char>)
    ensures
        unused_only && (index.idx_scan != 0 || index.is_primary || index.is_unique) ==> !index_kept(
            index,
            unused_only,
            needle,
        ),
        !(unused_only && (index.idx_scan != 0 || index.is_primary || index.is_unique)) ==> index_kept(
            index,
            unused_only,
            needle,
        ) == (needle.len() == 0 || has_text(lowercase(index.schema_name@), needle) || has_text(
            lowercase(index.table_name@),
            needle,
        ) || has_text(lowercase(index.index_name@), needle)),
{
}

} // verus!
