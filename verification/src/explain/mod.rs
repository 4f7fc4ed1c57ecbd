//! Execution plans for statements captured by `pg_stat_statements`.
//!
//! Those statements are normalised — literals replaced by `$1`, `$2` — so they
//! cannot be planned by asking the server to explain them directly; there is no
//! parameter to bind. `EXPLAIN (GENERIC_PLAN)` exists for this case and arrived
//! in PostgreSQL 16, which is why the whole feature is version gated.
//!
//! `ANALYZE` is never emitted. It executes the statement, and these are
//! arbitrary captured queries that may be a `DELETE`.

use vstd::prelude::*;

use crate::text::{
    chars_of, has_text, is_white_space, lemma_has_text_at, lemma_has_text_within, lemma_trim_is_within, push_char,
    trim_bounds,
};

verus! {

/// The first version that can plan a parameterised statement without values.
pub const GENERIC_PLAN_VERSION: i32 = 160000;

/// What every explained statement is prefixed with.
pub const EXPLAIN_PREFIX: &'static str = "EXPLAIN (GENERIC_PLAN, FORMAT JSON) ";

#[derive(Debug, Clone, PartialEq)]
pub enum ExplainError {
    Malformed(String),
}

impl ExplainError {
    /// The message shown for this error.
    pub fn message(&self) -> (r: String)
        ensures
            match self {
                ExplainError::Malformed(detail) => r@
                    == "The server returned a plan that could not be read: "@ + detail@,
            },
    {
        match self {
            ExplainError::Malformed(detail) => {
                let mut r = String::from_str("The server returned a plan that could not be read: ");
                r.append(detail.as_str());
                r
            },
        }
    }
}

/// Nothing but white space follows any semicolon: the text is one statement.
pub open spec fn single_statement(t: Seq<char>) -> bool {
    forall|i: int, j: int|
        0 <= i < j < t.len() && #[trigger] t[i] == ';' ==> crate::text::is_white(#[trigger] t[j])
}

/// Nothing but white space follows the first semicolon of `t`, if it has
/// one: the rule as a search for the first `;` states it.
pub open spec fn blank_after_first_semicolon(t: Seq<char>) -> bool {
    forall|i: int|
        0 <= i < t.len() && #[trigger] t[i] == ';' && (forall|k: int| 0 <= k < i ==> t[k] != ';')
            ==> crate::text::trim(t.subrange(i + 1, t.len() as int)).len() == 0
}

proof fn first_semicolon(t: Seq<char>, i: int) -> (f: int)
    requires
        0 <= i < t.len(),
        t[i] == ';',
    ensures
        0 <= f <= i,
        t[f] == ';',
        forall|k: int| 0 <= k < f ==> t[k] != ';',
    decreases i,
{
    if exists|k: int| 0 <= k < i && t[k] == ';' {
        let k = choose|k: int| 0 <= k < i && t[k] == ';';
        first_semicolon(t, k)
    } else {
        i
    }
}

/// "Nothing but white space after any semicolon" and "nothing but white
/// space after the first semicolon" are the same rule.
pub proof fn lemma_single_statement_is_the_first_semicolon_rule(t: Seq<char>)
    ensures
        single_statement(t) <==> blank_after_first_semicolon(t),
{
    if single_statement(t) {
        assert forall|i: int|
            0 <= i < t.len() && #[trigger] t[i] == ';' && (forall|k: int| 0 <= k < i ==> t[k] != ';')
                implies crate::text::trim(t.subrange(i + 1, t.len() as int)).len() == 0 by {
            let rest = t.subrange(i + 1, t.len() as int);
            assert forall|j: int| 0 <= j < rest.len() implies crate::text::is_white(#[trigger] rest[j]) by {
                assert(rest[j] == t[i + 1 + j]);
                assert(t[i] == ';');
            }
            crate::text::lemma_white_trims_to_nothing(rest);
        }
    }
    if blank_after_first_semicolon(t) {
        assert forall|i: int, j: int|
            0 <= i < j < t.len() && #[trigger] t[i] == ';' implies crate::text::is_white(#[trigger] t[j]) by {
            let f = first_semicolon(t, i);
            let rest = t.subrange(f + 1, t.len() as int);
            assert(crate::text::trim(rest).len() == 0);
            crate::text::lemma_trim_bounds(rest);
            assert(rest[j - f - 1] == t[j]);
        }
    }
}

/// What a statement is explained as, in the terms of a search for the first
/// semicolon of the trimmed text: refused when the text is blank or something
/// other than white space follows that semicolon, wrapped otherwise.
pub proof fn lemma_explain_follows_the_first_semicolon(statement: Seq<char>)
    ensures
        explain_of(statement) == if crate::text::trim(statement).len() == 0 || !blank_after_first_semicolon(
            crate::text::trim(statement),
        ) {
            None
        } else {
            Some(EXPLAIN_PREFIX@ + crate::text::trim(statement))
        },
{
    lemma_single_statement_is_the_first_semicolon_rule(crate::text::trim(statement));
}

/// The `EXPLAIN` for a statement, or `None` when it is empty or is more than
/// one statement.
pub open spec fn explain_of(statement: Seq<char>) -> Option<Seq<char>> {
    let t = crate::text::trim(statement);
    if t.len() > 0 && single_statement(t) {
        Some(EXPLAIN_PREFIX@ + t)
    } else {
        None
    }
}

/// Wraps a statement for explaining, or refuses it.
///
/// `EXPLAIN` takes a statement rather than a string, so the text cannot be
/// passed as a parameter and has to be composed into SQL. The refusal below is
/// what stops that becoming a second statement: everything after the first
/// semicolon must be whitespace. The text itself comes from
/// `pg_stat_statements` on the same server and is normalised, so it carries no
/// literals — but refusing costs nothing, and the alternative is trusting that
/// permanently.
pub fn explain_sql(statement: &str) -> (r: Option<String>)
    ensures
        r.is_some() == explain_of(statement@).is_some(),
        r.is_some() ==> r.unwrap()@ == explain_of(statement@).unwrap(),
{
    let v = chars_of(statement);
    let (start, end) = trim_bounds(&v);
    let ghost t = v@.subrange(start as int, end as int);
    if start == end {
        return None;
    }
    let mut seen_semicolon = false;
    let mut k = start;
    while k < end
        invariant
            start <= k <= end <= v@.len(),
            t == v@.subrange(start as int, end as int),
            t == crate::text::trim(statement@),
            seen_semicolon == exists|i: int| start <= i < k && v@[i] == ';',
            forall|i: int, j: int|
                start <= i < j < k && #[trigger] v@[i] == ';' ==> crate::text::is_white(#[trigger] v@[j]),
        decreases end - k,
    {
        let c = v[k];
        if seen_semicolon && !is_white_space(c) {
            proof {
                let i = choose|i: int| start <= i < k && v@[i] == ';';
                assert(t[i - start] == ';' && t[k - start] == c);
                assert(!crate::text::is_white(t[k - start]));
                assert(!single_statement(t));
                assert(t == crate::text::trim(statement@));
            }
            return None;
        }
        if c == ';' {
            seen_semicolon = true;
        }
        k = k + 1;
    }
    assert(single_statement(t)) by {
        assert forall|i: int, j: int| 0 <= i < j < t.len() && #[trigger] t[i] == ';' implies crate::text::is_white(
            #[trigger] t[j],
        ) by {
            assert(t[i] == v@[start + i] && t[j] == v@[start + j]);
        }
    }
    let mut out = String::from_str(EXPLAIN_PREFIX);
    let mut m = start;
    while m < end
        invariant
            start <= m <= end <= v@.len(),
            out@ == EXPLAIN_PREFIX@ + v@.subrange(start as int, m as int),
        decreases end - m,
    {
        push_char(&mut out, v[m]);
        assert(v@.subrange(start as int, m + 1) =~= v@.subrange(start as int, m as int).push(v@[m as int]));
        m = m + 1;
    }
    Some(out)
}

/// `ANALYZE`, which would run the statement, is never added: an explained
/// statement names it only where the statement itself does.
pub proof fn lemma_explain_adds_no_analyze(statement: Seq<char>)
    ensures
        explain_of(statement) is Some && has_text(explain_of(statement).unwrap(), "ANALYZE"@) ==> has_text(
            statement,
            "ANALYZE"@,
        ),
{
    let t = crate::text::trim(statement);
    let q = EXPLAIN_PREFIX@ + t;
    let p = "ANALYZE"@;
    reveal_strlit("EXPLAIN (GENERIC_PLAN, FORMAT JSON) ");
    reveal_strlit("ANALYZE");
    if explain_of(statement) is Some && has_text(q, p) {
        let n = EXPLAIN_PREFIX@.len() as int;
        let i = choose|i: int| 0 <= i && i + p.len() <= q.len() && #[trigger] q.subrange(i, i + p.len()) == p;
        let w = q.subrange(i, i + p.len());
        assert(w[0] == q[i] && w[1] == q[i + 1] && w[2] == q[i + 2]);
        assert(p[0] == 'A' && p[1] == 'N' && p[2] == 'A');
        if i < n {
            assert(!(q[i] == 'A' && q[i + 1] == 'N' && q[i + 2] == 'A'));
        }
        assert(t.subrange(i - n, i - n + p.len()) =~= p);
        lemma_has_text_at(t, p, i - n);
        lemma_trim_is_within(statement);
        lemma_has_text_within(statement, t, p);
    }
}

} // verus!
