//! Classifying the sessions `pg_stat_activity` reports.

use vstd::prelude::*;

use super::snapshot::{Session, SessionCounts};
use crate::text::{has_prefix, same_text};

verus! {

/// Which count a session falls in: 0 active, 1 idle, 2 idle in a
/// transaction (aborted or not), 3 anything else, including no state.
pub open spec fn state_class(session: Session) -> int {
    match session.state {
        Some(state) => if state@ == "active"@ {
            0
        } else if state@ == "idle"@ {
            1
        } else if "idle in transaction"@.is_prefix_of(state@) {
            2
        } else {
            3
        },
        None => 3,
    }
}

/// How many of `sessions` fall in `class`.
pub open spec fn count_in(sessions: Seq<Session>, class: int) -> nat
    decreases sessions.len(),
{
    if sessions.len() == 0 {
        0
    } else {
        count_in(sessions.drop_last(), class) + if state_class(sessions.last()) == class {
            1nat
        } else {
            0nat
        }
    }
}

pub fn count_sessions(sessions: &[Session]) -> (counts: SessionCounts)
    ensures
        counts.active == count_in(sessions@, 0),
        counts.idle == count_in(sessions@, 1),
        counts.idle_in_transaction == count_in(sessions@, 2),
        counts.other == count_in(sessions@, 3),
{
    let mut counts = SessionCounts { active: 0, idle: 0, idle_in_transaction: 0, other: 0 };
    let mut k: usize = 0;
    assert(sessions@.take(0) =~= Seq::<Session>::empty());
    while k < sessions.len()
        invariant
            k <= sessions@.len(),
            counts.active == count_in(sessions@.take(k as int), 0),
            counts.idle == count_in(sessions@.take(k as int), 1),
            counts.idle_in_transaction == count_in(sessions@.take(k as int), 2),
            counts.other == count_in(sessions@.take(k as int), 3),
        decreases sessions@.len() - k,
    {
        proof {
            lemma_count_partition(sessions@.take(k as int));
            assert(sessions@.take(k + 1).drop_last() =~= sessions@.take(k as int));
        }
        let class: u8 = match &sessions[k].state {
            Some(state) => if same_text(state.as_str(), "active") {
                0
            } else if same_text(state.as_str(), "idle") {
                1
            } else if has_prefix(state.as_str(), "idle in transaction") {
                2
            } else {
                3
            },
            None => 3,
        };
        assert(class as int == state_class(sessions@[k as int]));
        if class == 0 {
            counts.active = counts.active + 1;
        } else if class == 1 {
            counts.idle = counts.idle + 1;
        } else if class == 2 {
            counts.idle_in_transaction = counts.idle_in_transaction + 1;
        } else {
            counts.other = counts.other + 1;
        }
        k = k + 1;
    }
    assert(sessions@.take(sessions@.len() as int) =~= sessions@);
    counts
}

/// Every session is counted exactly once: the four counts add up to the
/// number of sessions.
pub proof fn lemma_count_partition(sessions: Seq<Session>)
    ensures
        count_in(sessions, 0) + count_in(sessions, 1) + count_in(sessions, 2) + count_in(sessions, 3)
            == sessions.len(),
    decreases sessions.len(),
{
    if sessions.len() > 0 {
        lemma_count_partition(sessions.drop_last());
    }
}

} // verus!
