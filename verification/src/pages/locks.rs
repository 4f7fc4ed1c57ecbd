//! The Locks page's view of the chains: one line per node, indented by depth.

use vstd::prelude::*;

use crate::collector::locks::{same_participant, LockNode, LockParticipant};
use crate::collector::snapshot::Session;
use crate::text::{append, decimal, write_decimal};

verus! {

/// One rendered line: a participant plus how deep it sits, so the first
/// column can indent it. The forest is flattened depth first and the depth
/// carries the shape.
#[derive(Debug)]
pub struct LockRow {
    pub depth: usize,
    pub participant: LockParticipant,
    pub in_cycle: bool,
    pub is_stub: bool,
}

/// The lines of `nodes` at `depth`, depth first: each node, followed by the
/// lines of its children one level deeper.
pub open spec fn lines_of(nodes: Seq<LockNode>, depth: int) -> Seq<(int, LockNode)>
    decreases nodes,
{
    if nodes.len() == 0 {
        Seq::empty()
    } else {
        lines_of_node(nodes[0], depth) + lines_of(nodes.drop_first(), depth)
    }
}

/// The lines of one node at `depth`: itself, then its children below it.
pub open spec fn lines_of_node(node: LockNode, depth: int) -> Seq<(int, LockNode)>
    decreases node,
{
    seq![(depth, node)] + {
        proof {
            assert(decreases_to!(node => node.children));
        }
        lines_of(node.children@, depth + 1)
    }
}

/// How many levels `nodes` reach below them, counting their own.
pub open spec fn height_of(nodes: Seq<LockNode>) -> nat
    decreases nodes,
{
    if nodes.len() == 0 {
        0
    } else {
        let first = height_of_node(nodes[0]);
        let rest = height_of(nodes.drop_first());
        if first > rest {
            first
        } else {
            rest
        }
    }
}

/// How many levels `node` reaches, counting its own.
pub open spec fn height_of_node(node: LockNode) -> nat
    decreases node,
{
    1 + {
        proof {
            assert(decreases_to!(node => node.children));
        }
        height_of(node.children@)
    }
}

/// `row` is the line `line` rendered.
pub open spec fn row_is(row: LockRow, line: (int, LockNode)) -> bool {
    &&& row.depth == line.0
    &&& same_participant(row.participant, line.1.participant)
    &&& row.in_cycle == line.1.in_cycle
    &&& row.is_stub == line.1.is_stub
}

proof fn lemma_height_covers_each(nodes: Seq<LockNode>, i: int)
    requires
        0 <= i < nodes.len(),
    ensures
        height_of_node(nodes[i]) <= height_of(nodes),
    decreases nodes.len(),
{
    if i > 0 {
        lemma_height_covers_each(nodes.drop_first(), i - 1);
        assert(nodes.drop_first()[i - 1] == nodes[i]);
    }
}

proof fn lemma_lines_split(nodes: Seq<LockNode>, k: int, depth: int)
    requires
        0 <= k < nodes.len(),
    ensures
        lines_of(nodes.take(k + 1), depth) == lines_of(nodes.take(k), depth) + lines_of_node(nodes[k], depth),
    decreases k,
{
    let first = nodes.take(k + 1);
    if k == 0 {
        assert(first.drop_first() =~= Seq::<LockNode>::empty());
        assert(nodes.take(0) =~= Seq::<LockNode>::empty());
        assert(lines_of(first.drop_first(), depth) =~= Seq::<(int, LockNode)>::empty());
        assert(lines_of(first, depth) =~= lines_of_node(nodes[0], depth));
    } else {
        let tail = nodes.drop_first();
        lemma_lines_split(tail, k - 1, depth);
        assert(first.drop_first() =~= tail.take(k));
        assert(nodes.take(k).drop_first() =~= tail.take(k - 1));
        assert(tail[k - 1] == nodes[k]);
        assert(first[0] == nodes[0]);
        assert(nodes.take(k)[0] == nodes[0]);
    }
}

fn copy_participant(p: &LockParticipant) -> (r: LockParticipant)
    ensures
        same_participant(r, *p),
{
    p.clone()
}

/// Appends the lines of `node` at `depth`.
fn push_node(node: &LockNode, depth: usize, rows: &mut Vec<LockRow>)
    requires
        depth + height_of_node(*node) <= usize::MAX,
    ensures
        final(rows)@.len() == old(rows)@.len() + lines_of_node(*node, depth as int).len(),
        forall|k: int| 0 <= k < old(rows)@.len() ==> #[trigger] final(rows)@[k] == old(rows)@[k],
        forall|k: int|
            0 <= k < lines_of_node(*node, depth as int).len() ==> row_is(
                #[trigger] final(rows)@[old(rows)@.len() + k],
                lines_of_node(*node, depth as int)[k],
            ),
    decreases node,
{
    let ghost start = rows@;
    rows.push(
        LockRow {
            depth,
            participant: copy_participant(&node.participant),
            in_cycle: node.in_cycle,
            is_stub: node.is_stub,
        },
    );
    let children = &node.children;
    let mut i: usize = 0;
    assert(children@.take(0) =~= Seq::<LockNode>::empty());
    while i < children.len()
        invariant
            i <= children@.len(),
            children@ == node.children@,
            depth + height_of_node(*node) <= usize::MAX,
            rows@.len() == start.len() + 1 + lines_of(children@.take(i as int), depth + 1).len(),
            forall|k: int| 0 <= k < start.len() ==> #[trigger] rows@[k] == start[k],
            row_is(rows@[start.len() as int], (depth as int, *node)),
            forall|k: int|
                0 <= k < lines_of(children@.take(i as int), depth + 1).len() ==> row_is(
                    #[trigger] rows@[start.len() + 1 + k],
                    lines_of(children@.take(i as int), depth + 1)[k],
                ),
        decreases children@.len() - i,
    {
        proof {
            lemma_height_covers_each(children@, i as int);
            lemma_lines_split(children@, i as int, depth + 1);
        }
        let ghost before = rows@;
        push_node(&children[i], depth + 1, rows);
        proof {
            let done = lines_of(children@.take(i as int), depth + 1);
            let added = lines_of_node(children@[i as int], depth + 1);
            assert forall|k: int| 0 <= k < done.len() + added.len() implies row_is(
                #[trigger] rows@[start.len() + 1 + k],
                (done + added)[k],
            ) by {
                if k < done.len() {
                    assert(rows@[start.len() + 1 + k] == before[start.len() + 1 + k]);
                } else {
                    assert(rows@[before.len() + (k - done.len())] == rows@[start.len() + 1 + k]);
                }
            }
        }
        i = i + 1;
    }
    proof {
        assert(children@.take(i as int) =~= node.children@);
        let mine = lines_of_node(*node, depth as int);
        assert(mine =~= seq![(depth as int, *node)] + lines_of(node.children@, depth + 1));
        assert forall|k: int| 0 <= k < mine.len() implies row_is(#[trigger] rows@[start.len() + k], mine[k]) by {
            if k > 0 {
                assert(rows@[start.len() + k] == rows@[start.len() + 1 + (k - 1)]);
            }
        }
    }
}

/// The forest as lines, depth first: each node followed by everything it
/// blocks, one level deeper.
pub fn flatten(forest: &[LockNode]) -> (rows: Vec<LockRow>)
    requires
        height_of(forest@) <= usize::MAX,
    ensures
        rows@.len() == lines_of(forest@, 0).len(),
        forall|k: int| 0 <= k < rows@.len() ==> row_is(#[trigger] rows@[k], lines_of(forest@, 0)[k]),
{
    let mut rows: Vec<LockRow> = Vec::new();
    let mut i: usize = 0;
    assert(forest@.take(0) =~= Seq::<LockNode>::empty());
    while i < forest.len()
        invariant
            i <= forest@.len(),
            height_of(forest@) <= usize::MAX,
            rows@.len() == lines_of(forest@.take(i as int), 0).len(),
            forall|k: int|
                0 <= k < rows@.len() ==> row_is(#[trigger] rows@[k], lines_of(forest@.take(i as int), 0)[k]),
        decreases forest@.len() - i,
    {
        proof {
            lemma_height_covers_each(forest@, i as int);
            lemma_lines_split(forest@, i as int, 0);
        }
        let ghost before = rows@;
        push_node(&forest[i], 0, &mut rows);
        proof {
            let done = lines_of(forest@.take(i as int), 0);
            let added = lines_of_node(forest@[i as int], 0);
            assert forall|k: int| 0 <= k < done.len() + added.len() implies row_is(
                #[trigger] rows@[k],
                (done + added)[k],
            ) by {
                if k < done.len() {
                    assert(rows@[k] == before[k]);
                } else {
                    assert(rows@[before.len() + (k - done.len())] == rows@[k]);
                }
            }
        }
        i = i + 1;
    }
    assert(forest@.take(i as int) =~= forest@);
    rows
}

/// Whether the action bar may act on this row. A stub's backend was already
/// gone when the sample was taken, so signalling it could only ever report
/// that it was no longer running.
pub fn actions_available(row: &LockRow, signal_allowed: bool) -> (available: bool)
    ensures
        available == (signal_allowed && !row.is_stub),
{
    signal_allowed && !row.is_stub
}

/// The session the action bar acts on for a selected line: nothing for a
/// stub, whose backend had already gone; otherwise the participant's pid and
/// what the sample knows of it.
pub open spec fn session_of_row(row: LockRow) -> Option<Session> {
    if row.is_stub {
        None
    } else {
        Some(
            Session {
                pid: row.participant.pid,
                user_name: row.participant.user_name,
                application_name: None,
                client_addr: None,
                database: row.participant.database,
                state: row.participant.state,
                wait_event_type: None,
                wait_event: None,
                backend_type: None,
                query: row.participant.query,
            },
        )
    }
}

fn copy_text(text: &Option<String>) -> (r: Option<String>)
    ensures
        r == *text,
{
    match text {
        Some(s) => Some(s.clone()),
        None => None,
    }
}

/// The session the action bar acts on for a selected line.
pub fn selected_session(row: &LockRow) -> (session: Option<Session>)
    ensures
        session == session_of_row(*row),
{
    if row.is_stub {
        return None;
    }
    Some(
        Session {
            pid: row.participant.pid,
            user_name: copy_text(&row.participant.user_name),
            application_name: None,
            client_addr: None,
            database: copy_text(&row.participant.database),
            state: copy_text(&row.participant.state),
            wait_event_type: None,
            wait_event: None,
            backend_type: None,
            query: copy_text(&row.participant.query),
        },
    )
}

/// The notice shown when the lock inventory is cut short: how many of how
/// many are on screen.
pub open spec fn truncation_text(shown: usize, total: i64) -> Option<Seq<char>> {
    if total > shown {
        Some("Showing "@ + decimal(shown as int) + " of "@ + decimal(total as int) + " locks"@)
    } else {
        None
    }
}

/// The truncation notice, or `None` when the whole inventory is on screen.
pub fn truncation_notice(shown: usize, total: i64) -> (notice: Option<String>)
    ensures
        notice.is_some() == truncation_text(shown, total).is_some(),
        notice.is_some() ==> notice.unwrap()@ == truncation_text(shown, total).unwrap(),
{
    if (total as i128) > (shown as i128) {
        let mut text = String::new();
        append(&mut text, "Showing ");
        write_decimal(shown as u128, &mut text);
        append(&mut text, " of ");
        write_decimal(total as u128, &mut text);
        append(&mut text, " locks");
        Some(text)
    } else {
        None
    }
}

} // verus!
