//! Arranging blocked backends into the chains they form.
//!
//! Each row names the backends that block it. The forest puts every blocker
//! at a root and every waiter under each backend that blocks it, so a waiter
//! blocked by two others appears under both.

use std::collections::HashSet;

use vstd::prelude::*;

verus! {

broadcast use vstd::std_specs::hash::group_hash_axioms;

/// One backend involved in a lock conflict: either waiting, or blocking
/// somebody who is. How long it has waited is kept beside the sample, not
/// here, since the chains do not depend on it.
#[derive(Debug, PartialEq)]
pub struct LockParticipant {
    pub pid: i32,
    /// From `pg_blocking_pids`. Empty for a backend that blocks others
    /// without waiting itself, which is the usual shape of a chain's root.
    pub blocked_by: Vec<i32>,
    pub waiting: bool,
    pub lock_mode: Option<String>,
    pub relation: Option<String>,
    pub user_name: Option<String>,
    pub database: Option<String>,
    pub state: Option<String>,
    /// `None` when the connected role lacks `pg_monitor` and the backend
    /// belongs to another user.
    pub query: Option<String>,
}

fn copy_text(text: &Option<String>) -> (r: Option<String>)
    ensures
        r == *text,
{
    match text {
        Some(s) => Some(s.clone()),
        None => None,
    }
}

fn copy_pids(pids: &Vec<i32>) -> (r: Vec<i32>)
    ensures
        r@ == pids@,
{
    let mut out: Vec<i32> = Vec::new();
    let mut k: usize = 0;
    while k < pids.len()
        invariant
            k <= pids.len(),
            out@ == pids@.take(k as int),
        decreases pids.len() - k,
    {
        out.push(pids[k]);
        k = k + 1;
        assert(out@ =~= pids@.take(k as int));
    }
    assert(pids@.take(k as int) =~= pids@);
    out
}

impl Clone for LockParticipant {
    fn clone(&self) -> (r: Self)
        ensures
            r.pid == self.pid,
            r.blocked_by@ == self.blocked_by@,
            r.waiting == self.waiting,
            r.lock_mode == self.lock_mode,
            r.relation == self.relation,
            r.user_name == self.user_name,
            r.database == self.database,
            r.state == self.state,
            r.query == self.query,
    {
        LockParticipant {
            pid: self.pid,
            blocked_by: copy_pids(&self.blocked_by),
            waiting: self.waiting,
            lock_mode: copy_text(&self.lock_mode),
            relation: copy_text(&self.relation),
            user_name: copy_text(&self.user_name),
            database: copy_text(&self.database),
            state: copy_text(&self.state),
            query: copy_text(&self.query),
        }
    }
}

/// Two participants carry the same fields.
pub open spec fn same_participant(a: LockParticipant, b: LockParticipant) -> bool {
    &&& a.pid == b.pid
    &&& a.blocked_by@ == b.blocked_by@
    &&& a.waiting == b.waiting
    &&& a.lock_mode == b.lock_mode
    &&& a.relation == b.relation
    &&& a.user_name == b.user_name
    &&& a.database == b.database
    &&& a.state == b.state
    &&& a.query == b.query
}

/// A blocker that vanished between the two halves of the query: only its pid
/// is known, and every other field is empty.
pub open spec fn is_stub_of(p: LockParticipant, pid: i32) -> bool {
    &&& p.pid == pid
    &&& p.blocked_by@.len() == 0
    &&& !p.waiting
    &&& p.lock_mode is None
    &&& p.relation is None
    &&& p.user_name is None
    &&& p.database is None
    &&& p.state is None
    &&& p.query is None
}

/// A blocker that vanished between the two halves of the query. Only the pid
/// is known, and the page must say so rather than invent fields.
pub fn stub_participant(pid: i32) -> (p: LockParticipant)
    ensures
        is_stub_of(p, pid),
{
    LockParticipant {
        pid,
        blocked_by: Vec::new(),
        waiting: false,
        lock_mode: None,
        relation: None,
        user_name: None,
        database: None,
        state: None,
        query: None,
    }
}

/// A node in a blocked chain. `children` are the backends this one blocks.
#[derive(Debug)]
pub struct LockNode {
    pub participant: LockParticipant,
    pub children: Vec<LockNode>,
    /// Set when this node's chain closes on itself. The server resolves real
    /// deadlocks; a sample can still catch one mid-flight.
    pub in_cycle: bool,
    /// Set when the blocker was named by `pg_blocking_pids` but had gone by
    /// the time the rest of the row was read.
    pub is_stub: bool,
}

/// `row` waits on the backend `pid`.
pub open spec fn blocks(row: LockParticipant, pid: i32) -> bool {
    row.blocked_by@.contains(pid)
}

/// Some row of the sample is the backend `pid`.
pub open spec fn has_row(rows: Seq<LockParticipant>, pid: i32) -> bool {
    exists|i: int| 0 <= i < rows.len() && rows[i].pid == pid
}

/// How many rows have a pid that is not on `path`. Every step down a branch
/// puts one more such pid on the path, so this bounds how deep a branch goes.
pub open spec fn uncovered(rows: Seq<LockParticipant>, path: Set<i32>) -> nat
    decreases rows.len(),
{
    if rows.len() == 0 {
        0
    } else {
        uncovered(rows.drop_last(), path) + if path.contains(rows.last().pid) {
            0nat
        } else {
            1nat
        }
    }
}

proof fn lemma_push_contains(path: Seq<i32>, p: i32, x: i32)
    ensures
        path.push(p).contains(x) <==> (path.contains(x) || x == p),
{
    if path.contains(x) {
        let i = choose|i: int| 0 <= i < path.len() && path[i] == x;
        assert(path.push(p)[i] == x);
    }
    if x == p {
        assert(path.push(p)[path.len() as int] == p);
    }
    if path.push(p).contains(x) && x != p {
        let i = choose|i: int| 0 <= i < path.len() + 1 && path.push(p)[i] == x;
        assert(i < path.len());
        assert(path[i] == x);
    }
}

/// Putting a pid on the path never uncovers a row, and putting on a row's
/// pid that was not there covers at least that row.
pub proof fn lemma_uncovered_insert(rows: Seq<LockParticipant>, path: Set<i32>, p: i32)
    ensures
        uncovered(rows, path.insert(p)) <= uncovered(rows, path),
        !path.contains(p) && has_row(rows, p) ==> uncovered(rows, path.insert(p)) < uncovered(
            rows,
            path,
        ),
    decreases rows.len(),
{
    if rows.len() > 0 {
        let init = rows.drop_last();
        lemma_uncovered_insert(init, path, p);
        if !path.contains(p) && has_row(rows, p) && rows.last().pid != p {
            let i = choose|i: int| 0 <= i < rows.len() && rows[i].pid == p;
            assert(i < rows.len() - 1);
            assert(init[i].pid == p);
            assert(has_row(init, p));
        }
    }
}

/// `nodes` are what the rows from index `j` on contribute under `pid`, with
/// `path` the pids already on the branch: one node for each row blocked by
/// `pid`, in row order.
pub open spec fn children_match(
    rows: Seq<LockParticipant>,
    pid: i32,
    path: Set<i32>,
    j: int,
    nodes: Seq<LockNode>,
) -> bool
    decreases uncovered(rows, path), rows.len() - j, 1int,
{
    if j < 0 || j >= rows.len() {
        nodes.len() == 0
    } else if blocks(rows[j], pid) {
        &&& nodes.len() > 0
        &&& node_match(rows, j, path, nodes[0])
        &&& children_match(rows, pid, path, j + 1, nodes.drop_first())
    } else {
        children_match(rows, pid, path, j + 1, nodes)
    }
}

/// `node` is row `j` placed below the end of `path`: if its pid is already
/// on the path the chain has closed on itself and stops there, flagged;
/// otherwise it carries everything it blocks in turn.
pub open spec fn node_match(rows: Seq<LockParticipant>, j: int, path: Set<i32>, node: LockNode) -> bool
    decreases uncovered(rows, path), rows.len() - j, 0int,
{
    &&& 0 <= j < rows.len()
    &&& same_participant(node.participant, rows[j])
    &&& !node.is_stub
    &&& if path.contains(rows[j].pid) {
        node.in_cycle && node.children@.len() == 0
    } else {
        &&& !node.in_cycle
        &&& {
            proof {
                assert(has_row(rows, rows[j].pid));
                lemma_uncovered_insert(rows, path, rows[j].pid);
            }
            children_match(rows, rows[j].pid, path.insert(rows[j].pid), 0, node.children@)
        }
    }
}

fn holds_pid(pids: &Vec<i32>, pid: i32) -> (r: bool)
    ensures
        r == pids@.contains(pid),
{
    let mut k: usize = 0;
    while k < pids.len()
        invariant
            k <= pids.len(),
            forall|m: int| 0 <= m < k ==> pids@[m] != pid,
        decreases pids.len() - k,
    {
        if pids[k] == pid {
            assert(pids@[k as int] == pid);
            return true;
        }
        k = k + 1;
    }
    false
}

/// Row `j` placed below the end of `path`, with everything it blocks.
fn node_for(rows: &[LockParticipant], j: usize, path: &mut HashSet<i32>) -> (node: LockNode)
    requires
        j < rows.len(),
    ensures
        node_match(rows@, j as int, old(path)@, node),
        final(path)@ == old(path)@,
    decreases uncovered(rows@, old(path)@), rows@.len() - j, 0int,
{
    let row = &rows[j];
    if path.contains(&row.pid) {
        LockNode { participant: row.clone(), children: Vec::new(), in_cycle: true, is_stub: false }
    } else {
        proof {
            assert(has_row(rows@, rows@[j as int].pid));
            lemma_uncovered_insert(rows@, path@, row.pid);
        }
        let ghost before = path@;
        path.insert(row.pid);
        let children = children_of(rows, row.pid, path);
        path.remove(&row.pid);
        assert(path@ =~= before);
        LockNode { participant: row.clone(), children, in_cycle: false, is_stub: false }
    }
}

/// Everything blocked directly by `pid`, recursively. `path` carries the pids
/// already on this branch so a cycle stops instead of recursing forever.
fn children_of(rows: &[LockParticipant], pid: i32, path: &mut HashSet<i32>) -> (nodes: Vec<LockNode>)
    ensures
        children_match(rows@, pid, old(path)@, 0, nodes@),
        final(path)@ == old(path)@,
    decreases uncovered(rows@, old(path)@), rows@.len(), 1int,
{
    let ghost start = path@;
    let mut nodes: Vec<LockNode> = Vec::new();
    let mut j: usize = 0;
    while j < rows.len()
        invariant
            j <= rows.len(),
            path@ == start,
            start == old(path)@,
            forall|rest: Seq<LockNode>|
                children_match(rows@, pid, start, j as int, rest) ==> #[trigger] children_match(
                    rows@,
                    pid,
                    start,
                    0,
                    nodes@ + rest,
                ),
        decreases rows.len() - j,
    {
        if holds_pid(&rows[j].blocked_by, pid) {
            let node = node_for(rows, j, path);
            let ghost before = nodes@;
            nodes.push(node);
            assert forall|rest: Seq<LockNode>|
                children_match(rows@, pid, start, j + 1, rest) implies #[trigger] children_match(
                rows@,
                pid,
                start,
                0,
                nodes@ + rest,
            ) by {
                let longer = seq![node] + rest;
                assert(longer[0] == node);
                assert(longer.drop_first() =~= rest);
                assert(children_match(rows@, pid, start, j as int, longer));
                assert(before + longer =~= nodes@ + rest);
            }
        } else {
            assert forall|rest: Seq<LockNode>|
                children_match(rows@, pid, start, j + 1, rest) implies #[trigger] children_match(
                rows@,
                pid,
                start,
                0,
                nodes@ + rest,
            ) by {
                assert(children_match(rows@, pid, start, j as int, rest));
            }
        }
        j = j + 1;
    }
    assert(children_match(rows@, pid, start, j as int, Seq::<LockNode>::empty()));
    assert(nodes@ + Seq::<LockNode>::empty() =~= nodes@);
    nodes
}

/// Where a root of the forest comes from: a row that waits on nobody, or a
/// blocker that had gone by the time the rows were read.
pub enum RootOrigin {
    Row(int),
    Stub(i32),
}

/// `pid` is named as a blocker before position `k` of row `i`'s list, or in
/// the list of an earlier row.
pub open spec fn named_before(rows: Seq<LockParticipant>, i: int, k: int, pid: i32) -> bool {
    ||| exists|k2: int| 0 <= k2 < k && k2 < rows[i].blocked_by@.len() && rows[i].blocked_by@[k2] == pid
    ||| exists|i2: int, k2: int|
        0 <= i2 < i && 0 <= k2 < rows[i2].blocked_by@.len() && rows[i2].blocked_by@[k2] == pid
}

/// The stub roots that the first `k` blockers of row `i` add: one for each
/// blocker that is no row of the sample and has not been named before.
pub open spec fn stub_roots(rows: Seq<LockParticipant>, i: int, k: int) -> Seq<RootOrigin>
    decreases k,
{
    if k <= 0 {
        Seq::empty()
    } else {
        let b = rows[i].blocked_by@[k - 1];
        stub_roots(rows, i, k - 1) + if !has_row(rows, b) && !named_before(rows, i, k - 1, b) {
            seq![RootOrigin::Stub(b)]
        } else {
            Seq::empty()
        }
    }
}

/// The roots that row `i` adds: itself when it waits on nobody, otherwise
/// the blockers of its that have gone.
pub open spec fn row_roots(rows: Seq<LockParticipant>, i: int) -> Seq<RootOrigin> {
    if rows[i].blocked_by@.len() == 0 {
        seq![RootOrigin::Row(i)]
    } else {
        stub_roots(rows, i, rows[i].blocked_by@.len() as int)
    }
}

/// The roots that the first `i` rows add, in row order.
pub open spec fn roots_upto(rows: Seq<LockParticipant>, i: int) -> Seq<RootOrigin>
    decreases i,
{
    if i <= 0 {
        Seq::empty()
    } else {
        roots_upto(rows, i - 1) + row_roots(rows, i - 1)
    }
}

/// `row` waits on some backend whose pid is in `reached`.
pub open spec fn waits_on_one_of(row: LockParticipant, reached: Set<i32>) -> bool {
    exists|k: int| 0 <= k < row.blocked_by@.len() && reached.contains(#[trigger] row.blocked_by@[k])
}

/// `reached`, with the pid of every row that waits on one of them: one step
/// further down every chain.
pub open spec fn reach_step(rows: Seq<LockParticipant>, reached: Set<i32>) -> Set<i32> {
    reached.union(
        Set::new(
            |p: i32| exists|j: int| 0 <= j < rows.len() && rows[j].pid == p && #[trigger] waits_on_one_of(rows[j], reached),
        ),
    )
}

/// `reached` after `n` steps down the chains.
pub open spec fn reach_within(rows: Seq<LockParticipant>, reached: Set<i32>, n: nat) -> Set<i32>
    decreases n,
{
    if n == 0 {
        reached
    } else {
        reach_step(rows, reach_within(rows, reached, (n - 1) as nat))
    }
}

/// What hangs below the backends `reached`: as many steps down the chains as
/// there are rows, which is as deep as any chain of the sample goes.
pub open spec fn shown_below(rows: Seq<LockParticipant>, reached: Set<i32>) -> Set<i32> {
    reach_within(rows, reached, rows.len())
}

/// The pid a root stands for: its row's, or the vanished blocker's.
pub open spec fn origin_pid(rows: Seq<LockParticipant>, origin: RootOrigin) -> i32 {
    match origin {
        RootOrigin::Row(i) => rows[i].pid,
        RootOrigin::Stub(b) => b,
    }
}

/// The pids the roots in `roots` stand for.
pub open spec fn root_pids(rows: Seq<LockParticipant>, roots: Seq<RootOrigin>) -> Set<i32> {
    Set::new(|p: i32| exists|t: int| 0 <= t < roots.len() && #[trigger] origin_pid(rows, roots[t]) == p)
}

/// Row `m` has the lowest pid of the rows that `reached` does not hold, and
/// is the first such row with it.
pub open spec fn lowest_unreached(rows: Seq<LockParticipant>, reached: Set<i32>, m: int) -> bool {
    &&& 0 <= m < rows.len()
    &&& !reached.contains(rows[m].pid)
    &&& forall|j: int| 0 <= j < rows.len() && !reached.contains(#[trigger] rows[j].pid) ==> rows[m].pid <= rows[j].pid
    &&& forall|j: int| 0 <= j < m && !reached.contains(#[trigger] rows[j].pid) ==> rows[j].pid > rows[m].pid
}

/// The rows promoted to roots, given the backends already `reached`: while
/// some row hangs below none of them, the lowest such pid is promoted and
/// what hangs below it counts as reached. Such a row sits in, or below, a
/// chain that closes on itself and has no root of its own.
pub open spec fn promoted(rows: Seq<LockParticipant>, reached: Set<i32>, fuel: nat) -> Seq<RootOrigin>
    decreases fuel,
{
    let shown = shown_below(rows, reached);
    if fuel == 0 || !(exists|m: int| lowest_unreached(rows, shown, m)) {
        Seq::empty()
    } else {
        let m = choose|m: int| lowest_unreached(rows, shown, m);
        seq![RootOrigin::Row(m)] + promoted(rows, shown.insert(rows[m].pid), (fuel - 1) as nat)
    }
}

/// What is reached once the promotions are done.
pub open spec fn reached_after(rows: Seq<LockParticipant>, reached: Set<i32>, fuel: nat) -> Set<i32>
    decreases fuel,
{
    let shown = shown_below(rows, reached);
    if fuel == 0 || !(exists|m: int| lowest_unreached(rows, shown, m)) {
        shown
    } else {
        let m = choose|m: int| lowest_unreached(rows, shown, m);
        reached_after(rows, shown.insert(rows[m].pid), (fuel - 1) as nat)
    }
}

/// The roots every row of the sample hangs from before any promotion.
pub open spec fn found_roots(rows: Seq<LockParticipant>) -> Seq<RootOrigin> {
    roots_upto(rows, rows.len() as int)
}

/// The roots of the forest: the backends nobody blocks, then, for each chain
/// that closes on itself and so has no root, its lowest pid, so the chain is
/// shown rather than lost.
pub open spec fn forest_roots(rows: Seq<LockParticipant>) -> Seq<RootOrigin> {
    found_roots(rows) + promoted(rows, root_pids(rows, found_roots(rows)), rows.len())
}

/// `node` is the tree grown from `origin`: the row itself, or a stub carrying
/// only the vanished pid, with everything it blocks below it.
pub open spec fn root_match(rows: Seq<LockParticipant>, origin: RootOrigin, node: LockNode) -> bool {
    match origin {
        RootOrigin::Row(i) => {
            &&& 0 <= i < rows.len()
            &&& same_participant(node.participant, rows[i])
            &&& !node.is_stub
            &&& !node.in_cycle
            &&& children_match(rows, rows[i].pid, set![rows[i].pid], 0, node.children@)
        },
        RootOrigin::Stub(b) => {
            &&& is_stub_of(node.participant, b)
            &&& node.is_stub
            &&& !node.in_cycle
            &&& children_match(rows, b, set![b], 0, node.children@)
        },
    }
}

enum RootPick {
    Row(usize),
    Stub(i32),
}

spec fn rows_in_range(picks: Seq<RootPick>, n: int) -> bool {
    forall|q: int| 0 <= q < picks.len() ==> (#[trigger] picks[q] matches RootPick::Row(i) ==> i < n)
}

spec fn origin_of(pick: RootPick) -> RootOrigin {
    match pick {
        RootPick::Row(i) => RootOrigin::Row(i as int),
        RootPick::Stub(b) => RootOrigin::Stub(b),
    }
}

/// The pids of the rows of the sample.
pub open spec fn row_pid_set(rows: Seq<LockParticipant>) -> Set<i32> {
    Set::new(|p: i32| has_row(rows, p))
}

fn pid_set(rows: &[LockParticipant]) -> (set: HashSet<i32>)
    ensures
        set@ == row_pid_set(rows@),
{
    let mut set: HashSet<i32> = HashSet::new();
    let mut j: usize = 0;
    while j < rows.len()
        invariant
            j <= rows.len(),
            forall|p: i32| #[trigger] set@.contains(p) <==> exists|q: int| 0 <= q < j && rows@[q].pid == p,
        decreases rows.len() - j,
    {
        let ghost before = set@;
        set.insert(rows[j].pid);
        assert forall|p: i32| #[trigger] set@.contains(p) <==> exists|q: int| 0 <= q < j + 1 && rows@[q].pid == p by {
            if p == rows@[j as int].pid {
                assert(rows@[j as int].pid == p);
            } else if exists|q: int| 0 <= q < j + 1 && rows@[q].pid == p {
                let q = choose|q: int| 0 <= q < j + 1 && rows@[q].pid == p;
                assert(q < j);
            }
        }
        j = j + 1;
    }
    assert(set@ =~= row_pid_set(rows@));
    set
}

proof fn lemma_lowest_unreached_unique(rows: Seq<LockParticipant>, reached: Set<i32>, m: int)
    requires
        lowest_unreached(rows, reached, m),
    ensures
        (choose|x: int| lowest_unreached(rows, reached, x)) == m,
{
    let c = choose|x: int| lowest_unreached(rows, reached, x);
    assert(lowest_unreached(rows, reached, c));
    if c < m {
        assert(rows[c].pid > rows[m].pid);
    } else if c > m {
        assert(rows[m].pid > rows[c].pid);
    }
}

proof fn lemma_named_step(rows: Seq<LockParticipant>, i: int, k: int, x: i32)
    requires
        0 <= i < rows.len(),
        0 <= k < rows[i].blocked_by@.len(),
    ensures
        named_before(rows, i, k + 1, x) <==> named_before(rows, i, k, x) || rows[i].blocked_by@[k] == x,
{
    if rows[i].blocked_by@[k] == x {
        assert(0 <= k < k + 1 && rows[i].blocked_by@[k] == x);
    }
    if named_before(rows, i, k + 1, x) && rows[i].blocked_by@[k] != x {
        if exists|k2: int| 0 <= k2 < k + 1 && k2 < rows[i].blocked_by@.len() && rows[i].blocked_by@[k2] == x {
            let k2 = choose|k2: int| 0 <= k2 < k + 1 && k2 < rows[i].blocked_by@.len() && rows[i].blocked_by@[k2] == x;
            assert(k2 < k);
        }
    }
}

proof fn lemma_named_next_row(rows: Seq<LockParticipant>, i: int, x: i32)
    requires
        0 <= i < rows.len(),
    ensures
        named_before(rows, i + 1, 0, x) <==> named_before(rows, i, rows[i].blocked_by@.len() as int, x),
{
    let n = rows[i].blocked_by@.len() as int;
    if named_before(rows, i + 1, 0, x) {
        let (i2, k2) = choose|i2: int, k2: int|
            0 <= i2 < i + 1 && 0 <= k2 < rows[i2].blocked_by@.len() && rows[i2].blocked_by@[k2] == x;
        if i2 == i {
            assert(0 <= k2 < n && k2 < rows[i].blocked_by@.len() && rows[i].blocked_by@[k2] == x);
        } else {
            assert(0 <= i2 < i && 0 <= k2 < rows[i2].blocked_by@.len() && rows[i2].blocked_by@[k2] == x);
        }
    }
    if named_before(rows, i, n, x) {
        if exists|k2: int| 0 <= k2 < n && k2 < rows[i].blocked_by@.len() && rows[i].blocked_by@[k2] == x {
            let k2 = choose|k2: int| 0 <= k2 < n && k2 < rows[i].blocked_by@.len() && rows[i].blocked_by@[k2] == x;
            assert(0 <= i < i + 1 && 0 <= k2 < rows[i].blocked_by@.len() && rows[i].blocked_by@[k2] == x);
        } else {
            let (i2, k2) = choose|i2: int, k2: int|
                0 <= i2 < i && 0 <= k2 < rows[i2].blocked_by@.len() && rows[i2].blocked_by@[k2] == x;
            assert(0 <= i2 < i + 1 && 0 <= k2 < rows[i2].blocked_by@.len() && rows[i2].blocked_by@[k2] == x);
        }
    }
}

/// The stub roots of row `i`'s blockers, appended to `picks`.
fn pick_stubs(
    rows: &[LockParticipant],
    row_pids: &HashSet<i32>,
    i: usize,
    picks: &mut Vec<RootPick>,
    seen: &mut HashSet<i32>,
)
    requires
        i < rows.len(),
        row_pids@ == row_pid_set(rows@),
        rows@[i as int].blocked_by@.len() > 0,
        forall|x: i32| #[trigger] old(seen)@.contains(x) <==> !has_row(rows@, x) && named_before(rows@, i as int, 0, x),
        rows_in_range(old(picks)@, rows@.len() as int),
    ensures
        rows_in_range(final(picks)@, rows@.len() as int),
        final(picks)@.map_values(|p: RootPick| origin_of(p)) == old(picks)@.map_values(|p: RootPick| origin_of(p))
            + row_roots(rows@, i as int),
        forall|x: i32| #[trigger] final(seen)@.contains(x) <==> !has_row(rows@, x) && named_before(rows@, i as int + 1, 0, x),
{
    let row = &rows[i];
    let ghost base = picks@.map_values(|p: RootPick| origin_of(p));
    assert(stub_roots(rows@, i as int, 0) =~= Seq::<RootOrigin>::empty());
    assert(base + stub_roots(rows@, i as int, 0) =~= base);
    let mut k: usize = 0;
    while k < row.blocked_by.len()
        invariant
            i < rows.len(),
            row == rows@[i as int],
            row_pids@ == row_pid_set(rows@),
            k <= row.blocked_by@.len(),
            rows_in_range(picks@, rows@.len() as int),
            picks@.map_values(|p: RootPick| origin_of(p)) == base + stub_roots(rows@, i as int, k as int),
            forall|x: i32| #[trigger] seen@.contains(x) <==> !has_row(rows@, x) && named_before(rows@, i as int, k as int, x),
        decreases row.blocked_by.len() - k,
    {
        let b = row.blocked_by[k];
        let fresh = !row_pids.contains(&b) && !seen.contains(&b);
        let ghost old_seen = seen@;
        let ghost old_picks = picks@;
        if fresh {
            seen.insert(b);
            picks.push(RootPick::Stub(b));
            assert(picks@.map_values(|p: RootPick| origin_of(p)) =~= old_picks.map_values(|p: RootPick| origin_of(p)).push(RootOrigin::Stub(b)));
        }
        proof {
            assert forall|x: i32| #[trigger] seen@.contains(x) <==> !has_row(rows@, x) && named_before(rows@, i as int, k + 1, x) by {
                lemma_named_step(rows@, i as int, k as int, x);
                assert(old_seen.contains(x) <==> !has_row(rows@, x) && named_before(rows@, i as int, k as int, x));
            }
            assert(stub_roots(rows@, i as int, k + 1) == stub_roots(rows@, i as int, k as int) + if !has_row(rows@, b) && !named_before(rows@, i as int, k as int, b) {
                seq![RootOrigin::Stub(b)]
            } else {
                Seq::<RootOrigin>::empty()
            });
            if fresh {
                assert(base + stub_roots(rows@, i as int, k + 1) =~= (base + stub_roots(rows@, i as int, k as int)).push(RootOrigin::Stub(b)));
            } else {
                assert(base + stub_roots(rows@, i as int, k + 1) =~= base + stub_roots(rows@, i as int, k as int));
            }
        }
        k = k + 1;
    }
    proof {
        assert forall|x: i32| #[trigger] seen@.contains(x) <==> !has_row(rows@, x) && named_before(rows@, i as int + 1, 0, x) by {
            lemma_named_next_row(rows@, i as int, x);
        }
    }
}

/// Whether `row` waits on a backend in `reached`.
fn waits_on_reached(row: &LockParticipant, reached: &HashSet<i32>) -> (r: bool)
    ensures
        r == waits_on_one_of(*row, reached@),
{
    let mut k: usize = 0;
    while k < row.blocked_by.len()
        invariant
            k <= row.blocked_by@.len(),
            forall|q: int| 0 <= q < k ==> !reached@.contains(#[trigger] row.blocked_by@[q]),
        decreases row.blocked_by.len() - k,
    {
        if reached.contains(&row.blocked_by[k]) {
            return true;
        }
        k = k + 1;
    }
    false
}

/// One step further down every chain.
fn reach_one_step(rows: &[LockParticipant], reached: &mut HashSet<i32>)
    ensures
        final(reached)@ == reach_step(rows@, old(reached)@),
{
    let ghost start = reached@;
    let mut found: Vec<i32> = Vec::new();
    let mut j: usize = 0;
    while j < rows.len()
        invariant
            j <= rows.len(),
            reached@ == start,
            forall|p: i32|
                #[trigger] found@.contains(p) <==> exists|q: int|
                    0 <= q < j && rows@[q].pid == p && #[trigger] waits_on_one_of(rows@[q], start),
        decreases rows.len() - j,
    {
        let ghost before = found@;
        let hit = waits_on_reached(&rows[j], reached);
        if hit {
            found.push(rows[j].pid);
        }
        assert forall|p: i32|
            #[trigger] found@.contains(p) <==> exists|q: int|
                0 <= q < j + 1 && rows@[q].pid == p && #[trigger] waits_on_one_of(rows@[q], start) by {
            lemma_push_contains(before, rows@[j as int].pid, p);
            if hit {
                assert(found@ == before.push(rows@[j as int].pid));
            }
            if exists|q: int| 0 <= q < j + 1 && rows@[q].pid == p && #[trigger] waits_on_one_of(rows@[q], start) {
                let q = choose|q: int| 0 <= q < j + 1 && rows@[q].pid == p && #[trigger] waits_on_one_of(rows@[q], start);
                if q < j {
                    assert(before.contains(p));
                }
            }
        }
        j = j + 1;
    }
    let mut t: usize = 0;
    while t < found.len()
        invariant
            t <= found@.len(),
            forall|p: i32| #[trigger] reached@.contains(p) <==> start.contains(p) || exists|x: int| 0 <= x < t && found@[x] == p,
        decreases found.len() - t,
    {
        reached.insert(found[t]);
        assert forall|p: i32| #[trigger] reached@.contains(p) <==> start.contains(p) || exists|x: int| 0 <= x < t + 1 && found@[x] == p by {
            if exists|x: int| 0 <= x < t + 1 && found@[x] == p {
                let x = choose|x: int| 0 <= x < t + 1 && found@[x] == p;
                if x < t {
                    assert(exists|y: int| 0 <= y < t && found@[y] == p);
                }
            }
        }
        t = t + 1;
    }
    assert forall|p: i32| reached@.contains(p) <==> #[trigger] reach_step(rows@, start).contains(p) by {
        if exists|x: int| 0 <= x < found@.len() && found@[x] == p {
            assert(found@.contains(p));
        }
        if found@.contains(p) {
            let x = choose|x: int| 0 <= x < found@.len() && found@[x] == p;
            assert(exists|y: int| 0 <= y < found@.len() && found@[y] == p);
        }
    }
    assert(reached@ =~= reach_step(rows@, start));
}

/// Everything that hangs below `reached`.
fn reach_all(rows: &[LockParticipant], reached: &mut HashSet<i32>)
    ensures
        final(reached)@ == shown_below(rows@, old(reached)@),
{
    let ghost start = reached@;
    let mut n: usize = 0;
    while n < rows.len()
        invariant
            n <= rows.len(),
            reached@ == reach_within(rows@, start, n as nat),
        decreases rows.len() - n,
    {
        reach_one_step(rows, reached);
        n = n + 1;
    }
}

/// The lowest-pid row that `reached` does not hold, or `None` when it holds
/// every row.
fn lowest_unreached_row(rows: &[LockParticipant], reached: &HashSet<i32>) -> (m: Option<usize>)
    ensures
        m matches Some(m) ==> lowest_unreached(rows@, reached@, m as int),
        m is None ==> forall|j: int| 0 <= j < rows@.len() ==> reached@.contains(#[trigger] rows@[j].pid),
{
    let mut best: Option<usize> = None;
    let mut j: usize = 0;
    while j < rows.len()
        invariant
            j <= rows.len(),
            best is None ==> forall|q: int| 0 <= q < j ==> reached@.contains(#[trigger] rows@[q].pid),
            best matches Some(m) ==> {
                &&& m < j
                &&& !reached@.contains(rows@[m as int].pid)
                &&& forall|q: int| 0 <= q < j && !reached@.contains(#[trigger] rows@[q].pid) ==> rows@[m as int].pid <= rows@[q].pid
                &&& forall|q: int| 0 <= q < m && !reached@.contains(#[trigger] rows@[q].pid) ==> rows@[q].pid > rows@[m as int].pid
            },
        decreases rows.len() - j,
    {
        if !reached.contains(&rows[j].pid) {
            match best {
                None => {
                    best = Some(j);
                },
                Some(m) => {
                    if rows[j].pid < rows[m].pid {
                        best = Some(j);
                    }
                },
            }
        }
        j = j + 1;
    }
    best
}

/// The origins of the forest's roots, in order.
fn pick_roots(rows: &[LockParticipant]) -> (picks: Vec<RootPick>)
    ensures
        picks@.map_values(|p: RootPick| origin_of(p)) == forest_roots(rows@),
        rows_in_range(picks@, rows@.len() as int),
{
    let row_pids = pid_set(rows);
    let mut picks: Vec<RootPick> = Vec::new();
    let mut seen: HashSet<i32> = HashSet::new();
    let mut i: usize = 0;
    assert(picks@.map_values(|p: RootPick| origin_of(p)) =~= roots_upto(rows@, 0));
    while i < rows.len()
        invariant
            i <= rows.len(),
            row_pids@ == row_pid_set(rows@),
            rows_in_range(picks@, rows@.len() as int),
            picks@.map_values(|p: RootPick| origin_of(p)) == roots_upto(rows@, i as int),
            forall|x: i32| #[trigger] seen@.contains(x) <==> !has_row(rows@, x) && named_before(rows@, i as int, 0, x),
        decreases rows.len() - i,
    {
        if rows[i].blocked_by.len() == 0 {
            let ghost old_picks = picks@;
            picks.push(RootPick::Row(i));
            assert(picks@.map_values(|p: RootPick| origin_of(p)) =~= old_picks.map_values(|p: RootPick| origin_of(p)).push(RootOrigin::Row(i as int)));
            assert(roots_upto(rows@, i + 1) =~= roots_upto(rows@, i as int).push(RootOrigin::Row(i as int)));
            assert forall|x: i32| #[trigger] seen@.contains(x) <==> !has_row(rows@, x) && named_before(rows@, i + 1, 0, x) by {
                lemma_named_next_row(rows@, i as int, x);
                assert(seen@.contains(x) <==> !has_row(rows@, x) && named_before(rows@, i as int, 0, x));
            }
        } else {
            pick_stubs(rows, &row_pids, i, &mut picks, &mut seen);
        }
        i = i + 1;
    }
    let ghost found = picks@.map_values(|p: RootPick| origin_of(p));
    let mut reached: HashSet<i32> = HashSet::new();
    let mut t: usize = 0;
    assert(root_pids(rows@, found.take(0)) =~= Set::<i32>::empty());
    while t < picks.len()
        invariant
            t <= picks@.len(),
            found == picks@.map_values(|p: RootPick| origin_of(p)),
            rows_in_range(picks@, rows@.len() as int),
            reached@ == root_pids(rows@, found.take(t as int)),
        decreases picks.len() - t,
    {
        let pid = match &picks[t] {
            RootPick::Row(r) => rows[*r].pid,
            RootPick::Stub(b) => *b,
        };
        assert(origin_pid(rows@, found[t as int]) == pid);
        reached.insert(pid);
        assert forall|p: i32| #[trigger] reached@.contains(p) <==> root_pids(rows@, found.take(t + 1)).contains(p) by {
            if root_pids(rows@, found.take(t + 1)).contains(p) {
                let x = choose|x: int| 0 <= x < t + 1 && #[trigger] origin_pid(rows@, found.take(t + 1)[x]) == p;
                if x < t {
                    assert(origin_pid(rows@, found.take(t as int)[x]) == p);
                }
            }
            if root_pids(rows@, found.take(t as int)).contains(p) {
                let x = choose|x: int| 0 <= x < t && #[trigger] origin_pid(rows@, found.take(t as int)[x]) == p;
                assert(origin_pid(rows@, found.take(t + 1)[x]) == p);
            }
            if p == pid {
                assert(origin_pid(rows@, found.take(t + 1)[t as int]) == p);
            }
        }
        assert(reached@ =~= root_pids(rows@, found.take(t + 1)));
        t = t + 1;
    }
    assert(found.take(picks@.len() as int) =~= found);
    let ghost start = reached@;
    let mut fuel: usize = rows.len();
    assert(found + promoted(rows@, start, rows@.len()) == picks@.map_values(|p: RootPick| origin_of(p)) + promoted(rows@, reached@, fuel as nat));
    while fuel > 0
        invariant
            rows_in_range(picks@, rows@.len() as int),
            found + promoted(rows@, start, rows@.len()) == picks@.map_values(|p: RootPick| origin_of(p)) + promoted(rows@, reached@, fuel as nat),
        decreases fuel,
    {
        let ghost before = reached@;
        let ghost old_picks = picks@.map_values(|p: RootPick| origin_of(p));
        reach_all(rows, &mut reached);
        match lowest_unreached_row(rows, &reached) {
            Some(m) => {
                proof {
                    lemma_lowest_unreached_unique(rows@, reached@, m as int);
                }
                let ghost shown = reached@;
                picks.push(RootPick::Row(m));
                reached.insert(rows[m].pid);
                proof {
                    assert(promoted(rows@, before, fuel as nat) == seq![RootOrigin::Row(m as int)] + promoted(rows@, shown.insert(rows@[m as int].pid), (fuel - 1) as nat));
                    assert(picks@.map_values(|p: RootPick| origin_of(p)) =~= old_picks.push(RootOrigin::Row(m as int)));
                    assert(old_picks + (seq![RootOrigin::Row(m as int)] + promoted(rows@, reached@, (fuel - 1) as nat)) =~= old_picks.push(RootOrigin::Row(m as int)) + promoted(rows@, reached@, (fuel - 1) as nat));
                }
                fuel = fuel - 1;
            },
            None => {
                proof {
                    assert(!(exists|x: int| lowest_unreached(rows@, reached@, x)));
                    assert(promoted(rows@, before, fuel as nat) =~= Seq::<RootOrigin>::empty());
                    assert(old_picks + Seq::<RootOrigin>::empty() =~= old_picks);
                }
                fuel = 0;
            },
        }
    }
    assert(picks@.map_values(|p: RootPick| origin_of(p)) + promoted(rows@, reached@, 0) =~= picks@.map_values(|p: RootPick| origin_of(p)));
    picks
}

/// The chains of blocked backends in a sample. Roots are the backends nobody
/// in the sample blocks, in row order: a row that waits on nobody, or a
/// blocker that had gone by the time its waiters were read, which becomes a
/// stub so its waiters keep their context. A chain that closes on itself has
/// no such root; the lowest pid of what no root reaches is promoted, until
/// every row hangs below some root. Below each root is everything it
/// blocks, recursively; a waiter blocked by several backends appears under
/// each of them, and a branch that reaches a pid already on it stops there,
/// flagged as a cycle.
pub fn build_forest(rows: &[LockParticipant]) -> (forest: Vec<LockNode>)
    ensures
        forest@.len() == forest_roots(rows@).len(),
        forall|t: int|
            0 <= t < forest@.len() ==> root_match(rows@, forest_roots(rows@)[t], #[trigger] forest@[t]),
        forall|t: int| 0 <= t < forest@.len() ==> shows_its_waiters(rows@, #[trigger] forest@[t]),
{
    let picks = pick_roots(rows);
    let ghost origins = picks@.map_values(|p: RootPick| origin_of(p));
    let mut forest: Vec<LockNode> = Vec::new();
    let mut t: usize = 0;
    while t < picks.len()
        invariant
            t <= picks@.len(),
            origins == forest_roots(rows@),
            origins == picks@.map_values(|p: RootPick| origin_of(p)),
            rows_in_range(picks@, rows@.len() as int),
            forest@.len() == t,
            forall|q: int| 0 <= q < t ==> root_match(rows@, origins[q], #[trigger] forest@[q]),
        decreases picks.len() - t,
    {
        assert(origins[t as int] == origin_of(picks@[t as int]));
        let (participant, is_stub) = match &picks[t] {
            RootPick::Row(i) => (rows[*i].clone(), false),
            RootPick::Stub(b) => (stub_participant(*b), true),
        };
        let pid = participant.pid;
        let mut path: HashSet<i32> = HashSet::new();
        path.insert(pid);
        assert(path@ =~= set![pid]);
        let children = children_of(rows, pid, &mut path);
        forest.push(LockNode { participant, children, in_cycle: false, is_stub });
        t = t + 1;
    }
    proof {
        lemma_every_node_shows_its_waiters(rows@, forest@);
    }
    forest
}

/// Under any backend, each row it blocks has a node of its own: no waiter
/// is dropped.
pub proof fn lemma_every_waiter_has_a_node(
    rows: Seq<LockParticipant>,
    pid: i32,
    path: Set<i32>,
    j: int,
    nodes: Seq<LockNode>,
)
    requires
        0 <= j,
        children_match(rows, pid, path, j, nodes),
    ensures
        forall|q: int|
            j <= q < rows.len() && blocks(#[trigger] rows[q], pid) ==> exists|t: int|
                0 <= t < nodes.len() && #[trigger] node_match(rows, q, path, nodes[t]),
    decreases rows.len() - j,
{
    if j < rows.len() {
        if blocks(rows[j], pid) {
            let rest = nodes.drop_first();
            lemma_every_waiter_has_a_node(rows, pid, path, j + 1, rest);
            assert forall|q: int| j <= q < rows.len() && blocks(#[trigger] rows[q], pid) implies exists|t: int|
                0 <= t < nodes.len() && #[trigger] node_match(rows, q, path, nodes[t]) by {
                if q == j {
                    assert(node_match(rows, q, path, nodes[0]));
                } else {
                    let t = choose|t: int| 0 <= t < rest.len() && #[trigger] node_match(rows, q, path, rest[t]);
                    assert(nodes[t + 1] == rest[t]);
                    assert(node_match(rows, q, path, nodes[t + 1]));
                }
            }
        } else {
            lemma_every_waiter_has_a_node(rows, pid, path, j + 1, nodes);
        }
    }
}

/// `node` stands for one of the rows from index `j` on that `pid` blocks.
pub open spec fn is_waiter_node(rows: Seq<LockParticipant>, pid: i32, path: Set<i32>, j: int, node: LockNode) -> bool {
    exists|q: int| j <= q < rows.len() && blocks(rows[q], pid) && #[trigger] node_match(rows, q, path, node)
}

/// Under any backend, each node is one of the rows it blocks: no waiter is
/// invented.
pub proof fn lemma_every_node_is_a_waiter(
    rows: Seq<LockParticipant>,
    pid: i32,
    path: Set<i32>,
    j: int,
    nodes: Seq<LockNode>,
)
    requires
        0 <= j,
        children_match(rows, pid, path, j, nodes),
    ensures
        forall|t: int| 0 <= t < nodes.len() ==> #[trigger] is_waiter_node(rows, pid, path, j, nodes[t]),
{
    assert forall|t: int| 0 <= t < nodes.len() implies #[trigger] is_waiter_node(rows, pid, path, j, nodes[t]) by {
        let q = waiter_of(rows, pid, path, j, nodes, t);
        assert(j <= q < rows.len() && blocks(rows[q], pid) && node_match(rows, q, path, nodes[t]));
    }
}

proof fn waiter_of(rows: Seq<LockParticipant>, pid: i32, path: Set<i32>, j: int, nodes: Seq<LockNode>, t: int) -> (q: int)
    requires
        0 <= j,
        children_match(rows, pid, path, j, nodes),
        0 <= t < nodes.len(),
    ensures
        j <= q < rows.len(),
        blocks(rows[q], pid),
        node_match(rows, q, path, nodes[t]),
    decreases rows.len() - j,
{
    if j >= rows.len() {
        assert(nodes.len() == 0);
        j
    } else if blocks(rows[j], pid) {
        if t == 0 {
            j
        } else {
            let rest = nodes.drop_first();
            assert(nodes[t] == rest[t - 1]);
            waiter_of(rows, pid, path, j + 1, rest, t - 1)
        }
    } else {
        waiter_of(rows, pid, path, j + 1, nodes, t)
    }
}

proof fn lemma_contains_in_longer(s: Seq<RootOrigin>, t: Seq<RootOrigin>, x: RootOrigin)
    requires
        s.contains(x),
    ensures
        (s + t).contains(x),
{
    let i = choose|i: int| 0 <= i < s.len() && s[i] == x;
    assert((s + t)[i] == x);
}

proof fn lemma_stub_roots_grow(rows: Seq<LockParticipant>, i: int, k: int, k2: int, x: RootOrigin)
    requires
        0 <= k <= k2,
        stub_roots(rows, i, k).contains(x),
    ensures
        stub_roots(rows, i, k2).contains(x),
    decreases k2 - k,
{
    if k < k2 {
        lemma_stub_roots_grow(rows, i, k, k2 - 1, x);
        let b = rows[i].blocked_by@[k2 - 1];
        lemma_contains_in_longer(
            stub_roots(rows, i, k2 - 1),
            if !has_row(rows, b) && !named_before(rows, i, k2 - 1, b) {
                seq![RootOrigin::Stub(b)]
            } else {
                Seq::empty()
            },
            x,
        );
    }
}

proof fn lemma_roots_grow(rows: Seq<LockParticipant>, i: int, i2: int, x: RootOrigin)
    requires
        0 <= i <= i2,
        roots_upto(rows, i).contains(x),
    ensures
        roots_upto(rows, i2).contains(x),
    decreases i2 - i,
{
    if i < i2 {
        lemma_roots_grow(rows, i, i2 - 1, x);
        lemma_contains_in_longer(roots_upto(rows, i2 - 1), row_roots(rows, i2 - 1), x);
    }
}

/// Once a vanished blocker has been named, a stub for it is among the roots
/// gathered so far.
proof fn lemma_stub_listed(rows: Seq<LockParticipant>, i: int, k: int, b: i32)
    requires
        0 <= i < rows.len(),
        0 <= k <= rows[i].blocked_by@.len(),
        !has_row(rows, b),
        named_before(rows, i, k, b),
    ensures
        (roots_upto(rows, i) + stub_roots(rows, i, k)).contains(RootOrigin::Stub(b)),
    decreases i, k,
{
    let stub = RootOrigin::Stub(b);
    if exists|k2: int| 0 <= k2 < k && k2 < rows[i].blocked_by@.len() && rows[i].blocked_by@[k2] == b {
        assert(k > 0);
        let last = rows[i].blocked_by@[k - 1];
        let added = if !has_row(rows, last) && !named_before(rows, i, k - 1, last) {
            seq![RootOrigin::Stub(last)]
        } else {
            Seq::<RootOrigin>::empty()
        };
        assert(stub_roots(rows, i, k) == stub_roots(rows, i, k - 1) + added);
        assert((roots_upto(rows, i) + stub_roots(rows, i, k)) =~= (roots_upto(rows, i) + stub_roots(rows, i, k - 1)) + added);
        if last == b && !named_before(rows, i, k - 1, b) {
            let whole = (roots_upto(rows, i) + stub_roots(rows, i, k - 1)) + added;
            assert(whole[whole.len() - 1] == stub);
        } else {
            lemma_named_step(rows, i, k - 1, b);
            lemma_stub_listed(rows, i, k - 1, b);
            lemma_contains_in_longer(roots_upto(rows, i) + stub_roots(rows, i, k - 1), added, stub);
        }
    } else {
        assert(i > 0);
        let p = i - 1;
        let n = rows[p].blocked_by@.len() as int;
        lemma_named_next_row(rows, p, b);
        assert(named_before(rows, i, 0, b));
        assert(roots_upto(rows, i) == roots_upto(rows, p) + row_roots(rows, p));
        if n > 0 {
            lemma_stub_listed(rows, p, n, b);
            assert(roots_upto(rows, i) == roots_upto(rows, p) + stub_roots(rows, p, n));
        } else {
            assert(named_before(rows, p, 0, b));
            if p > 0 {
                lemma_named_next_row(rows, p - 1, b);
                lemma_stub_listed(rows, p, 0, b);
                assert(stub_roots(rows, p, 0) =~= Seq::<RootOrigin>::empty());
                assert(roots_upto(rows, p) + stub_roots(rows, p, 0) =~= roots_upto(rows, p));
                lemma_contains_in_longer(roots_upto(rows, p), row_roots(rows, p), stub);
            } else {
                let (i2, k2) = choose|i2: int, k2: int|
                    0 <= i2 < p && 0 <= k2 < rows[i2].blocked_by@.len() && rows[i2].blocked_by@[k2] == b;
            }
        }
        lemma_contains_in_longer(roots_upto(rows, i), stub_roots(rows, i, k), stub);
    }
}

/// A blocker that had gone by the time its waiters were read is kept as a
/// stub root, so its waiters are still shown.
pub proof fn lemma_vanished_blocker_is_a_stub_root(rows: Seq<LockParticipant>, i: int, k: int)
    requires
        0 <= i < rows.len(),
        0 <= k < rows[i].blocked_by@.len(),
        !has_row(rows, rows[i].blocked_by@[k]),
    ensures
        forest_roots(rows).contains(RootOrigin::Stub(rows[i].blocked_by@[k])),
{
    let b = rows[i].blocked_by@[k];
    let stub = RootOrigin::Stub(b);
    lemma_named_step(rows, i, k, b);
    lemma_stub_listed(rows, i, k + 1, b);
    let n = rows[i].blocked_by@.len() as int;
    if !roots_upto(rows, i).contains(stub) {
        let s = roots_upto(rows, i) + stub_roots(rows, i, k + 1);
        let x = choose|x: int| 0 <= x < s.len() && s[x] == stub;
        assert(stub_roots(rows, i, k + 1)[x - roots_upto(rows, i).len()] == stub);
        lemma_stub_roots_grow(rows, i, k + 1, n, stub);
        assert(roots_upto(rows, i + 1) == roots_upto(rows, i) + stub_roots(rows, i, n));
        let t = stub_roots(rows, i, n);
        let y = choose|y: int| 0 <= y < t.len() && t[y] == stub;
        assert(roots_upto(rows, i + 1)[roots_upto(rows, i).len() + y] == stub);
    } else {
        lemma_roots_grow(rows, i, i + 1, stub);
    }
    lemma_roots_grow(rows, i + 1, rows.len() as int, stub);
    lemma_contains_in_longer(found_roots(rows), promoted(rows, root_pids(rows, found_roots(rows)), rows.len()), stub);
}

/// A backend that waits on nobody heads a chain of its own.
pub proof fn lemma_a_backend_waiting_on_nobody_is_a_root(rows: Seq<LockParticipant>, i: int)
    requires
        0 <= i < rows.len(),
        rows[i].blocked_by@.len() == 0,
    ensures
        forest_roots(rows).contains(RootOrigin::Row(i)),
{
    let root = RootOrigin::Row(i);
    assert(row_roots(rows, i) == seq![root]);
    assert(roots_upto(rows, i + 1) == roots_upto(rows, i) + seq![root]);
    assert(roots_upto(rows, i + 1)[roots_upto(rows, i).len() as int] == root);
    lemma_roots_grow(rows, i + 1, rows.len() as int, root);
    lemma_contains_in_longer(found_roots(rows), promoted(rows, root_pids(rows, found_roots(rows)), rows.len()), root);
}

proof fn lemma_reach_of_nothing(rows: Seq<LockParticipant>, n: nat)
    ensures
        reach_within(rows, Set::<i32>::empty(), n) == Set::<i32>::empty(),
    decreases n,
{
    if n > 0 {
        lemma_reach_of_nothing(rows, (n - 1) as nat);
        assert(reach_step(rows, Set::<i32>::empty()) =~= Set::<i32>::empty());
    }
}

proof fn lemma_reach_grows(rows: Seq<LockParticipant>, reached: Set<i32>, n: nat)
    ensures
        reached.subset_of(reach_within(rows, reached, n)),
    decreases n,
{
    if n > 0 {
        lemma_reach_grows(rows, reached, (n - 1) as nat);
    }
}

/// The lowest-pid row among the first `k` that `reached` does not hold.
proof fn lowest_below(rows: Seq<LockParticipant>, reached: Set<i32>, k: int) -> (m: int)
    requires
        0 < k <= rows.len(),
        exists|j: int| 0 <= j < k && !reached.contains(#[trigger] rows[j].pid),
    ensures
        0 <= m < k,
        !reached.contains(rows[m].pid),
        forall|j: int| 0 <= j < k && !reached.contains(#[trigger] rows[j].pid) ==> rows[m].pid <= rows[j].pid,
        forall|j: int| 0 <= j < m && !reached.contains(#[trigger] rows[j].pid) ==> rows[j].pid > rows[m].pid,
    decreases k,
{
    if exists|j: int| 0 <= j < k - 1 && !reached.contains(#[trigger] rows[j].pid) {
        let m2 = lowest_below(rows, reached, k - 1);
        if !reached.contains(rows[k - 1].pid) && rows[k - 1].pid < rows[m2].pid {
            k - 1
        } else {
            m2
        }
    } else {
        k - 1
    }
}

/// How many of the first `k` rows `reached` does not hold.
pub open spec fn unreached_count(rows: Seq<LockParticipant>, reached: Set<i32>, k: int) -> nat
    decreases k,
{
    if k <= 0 {
        0
    } else {
        unreached_count(rows, reached, k - 1) + if reached.contains(rows[k - 1].pid) {
            0nat
        } else {
            1nat
        }
    }
}

proof fn lemma_unreached_count_shrinks(rows: Seq<LockParticipant>, a: Set<i32>, b: Set<i32>, k: int)
    requires
        a.subset_of(b),
        0 <= k <= rows.len(),
    ensures
        unreached_count(rows, b, k) <= unreached_count(rows, a, k),
        unreached_count(rows, a, k) <= k,
        (exists|j: int| 0 <= j < k && !a.contains(rows[j].pid) && b.contains(#[trigger] rows[j].pid))
            ==> unreached_count(rows, b, k) < unreached_count(rows, a, k),
        unreached_count(rows, a, k) == 0 ==> forall|j: int| 0 <= j < k ==> a.contains(#[trigger] rows[j].pid),
    decreases k,
{
    if k > 0 {
        lemma_unreached_count_shrinks(rows, a, b, k - 1);
        if exists|j: int| 0 <= j < k && !a.contains(rows[j].pid) && b.contains(#[trigger] rows[j].pid) {
            let j = choose|j: int| 0 <= j < k && !a.contains(rows[j].pid) && b.contains(#[trigger] rows[j].pid);
            if j < k - 1 {
                assert(exists|j2: int| 0 <= j2 < k - 1 && !a.contains(rows[j2].pid) && b.contains(#[trigger] rows[j2].pid));
            }
        }
    }
}

proof fn lemma_promotion_reaches_every_row(rows: Seq<LockParticipant>, reached: Set<i32>, fuel: nat)
    requires
        unreached_count(rows, reached, rows.len() as int) <= fuel,
    ensures
        forall|j: int| 0 <= j < rows.len() ==> reached_after(rows, reached, fuel).contains(#[trigger] rows[j].pid),
    decreases fuel,
{
    let n = rows.len() as int;
    let shown = shown_below(rows, reached);
    lemma_reach_grows(rows, reached, rows.len());
    lemma_unreached_count_shrinks(rows, reached, shown, n);
    if fuel > 0 && exists|m: int| lowest_unreached(rows, shown, m) {
        let m = choose|m: int| lowest_unreached(rows, shown, m);
        let next = shown.insert(rows[m].pid);
        lemma_unreached_count_shrinks(rows, shown, next, n);
        assert(!shown.contains(rows[m].pid) && next.contains(rows[m].pid));
        lemma_promotion_reaches_every_row(rows, next, (fuel - 1) as nat);
    } else if fuel == 0 {
        lemma_unreached_count_shrinks(rows, reached, reached, n);
    } else {
        assert forall|j: int| 0 <= j < rows.len() implies shown.contains(#[trigger] rows[j].pid) by {
            if !shown.contains(rows[j].pid) {
                let m = lowest_below(rows, shown, n);
                assert(lowest_unreached(rows, shown, m));
            }
        }
    }
}

/// No row is lost. Every row of the sample hangs below a root once the
/// lowest pid of each chain that closes on itself has been promoted: the
/// promotions reach every row that the backends nobody blocks do not.
pub proof fn lemma_every_row_hangs_below_a_root(rows: Seq<LockParticipant>)
    ensures
        forall|j: int|
            0 <= j < rows.len() ==> reached_after(rows, root_pids(rows, found_roots(rows)), rows.len()).contains(
                #[trigger] rows[j].pid,
            ),
{
    let start = root_pids(rows, found_roots(rows));
    lemma_unreached_count_shrinks(rows, start, start, rows.len() as int);
    lemma_promotion_reaches_every_row(rows, start, rows.len());
}

/// A sample with any row in it yields at least one chain.
pub proof fn lemma_some_chain_for_any_conflict(rows: Seq<LockParticipant>)
    requires
        rows.len() > 0,
    ensures
        forest_roots(rows).len() > 0,
{
    let found = found_roots(rows);
    if found.len() == 0 {
        assert(root_pids(rows, found) =~= Set::<i32>::empty());
        lemma_reach_of_nothing(rows, rows.len());
        assert(!Set::<i32>::empty().contains(rows[0].pid));
        let m = lowest_below(rows, Set::<i32>::empty(), rows.len() as int);
        assert(lowest_unreached(rows, shown_below(rows, root_pids(rows, found)), m));
    }
}

/// Every promoted root is a row of the sample.
proof fn lemma_promoted_are_rows(rows: Seq<LockParticipant>, reached: Set<i32>, fuel: nat)
    ensures
        forall|t: int| 0 <= t < promoted(rows, reached, fuel).len() ==> #[trigger] promoted(rows, reached, fuel)[t] is Row,
    decreases fuel,
{
    let shown = shown_below(rows, reached);
    if fuel > 0 && exists|m: int| lowest_unreached(rows, shown, m) {
        let m = choose|m: int| lowest_unreached(rows, shown, m);
        let rest = promoted(rows, shown.insert(rows[m].pid), (fuel - 1) as nat);
        lemma_promoted_are_rows(rows, shown.insert(rows[m].pid), (fuel - 1) as nat);
        assert forall|t: int| 0 <= t < promoted(rows, reached, fuel).len() implies #[trigger] promoted(rows, reached, fuel)[t] is Row by {
            if t > 0 {
                assert(promoted(rows, reached, fuel)[t] == rest[t - 1]);
            }
        }
    }
}

/// The pids of the rows from index `j` on that `pid` blocks, in row order:
/// `rows.filter(|r| blocks(r, pid))` from `j`, by pid.
pub open spec fn waiter_pids(rows: Seq<LockParticipant>, pid: i32, j: int) -> Seq<i32>
    decreases rows.len() - j,
{
    if j < 0 || j >= rows.len() {
        Seq::empty()
    } else if blocks(rows[j], pid) {
        seq![rows[j].pid] + waiter_pids(rows, pid, j + 1)
    } else {
        waiter_pids(rows, pid, j + 1)
    }
}

/// The pids of `nodes`, in order.
pub open spec fn node_pids(nodes: Seq<LockNode>) -> Seq<i32> {
    nodes.map_values(|n: LockNode| n.participant.pid)
}

/// The nodes under a backend are the rows it blocks, each once, in row
/// order.
pub proof fn lemma_children_are_the_waiters_in_row_order(
    rows: Seq<LockParticipant>,
    pid: i32,
    path: Set<i32>,
    j: int,
    nodes: Seq<LockNode>,
)
    requires
        0 <= j,
        children_match(rows, pid, path, j, nodes),
    ensures
        node_pids(nodes) == waiter_pids(rows, pid, j),
    decreases rows.len() - j,
{
    if j >= rows.len() {
        assert(node_pids(nodes) =~= Seq::<i32>::empty());
    } else if blocks(rows[j], pid) {
        lemma_children_are_the_waiters_in_row_order(rows, pid, path, j + 1, nodes.drop_first());
        assert(node_match(rows, j, path, nodes[0]));
        assert(nodes[0].participant.pid == rows[j].pid);
        assert(waiter_pids(rows, pid, j) == seq![rows[j].pid] + waiter_pids(rows, pid, j + 1));
        assert(node_pids(nodes) =~= seq![nodes[0].participant.pid] + node_pids(nodes.drop_first()));
    } else {
        lemma_children_are_the_waiters_in_row_order(rows, pid, path, j + 1, nodes);
    }
}

/// A node whose chain did not close on itself has as children exactly the
/// rows its backend blocks, in row order; one whose chain did is a leaf.
pub proof fn lemma_node_children_are_its_waiters(rows: Seq<LockParticipant>, j: int, path: Set<i32>, node: LockNode)
    requires
        node_match(rows, j, path, node),
    ensures
        !node.in_cycle ==> node_pids(node.children@) == waiter_pids(rows, node.participant.pid, 0),
        node.in_cycle <==> path.contains(node.participant.pid),
        node.in_cycle ==> node.children@.len() == 0,
{
    if !path.contains(rows[j].pid) {
        lemma_children_are_the_waiters_in_row_order(
            rows,
            rows[j].pid,
            path.insert(rows[j].pid),
            0,
            node.children@,
        );
    }
}

/// The tree grown from a root has as children exactly the rows the root
/// blocks, in row order.
pub proof fn lemma_root_children_are_its_waiters(rows: Seq<LockParticipant>, origin: RootOrigin, node: LockNode)
    requires
        root_match(rows, origin, node),
    ensures
        node_pids(node.children@) == waiter_pids(rows, node.participant.pid, 0),
{
    match origin {
        RootOrigin::Row(i) => {
            lemma_children_are_the_waiters_in_row_order(rows, rows[i].pid, set![rows[i].pid], 0, node.children@);
        },
        RootOrigin::Stub(b) => {
            lemma_children_are_the_waiters_in_row_order(rows, b, set![b], 0, node.children@);
        },
    }
}

/// The pid a stub root stands for.
pub open spec fn stub_pid(origin: RootOrigin) -> i32 {
    match origin {
        RootOrigin::Stub(b) => b,
        RootOrigin::Row(_) => 0,
    }
}

/// No two stub roots of `roots` stand for the same pid.
pub open spec fn stubs_distinct(roots: Seq<RootOrigin>) -> bool {
    forall|x: int, y: int|
        #![trigger roots[x], roots[y]]
        0 <= x < y < roots.len() && roots[x] is Stub ==> roots[x] != roots[y]
}

/// Every stub root of `roots` stands for a pid that is no row of the sample
/// and that is named as a blocker before position `k` of row `i`.
spec fn stubs_named(rows: Seq<LockParticipant>, roots: Seq<RootOrigin>, i: int, k: int) -> bool {
    forall|x: int|
        0 <= x < roots.len() && (#[trigger] roots[x]) is Stub ==> !has_row(rows, stub_pid(roots[x]))
            && named_before(rows, i, k, stub_pid(roots[x]))
}

proof fn lemma_stub_prefix(rows: Seq<LockParticipant>, i: int, k: int)
    requires
        0 <= i <= rows.len(),
        i < rows.len() ==> 0 <= k <= rows[i].blocked_by@.len(),
        i == rows.len() ==> k == 0,
    ensures
        stubs_named(rows, roots_upto(rows, i) + stub_roots(rows, i, k), i, k),
        stubs_distinct(roots_upto(rows, i) + stub_roots(rows, i, k)),
    decreases i, k,
{
    let whole = roots_upto(rows, i) + stub_roots(rows, i, k);
    if k > 0 {
        lemma_stub_prefix(rows, i, k - 1);
        let before = roots_upto(rows, i) + stub_roots(rows, i, k - 1);
        let b = rows[i].blocked_by@[k - 1];
        let added = if !has_row(rows, b) && !named_before(rows, i, k - 1, b) {
            seq![RootOrigin::Stub(b)]
        } else {
            Seq::<RootOrigin>::empty()
        };
        assert(whole =~= before + added);
        assert forall|x: int| 0 <= x < whole.len() && (#[trigger] whole[x]) is Stub implies !has_row(
            rows,
            stub_pid(whole[x]),
        ) && named_before(rows, i, k, stub_pid(whole[x])) by {
            lemma_named_step(rows, i, k - 1, stub_pid(whole[x]));
            if x < before.len() {
                assert(whole[x] == before[x]);
            }
        }
        assert forall|x: int, y: int|
            #![trigger whole[x], whole[y]]
            0 <= x < y < whole.len() && whole[x] is Stub implies whole[x] != whole[y] by {
            if y >= before.len() {
                assert(whole[x] == before[x]);
                assert(named_before(rows, i, k - 1, stub_pid(before[x])));
            } else {
                assert(whole[x] == before[x] && whole[y] == before[y]);
            }
        }
    } else if i > 0 {
        let p = i - 1;
        let n = rows[p].blocked_by@.len() as int;
        assert(stub_roots(rows, i, 0) =~= Seq::<RootOrigin>::empty());
        assert(whole =~= roots_upto(rows, p) + row_roots(rows, p));
        if n == 0 {
            lemma_stub_prefix(rows, p, 0);
            assert(stub_roots(rows, p, 0) =~= Seq::<RootOrigin>::empty());
            let before = roots_upto(rows, p);
            assert(roots_upto(rows, p) + stub_roots(rows, p, 0) =~= before);
            assert(whole =~= before + seq![RootOrigin::Row(p)]);
            assert forall|x: int| 0 <= x < whole.len() && (#[trigger] whole[x]) is Stub implies !has_row(
                rows,
                stub_pid(whole[x]),
            ) && named_before(rows, i, k, stub_pid(whole[x])) by {
                lemma_named_next_row(rows, p, stub_pid(whole[x]));
                assert(whole[x] == before[x]);
            }
            assert forall|x: int, y: int|
                #![trigger whole[x], whole[y]]
                0 <= x < y < whole.len() && whole[x] is Stub implies whole[x] != whole[y] by {
                assert(whole[x] == before[x]);
                if y < before.len() {
                    assert(whole[y] == before[y]);
                }
            }
        } else {
            lemma_stub_prefix(rows, p, n);
            assert(whole =~= roots_upto(rows, p) + stub_roots(rows, p, n));
            assert forall|x: int| 0 <= x < whole.len() && (#[trigger] whole[x]) is Stub implies !has_row(
                rows,
                stub_pid(whole[x]),
            ) && named_before(rows, i, k, stub_pid(whole[x])) by {
                lemma_named_next_row(rows, p, stub_pid(whole[x]));
            }
        }
    } else {
        assert(whole =~= Seq::<RootOrigin>::empty());
    }
}

/// A vanished blocker heads one chain, however many of its waiters name it:
/// no two stub roots stand for the same pid, and each stands for a pid that
/// some row names as a blocker and that is no row of the sample.
pub proof fn lemma_each_vanished_blocker_is_one_stub_root(rows: Seq<LockParticipant>)
    ensures
        stubs_distinct(forest_roots(rows)),
        forall|x: int|
            0 <= x < forest_roots(rows).len() && (#[trigger] forest_roots(rows)[x]) is Stub ==> !has_row(
                rows,
                stub_pid(forest_roots(rows)[x]),
            ) && exists|i: int, k: int|
                0 <= i < rows.len() && 0 <= k < rows[i].blocked_by@.len() && #[trigger] rows[i].blocked_by@[k]
                    == stub_pid(forest_roots(rows)[x]),
{
    let n = rows.len() as int;
    lemma_stub_prefix(rows, n, 0);
    assert(stub_roots(rows, n, 0) =~= Seq::<RootOrigin>::empty());
    assert(roots_upto(rows, n) + stub_roots(rows, n, 0) =~= roots_upto(rows, n));
    let roots = forest_roots(rows);
    let found = found_roots(rows);
    let extra = promoted(rows, root_pids(rows, found), rows.len());
    lemma_promoted_are_rows(rows, root_pids(rows, found), rows.len());
    assert forall|x: int| 0 <= x < roots.len() && (#[trigger] roots[x]) is Stub implies x < found.len() && roots[x] == found[x] by {
        if x >= found.len() {
            assert(roots[x] == extra[x - found.len()]);
        }
    }
    assert forall|x: int| 0 <= x < roots.len() && (#[trigger] roots[x]) is Stub implies !has_row(rows, stub_pid(roots[x]))
        && exists|i: int, k: int|
        0 <= i < rows.len() && 0 <= k < rows[i].blocked_by@.len() && #[trigger] rows[i].blocked_by@[k]
            == stub_pid(roots[x]) by {
        assert(found[x] is Stub);
        assert(named_before(rows, n, 0, stub_pid(roots[x])));
    }
    assert forall|x: int, y: int|
        #![trigger roots[x], roots[y]]
        0 <= x < y < roots.len() && roots[x] is Stub implies roots[x] != roots[y] by {
        if y < found.len() {
            assert(roots[y] == found[y]);
            assert(found[x] is Stub);
        } else {
            assert(roots[y] == extra[y - found.len()]);
        }
    }
}

/// `node` and every node below it, at any depth, has as children exactly
/// the rows its backend blocks, in row order, unless its chain closed on
/// itself there, in which case it is a childless leaf.
pub open spec fn shows_its_waiters(rows: Seq<LockParticipant>, node: LockNode) -> bool
    decreases node,
{
    &&& node.in_cycle ==> node.children@.len() == 0
    &&& !node.in_cycle ==> node_pids(node.children@) == waiter_pids(rows, node.participant.pid, 0)
    &&& forall|t: int| 0 <= t < node.children@.len() ==> shows_its_waiters(rows, #[trigger] node.children@[t])
}

proof fn lemma_node_shows_its_waiters(rows: Seq<LockParticipant>, j: int, path: Set<i32>, node: LockNode)
    requires
        node_match(rows, j, path, node),
    ensures
        shows_its_waiters(rows, node),
    decreases uncovered(rows, path), rows.len() - j, 0int,
{
    lemma_node_children_are_its_waiters(rows, j, path, node);
    if !path.contains(rows[j].pid) {
        assert(has_row(rows, rows[j].pid));
        lemma_uncovered_insert(rows, path, rows[j].pid);
        lemma_children_show_their_waiters(rows, rows[j].pid, path.insert(rows[j].pid), 0, node.children@);
    }
}

proof fn lemma_children_show_their_waiters(
    rows: Seq<LockParticipant>,
    pid: i32,
    path: Set<i32>,
    j: int,
    nodes: Seq<LockNode>,
)
    requires
        0 <= j,
        children_match(rows, pid, path, j, nodes),
    ensures
        forall|t: int| 0 <= t < nodes.len() ==> shows_its_waiters(rows, #[trigger] nodes[t]),
    decreases uncovered(rows, path), rows.len() - j, 1int,
{
    if j < rows.len() {
        if blocks(rows[j], pid) {
            lemma_node_shows_its_waiters(rows, j, path, nodes[0]);
            lemma_children_show_their_waiters(rows, pid, path, j + 1, nodes.drop_first());
            assert forall|t: int| 0 <= t < nodes.len() implies shows_its_waiters(rows, #[trigger] nodes[t]) by {
                if t > 0 {
                    assert(nodes[t] == nodes.drop_first()[t - 1]);
                }
            }
        } else {
            lemma_children_show_their_waiters(rows, pid, path, j + 1, nodes);
        }
    }
}

/// The shape of the whole forest `build_forest` gives: every node, at any
/// depth, has as children exactly the rows its backend blocks, in row order,
/// and a node whose pid is already on its branch is a childless leaf.
pub proof fn lemma_every_node_shows_its_waiters(rows: Seq<LockParticipant>, forest: Seq<LockNode>)
    requires
        forest.len() == forest_roots(rows).len(),
        forall|t: int| 0 <= t < forest.len() ==> root_match(rows, forest_roots(rows)[t], #[trigger] forest[t]),
    ensures
        forall|t: int| 0 <= t < forest.len() ==> shows_its_waiters(rows, #[trigger] forest[t]),
{
    assert forall|t: int| 0 <= t < forest.len() implies shows_its_waiters(rows, #[trigger] forest[t]) by {
        let origin = forest_roots(rows)[t];
        let node = forest[t];
        assert(root_match(rows, origin, node));
        lemma_root_children_are_its_waiters(rows, origin, node);
        match origin {
            RootOrigin::Row(i) => {
                lemma_children_show_their_waiters(rows, rows[i].pid, set![rows[i].pid], 0, node.children@);
            },
            RootOrigin::Stub(b) => {
                lemma_children_show_their_waiters(rows, b, set![b], 0, node.children@);
            },
        }
    }
}

} // verus!
