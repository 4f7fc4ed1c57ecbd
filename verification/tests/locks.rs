use mission_centre_pg::collector::locks::{build_forest, stub_participant, LockNode, LockParticipant};
use mission_centre_pg::pages::locks::{actions_available, flatten, truncation_notice};

fn waiter(pid: i32, blocked_by: &[i32]) -> LockParticipant {
    LockParticipant {
        pid,
        blocked_by: blocked_by.to_vec(),
        waiting: true,
        lock_mode: Some("RowExclusiveLock".to_string()),
        relation: Some("public.app_orders".to_string()),
        user_name: Some("app".to_string()),
        database: Some("postgres".to_string()),
        state: Some("active".to_string()),
        query: Some("UPDATE app_orders SET note = 'x'".to_string()),
    }
}

fn root(pid: i32) -> LockParticipant {
    LockParticipant {
        waiting: false,
        lock_mode: None,
        state: Some("idle in transaction".to_string()),
        ..waiter(pid, &[])
    }
}

#[test]
fn nothing_blocked_is_an_empty_forest() {
    assert!(build_forest(&[]).is_empty());
}

#[test]
fn a_single_chain_nests_the_waiter_under_its_blocker() {
    let forest = build_forest(&[root(100), waiter(200, &[100])]);

    assert_eq!(forest.len(), 1);
    assert_eq!(forest[0].participant.pid, 100);
    assert_eq!(forest[0].children.len(), 1);
    assert_eq!(forest[0].children[0].participant.pid, 200);
}

#[test]
fn one_blocker_with_several_waiters_is_one_tree_not_several() {
    let forest = build_forest(&[root(100), waiter(200, &[100]), waiter(300, &[100])]);

    assert_eq!(forest.len(), 1);
    assert_eq!(forest[0].children.len(), 2);
}

#[test]
fn a_three_deep_chain_nests_all_the_way_down() {
    let forest = build_forest(&[root(100), waiter(200, &[100]), waiter(300, &[200])]);

    assert_eq!(forest.len(), 1);
    assert_eq!(forest[0].children[0].participant.pid, 200);
    assert_eq!(forest[0].children[0].children[0].participant.pid, 300);
}

#[test]
fn a_blocker_that_has_gone_becomes_a_stub_rather_than_dropping_the_waiter() {
    let forest = build_forest(&[waiter(200, &[999])]);

    assert_eq!(forest.len(), 1);
    assert_eq!(forest[0].participant.pid, 999);
    assert!(forest[0].is_stub);
    assert_eq!(forest[0].children[0].participant.pid, 200);
}

fn any_in_cycle(nodes: &[LockNode]) -> bool {
    nodes
        .iter()
        .any(|node| node.in_cycle || any_in_cycle(&node.children))
}

#[test]
fn a_cycle_terminates_and_is_flagged() {
    let forest = build_forest(&[waiter(100, &[200]), waiter(200, &[100])]);

    assert_eq!(forest.len(), 1);
    assert!(any_in_cycle(&forest), "the closing edge must be flagged");
}

#[test]
fn a_backend_blocked_by_two_others_appears_under_both() {
    let forest = build_forest(&[root(100), root(200), waiter(300, &[100, 200])]);

    assert_eq!(forest.len(), 2);
    assert_eq!(forest[0].children[0].participant.pid, 300);
    assert_eq!(forest[1].children[0].participant.pid, 300);
}

#[test]
fn a_cycle_is_rooted_at_its_lowest_pid() {
    let forest = build_forest(&[waiter(300, &[200]), waiter(200, &[100]), waiter(100, &[300])]);

    assert_eq!(forest.len(), 1);
    assert_eq!(forest[0].participant.pid, 100);
    assert!(!forest[0].in_cycle);
    assert_eq!(forest[0].children[0].participant.pid, 200);
    assert_eq!(forest[0].children[0].children[0].participant.pid, 300);
    let closing = &forest[0].children[0].children[0].children[0];
    assert_eq!(closing.participant.pid, 100);
    assert!(closing.in_cycle);
    assert!(closing.children.is_empty());
}

#[test]
fn a_vanished_blocker_named_twice_is_one_stub() {
    let forest = build_forest(&[waiter(200, &[999]), waiter(300, &[999, 999])]);

    assert_eq!(forest.len(), 1);
    assert!(forest[0].is_stub);
    assert_eq!(forest[0].participant, stub_participant(999));
    assert_eq!(forest[0].children.len(), 2);
}

#[test]
fn a_waiter_keeps_every_field_of_its_row() {
    let forest = build_forest(&[root(100), waiter(200, &[100])]);
    assert_eq!(forest[0].participant, root(100));
    assert_eq!(forest[0].children[0].participant, waiter(200, &[100]));
}

fn participant(pid: i32, blocked_by: &[i32]) -> LockParticipant {
    LockParticipant {
        blocked_by: blocked_by.to_vec(),
        ..stub_participant(pid)
    }
}

#[test]
fn an_empty_forest_flattens_to_nothing() {
    assert!(flatten(&[]).is_empty());
}

#[test]
fn a_chain_flattens_depth_first_with_increasing_depth() {
    let forest = build_forest(&[participant(100, &[]), participant(200, &[100])]);
    let rows = flatten(&forest);

    assert_eq!(rows.len(), 2);
    assert_eq!((rows[0].participant.pid, rows[0].depth), (100, 0));
    assert_eq!((rows[1].participant.pid, rows[1].depth), (200, 1));
}

#[test]
fn siblings_share_a_depth_and_follow_their_parent() {
    let forest = build_forest(&[
        participant(100, &[]),
        participant(200, &[100]),
        participant(300, &[100]),
    ]);
    let rows = flatten(&forest);

    assert_eq!(rows.len(), 3);
    assert_eq!(rows[1].depth, 1);
    assert_eq!(rows[2].depth, 1);
}

#[test]
fn a_stub_row_offers_no_actions_because_its_backend_has_gone() {
    let forest = build_forest(&[participant(200, &[999])]);
    let rows = flatten(&forest);

    let stub = rows
        .iter()
        .find(|row| row.participant.pid == 999)
        .expect("the vanished blocker is rendered as a stub");
    assert!(!actions_available(stub, true));

    let waiter = rows
        .iter()
        .find(|row| row.participant.pid == 200)
        .expect("the waiter is still rendered");
    assert!(actions_available(waiter, true));
}

#[test]
fn no_row_offers_actions_without_the_signal_capability() {
    let forest = build_forest(&[participant(100, &[]), participant(200, &[100])]);
    let rows = flatten(&forest);

    assert!(rows.iter().all(|row| !actions_available(row, false)));
}

#[test]
fn the_whole_inventory_needs_no_truncation_notice() {
    assert_eq!(truncation_notice(500, 500), None);
    assert_eq!(truncation_notice(12, 12), None);
}

#[test]
fn a_truncated_inventory_says_how_much_it_is_hiding() {
    assert_eq!(
        truncation_notice(500, 4312).as_deref(),
        Some("Showing 500 of 4312 locks")
    );
}

#[test]
fn a_negative_total_needs_no_notice() {
    assert_eq!(truncation_notice(0, -1), None);
}

#[test]
fn a_deeper_tree_flattens_in_preorder() {
    let forest = build_forest(&[
        participant(1, &[]),
        participant(2, &[1]),
        participant(3, &[2]),
        participant(4, &[1]),
        participant(5, &[]),
    ]);
    let rows = flatten(&forest);
    let shape: Vec<(i32, usize)> = rows.iter().map(|r| (r.participant.pid, r.depth)).collect();
    assert_eq!(shape, vec![(1, 0), (2, 1), (3, 2), (4, 1), (5, 0)]);
}

#[test]
fn children_come_in_row_order_whatever_their_pids() {
    let forest = build_forest(&[
        waiter(500, &[100]),
        root(100),
        waiter(150, &[100]),
        waiter(320, &[100, 777]),
    ]);

    assert_eq!(forest.len(), 2);
    assert_eq!(forest[0].participant.pid, 100);
    let pids: Vec<i32> = forest[0].children.iter().map(|n| n.participant.pid).collect();
    assert_eq!(pids, vec![500, 150, 320]);
    assert!(forest[1].is_stub);
    assert_eq!(forest[1].participant.pid, 777);
    assert_eq!(forest[1].children.len(), 1);
}

#[test]
fn distinct_vanished_blockers_are_one_stub_each() {
    let forest = build_forest(&[waiter(200, &[998, 999]), waiter(300, &[999]), waiter(400, &[998])]);

    let stubs: Vec<i32> = forest.iter().filter(|n| n.is_stub).map(|n| n.participant.pid).collect();
    assert_eq!(stubs, vec![998, 999]);
    assert_eq!(forest.len(), 2);
}

#[test]
fn a_cycle_beside_a_root_is_shown_rather_than_lost() {
    let forest = build_forest(&[root(300), waiter(100, &[200]), waiter(200, &[100])]);

    assert_eq!(forest.len(), 2);
    assert_eq!(forest[0].participant.pid, 300);
    assert!(forest[0].children.is_empty());
    assert_eq!(forest[1].participant.pid, 100);
    assert!(!forest[1].in_cycle);
    assert_eq!(forest[1].children[0].participant.pid, 200);
    let closing = &forest[1].children[0].children[0];
    assert_eq!(closing.participant.pid, 100);
    assert!(closing.in_cycle);
    assert!(closing.children.is_empty());
}

#[test]
fn each_of_two_separate_cycles_is_rooted_at_its_lowest_pid() {
    let forest = build_forest(&[
        waiter(400, &[300]),
        waiter(100, &[200]),
        waiter(300, &[400]),
        waiter(200, &[100]),
    ]);

    let roots: Vec<i32> = forest.iter().map(|n| n.participant.pid).collect();
    assert_eq!(roots, vec![100, 300]);
    assert!(forest.iter().all(|n| !n.in_cycle && !n.is_stub));
}
