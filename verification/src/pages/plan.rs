//! The Plan page: which of its states to show, and how a node and the
//! statement are labelled.

use vstd::prelude::*;

use crate::explain::GENERIC_PLAN_VERSION;
use crate::text::{append, chars_of, is_white, is_white_space, push_char};

verus! {

/// What the page is currently showing.
#[derive(Debug, Clone, Copy, PartialEq, Eq, Structural)]
pub enum PlanState {
    Empty,
    Pending,
    Failed,
    Shown,
}

/// The stack page for `state` on a server of `version_num`. The version
/// gate outranks everything: a server that cannot explain at all says so,
/// even after a failed attempt.
pub open spec fn page_for(state: PlanState, version_num: i32) -> Seq<char> {
    if version_num < GENERIC_PLAN_VERSION {
        "unsupported"@
    } else {
        match state {
            PlanState::Empty => "empty"@,
            PlanState::Pending => "pending"@,
            PlanState::Failed => "failed"@,
            PlanState::Shown => "plan"@,
        }
    }
}

/// Which stack page to show.
pub fn state_for(state: PlanState, version_num: i32) -> (page: &'static str)
    ensures
        page@ == page_for(state, version_num),
{
    if version_num < GENERIC_PLAN_VERSION {
        return "unsupported";
    }
    match state {
        PlanState::Empty => "empty",
        PlanState::Pending => "pending",
        PlanState::Failed => "failed",
        PlanState::Shown => "plan",
    }
}

/// Four spaces per level of depth.
pub open spec fn indent(depth: nat) -> Seq<char> {
    Seq::new(4 * depth, |i: int| ' ')
}

/// A node's label, indented by its depth so the tree's shape is visible in
/// a flat column: its type, and the relation it reads when it has one.
pub open spec fn label_text(node_type: Seq<char>, relation: Option<Seq<char>>, depth: nat) -> Seq<char> {
    indent(depth) + node_type + match relation {
        Some(name) => " on "@ + name,
        None => Seq::empty(),
    }
}

/// A node's label, indented by its depth.
pub fn node_label(node_type: &str, relation: Option<&str>, depth: usize) -> (label: String)
    ensures
        label@ == label_text(
            node_type@,
            match relation {
                Some(name) => Some(name@),
                None => None,
            },
            depth as nat,
        ),
{
    let mut label = String::new();
    let mut level: usize = 0;
    while level < depth
        invariant
            level <= depth,
            label@ == indent(level as nat),
        decreases depth - level,
    {
        append(&mut label, "    ");
        proof {
            reveal_strlit("    ");
        }
        level = level + 1;
        assert(label@ =~= indent(level as nat));
    }
    append(&mut label, node_type);
    if let Some(name) = relation {
        append(&mut label, " on ");
        append(&mut label, name);
    }
    assert(label@ =~= label_text(
        node_type@,
        match relation {
            Some(name) => Some(name@),
            None => None,
        },
        depth as nat,
    ));
    label
}

/// `s` with its white space collapsed: the words in order, joined by single
/// spaces, with none before the first or after the last.
pub open spec fn squeezed(s: Seq<char>) -> Seq<char>
    decreases s.len(),
{
    if s.len() == 0 {
        Seq::empty()
    } else {
        let before = squeezed(s.drop_last());
        let c = s.last();
        if is_white(c) {
            before
        } else if s.len() >= 2 && is_white(s[s.len() - 2]) && before.len() > 0 {
            before + seq![' ', c]
        } else {
            before.push(c)
        }
    }
}

/// The statement, collapsed onto one line so a formatted query does not
/// push the plan off the page.
pub fn one_line(statement: &str) -> (line: String)
    ensures
        line@ == squeezed(statement@),
{
    let chars = chars_of(statement);
    let mut line = String::new();
    let mut k: usize = 0;
    let mut has_word = false;
    assert(statement@.take(0) =~= Seq::<char>::empty());
    while k < chars.len()
        invariant
            k <= chars@.len(),
            chars@ == statement@,
            line@ == squeezed(statement@.take(k as int)),
            has_word == (line@.len() > 0),
        decreases chars.len() - k,
    {
        let c = chars[k];
        let ghost prefix = statement@.take(k as int + 1);
        assert(prefix.drop_last() =~= statement@.take(k as int));
        assert(prefix.last() == c);
        if is_white_space(c) {
        } else if k >= 1 && is_white_space(chars[k - 1]) && has_word {
            assert(prefix[prefix.len() - 2] == chars@[k - 1]);
            push_char(&mut line, ' ');
            push_char(&mut line, c);
            assert(line@ =~= squeezed(prefix));
            has_word = true;
        } else {
            if k >= 1 {
                assert(prefix[prefix.len() - 2] == chars@[k - 1]);
            }
            push_char(&mut line, c);
            has_word = true;
        }
        k = k + 1;
    }
    assert(statement@.take(k as int) =~= statement@);
    line
}

} // verus!
