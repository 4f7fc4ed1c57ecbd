//! How the Relations page describes an index.

use vstd::prelude::*;

use crate::collector::relations::IndexStats;
use crate::text::append;

verus! {

/// What kind of index this is: the constraint it backs, if any, and a flag
/// when the index is invalid.
pub open spec fn kind_text(index: IndexStats) -> Seq<char> {
    let base = if index.is_primary {
        "primary"@
    } else if index.is_unique {
        "unique"@
    } else {
        "index"@
    };
    if index.is_valid {
        base
    } else {
        base + " (invalid)"@
    }
}

/// What kind of index this is.
pub fn render_kind(index: &IndexStats) -> (kind: String)
    ensures
        kind@ == kind_text(*index),
{
    let mut kind = String::new();
    if index.is_primary {
        append(&mut kind, "primary");
    } else if index.is_unique {
        append(&mut kind, "unique");
    } else {
        append(&mut kind, "index");
    }
    if !index.is_valid {
        append(&mut kind, " (invalid)");
    }
    kind
}

} // verus!
