//! Which sections the Replication page shows, and the notes under them.

use vstd::prelude::*;

use crate::text::append;

verus! {

/// The sections for a server: its upstream when it is a standby, its
/// standbys otherwise, always its slots, and logical replication only when
/// it has a subscription or a publication.
pub open spec fn sections_for(in_recovery: bool, has_logical: bool) -> Seq<Seq<char>> {
    seq![if in_recovery {
        "receiver"@
    } else {
        "standbys"@
    }, "slots"@] + if has_logical {
        seq!["logical"@]
    } else {
        Seq::empty()
    }
}

/// Which sections the page shows. A primary has no upstream and a standby
/// has no standbys of its own, so showing both would leave half the page
/// permanently empty.
pub fn visible_sections(in_recovery: bool, has_subscriptions: bool, has_publications: bool) -> (sections: Vec<&'static str>)
    ensures
        sections@.map_values(|s: &'static str| s@) == sections_for(in_recovery, has_subscriptions || has_publications),
{
    let mut sections: Vec<&'static str> = Vec::new();
    if in_recovery {
        sections.push("receiver");
    } else {
        sections.push("standbys");
    }
    sections.push("slots");
    if has_subscriptions || has_publications {
        sections.push("logical");
    }
    assert(sections@.map_values(|s: &'static str| s@) =~= sections_for(in_recovery, has_subscriptions || has_publications));
    sections
}

/// First server version whose `pg_replication_slots` says how long a slot
/// has been inactive.
pub const INACTIVE_SINCE_VERSION: i32 = 170000;

/// The note under the slots table: an older server cannot say how long a
/// slot has been inactive, and that is stated rather than left as an empty
/// column, but only where there is a slot to say it of.
pub fn slots_note(version_num: i32, has_slots: bool) -> (note: Option<&'static str>)
    ensures
        note is Some <==> version_num < INACTIVE_SINCE_VERSION && has_slots,
        note is Some ==> note->0@ == "Inactive duration requires PostgreSQL 17 or later."@,
{
    if version_num < INACTIVE_SINCE_VERSION && has_slots {
        Some("Inactive duration requires PostgreSQL 17 or later.")
    } else {
        None
    }
}

/// `names` with `sep` between each two of them, as `[String]::join` gives.
pub open spec fn joined(names: Seq<Seq<char>>, sep: Seq<char>) -> Seq<char>
    decreases names.len(),
{
    if names.len() == 0 {
        Seq::empty()
    } else if names.len() == 1 {
        names[0]
    } else {
        joined(names.drop_last(), sep) + sep + names.last()
    }
}

/// The line naming the publications of `database`.
pub open spec fn publications_text(database: Seq<char>, names: Seq<Seq<char>>) -> Seq<char> {
    if names.len() == 0 {
        "No publications in "@ + database + "."@
    } else {
        "Publications in "@ + database + ": "@ + joined(names, ", "@)
    }
}

/// The line under the logical replication section: the publications of the
/// database the page is connected to, by name, or that there is none.
pub fn publications_note(database: &str, names: &[String]) -> (note: String)
    ensures
        note@ == publications_text(database@, names@.map_values(|n: String| n@)),
{
    let ghost views = names@.map_values(|n: String| n@);
    let mut note = String::new();
    if names.len() == 0 {
        append(&mut note, "No publications in ");
        append(&mut note, database);
        append(&mut note, ".");
        return note;
    }
    append(&mut note, "Publications in ");
    append(&mut note, database);
    append(&mut note, ": ");
    let ghost head = note@;
    append(&mut note, names[0].as_str());
    let mut k: usize = 1;
    while k < names.len()
        invariant
            1 <= k <= names.len(),
            views == names@.map_values(|n: String| n@),
            note@ == head + joined(views.take(k as int), ", "@),
        decreases names.len() - k,
    {
        append(&mut note, ", ");
        append(&mut note, names[k].as_str());
        assert(views.take(k as int + 1).drop_last() =~= views.take(k as int));
        k = k + 1;
    }
    assert(views.take(k as int) =~= views);
    note
}

} // verus!
