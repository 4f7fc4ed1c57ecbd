//! What the Queries page says when `pg_stat_statements` cannot be read.

use vstd::prelude::*;

use crate::connection::probe::StatementsAvailability;
use crate::text::append;

verus! {

/// The title and description the page shows in place of the table, or
/// nothing when the extension is usable: a missing extension says how to
/// install it in the connected database, a too-old one which version is
/// there and how to update it.
pub open spec fn notice_text(availability: StatementsAvailability, database: Seq<char>) -> Option<(Seq<char>, Seq<char>)> {
    match availability {
        StatementsAvailability::Available { .. } => None,
        StatementsAvailability::NotInstalled => Some(
            (
                "pg_stat_statements is not installed"@,
                "The extension is not present in the database "@ + database
                    + ". Add pg_stat_statements to shared_preload_libraries, restart the server, then run CREATE EXTENSION pg_stat_statements."@,
            ),
        ),
        StatementsAvailability::TooOld { version } => Some(
            (
                "pg_stat_statements is too old"@,
                "Version "@ + version@
                    + " is installed; version 1.8 or later is required. Run ALTER EXTENSION pg_stat_statements UPDATE."@,
            ),
        ),
    }
}

/// The notice shown in place of the statements table, if any.
pub fn statements_notice(availability: &StatementsAvailability, database: &str) -> (notice: Option<(String, String)>)
    ensures
        notice.is_some() == notice_text(*availability, database@).is_some(),
        notice.is_some() ==> (notice.unwrap().0@, notice.unwrap().1@) == notice_text(*availability, database@).unwrap(),
{
    match availability {
        StatementsAvailability::Available { .. } => None,
        StatementsAvailability::NotInstalled => {
            let mut title = String::new();
            append(&mut title, "pg_stat_statements is not installed");
            let mut description = String::new();
            append(&mut description, "The extension is not present in the database ");
            append(&mut description, database);
            append(
                &mut description,
                ". Add pg_stat_statements to shared_preload_libraries, restart the server, then run CREATE EXTENSION pg_stat_statements.",
            );
            Some((title, description))
        },
        StatementsAvailability::TooOld { version } => {
            let mut title = String::new();
            append(&mut title, "pg_stat_statements is too old");
            let mut description = String::new();
            append(&mut description, "Version ");
            append(&mut description, version.as_str());
            append(
                &mut description,
                " is installed; version 1.8 or later is required. Run ALTER EXTENSION pg_stat_statements UPDATE.",
            );
            Some((title, description))
        },
    }
}

} // verus!
