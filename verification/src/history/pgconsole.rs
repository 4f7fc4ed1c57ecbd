//! Whether a pgconsole schema can receive the history rows.

use vstd::prelude::*;

verus! {

/// Whether an existing pgconsole schema can receive the history rows.
/// Decided once at connect, for a server set to pgconsole mode.
#[derive(Debug, Clone, Copy, PartialEq, Eq, Structural)]
pub enum PgConsoleAvailability {
    Writable,
    /// No pgconsole schema, or not the expected history tables.
    SchemaMissing,
    /// The tables exist but the connected role cannot INSERT.
    NotWritable,
}

impl PgConsoleAvailability {
    /// Missing tables win over a privilege: a role cannot write to tables
    /// that are not there, whatever the privilege check said.
    pub fn classify(tables_exist: bool, can_insert: bool) -> (availability: Self)
        ensures
            availability == if !tables_exist {
                PgConsoleAvailability::SchemaMissing
            } else if !can_insert {
                PgConsoleAvailability::NotWritable
            } else {
                PgConsoleAvailability::Writable
            },
    {
        if !tables_exist {
            PgConsoleAvailability::SchemaMissing
        } else if !can_insert {
            PgConsoleAvailability::NotWritable
        } else {
            PgConsoleAvailability::Writable
        }
    }
}

} // verus!
