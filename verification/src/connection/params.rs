//! Per-server settings that shape how the collector talks to it.

use vstd::prelude::*;

verus! {

/// Whether the connection must, may, or must not use TLS.
#[derive(Debug, Clone, Copy, PartialEq, Eq, Structural)]
pub enum SslMode {
    Disable,
    Prefer,
    Require,
}

/// Where a server's history is stored. Off by default and strictly opt-in:
/// Local writes to a SQLite file Mission Centre owns; PgConsole writes to an
/// existing pgconsole schema on the monitored server (INSERT only).
#[derive(Debug, Clone, Copy, PartialEq, Eq, Structural)]
pub enum HistoryMode {
    Off,
    Local,
    PgConsole,
}

impl Default for HistoryMode {
    /// History is off until the user opts in.
    fn default() -> (mode: Self)
        ensures
            mode == HistoryMode::Off,
    {
        HistoryMode::Off
    }
}

} // verus!
