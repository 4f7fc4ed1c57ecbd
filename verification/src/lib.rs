//! Verified core of a PostgreSQL activity monitor: the SQL it sends, the
//! rules that classify what the server reports, and the bookkeeping that
//! decides when to sample and when to give up on a connection.

pub mod clock;
pub mod text;
pub mod actions;
pub mod explain;
pub mod connection;
pub mod dialogs;
pub mod collector;
pub mod history;
pub mod pages;
pub mod window;
pub mod window_actions;
