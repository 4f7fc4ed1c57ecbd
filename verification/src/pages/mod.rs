//! What the pages compute before they draw: formatted figures, the lines a
//! tree of locks becomes, and the messages an action's outcome is told in.

pub mod format;
pub mod locks;
pub mod plan;
pub mod relations;
pub mod replication;
pub mod filters;
pub mod queries;
