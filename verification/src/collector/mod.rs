//! Sampling: what each sample holds, how consecutive samples turn into
//! rates, and when the collector samples, writes history, or gives up.

pub mod locks;
pub mod queries;
pub mod rates;
pub mod relations;
pub mod replication;
pub mod snapshot;
pub mod statements;
pub mod worker;
