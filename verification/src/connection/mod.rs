//! What is known about a server before and after connecting to it.

pub mod params;
pub mod probe;
