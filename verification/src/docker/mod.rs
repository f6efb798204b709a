//! What the daemon decides about Docker objects: their names and which
//! container of a stack takes the traffic.

pub mod names;
pub mod compose;
pub mod containers;
