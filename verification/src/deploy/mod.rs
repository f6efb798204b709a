//! The deployment pipeline: its states, the decisions taken at each of them,
//! the queue that orders deployments, and what a restart does to them.

pub mod state;
pub mod failure;
pub mod machine;
pub mod steps;
pub mod recovery;
pub mod queue;
pub mod git;
pub mod env;
