//! Installation of standalone tools: the decisions that take a request and the
//! state found on disk to a safe sequence of environment and filesystem actions.

pub mod order;
pub mod path;
pub mod entry_point;
pub mod requirement;
pub mod receipt;
pub mod install;
pub mod session;
