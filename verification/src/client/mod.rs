//! What the command line decides before and while it talks to a daemon.

pub mod agent_cli;
pub mod cli;
pub mod forward;
pub mod host_cli;
pub mod probe;
pub mod remote_cli;
pub mod session;
pub mod target;
pub mod tofu;
