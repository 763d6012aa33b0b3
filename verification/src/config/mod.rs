//! What the user configures.

pub mod agents;
pub mod hosts;
pub mod label;
pub mod laws;
pub mod resolve;
pub mod vars;

pub use resolve::{Config, EnvCfg, FileConfig, PaneCfg, Remote, Sockets, Worktrees};
