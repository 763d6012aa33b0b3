//! The logic of clowder, a terminal daemon that runs coding agents side by side.

pub mod client;
pub mod config;
pub mod daemon;
pub mod hook;
pub mod muxy;
pub mod path;
pub mod proto;
pub mod text;
pub mod vt;
pub mod workspace;
