//! What the daemon decides.

pub mod adapter;
pub mod agent_profiles;
pub mod command;
pub mod conn;
pub mod control;
pub mod env;
pub mod flow;
pub mod instance;
pub mod login_env;
pub mod projects;
pub mod registry;
pub mod remote;
pub mod remote_tls;
pub mod scan;
pub mod split_tree;
pub mod state;
pub mod store;
pub mod table;
