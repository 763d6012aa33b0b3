//! The isolated working copies in which agents work.

pub mod driver;
pub mod kind;
pub mod layout;
pub mod name;

pub use driver::{driver_for, driver_for_kind, Driver, GitWorktreeDriver, JjDriver, WorkspaceDriver};
pub use kind::{detect_kind, Workspace, WorkspaceKind};
pub use layout::{branch_name, jj_workspace_name, task_from_branch, WorktreeLayout};
pub use name::validate_workspace_name;
