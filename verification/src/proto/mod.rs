//! What the daemon and its clients say to each other.

pub mod auth;
pub mod control;
pub mod message;
pub mod remote;
pub mod transport;

pub use auth::{cert_fingerprint_hex, constant_time_eq};
pub use control::{
    AgentProfileInfo, Axis, ControlEvent, ControlRequest, PaneTree, ProjectInfo, SplitDirection,
    SplitId,
};
pub use message::{
    AdapterInfo, AttentionState, ClientToDaemon, DaemonToClient, HookEvent, HookKind, PaneId,
    WorktreeInfo,
};
pub use remote::Channel;
pub use transport::Transport;
