//! The tmux session → window → pane topology, its wire format and the
//! search that routes a keystroke to a pane.

pub mod list;
pub mod ops;
pub mod resolve;
pub mod types;
