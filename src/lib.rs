//! Tmux topology parsing, pane resolution, surgical config patching and
//! profile toggling for a small editor/terminal workflow tool.

pub mod error;
pub mod text;
pub mod tmux;
pub mod patch;
pub mod profile;
pub mod mac;
pub mod cli;
