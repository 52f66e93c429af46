//! tmuxd: a tmux status-bar daemon's logic. Collectors keep machine-wide
//! state, each pane's request is answered with a status line rendered from
//! that state, the pane's path and its Git summary.

pub mod docker;
pub mod git;
pub mod ollama;
pub mod ports;
pub mod protocol;
pub mod ram;
pub mod render;
pub mod services;
pub mod state;
pub mod text;
pub mod utils;
