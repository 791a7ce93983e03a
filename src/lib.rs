//! Reconciliation of a declarative tmux layout against a running tmux server,
//! with the small text and decision helpers that the surrounding tools share.

pub mod command_line;
pub mod config;
pub mod dotfiles;
pub mod latest_bin;
pub mod laws;
pub mod name_map;
pub mod planner;
pub mod reconcile;
pub mod shell_cache;
pub mod state;
pub mod text;
