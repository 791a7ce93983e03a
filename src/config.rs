//! The declarative configuration that the tools read.
use vstd::prelude::*;

use crate::name_map::NameMap;

verus! {

/// Configuration for the application.
#[derive(Debug, Clone, PartialEq, Eq)]
pub struct Config {
    /// Optional tmux configuration: the sessions and windows to be created.
    pub tmux: Option<Tmux>,
    /// Optional configuration for the shell-startup cache.
    pub shell_caching: Option<ShellCache>,
    /// Optional list of crate locations, searched for the crates that windows link.
    pub crate_locations: Option<Vec<String>>,
}

/// Where the shell-startup cache reads its sources and writes its output.
#[derive(Debug, Clone, PartialEq, Eq)]
pub struct ShellCache {
    pub source: String,
    pub destination: String,
}

/// Tmux configuration.
#[derive(Debug, Clone, PartialEq, Eq)]
pub struct Tmux {
    /// The sessions, in the order they are set up.
    pub sessions: Vec<Session>,
    /// The session to attach to once every session is set up.
    pub default_session: Option<String>,
}

/// Configuration for a tmux session.
#[derive(Debug, Clone, PartialEq, Eq)]
pub struct Session {
    /// Name of the session.
    pub name: String,
    /// Windows of the session, left to right.
    pub windows: Vec<Window>,
}

/// Command to be typed into a tmux window once it is created.
#[derive(Debug, Clone, PartialEq, Eq)]
pub enum Command {
    /// A single command line.
    Single(String),
    /// Several command lines, in order.
    Multiple(Vec<String>),
}

/// Configuration for a tmux window.
#[derive(Debug, Clone, PartialEq, Eq)]
pub struct Window {
    /// Name of the window.
    pub name: String,
    /// Working directory of the window when it is created.
    pub path: Option<String>,
    /// Command to run in the window when it is created.
    pub command: Option<Command>,
    /// Environment variables of the window; applied in order of their names.
    pub env: Option<NameMap>,
    /// Crates whose build output directory goes onto `$PATH` in the window, in order.
    pub linked_crates: Option<Vec<String>>,
}

} // verus!
