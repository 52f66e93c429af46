//! The machine-wide state the collectors fill and the per-pane context a
//! request brings.
use std::collections::HashSet;
use vstd::prelude::*;

use crate::git::GitInfo;

verus! {

/// State shared by all panes, windows and sessions; only the collectors
/// change it.
pub struct GlobalState {
    /// Number of running Docker containers (0 when Docker is absent).
    pub docker_count: u32,
    /// Ports of interest that currently have a listening TCP socket.
    pub listening_ports: HashSet<u16>,
    /// Display name of the first loaded Ollama model; `None` when Ollama
    /// runs idle (no model loaded) or is absent.
    pub ollama_model: Option<String>,
    /// Shortened name of the current Kubernetes context when its API server
    /// answers.
    pub kubernetes_context: Option<String>,
    /// Running Homebrew services not already shown through their port; no
    /// name occurs twice.
    pub brew_services: Vec<String>,
    /// Whether OrbStack is running.
    pub orbstack_running: bool,
    /// The RAM usage percentage, rounded to a whole number and written out,
    /// when usage is at or above the warning level; `None` below it.
    pub ram_alert: Option<String>,
}

impl GlobalState {
    /// No brew service name occurs twice.
    pub open spec fn wf(&self) -> bool {
        forall|a: int, b: int|
            0 <= a < b < self.brew_services@.len() ==> (#[trigger] self.brew_services@[a])@
                != (#[trigger] self.brew_services@[b])@
    }
}

impl Default for GlobalState {
    fn default() -> (s: GlobalState)
        ensures
            s.docker_count == 0,
            s.listening_ports@ == Set::<u16>::empty(),
            s.ollama_model is None,
            s.kubernetes_context is None,
            s.brew_services@.len() == 0,
            !s.orbstack_running,
            s.ram_alert is None,
            s.wf(),
    {
        GlobalState {
            docker_count: 0,
            listening_ports: HashSet::new(),
            ollama_model: None,
            kubernetes_context: None,
            brew_services: Vec::new(),
            orbstack_running: false,
            ram_alert: None,
        }
    }
}

/// What one request says of its pane: its current directory and the Git
/// summary found there.
pub struct PerPaneContext {
    pub pane_path: String,
    pub git: Option<GitInfo>,
}

} // verus!
