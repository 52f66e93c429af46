# tmuxd

A tmux status-bar daemon. Background collectors keep machine-wide state
(Docker containers, listening dev/database ports, the loaded Ollama model,
the Kubernetes context, Homebrew services, OrbStack, RAM pressure); a Unix
socket server answers each pane's `tmuxd status <pane_id> <pane_path>` with
a rendered status line, and the client falls back to the pane's last cached
line when the daemon does not answer.

Layout:

- `src/` — the verified library (Verus): the status-line renderer, the
  request protocol, the per-path Git cache, the collectors' parsers and
  decision steps, and the text operations they rest on.
- `app/` — the executable: tokio tasks, sockets, processes, HTTP, git2,
  netstat2, serde parsing of kubeconfig and brew output, and the RAM
  percentage (floating point).
- `tests/` — tests of the library.
