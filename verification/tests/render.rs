use std::collections::HashSet;

use tmuxd::git::GitInfo;
use tmuxd::render::{
    brew_icon, build, shorten_path, shorten_path_with_home, ICON_BREW, ICON_BRANCH, ICON_DOCKER,
    ICON_ETCD, ICON_FOLDER, ICON_HTTP, ICON_K8S, ICON_MONGO, ICON_ORBSTACK, ICON_PG,
    ICON_PYTHON, ICON_RAM, ICON_VAULT, SEP,
};
use tmuxd::state::{GlobalState, PerPaneContext};

#[test]
fn shorten_path_replaces_home_with_tilde() {
    assert_eq!(
        shorten_path_with_home("/Users/dev/projects/tmuxd", "/Users/dev"),
        "~/projects/tmuxd"
    );
}

#[test]
fn shorten_path_keeps_only_last_three_components() {
    assert_eq!(
        shorten_path_with_home("/a/b/c/d/e/f", "/nonexistent"),
        "d/e/f"
    );
}

#[test]
fn shorten_path_leaves_short_paths_untouched() {
    assert_eq!(shorten_path_with_home("/a/b", "/nonexistent"), "/a/b");
}

#[test]
fn shorten_path_ignores_home_if_path_does_not_start_with_it() {
    assert_eq!(
        shorten_path_with_home("/opt/Users/dev/x", "/Users/dev"),
        "test/Users/dev/x".replace("test/", "")
    );
}

#[test]
fn brew_icon_known_services_get_specific_icons() {
    assert_eq!(brew_icon("nginx"), ICON_HTTP);
    assert_eq!(brew_icon("kafka"), "\u{f0fdf}");
}

#[test]
fn brew_icon_versioned_service_name_matches_base() {
    assert_eq!(brew_icon("vault@1.15"), brew_icon("vault"));
}

#[test]
fn brew_icon_unknown_service_falls_back_to_generic_icon() {
    assert_eq!(brew_icon("some-random-service"), ICON_BREW);
}

#[test]
fn brew_icon_caddy_shares_the_http_glyph() {
    assert_eq!(brew_icon("caddy"), ICON_HTTP);
    assert_eq!(brew_icon("nginx@1.25"), ICON_HTTP);
    assert_eq!(brew_icon("etcd"), ICON_ETCD);
}

#[test]
fn shorten_path_empty_home_never_matches() {
    assert_eq!(shorten_path_with_home("/a/b", ""), "/a/b");
}

#[test]
fn shorten_path_home_itself_is_tilde() {
    assert_eq!(shorten_path("/Users/dev", "/Users/dev"), "~");
}

#[test]
fn shorten_path_under_home_keeps_three_components() {
    assert_eq!(shorten_path("/Users/dev/a/b/c", "/Users/dev"), "a/b/c");
}

#[test]
fn shorten_path_trailing_slash_counts_as_empty_component() {
    assert_eq!(shorten_path_with_home("/x/y/", "/none"), "x/y/");
}

fn empty_state() -> GlobalState {
    GlobalState::default()
}

fn pane(path: &str) -> PerPaneContext {
    PerPaneContext { pane_path: path.to_string(), git: None }
}

#[test]
fn build_with_nothing_to_report_is_path_and_space() {
    let out = build(&empty_state(), &pane("/a/b"), "/home/u");
    assert_eq!(out, format!("{ICON_FOLDER}  /a/b "));
}

#[test]
fn build_shows_git_counts_only_when_positive() {
    let mut p = pane("/home/u/src/app");
    p.git = Some(GitInfo {
        repo: "app".to_string(),
        branch: "main".to_string(),
        changed: 3,
        insertions: 0,
        deletions: 12,
    });
    let out = build(&empty_state(), &p, "/home/u");
    assert_eq!(
        out,
        format!("{ICON_FOLDER}  ~/src/app{SEP}{ICON_BRANCH} app:main ~3 -12 ")
    );
}

#[test]
fn build_orders_parts_and_joins_with_separator() {
    let mut s = empty_state();
    s.docker_count = 4;
    s.listening_ports = HashSet::from([27017u16, 5432, 8000, 5001]);
    s.orbstack_running = true;
    s.kubernetes_context = Some("gke/prod".to_string());
    s.ram_alert = Some("91".to_string());
    let out = build(&s, &pane("/w"), "/home/u");
    let expected = format!(
        "{ICON_FOLDER}  /w{SEP}{ICON_PG} {ICON_MONGO}{SEP}{ICON_DOCKER} 4{SEP}{ICON_RAM} 91% {SEP}{ICON_PYTHON} {ICON_PYTHON}{SEP}{ICON_ORBSTACK} orb{SEP}{ICON_K8S} gke/prod "
    );
    assert_eq!(out, expected);
}

#[test]
fn build_cuts_model_name_to_twelve_characters() {
    let mut s = empty_state();
    s.ollama_model = Some("abcdefghijklmnop".to_string());
    let out = build(&s, &pane("/w"), "");
    assert_eq!(out, format!("{ICON_FOLDER}  /w{SEP}\u{f06a9} abcdefghijkl "));
}

#[test]
fn build_sorts_and_dedups_brew_glyphs() {
    let mut s = empty_state();
    s.brew_services = vec![
        "vault".to_string(),
        "nginx".to_string(),
        "caddy".to_string(),
        "etcd@3".to_string(),
        "unknown".to_string(),
    ];
    let out = build(&s, &pane("/w"), "");
    assert_eq!(
        out,
        format!("{ICON_FOLDER}  /w{SEP}{ICON_ETCD} {ICON_VAULT} {ICON_BREW} {ICON_HTTP} ")
    );
}
