use tmuxd::protocol::{client_output, parse_request, request_line};
use tmuxd::utils::{cache_path, join_path, full_path, sock_path};

#[test]
fn request_line_frames_id_and_path() {
    assert_eq!(request_line("%3", "/home/u/my dir"), "%3 /home/u/my dir\n");
}

#[test]
fn request_round_trip_keeps_spaces_in_path() {
    let line = request_line("%3", "/home/u/my dir");
    let line = line.trim_end_matches('\n');
    assert_eq!(
        parse_request(line),
        Some(("%3".to_string(), "/home/u/my dir".to_string()))
    );
}

#[test]
fn parse_request_defaults_path_to_dot() {
    assert_eq!(parse_request("%1"), Some(("%1".to_string(), ".".to_string())));
}

#[test]
fn parse_request_rejects_empty_id() {
    assert_eq!(parse_request(""), None);
    assert_eq!(parse_request(" /tmp"), None);
}

#[test]
fn client_output_falls_back_to_cache_then_nothing() {
    assert_eq!(client_output(Some("live".into()), Some("old".into())), "live");
    assert_eq!(client_output(None, Some("old".into())), "old");
    assert_eq!(client_output(None, None), "");
}

#[test]
fn paths_in_runtime_dir() {
    assert_eq!(sock_path("/tmp"), "/tmp/tmuxd.sock");
    assert_eq!(sock_path("/tmp/"), "/tmp/tmuxd.sock");
    assert_eq!(cache_path("/tmp", "%7"), "/tmp/tmux_status_%7");
    assert_eq!(join_path("/tmp", "/abs"), "/abs");
    assert_eq!(join_path("", "x"), "x");
}

#[test]
fn distinct_panes_get_distinct_cache_files() {
    assert_ne!(cache_path("/tmp", "%1"), cache_path("/tmp", "%2"));
    assert_ne!(cache_path("/tmp", "%1"), sock_path("/tmp"));
}

#[test]
fn full_path_appends_inherited_path() {
    assert_eq!(
        full_path("/Users/me", ""),
        "/opt/homebrew/bin:/usr/local/bin:/usr/bin:/bin:/Users/me/.local/bin"
    );
    assert_eq!(
        full_path("/Users/me", "/x"),
        "/opt/homebrew/bin:/usr/local/bin:/usr/bin:/bin:/Users/me/.local/bin:/x"
    );
}
