use std::collections::HashSet;

use tmuxd::docker::{
    container_count, count_from_len, docker_host_candidates, on_event_line, response_body,
    socket_path_of, DockerAction, DockerWatch, EventPhase,
};
use tmuxd::ollama::{
    active_model, active_model_display, model_display_name, ps_lists_ollama, OllamaUpdate,
    OllamaWatch,
};
use tmuxd::protocol::{on_socket_in_use, SocketInUse};
use tmuxd::ports::{ports_of_interest, PortsWatch};
use tmuxd::ram::{field_token, page_size_token};

#[test]
fn container_count_counts_json_array() {
    let resp = "HTTP/1.0 200 OK\r\nContent-Type: application/json\r\n\r\n[{\"Id\":\"a\"},{\"Id\":\"b\"}]";
    assert_eq!(container_count(resp), 2);
}

#[test]
fn container_count_is_zero_without_array() {
    assert_eq!(container_count("HTTP/1.0 500\r\n\r\n{\"message\":\"x\"}"), 0);
    assert_eq!(container_count("HTTP/1.0 200 OK\r\n"), 0);
    assert_eq!(container_count("HTTP/1.0 200 OK\r\n\r\nnot json"), 0);
}

#[test]
fn response_body_after_blank_line() {
    assert_eq!(response_body("H\r\n\r\nbody\r\n\r\nmore"), Some("body\r\n\r\nmore".to_string()));
    assert_eq!(response_body("nothing"), None);
    assert_eq!(count_from_len(Some(7)), 7);
    assert_eq!(count_from_len(None), 0);
}

#[test]
fn docker_socket_paths() {
    assert_eq!(socket_path_of("unix:///var/run/docker.sock"), "/var/run/docker.sock");
    assert_eq!(socket_path_of("unix://unix:///x"), "/x");
    assert_eq!(socket_path_of("/plain"), "/plain");
    assert_eq!(
        docker_host_candidates(None, "/h"),
        vec![
            "unix:///h/.orbstack/run/docker.sock".to_string(),
            "unix:///var/run/docker.sock".to_string()
        ]
    );
    assert_eq!(docker_host_candidates(Some("tcp://x".into()), "/h").len(), 3);
}

#[test]
fn event_stream_skips_headers_then_recounts_on_events() {
    let (p, r) = on_event_line(EventPhase::Headers, "HTTP/1.1 200 OK\r\n");
    assert!(p == EventPhase::Headers && !r);
    let (p, r) = on_event_line(p, "\r\n");
    assert!(p == EventPhase::Events && !r);
    let (p, r) = on_event_line(p, "  {\"status\":\"start\"}\n");
    assert!(p == EventPhase::Events && r);
    let (_, r) = on_event_line(p, "1a\r\n");
    assert!(!r);
}

#[test]
fn docker_watch_remembers_host() {
    let mut w = DockerWatch::new();
    assert!(w.cached_socket().is_none());
    assert!(matches!(w.on_host(Some("unix:///s".into())), DockerAction::Watch(h) if h == "unix:///s"));
    assert_eq!(w.cached_socket(), Some("/s".to_string()));
    assert_eq!(w.reusable_host(true), Some("unix:///s".to_string()));
    assert_eq!(w.reusable_host(false), None);
    assert!(matches!(w.on_host(None), DockerAction::Absent));
    assert!(w.cached_host.is_none());
}

#[test]
fn ollama_process_detection() {
    assert!(ps_lists_ollama("launchd\n  ollama  \r\nzsh\n"));
    assert!(!ps_lists_ollama("ollama-runner\nzsh"));
    assert!(!ps_lists_ollama(""));
}

#[test]
fn ollama_model_display_name() {
    assert_eq!(model_display_name("llama3.1:8b-instruct"), "llama3.1");
    assert_eq!(model_display_name("a-very-long-model-name:latest"), "a-very-long-");
}

#[test]
fn ollama_cleared_after_two_misses() {
    let mut w = OllamaWatch::new();
    assert!(matches!(w.on_probe(true, Some("llama3.1".into())), OllamaUpdate::Show(t) if t == "llama3.1"));
    assert!(matches!(w.on_probe(false, None), OllamaUpdate::Keep));
    assert!(matches!(w.on_probe(false, None), OllamaUpdate::Clear));
    assert!(matches!(w.on_probe(true, Some("qwen".into())), OllamaUpdate::Show(t) if t == "qwen"));
    assert_eq!(w.consecutive_not_running, 0);
}

#[test]
fn ports_filtered_to_interest() {
    let s = ports_of_interest(&vec![22, 5432, 8080, 9999, 5432]);
    assert_eq!(s, HashSet::from([5432u16, 8080]));
}

#[test]
fn ports_cleared_after_two_empty_scans_only() {
    let mut w = PortsWatch::new();
    let mut shown = HashSet::from([5432u16]);
    w.on_scan(&mut shown, None);
    assert_eq!(shown, HashSet::from([5432u16]));
    w.on_scan(&mut shown, Some(HashSet::new()));
    assert_eq!(shown, HashSet::from([5432u16]));
    w.on_scan(&mut shown, Some(HashSet::new()));
    assert!(shown.is_empty());
    w.on_scan(&mut shown, Some(HashSet::from([8080u16])));
    assert_eq!(shown, HashSet::from([8080u16]));
    assert_eq!(w.consecutive_empty, 0);
}

#[test]
fn vm_stat_tokens() {
    let text = "Mach Virtual Memory Statistics: (page size of 16384 bytes)\nPages free:     100.\nPages active:   2000.\nPages wired down:  300.\n";
    assert_eq!(page_size_token(text), Some("16384".to_string()));
    assert_eq!(field_token(text, "Pages active"), Some("2000".to_string()));
    assert_eq!(field_token(text, "Pages wired down"), Some("300".to_string()));
    assert_eq!(field_token(text, "Pages occupied by compressor"), None);
    assert_eq!(page_size_token("no marker here"), None);
    assert_eq!(page_size_token(""), None);
}

#[test]
fn ollama_idle_shows_nothing() {
    let mut w = OllamaWatch::new();
    assert!(matches!(w.on_probe(false, None), OllamaUpdate::Keep));
    assert!(matches!(w.on_probe(true, None), OllamaUpdate::Clear));
    assert_eq!(w.consecutive_not_running, 0);
}

#[test]
fn active_model_from_ps_body() {
    assert_eq!(
        active_model(r#"{"models":[{"name":"llama3.1:8b"},{"name":"qwen:7b"}]}"#),
        Some("llama3.1".to_string())
    );
    assert_eq!(
        active_model(r#"{"models":[{"name":"deepseek-coder-v2:16b"}]}"#),
        Some("deepseek-cod".to_string())
    );
    assert_eq!(active_model(r#"{"models":[]}"#), None);
    assert_eq!(active_model(r#"{"models":[{"size":1},{"name":"x"}]}"#), None);
    assert_eq!(active_model(r#"{"models":[{"name":7}]}"#), None);
    assert_eq!(active_model(r#"{"models":{}}"#), None);
    assert_eq!(active_model("not json"), None);
    assert_eq!(active_model("[1]"), None);
}

#[test]
fn active_model_display_takes_first_name() {
    assert_eq!(
        active_model_display(Some(vec![Some("mistral:latest".to_string()), None])),
        Some("mistral".to_string())
    );
    assert_eq!(active_model_display(Some(vec![None, Some("x".to_string())])), None);
    assert_eq!(active_model_display(Some(vec![])), None);
    assert_eq!(active_model_display(None), None);
}

#[test]
fn socket_in_use_decision() {
    assert!(matches!(on_socket_in_use(true), SocketInUse::ExitAlreadyRunning));
    assert!(matches!(on_socket_in_use(false), SocketInUse::RemoveStaleAndRebind));
}

#[test]
fn poll_intervals() {
    assert_eq!(tmuxd::ports::POLL_INTERVAL_SECS, 3);
    assert_eq!(tmuxd::ollama::POLL_INTERVAL_SECS, 3);
    assert_eq!(tmuxd::ram::POLL_INTERVAL_SECS, 3);
    assert_eq!(tmuxd::services::POLL_INTERVAL_SECS, 15);
}
