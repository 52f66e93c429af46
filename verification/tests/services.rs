use tmuxd::services::{
    kube_api_addr, orbstack_socket_paths, select_brew_services, shorten_context,
    BrewServiceEntry, ClusterDetails, KubeCluster, KubeConfig, KubeContext, KubeContextEntry,
};

#[test]
fn test_shorten_context_gke() {
    assert_eq!(
        shorten_context("gke_my-project_us-central1_prod"),
        "gke/prod"
    );
}

#[test]
fn test_shorten_context_eks() {
    assert_eq!(
        shorten_context("arn:aws:eks:ap-northeast-1:123:cluster/staging"),
        "eks/staging"
    );
}

#[test]
fn test_shorten_context_colima() {
    assert_eq!(shorten_context("colima"), "colima");
}

#[test]
fn shorten_context_cuts_other_names_to_fourteen_characters() {
    assert_eq!(shorten_context("docker-desktop-long-name"), "docker-desktop");
}

fn entry(name: &str, running: bool) -> BrewServiceEntry {
    BrewServiceEntry { name: name.to_string(), running }
}

#[test]
fn select_brew_skips_port_covered_and_stopped() {
    let services = select_brew_services(&vec![
        entry("redis", true),
        entry("nginx", true),
        entry("postgresql@14", false),
    ]);
    assert!(!services.contains(&"redis".to_string()), "redis should be skipped (port covered)");
    assert!(services.contains(&"nginx".to_string()), "nginx should be included");
    assert!(!services.contains(&"postgresql@14".to_string()), "postgresql@14 not running");
}

#[test]
fn select_brew_skips_versioned_port_covered_by_base_name() {
    let services = select_brew_services(&vec![entry("mysql@5.7", true), entry("redis@7", true)]);
    assert!(services.is_empty());
}

#[test]
fn select_brew_lists_each_name_once() {
    let services = select_brew_services(&vec![entry("nginx", true), entry("nginx", true)]);
    assert_eq!(services, vec!["nginx".to_string()]);
}

fn config(current: &str) -> KubeConfig {
    KubeConfig {
        current_context: current.to_string(),
        clusters: vec![
            KubeCluster {
                name: "c1".to_string(),
                cluster: ClusterDetails { server: "https://10.0.0.1:6443".to_string() },
            },
            KubeCluster {
                name: "c2".to_string(),
                cluster: ClusterDetails { server: "http://localhost:8080".to_string() },
            },
        ],
        contexts: vec![
            KubeContextEntry { name: "a".to_string(), context: KubeContext { cluster: "c1".to_string() } },
            KubeContextEntry { name: "b".to_string(), context: KubeContext { cluster: "c2".to_string() } },
            KubeContextEntry { name: "x".to_string(), context: KubeContext { cluster: "missing".to_string() } },
        ],
    }
}

#[test]
fn kube_api_addr_strips_scheme() {
    assert_eq!(kube_api_addr(&config("a")), Some("10.0.0.1:6443".to_string()));
    assert_eq!(kube_api_addr(&config("b")), Some("localhost:8080".to_string()));
}

#[test]
fn kube_api_addr_none_without_current_context() {
    assert_eq!(kube_api_addr(&config("")), None);
    assert_eq!(kube_api_addr(&config("N/A")), None);
    assert_eq!(kube_api_addr(&config("nope")), None);
    assert_eq!(kube_api_addr(&config("x")), None);
}

#[test]
fn orbstack_socket_paths_under_home() {
    assert_eq!(
        orbstack_socket_paths("/Users/me"),
        vec![
            "/Users/me/.orbstack/run/docker.sock".to_string(),
            "/Users/me/Library/Containers/com.orbstack.mac/Data/docker.sock".to_string(),
        ]
    );
}
