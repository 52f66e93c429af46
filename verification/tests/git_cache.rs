use tmuxd::git::{
    count_changed, CacheLookup, FileStatus, GitCache, GitInfo, CACHE_TTL_NANOS,
    EVICT_AFTER_NANOS,
};

fn info(branch: &str) -> GitInfo {
    GitInfo {
        repo: "r".to_string(),
        branch: branch.to_string(),
        changed: 1,
        insertions: 2,
        deletions: 3,
    }
}

fn branch_of(l: &CacheLookup) -> Option<String> {
    match l {
        CacheLookup::Fresh(Some(g)) | CacheLookup::Stale(Some(g)) => Some(g.branch.clone()),
        _ => None,
    }
}

#[test]
fn miss_then_fresh_then_stale() {
    let mut c = GitCache::new();
    assert!(matches!(c.lookup("/p", 0), CacheLookup::Miss));
    c.store("/p", Some(info("main")), 10);
    let l = c.lookup("/p", 10 + CACHE_TTL_NANOS);
    assert!(matches!(l, CacheLookup::Fresh(_)));
    assert_eq!(branch_of(&l), Some("main".to_string()));
    let l = c.lookup("/p", 11 + CACHE_TTL_NANOS);
    assert!(matches!(l, CacheLookup::Stale(_)));
}

#[test]
fn refresh_replaces_summary() {
    let mut c = GitCache::new();
    c.store("/p", Some(info("main")), 0);
    c.complete_refresh("/p", Some(info("dev")), 5 * CACHE_TTL_NANOS);
    let l = c.lookup("/p", 5 * CACHE_TTL_NANOS + 1);
    assert!(matches!(l, CacheLookup::Fresh(_)));
    assert_eq!(branch_of(&l), Some("dev".to_string()));
}

#[test]
fn idle_paths_are_evicted_and_not_resurrected() {
    let mut c = GitCache::new();
    c.store("/p", None, 0);
    assert!(matches!(c.lookup("/p", EVICT_AFTER_NANOS), CacheLookup::Miss));
    c.complete_refresh("/p", Some(info("x")), EVICT_AFTER_NANOS + 1);
    assert!(matches!(c.lookup("/p", EVICT_AFTER_NANOS + 2), CacheLookup::Miss));
}

#[test]
fn lookup_keeps_requested_path_alive() {
    let mut c = GitCache::new();
    c.store("/p", None, 0);
    let _ = c.lookup("/p", EVICT_AFTER_NANOS - 1);
    assert!(matches!(
        c.lookup("/p", 2 * EVICT_AFTER_NANOS - 2),
        CacheLookup::Stale(None)
    ));
}

#[test]
fn counts_modified_and_deleted_files() {
    let f = |m: bool, d: bool| FileStatus {
        wt_modified: m,
        index_modified: false,
        wt_deleted: false,
        index_deleted: d,
    };
    assert_eq!(count_changed(&vec![f(true, false), f(false, false), f(false, true)]), 2);
    assert_eq!(count_changed(&vec![]), 0);
}
