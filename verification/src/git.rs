//! Per-pane Git summary and the stale-while-revalidate cache that keeps it.
use vstd::prelude::*;

use crate::text::{chars_eq, chars_of, string_of};

verus! {

/// What the status line shows of the repository a pane sits in.
pub struct GitInfo {
    pub repo: String,
    pub branch: String,
    pub changed: u32,
    pub insertions: u32,
    pub deletions: u32,
}

/// The flags of one file in `git status` that the change count reads.
pub struct FileStatus {
    pub wt_modified: bool,
    pub index_modified: bool,
    pub wt_deleted: bool,
    pub index_deleted: bool,
}

/// Whether a file counts as changed: modified or deleted, in the working
/// tree or in the index.
pub open spec fn counts_as_changed(s: FileStatus) -> bool {
    s.wt_modified || s.index_modified || s.wt_deleted || s.index_deleted
}

/// How many of `statuses` count as changed.
pub open spec fn changed_count(statuses: Seq<FileStatus>) -> nat
    decreases statuses.len(),
{
    if statuses.len() == 0 {
        0
    } else {
        changed_count(statuses.drop_last()) + if counts_as_changed(statuses.last()) {
            1nat
        } else {
            0nat
        }
    }
}

proof fn lemma_changed_count_bound(statuses: Seq<FileStatus>)
    ensures
        changed_count(statuses) <= statuses.len(),
    decreases statuses.len(),
{
    if statuses.len() > 0 {
        lemma_changed_count_bound(statuses.drop_last());
    }
}

/// The number of files that are modified or deleted in the working tree
/// or the index.
pub fn count_changed(statuses: &Vec<FileStatus>) -> (n: u32)
    requires
        statuses@.len() <= u32::MAX,
    ensures
        n == changed_count(statuses@),
{
    let mut n: u32 = 0;
    let mut i: usize = 0;
    while i < statuses.len()
        invariant
            i <= statuses@.len(),
            statuses@.len() <= u32::MAX,
            n == changed_count(statuses@.take(i as int)),
        decreases statuses@.len() - i,
    {
        proof {
            assert(statuses@.take(i + 1).drop_last() =~= statuses@.take(i as int));
            lemma_changed_count_bound(statuses@.take(i as int));
        }
        let s = &statuses[i];
        if s.wt_modified || s.index_modified || s.wt_deleted || s.index_deleted {
            n = n + 1;
        }
        i = i + 1;
    }
    assert(statuses@.take(statuses@.len() as int) =~= statuses@);
    n
}

/// Adding a file to the status list adds one to the count exactly when
/// the file is modified or deleted in the working tree or in the index,
/// whichever of the four flags is set; an empty list counts zero.
pub proof fn law_changed_count_per_file(statuses: Seq<FileStatus>, f: FileStatus)
    ensures
        changed_count(Seq::<FileStatus>::empty()) == 0,
        (f.wt_modified || f.index_modified || f.wt_deleted || f.index_deleted) ==> changed_count(
            statuses.push(f),
        ) == changed_count(statuses) + 1,
        !(f.wt_modified || f.index_modified || f.wt_deleted || f.index_deleted) ==> changed_count(
            statuses.push(f),
        ) == changed_count(statuses),
        changed_count(statuses) <= statuses.len(),
{
    assert(statuses.push(f).drop_last() =~= statuses);
    lemma_changed_count_bound(statuses);
}

impl GitInfo {
    /// A field-by-field copy.
    pub fn duplicate(&self) -> (r: GitInfo)
        ensures
            r == *self,
    {
        GitInfo {
            repo: self.repo.clone(),
            branch: self.branch.clone(),
            changed: self.changed,
            insertions: self.insertions,
            deletions: self.deletions,
        }
    }
}

} // verus!

verus! {

/// How long a request waits for the first summary of an uncached path
/// before answering without one, in milliseconds.
pub const COLD_START_TIMEOUT_MILLIS: u64 = 150;

/// How long a cached summary counts as fresh: 3 s, in nanoseconds.
pub const CACHE_TTL_NANOS: u64 = 3_000_000_000;

/// How long a path may go without a request before its entry is dropped:
/// 5 min, in nanoseconds.
pub const EVICT_AFTER_NANOS: u64 = 300_000_000_000;

/// Time elapsed from `then` to `now`, zero when `now` is earlier (as
/// `Instant::elapsed` saturates).
pub open spec fn elapsed(then: u64, now: u64) -> int {
    if now >= then {
        now - then
    } else {
        0
    }
}

/// What the cache keeps for one path; times are nanoseconds on the
/// daemon's monotonic clock.
pub struct CacheSlot {
    /// The summary last fetched (`None`: the path is not in a repository).
    pub info: Option<GitInfo>,
    /// When `info` was fetched.
    pub fetched: u64,
    /// When a request last asked for this path.
    pub last_accessed: u64,
}

/// One cached path.
struct CacheEntry {
    path: String,
    slot: CacheSlot,
}

/// What a request finds in the cache.
pub enum CacheLookup {
    /// A summary fetched within the last `CACHE_TTL_NANOS`.
    Fresh(Option<GitInfo>),
    /// An older summary: serve it and fetch a new one in the background.
    Stale(Option<GitInfo>),
    /// Nothing cached: fetch now.
    Miss,
}

/// Git summaries by path, served stale while they are refreshed, dropped
/// when a path has not been asked for in `EVICT_AFTER_NANOS`.
pub struct GitCache {
    entries: Vec<CacheEntry>,
}

/// The map that a list of entries describes (later entries win).
spec fn map_of(entries: Seq<CacheEntry>) -> Map<Seq<char>, CacheSlot>
    decreases entries.len(),
{
    if entries.len() == 0 {
        Map::empty()
    } else {
        map_of(entries.drop_last()).insert(entries.last().path@, entries.last().slot)
    }
}

/// No path occurs twice.
spec fn distinct_paths(entries: Seq<CacheEntry>) -> bool {
    forall|i: int, j: int|
        0 <= i < j < entries.len() ==> (#[trigger] entries[i]).path@ != (#[trigger] entries[j]).path@
}

/// Whether a slot survives eviction at time `now`.
pub open spec fn alive(slot: CacheSlot, now: u64) -> bool {
    elapsed(slot.last_accessed, now) < EVICT_AFTER_NANOS
}

/// The cache after the entries not asked for within `EVICT_AFTER_NANOS`
/// of `now` are dropped.
pub open spec fn after_eviction(m: Map<Seq<char>, CacheSlot>, now: u64) -> Map<Seq<char>, CacheSlot> {
    Map::new(|k: Seq<char>| m.dom().contains(k) && alive(m[k], now), |k: Seq<char>| m[k])
}

/// What a request for `path` at `now` finds.
pub open spec fn lookup_result(m: Map<Seq<char>, CacheSlot>, path: Seq<char>, now: u64) -> CacheLookup {
    let kept = after_eviction(m, now);
    if kept.dom().contains(path) {
        if elapsed(kept[path].fetched, now) > CACHE_TTL_NANOS {
            CacheLookup::Stale(kept[path].info)
        } else {
            CacheLookup::Fresh(kept[path].info)
        }
    } else {
        CacheLookup::Miss
    }
}

/// The cache after a request for `path` at `now`: evicted, and the path's
/// last access set to `now` when it is kept.
pub open spec fn lookup_state(m: Map<Seq<char>, CacheSlot>, path: Seq<char>, now: u64) -> Map<
    Seq<char>,
    CacheSlot,
> {
    let kept = after_eviction(m, now);
    if kept.dom().contains(path) {
        kept.insert(
            path,
            CacheSlot { info: kept[path].info, fetched: kept[path].fetched, last_accessed: now },
        )
    } else {
        kept
    }
}

/// The cache after a summary fetched at `now` for an uncached `path` is
/// stored.
pub open spec fn stored(
    m: Map<Seq<char>, CacheSlot>,
    path: Seq<char>,
    info: Option<GitInfo>,
    now: u64,
) -> Map<Seq<char>, CacheSlot> {
    m.insert(path, CacheSlot { info, fetched: now, last_accessed: now })
}

/// The cache after a background refresh of `path` ends at `now`: the
/// summary is replaced only if the path is still cached.
pub open spec fn refreshed(
    m: Map<Seq<char>, CacheSlot>,
    path: Seq<char>,
    info: Option<GitInfo>,
    now: u64,
) -> Map<Seq<char>, CacheSlot> {
    if m.dom().contains(path) {
        m.insert(path, CacheSlot { info, fetched: now, last_accessed: m[path].last_accessed })
    } else {
        m
    }
}

proof fn lemma_map_of_dom(entries: Seq<CacheEntry>, k: Seq<char>)
    ensures
        map_of(entries).dom().contains(k) <==> exists|i: int|
            0 <= i < entries.len() && (#[trigger] entries[i]).path@ == k,
    decreases entries.len(),
{
    if entries.len() > 0 {
        lemma_map_of_dom(entries.drop_last(), k);
        if map_of(entries.drop_last()).dom().contains(k) {
            let i = choose|i: int| 0 <= i < entries.drop_last().len() && (#[trigger] entries.drop_last()[i]).path@ == k;
            assert(entries[i] == entries.drop_last()[i]);
        }
        if exists|i: int| 0 <= i < entries.len() && (#[trigger] entries[i]).path@ == k {
            let i = choose|i: int| 0 <= i < entries.len() && (#[trigger] entries[i]).path@ == k;
            if i < entries.len() - 1 {
                assert(entries.drop_last()[i] == entries[i]);
            }
        }
    }
}

proof fn lemma_map_of_at(entries: Seq<CacheEntry>, i: int)
    requires
        distinct_paths(entries),
        0 <= i < entries.len(),
    ensures
        map_of(entries).dom().contains(entries[i].path@),
        map_of(entries)[entries[i].path@] == entries[i].slot,
    decreases entries.len(),
{
    if i < entries.len() - 1 {
        let init = entries.drop_last();
        assert(init[i] == entries[i]);
        assert(distinct_paths(init)) by {
            assert forall|a: int, b: int| 0 <= a < b < init.len() implies (#[trigger] init[a]).path@
                != (#[trigger] init[b]).path@ by {
                assert(init[a] == entries[a]);
                assert(init[b] == entries[b]);
            }
        }
        lemma_map_of_at(init, i);
        assert(entries[i].path@ != entries.last().path@) by {
            assert(entries.last() == entries[entries.len() - 1]);
        }
    }
}

proof fn lemma_map_of_update(entries: Seq<CacheEntry>, i: int, e: CacheEntry)
    requires
        distinct_paths(entries),
        0 <= i < entries.len(),
        e.path@ == entries[i].path@,
    ensures
        map_of(entries.update(i, e)) == map_of(entries).insert(e.path@, e.slot),
    decreases entries.len(),
{
    let s = entries.update(i, e);
    if i == entries.len() - 1 {
        assert(s.drop_last() =~= entries.drop_last());
        assert(map_of(s) =~= map_of(entries).insert(e.path@, e.slot));
    } else {
        let init = entries.drop_last();
        assert(distinct_paths(init)) by {
            assert forall|a: int, b: int| 0 <= a < b < init.len() implies (#[trigger] init[a]).path@
                != (#[trigger] init[b]).path@ by {
                assert(init[a] == entries[a]);
                assert(init[b] == entries[b]);
            }
        }
        assert(init[i] == entries[i]);
        lemma_map_of_update(init, i, e);
        assert(s.drop_last() =~= init.update(i, e));
        assert(s.last() == entries.last());
        assert(entries.last().path@ != e.path@) by {
            assert(entries[entries.len() - 1] == entries.last());
        }
        assert(map_of(s) =~= map_of(entries).insert(e.path@, e.slot));
    }
}

impl GitCache {
    /// The cached slots by path.
    pub closed spec fn view(&self) -> Map<Seq<char>, CacheSlot> {
        map_of(self.entries@)
    }

    /// No path is cached twice.
    pub closed spec fn wf(&self) -> bool {
        distinct_paths(self.entries@)
    }

    /// An empty cache.
    pub fn new() -> (c: GitCache)
        ensures
            c.wf(),
            c.view() == Map::<Seq<char>, CacheSlot>::empty(),
    {
        GitCache { entries: Vec::new() }
    }

    /// The index of the entry for `path`.
    fn position(&self, path: &Vec<char>) -> (r: Option<usize>)
        requires
            self.wf(),
        ensures
            match r {
                Some(i) => i < self.entries@.len() && self.entries@[i as int].path@ == path@,
                None => !self.view().dom().contains(path@),
            },
    {
        let mut i: usize = 0;
        while i < self.entries.len()
            invariant
                i <= self.entries@.len(),
                forall|j: int| 0 <= j < i ==> (#[trigger] self.entries@[j]).path@ != path@,
            decreases self.entries@.len() - i,
        {
            let p = chars_of(self.entries[i].path.as_str());
            if chars_eq(&p, path) {
                return Some(i);
            }
            i = i + 1;
        }
        proof {
            lemma_map_of_dom(self.entries@, path@);
        }
        None
    }

    /// Drops the entries not asked for within `EVICT_AFTER_NANOS` of `now`.
    fn evict(&mut self, now: u64)
        requires
            old(self).wf(),
        ensures
            final(self).wf(),
            final(self).view() == after_eviction(old(self).view(), now),
    {
        let mut old_entries: Vec<CacheEntry> = Vec::new();
        std::mem::swap(&mut old_entries, &mut self.entries);
        let ghost src = old_entries@;
        let mut kept: Vec<CacheEntry> = Vec::new();
        let n = old_entries.len();
        let mut i: usize = 0;
        while i < n
            invariant
                n == src.len(),
                i <= n,
                distinct_paths(src),
                old_entries@ == src.skip(i as int),
                distinct_paths(kept@),
                forall|j: int|
                    0 <= j < kept@.len() ==> exists|k: int|
                        0 <= k < i && (#[trigger] kept@[j]).path@ == src[k].path@,
                map_of(kept@) == after_eviction(map_of(src.take(i as int)), now),
            decreases n - i,
        {
            let e = old_entries.remove(0);
            assert(e == src[i as int]);
            let ghost prev = kept@;
            assert(src.take(i + 1).drop_last() =~= src.take(i as int));
            assert(src.take(i + 1).last() == e);
            assert(old_entries@ =~= src.skip(i + 1));
            assert(!map_of(src.take(i as int)).dom().contains(e.path@)) by {
                lemma_map_of_dom(src.take(i as int), e.path@);
                if map_of(src.take(i as int)).dom().contains(e.path@) {
                    let k = choose|k: int| 0 <= k < src.take(i as int).len() && (#[trigger] src.take(i as int)[k]).path@ == e.path@;
                    assert(src[k].path@ != src[i as int].path@);
                }
            }
            let elapsed_ns = if now >= e.slot.last_accessed {
                now - e.slot.last_accessed
            } else {
                0
            };
            if elapsed_ns < EVICT_AFTER_NANOS {
                let ghost ep = e.path@;
                kept.push(e);
                assert(kept@.drop_last() =~= prev);
                assert(distinct_paths(kept@)) by {
                    assert forall|a: int, b: int| 0 <= a < b < kept@.len() implies (#[trigger] kept@[a]).path@
                        != (#[trigger] kept@[b]).path@ by {
                        if b == kept@.len() - 1 {
                            assert(kept@[a] == prev[a]);
                            let k = choose|k: int| 0 <= k < i && (#[trigger] prev[a]).path@ == src[k].path@;
                            assert(src[k].path@ != src[i as int].path@);
                        } else {
                            assert(kept@[a] == prev[a]);
                            assert(kept@[b] == prev[b]);
                        }
                    }
                }
                assert forall|j: int| 0 <= j < kept@.len() implies exists|k: int|
                    0 <= k < i + 1 && (#[trigger] kept@[j]).path@ == src[k].path@ by {
                    if j < prev.len() {
                        assert(kept@[j] == prev[j]);
                        let k = choose|k: int| 0 <= k < i && (#[trigger] prev[j]).path@ == src[k].path@;
                    } else {
                        assert(kept@[j].path@ == src[i as int].path@);
                    }
                }
                assert(map_of(kept@) =~= after_eviction(map_of(src.take(i + 1)), now));
            } else {
                assert forall|j: int| 0 <= j < kept@.len() implies exists|k: int|
                    0 <= k < i + 1 && (#[trigger] kept@[j]).path@ == src[k].path@ by {
                    let k = choose|k: int| 0 <= k < i && (#[trigger] kept@[j]).path@ == src[k].path@;
                }
                assert(map_of(kept@) =~= after_eviction(map_of(src.take(i + 1)), now));
            }
            i = i + 1;
        }
        assert(src.take(n as int) =~= src);
        self.entries = kept;
    }

    /// A request for `path` at time `now` (nanoseconds on the daemon's
    /// monotonic clock): drops the paths not asked for within
    /// `EVICT_AFTER_NANOS`, marks `path` as just asked for, and says what
    /// was found.
    pub fn lookup(&mut self, path: &str, now: u64) -> (r: CacheLookup)
        requires
            old(self).wf(),
        ensures
            final(self).wf(),
            r == lookup_result(old(self).view(), path@, now),
            final(self).view() == lookup_state(old(self).view(), path@, now),
    {
        self.evict(now);
        let key = chars_of(path);
        match self.position(&key) {
            Some(i) => {
                proof {
                    lemma_map_of_at(self.entries@, i as int);
                }
                let ghost before = self.entries@;
                let fetched = self.entries[i].slot.fetched;
                let info = match &self.entries[i].slot.info {
                    Some(g) => Some(g.duplicate()),
                    None => None,
                };
                let mut entries: Vec<CacheEntry> = Vec::new();
                std::mem::swap(&mut entries, &mut self.entries);
                let mut e = entries.remove(i);
                e.slot.last_accessed = now;
                entries.insert(i, e);
                self.entries = entries;
                proof {
                    assert(self.entries@ =~= before.update(i as int, self.entries@[i as int]));
                    lemma_map_of_update(before, i as int, self.entries@[i as int]);
                    assert(distinct_paths(self.entries@)) by {
                        assert forall|a: int, b: int| 0 <= a < b < self.entries@.len() implies (
                        #[trigger] self.entries@[a]).path@ != (#[trigger] self.entries@[b]).path@ by {
                            assert(before[a].path@ != before[b].path@);
                        }
                    }
                    assert(self.view() =~= lookup_state(old(self).view(), path@, now));
                }
                let stale = if now >= fetched {
                    now - fetched > CACHE_TTL_NANOS
                } else {
                    false
                };
                if stale {
                    CacheLookup::Stale(info)
                } else {
                    CacheLookup::Fresh(info)
                }
            },
            None => CacheLookup::Miss,
        }
    }

    /// Replaces the slot at index `i` by `slot`.
    fn replace_slot(&mut self, i: usize, slot: CacheSlot)
        requires
            old(self).wf(),
            i < old(self).entries@.len(),
        ensures
            final(self).wf(),
            final(self).view() == old(self).view().insert(old(self).entries@[i as int].path@, slot),
    {
        let ghost before = self.entries@;
        let mut entries: Vec<CacheEntry> = Vec::new();
        std::mem::swap(&mut entries, &mut self.entries);
        let mut e = entries.remove(i);
        e.slot = slot;
        entries.insert(i, e);
        self.entries = entries;
        proof {
            assert(self.entries@ =~= before.update(i as int, self.entries@[i as int]));
            lemma_map_of_update(before, i as int, self.entries@[i as int]);
            assert(distinct_paths(self.entries@)) by {
                assert forall|a: int, b: int| 0 <= a < b < self.entries@.len() implies (
                #[trigger] self.entries@[a]).path@ != (#[trigger] self.entries@[b]).path@ by {
                    assert(before[a].path@ != before[b].path@);
                }
            }
        }
    }

    /// Stores the summary fetched at `now` for `path` (as after a miss),
    /// replacing whatever was cached for it.
    pub fn store(&mut self, path: &str, info: Option<GitInfo>, now: u64)
        requires
            old(self).wf(),
        ensures
            final(self).wf(),
            final(self).view() == stored(old(self).view(), path@, info, now),
    {
        let key = chars_of(path);
        let slot = CacheSlot { info, fetched: now, last_accessed: now };
        match self.position(&key) {
            Some(i) => {
                self.replace_slot(i, slot);
            },
            None => {
                let ghost before = self.entries@;
                let e = CacheEntry { path: string_of(&key), slot };
                self.entries.push(e);
                proof {
                    lemma_map_of_dom(before, path@);
                    assert(self.entries@.drop_last() =~= before);
                    assert(distinct_paths(self.entries@)) by {
                        assert forall|a: int, b: int| 0 <= a < b < self.entries@.len() implies (
                        #[trigger] self.entries@[a]).path@ != (#[trigger] self.entries@[b]).path@ by {
                            assert(self.entries@[a] == before[a]);
                            if b < before.len() {
                                assert(self.entries@[b] == before[b]);
                            }
                        }
                    }
                }
            },
        }
    }

    /// Records the end of a background refresh of `path` at `now`: the new
    /// summary replaces the cached one if the path is still cached, and is
    /// dropped otherwise.
    pub fn complete_refresh(&mut self, path: &str, info: Option<GitInfo>, now: u64)
        requires
            old(self).wf(),
        ensures
            final(self).wf(),
            final(self).view() == refreshed(old(self).view(), path@, info, now),
    {
        let key = chars_of(path);
        match self.position(&key) {
            Some(i) => {
                proof {
                    lemma_map_of_at(self.entries@, i as int);
                }
                let last_accessed = self.entries[i].slot.last_accessed;
                self.replace_slot(i, CacheSlot { info, fetched: now, last_accessed });
            },
            None => {},
        }
    }
}

// ── Laws ──

/// A summary just stored is served as fresh for `CACHE_TTL_NANOS`, then as
/// stale until the path has gone `EVICT_AFTER_NANOS` without a request, and
/// then no longer.
pub proof fn law_stored_summary_is_served(
    m: Map<Seq<char>, CacheSlot>,
    path: Seq<char>,
    info: Option<GitInfo>,
    t: u64,
    later: u64,
)
    requires
        t <= later,
    ensures
        later - t <= CACHE_TTL_NANOS ==> lookup_result(stored(m, path, info, t), path, later)
            == CacheLookup::Fresh(info),
        CACHE_TTL_NANOS < later - t < EVICT_AFTER_NANOS ==> lookup_result(
            stored(m, path, info, t),
            path,
            later,
        ) == CacheLookup::Stale(info),
        later - t >= EVICT_AFTER_NANOS ==> lookup_result(stored(m, path, info, t), path, later)
            == CacheLookup::Miss,
{
    let s = stored(m, path, info, t);
    assert(s.dom().contains(path));
    assert(s[path] == CacheSlot { info, fetched: t, last_accessed: t });
}

/// A request keeps the path it asks for alive: asked again within
/// `EVICT_AFTER_NANOS`, the path is still cached with the same summary.
pub proof fn law_lookup_keeps_path_alive(
    m: Map<Seq<char>, CacheSlot>,
    path: Seq<char>,
    now: u64,
    later: u64,
)
    requires
        now <= later,
        later - now < EVICT_AFTER_NANOS,
        after_eviction(m, now).dom().contains(path),
    ensures
        after_eviction(lookup_state(m, path, now), later).dom().contains(path),
        after_eviction(lookup_state(m, path, now), later)[path].info == m[path].info,
{
    let s = lookup_state(m, path, now);
    assert(s.dom().contains(path));
    assert(s[path].last_accessed == now);
}

/// A finished refresh is what later requests get: asked within
/// `CACHE_TTL_NANOS` of the refresh (and before the path is evicted), the
/// cache serves the refreshed summary as fresh.
pub proof fn law_refresh_is_served_fresh(
    m: Map<Seq<char>, CacheSlot>,
    path: Seq<char>,
    info: Option<GitInfo>,
    done: u64,
    later: u64,
)
    requires
        m.dom().contains(path),
        done <= later,
        later - done <= CACHE_TTL_NANOS,
        alive(m[path], later),
    ensures
        lookup_result(refreshed(m, path, info, done), path, later) == CacheLookup::Fresh(info),
{
    let s = refreshed(m, path, info, done);
    assert(s[path] == CacheSlot { info, fetched: done, last_accessed: m[path].last_accessed });
    assert(after_eviction(s, later).dom().contains(path));
}

/// A refresh never brings back a path that was evicted meanwhile.
pub proof fn law_refresh_does_not_resurrect(
    m: Map<Seq<char>, CacheSlot>,
    path: Seq<char>,
    info: Option<GitInfo>,
    done: u64,
)
    requires
        !m.dom().contains(path),
    ensures
        refreshed(m, path, info, done) == m,
{
}

/// After a request at `now`, every cached path was asked for within
/// `EVICT_AFTER_NANOS` of `now`.
pub proof fn law_lookup_evicts_idle_paths(m: Map<Seq<char>, CacheSlot>, path: Seq<char>, now: u64)
    ensures
        forall|k: Seq<char>|
            #[trigger] lookup_state(m, path, now).dom().contains(k) ==> alive(
                lookup_state(m, path, now)[k],
                now,
            ),
{
}

} // verus!
