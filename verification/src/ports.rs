//! Listening TCP ports of interest (databases and dev servers).
use std::collections::HashSet;
use vstd::prelude::*;

verus! {

broadcast use vstd::std_specs::hash::group_hash_axioms;

/// Empty scans in a row after which the ports are cleared.
pub const EMPTY_THRESHOLD: u32 = 2;

/// Seconds between two scans of the listening ports.
pub const POLL_INTERVAL_SECS: u64 = 3;

/// The ports the status line knows: PostgreSQL, Redis, MySQL, MongoDB,
/// Node, Python, Vite, Django, generic HTTP and Jupyter.
pub open spec fn port_of_interest(p: u16) -> bool {
    ||| p == 5432
    ||| p == 6379
    ||| p == 3306
    ||| p == 27017
    ||| p == 3001
    ||| p == 5001
    ||| p == 5173
    ||| p == 8000
    ||| p == 8080
    ||| p == 8888
}

/// Whether `p` is a port the status line knows.
pub fn is_port_of_interest(p: u16) -> (r: bool)
    ensures
        r == port_of_interest(p),
{
    p == 5432 || p == 6379 || p == 3306 || p == 27017 || p == 3001 || p == 5001 || p == 5173 || p
        == 8000 || p == 8080 || p == 8888
}

/// The listening ports that are ports of interest.
pub fn ports_of_interest(listening: &Vec<u16>) -> (out: HashSet<u16>)
    ensures
        out@ == Set::new(|p: u16| port_of_interest(p) && listening@.contains(p)),
{
    let mut out: HashSet<u16> = HashSet::new();
    let mut i: usize = 0;
    while i < listening.len()
        invariant
            i <= listening@.len(),
            out@ == Set::new(|p: u16| port_of_interest(p) && listening@.take(i as int).contains(p)),
        decreases listening@.len() - i,
    {
        let p = listening[i];
        let ghost before = out@;
        if is_port_of_interest(p) {
            out.insert(p);
        }
        proof {
            let next = listening@.take(i + 1);
            assert(next =~= listening@.take(i as int).push(p));
            assert forall|q: u16| #[trigger] next.contains(q) <==> (listening@.take(i as int).contains(q)
                || q == p) by {
                if next.contains(q) {
                    let k = choose|k: int| 0 <= k < next.len() && next[k] == q;
                    if k < i {
                        assert(listening@.take(i as int)[k] == q);
                    }
                }
                if listening@.take(i as int).contains(q) {
                    let k = choose|k: int| 0 <= k < i && listening@.take(i as int)[k] == q;
                    assert(next[k] == q);
                }
                if q == p {
                    assert(next[i as int] == q);
                }
            }
            assert(out@ =~= Set::new(|q: u16| port_of_interest(q) && next.contains(q)));
        }
        i = i + 1;
    }
    assert(listening@.take(listening@.len() as int) =~= listening@);
    out
}

/// The ports collector's memory between scans.
pub struct PortsWatch {
    /// Scans in a row that found no port of interest (saturating).
    pub consecutive_empty: u32,
}

impl PortsWatch {
    /// No empty scans yet.
    pub fn new() -> (w: PortsWatch)
        ensures
            w.consecutive_empty == 0,
    {
        PortsWatch { consecutive_empty: 0 }
    }

    /// Applies one scan to the shown ports: a failed scan (`None`) changes
    /// nothing; a scan that finds ports shows them and forgets the empty
    /// scans; an empty scan is counted, and clears the ports once
    /// `EMPTY_THRESHOLD` empty scans have come in a row.
    pub fn on_scan(&mut self, shown: &mut HashSet<u16>, scan: Option<HashSet<u16>>)
        ensures
            match scan {
                None => final(self).consecutive_empty == old(self).consecutive_empty
                    && final(shown)@ == old(shown)@,
                Some(found) => if found@.is_empty() {
                    final(self).consecutive_empty == crate::ollama::after_miss(
                        old(self).consecutive_empty,
                    ) && final(shown)@ == (if final(self).consecutive_empty >= EMPTY_THRESHOLD {
                        Set::<u16>::empty()
                    } else {
                        old(shown)@
                    })
                } else {
                    final(self).consecutive_empty == 0 && final(shown)@ == found@
                },
            },
    {
        match scan {
            None => {},
            Some(found) => {
                if found.is_empty() {
                    self.consecutive_empty = self.consecutive_empty.saturating_add(1);
                    if self.consecutive_empty >= EMPTY_THRESHOLD {
                        shown.clear();
                    }
                } else {
                    self.consecutive_empty = 0;
                    *shown = found;
                }
            },
        }
    }
}

} // verus!

verus! {

/// One empty scan after ports were found leaves them shown; a second
/// empty scan in a row clears them.
pub proof fn law_ports_cleared_after_two_empty_scans()
    ensures
        crate::ollama::after_miss(0) < EMPTY_THRESHOLD,
        crate::ollama::after_miss(crate::ollama::after_miss(0)) >= EMPTY_THRESHOLD,
{
}

/// The ports kept are exactly the listening ones among PostgreSQL 5432,
/// Redis 6379, MySQL 3306, MongoDB 27017, Node 3001, Python 5001, Vite
/// 5173, Django 8000, HTTP 8080 and Jupyter 8888.
pub proof fn law_ports_kept(listening: Seq<u16>, p: u16)
    ensures
        Set::new(|q: u16| port_of_interest(q) && listening.contains(q)).contains(p) <==> (
        listening.contains(p) && (p == 5432 || p == 6379 || p == 3306 || p == 27017 || p == 3001
            || p == 5001 || p == 5173 || p == 8000 || p == 8080 || p == 8888)),
{
}

} // verus!
