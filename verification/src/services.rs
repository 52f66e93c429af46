//! Services that the port scan cannot see: the Kubernetes context, the
//! running Homebrew services, and OrbStack.
use vstd::prelude::*;

use crate::text::{
    occurs_at, append_chars, append_str, chars_eq, chars_eq_str, chars_of, contains_seq, find_exec,
    find_seq, has_prefix, lemma_split_on_nonempty, split_chars, split_on, string_of, take_chars,
    take_chars_exec, trim_start_seq, trim_start_seq_exec,
};

verus! {

/// Seconds between two rounds of the OrbStack, Kubernetes and Homebrew
/// checks (slower than the port scan: these commands cost more).
pub const POLL_INTERVAL_SECS: u64 = 15;

// ── Kubernetes ──

/// A context name as the status line shows it: `gke/<cluster>` for GKE
/// (`gke_<project>_<zone>_<cluster>`), `eks/<cluster>` for EKS ARNs
/// (`...:cluster/<cluster>`), otherwise its first 14 characters.
pub open spec fn shorten_context_spec(ctx: Seq<char>) -> Seq<char> {
    if "gke_"@.is_prefix_of(ctx) {
        "gke/"@ + split_on(ctx, '_').last()
    } else if contains_seq(ctx, ":cluster/"@) {
        "eks/"@ + split_on(ctx, '/').last()
    } else {
        take_chars(ctx, 14)
    }
}

/// Shortens a Kubernetes context name for display.
pub fn shorten_context(ctx: &str) -> (out: String)
    ensures
        out@ == shorten_context_spec(ctx@),
{
    let c = chars_of(ctx);
    let gke = chars_of("gke_");
    if has_prefix(&c, &gke) {
        let pieces = split_chars(&c, '_');
        proof {
            lemma_split_on_nonempty(ctx@, '_');
        }
        let mut v = chars_of("gke/");
        append_chars(&mut v, &pieces[pieces.len() - 1]);
        return string_of(&v);
    }
    let marker = chars_of(":cluster/");
    if find_exec(&c, &marker).is_some() {
        let pieces = split_chars(&c, '/');
        proof {
            lemma_split_on_nonempty(ctx@, '/');
        }
        let mut v = chars_of("eks/");
        append_chars(&mut v, &pieces[pieces.len() - 1]);
        return string_of(&v);
    }
    let short = take_chars_exec(&c, 14);
    string_of(&short)
}

/// The API server of a cluster.
pub struct ClusterDetails {
    pub server: String,
}

/// A cluster of the kubeconfig.
pub struct KubeCluster {
    pub name: String,
    pub cluster: ClusterDetails,
}

/// The cluster a context uses.
pub struct KubeContext {
    pub cluster: String,
}

/// A context of the kubeconfig.
pub struct KubeContextEntry {
    pub name: String,
    pub context: KubeContext,
}

/// The parts of `~/.kube/config` the Kubernetes check reads.
pub struct KubeConfig {
    pub current_context: String,
    pub clusters: Vec<KubeCluster>,
    pub contexts: Vec<KubeContextEntry>,
}

/// The index of the first of `names` equal to `name`.
pub open spec fn first_named(names: Seq<Seq<char>>, name: Seq<char>) -> Option<int> {
    if exists|i: int| 0 <= i < names.len() && names[i] == name {
        Some(
            choose|i: int|
                0 <= i < names.len() && names[i] == name && forall|j: int|
                    0 <= j < i ==> names[j] != name,
        )
    } else {
        None
    }
}

/// The names of the contexts of `config`.
pub open spec fn context_names(config: KubeConfig) -> Seq<Seq<char>> {
    config.contexts@.map_values(|c: KubeContextEntry| c.name@)
}

/// The names of the clusters of `config`.
pub open spec fn cluster_names(config: KubeConfig) -> Seq<Seq<char>> {
    config.clusters@.map_values(|c: KubeCluster| c.name@)
}

/// The `host:port` to probe for the current context's API server: the
/// server URL of the cluster of the first context named like the current
/// one (first cluster of that name), without leading `https://` and then
/// `http://`; nothing when there is no current context (empty or `N/A`)
/// or a name does not resolve.
pub open spec fn kube_api_addr_spec(config: KubeConfig) -> Option<Seq<char>> {
    let cur = config.current_context@;
    if cur.len() == 0 || cur == "N/A"@ {
        None
    } else {
        match first_named(context_names(config), cur) {
            None => None,
            Some(i) => {
                let cluster = config.contexts@[i].context.cluster@;
                match first_named(cluster_names(config), cluster) {
                    None => None,
                    Some(j) => Some(
                        trim_start_seq(
                            trim_start_seq(config.clusters@[j].cluster.server@, "https://"@),
                            "http://"@,
                        ),
                    ),
                }
            },
        }
    }
}

/// The first `i` with `names[i] == name` is found by a scan from the front.
proof fn lemma_first_named(names: Seq<Seq<char>>, name: Seq<char>, i: int)
    requires
        0 <= i < names.len(),
        names[i] == name,
        forall|j: int| 0 <= j < i ==> names[j] != name,
    ensures
        first_named(names, name) == Some(i),
{
    let k = choose|k: int|
        0 <= k < names.len() && names[k] == name && forall|j: int| 0 <= j < k ==> names[j] != name;
    if k < i {
        assert(names[k] != name);
    } else if k > i {
        assert(names[i] != name);
    }
}

/// The index of the first context named `name`.
fn find_context(config: &KubeConfig, name: &Vec<char>) -> (r: Option<usize>)
    ensures
        match r {
            Some(i) => i < config.contexts@.len() && first_named(context_names(*config), name@) == Some(
                i as int,
            ),
            None => first_named(context_names(*config), name@) is None,
        },
{
    let ghost names = context_names(*config);
    let mut i: usize = 0;
    while i < config.contexts.len()
        invariant
            i <= config.contexts@.len(),
            names == context_names(*config),
            forall|j: int| 0 <= j < i ==> names[j] != name@,
        decreases config.contexts@.len() - i,
    {
        let n = chars_of(config.contexts[i].name.as_str());
        if chars_eq(&n, name) {
            proof {
                lemma_first_named(names, name@, i as int);
            }
            return Some(i);
        }
        i = i + 1;
    }
    assert(first_named(names, name@) is None) by {
        if exists|k: int| 0 <= k < names.len() && names[k] == name@ {
            let k = choose|k: int| 0 <= k < names.len() && names[k] == name@;
            assert(names[k] != name@);
        }
    }
    None
}

/// The index of the first cluster named `name`.
fn find_cluster(config: &KubeConfig, name: &Vec<char>) -> (r: Option<usize>)
    ensures
        match r {
            Some(i) => i < config.clusters@.len() && first_named(cluster_names(*config), name@) == Some(
                i as int,
            ),
            None => first_named(cluster_names(*config), name@) is None,
        },
{
    let ghost names = cluster_names(*config);
    let mut i: usize = 0;
    while i < config.clusters.len()
        invariant
            i <= config.clusters@.len(),
            names == cluster_names(*config),
            forall|j: int| 0 <= j < i ==> names[j] != name@,
        decreases config.clusters@.len() - i,
    {
        let n = chars_of(config.clusters[i].name.as_str());
        if chars_eq(&n, name) {
            proof {
                lemma_first_named(names, name@, i as int);
            }
            return Some(i);
        }
        i = i + 1;
    }
    assert(first_named(names, name@) is None) by {
        if exists|k: int| 0 <= k < names.len() && names[k] == name@ {
            let k = choose|k: int| 0 <= k < names.len() && names[k] == name@;
            assert(names[k] != name@);
        }
    }
    None
}

/// Where to probe the current context's API server.
pub fn kube_api_addr(config: &KubeConfig) -> (r: Option<String>)
    ensures
        match r {
            Some(a) => kube_api_addr_spec(*config) == Some(a@),
            None => kube_api_addr_spec(*config) is None,
        },
{
    let cur = chars_of(config.current_context.as_str());
    if cur.len() == 0 || chars_eq_str(&cur, "N/A") {
        return None;
    }
    let ci = match find_context(config, &cur) {
        Some(ci) => ci,
        None => {
            return None;
        },
    };
    let cluster = chars_of(config.contexts[ci].context.cluster.as_str());
    match find_cluster(config, &cluster) {
        Some(k) => {
            let server = chars_of(config.clusters[k].cluster.server.as_str());
            let https = chars_of("https://");
            let http = chars_of("http://");
            let a = trim_start_seq_exec(&server, &https);
            let b = trim_start_seq_exec(&a, &http);
            Some(string_of(&b))
        },
        None => None,
    }
}

// ── Homebrew ──

/// A service as `brew services list --json` lists it.
pub struct BrewServiceEntry {
    pub name: String,
    pub running: bool,
}

/// Services whose port the port scan already shows.
pub open spec fn port_covered(name: Seq<char>) -> bool {
    ||| name == "redis"@
    ||| name == "postgresql"@
    ||| name == "postgresql@14"@
    ||| name == "postgresql@16"@
    ||| name == "mysql"@
    ||| name == "mysql@8.0"@
    ||| name == "mongodb-community"@
}

/// Whether `name` is one of the services whose port the scan shows.
fn port_covered_exec(name: &Vec<char>) -> (r: bool)
    ensures
        r == port_covered(name@),
{
    chars_eq_str(name, "redis") || chars_eq_str(name, "postgresql") || chars_eq_str(
        name,
        "postgresql@14",
    ) || chars_eq_str(name, "postgresql@16") || chars_eq_str(name, "mysql") || chars_eq_str(
        name,
        "mysql@8.0",
    ) || chars_eq_str(name, "mongodb-community")
}

/// Whether a listed service belongs on the status line: it runs, and
/// neither its name nor its name without `@version` is port-covered.
pub open spec fn shown_service(e: BrewServiceEntry) -> bool {
    e.running && !port_covered(e.name@) && !port_covered(split_on(e.name@, '@')[0])
}

/// Whether `names` holds a string with the characters `n`.
pub open spec fn lists_name(names: Seq<String>, n: Seq<char>) -> bool {
    exists|k: int| 0 <= k < names.len() && (#[trigger] names[k])@ == n
}

/// Whether one of the first `upto` entries is shown and named `n`.
pub open spec fn shown_name(entries: Seq<BrewServiceEntry>, upto: int, n: Seq<char>) -> bool {
    exists|j: int| 0 <= j < upto && shown_service(#[trigger] entries[j]) && entries[j].name@ == n
}

/// Whether `name` is among `names`.
fn has_name(names: &Vec<String>, name: &Vec<char>) -> (r: bool)
    ensures
        r == exists|i: int| 0 <= i < names@.len() && (#[trigger] names@[i])@ == name@,
{
    let mut i: usize = 0;
    while i < names.len()
        invariant
            i <= names@.len(),
            forall|j: int| 0 <= j < i ==> (#[trigger] names@[j])@ != name@,
        decreases names@.len() - i,
    {
        let n = chars_of(names[i].as_str());
        if chars_eq(&n, name) {
            return true;
        }
        i = i + 1;
    }
    false
}

/// The running services of a `brew services list` that the status line
/// shows, each name once.
pub fn select_brew_services(entries: &Vec<BrewServiceEntry>) -> (out: Vec<String>)
    ensures
        forall|a: int, b: int|
            0 <= a < b < out@.len() ==> (#[trigger] out@[a])@ != (#[trigger] out@[b])@,
        forall|n: Seq<char>|
            #[trigger] lists_name(out@, n) <==> shown_name(entries@, entries@.len() as int, n),
{
    let mut out: Vec<String> = Vec::new();
    let mut i: usize = 0;
    while i < entries.len()
        invariant
            i <= entries@.len(),
            forall|a: int, b: int|
                0 <= a < b < out@.len() ==> (#[trigger] out@[a])@ != (#[trigger] out@[b])@,
            forall|n: Seq<char>| #[trigger] lists_name(out@, n) <==> shown_name(entries@, i as int, n),
        decreases entries@.len() - i,
    {
        let e = &entries[i];
        let name = chars_of(e.name.as_str());
        let pieces = split_chars(&name, '@');
        proof {
            lemma_split_on_nonempty(e.name@, '@');
        }
        let base = &pieces[0];
        assert(base@ == split_on(e.name@, '@')[0]);
        let show = e.running && !port_covered_exec(&name) && !port_covered_exec(base);
        let ghost prev = out@;
        assert(forall|n: Seq<char>|
            #[trigger] lists_name(prev, n) <==> shown_name(entries@, i as int, n));
        assert(show == shown_service(entries@[i as int]));
        let present = has_name(&out, &name);
        if show && !present {
            out.push(string_of(&name));
            assert forall|a: int, b: int| 0 <= a < b < out@.len() implies (#[trigger] out@[a])@
                != (#[trigger] out@[b])@ by {
                assert(out@[a] == prev[a]);
                if b < prev.len() {
                    assert(out@[b] == prev[b]);
                }
            }
        }
        assert forall|n: Seq<char>|
            #[trigger] lists_name(out@, n) <==> shown_name(entries@, i + 1, n) by {
            assert(lists_name(prev, n) <==> shown_name(entries@, i as int, n));
            if shown_name(entries@, i + 1, n) && !shown_name(entries@, i as int, n) {
                let j = choose|j: int|
                    0 <= j < i + 1 && shown_service(#[trigger] entries@[j]) && entries@[j].name@
                        == n;
                assert(j == i);
            }
            if shown_name(entries@, i as int, n) {
                let j = choose|j: int|
                    0 <= j < i && shown_service(#[trigger] entries@[j]) && entries@[j].name@ == n;
                assert(0 <= j < i + 1);
            }
            if show && !present {
                if lists_name(out@, n) {
                    let k = choose|k: int| 0 <= k < out@.len() && (#[trigger] out@[k])@ == n;
                    if k < prev.len() {
                        assert(prev[k]@ == n);
                    } else {
                        assert(entries@[i as int].name@ == n);
                    }
                }
                if lists_name(prev, n) {
                    let k = choose|k: int| 0 <= k < prev.len() && (#[trigger] prev[k])@ == n;
                    assert(out@[k] == prev[k]);
                }
                assert(out@[prev.len() as int]@ == entries@[i as int].name@);
            } else {
                assert(out@ == prev);
                if show && shown_name(entries@, i + 1, n) && entries@[i as int].name@ == n {
                    assert(lists_name(prev, n));
                }
            }
        }
        i = i + 1;
    }
    out
}

// ── OrbStack ──

/// Where OrbStack's Docker socket may be, under the home directory.
pub fn orbstack_socket_paths(home: &str) -> (paths: Vec<String>)
    ensures
        paths@.len() == 2,
        paths@[0]@ == home@ + "/.orbstack/run/docker.sock"@,
        paths@[1]@ == home@ + "/Library/Containers/com.orbstack.mac/Data/docker.sock"@,
{
    let mut a = chars_of(home);
    append_str(&mut a, "/.orbstack/run/docker.sock");
    let mut b = chars_of(home);
    append_str(&mut b, "/Library/Containers/com.orbstack.mac/Data/docker.sock");
    let mut paths: Vec<String> = Vec::new();
    paths.push(string_of(&a));
    paths.push(string_of(&b));
    paths
}

// ── Laws ──

/// A GKE context (`gke_...`) shows as `gke/` and what follows its last
/// `_`; otherwise an EKS ARN (holding `:cluster/`) shows as `eks/` and what
/// follows its last `/`; any other context shows as its first 14
/// characters (all of it when shorter).
pub proof fn law_shorten_context(ctx: Seq<char>)
    ensures
        "gke_"@.is_prefix_of(ctx) ==> exists|p: Seq<char>, s: Seq<char>|
            ctx == p + seq!['_'] + s && !s.contains('_') && shorten_context_spec(ctx) == "gke/"@
                + s,
        !"gke_"@.is_prefix_of(ctx) && contains_seq(ctx, ":cluster/"@) ==> exists|
            p: Seq<char>,
            s: Seq<char>,
        | ctx == p + seq!['/'] + s && !s.contains('/') && shorten_context_spec(ctx) == "eks/"@ + s,
        !"gke_"@.is_prefix_of(ctx) && !contains_seq(ctx, ":cluster/"@) ==> shorten_context_spec(
            ctx,
        ).is_prefix_of(ctx) && shorten_context_spec(ctx).len() == (if ctx.len() < 14 {
            ctx.len()
        } else {
            14
        }),
{
    reveal_strlit("gke_");
    reveal_strlit(":cluster/");
    if "gke_"@.is_prefix_of(ctx) {
        assert(ctx[3] == "gke_"@[3]);
        assert(ctx.contains('_'));
        crate::text::lemma_split_last(ctx, '_');
    } else if contains_seq(ctx, ":cluster/"@) {
        let i = choose|i: int| occurs_at(ctx, ":cluster/"@, i);
        assert(ctx.subrange(i, i + 9)[8] == '/');
        assert(ctx[i + 8] == '/');
        assert(ctx.contains('/'));
        crate::text::lemma_split_last(ctx, '/');
    } else {
        if ctx.len() > 14 {
            assert(ctx.take(14).is_prefix_of(ctx));
        }
    }
}

/// Whether `n` names a service whose port the scan shows: Redis,
/// PostgreSQL (plain, 14, 16), MySQL (plain, 8.0) or MongoDB Community.
pub open spec fn is_db_service_name(n: Seq<char>) -> bool {
    n == "redis"@ || n == "postgresql"@ || n == "postgresql@14"@ || n == "postgresql@16"@ || n
        == "mysql"@ || n == "mysql@8.0"@ || n == "mongodb-community"@
}

/// A listed service is shown exactly when it runs and neither its name
/// nor its name before `@` is one of redis, postgresql, postgresql@14,
/// postgresql@16, mysql, mysql@8.0, mongodb-community.
pub proof fn law_brew_services_shown(e: BrewServiceEntry)
    ensures
        shown_service(e) <==> (e.running && !is_db_service_name(e.name@) && !is_db_service_name(
            split_on(e.name@, '@')[0],
        )),
{
}

/// The address probed comes from the cluster that the current context
/// names: when there is one, some context is named like the current one
/// with no earlier context so named, some cluster bears the name that
/// context gives, and the address is that cluster's server without
/// leading `https://` then `http://`.
pub proof fn law_kube_addr_from_named_cluster(config: KubeConfig)
    ensures
        kube_api_addr_spec(config) matches Some(a) ==> {
            let cur = config.current_context@;
            &&& cur.len() > 0 && cur != "N/A"@
            &&& exists|i: int, j: int|
                {
                    &&& 0 <= i < config.contexts@.len()
                    &&& config.contexts@[i].name@ == cur
                    &&& (forall|k: int| 0 <= k < i ==> config.contexts@[k].name@ != cur)
                    &&& 0 <= j < config.clusters@.len()
                    &&& config.clusters@[j].name@ == config.contexts@[i].context.cluster@
                    &&& a == trim_start_seq(
                        trim_start_seq(config.clusters@[j].cluster.server@, "https://"@),
                        "http://"@,
                    )
                }
        },
{
    let cur = config.current_context@;
    if kube_api_addr_spec(config) is Some && cur.len() > 0 && cur != "N/A"@ {
        let cn = context_names(config);
        lemma_first_named_props(cn, cur);
        let i = first_named(cn, cur)->0;
        let cl = config.contexts@[i].context.cluster@;
        let kn = cluster_names(config);
        lemma_first_named_props(kn, cl);
        let j = first_named(kn, cl)->0;
        assert(config.contexts@[i].name@ == cur);
        assert forall|k: int| 0 <= k < i implies config.contexts@[k].name@ != cur by {
            assert(cn[k] != cur);
        }
        assert(config.clusters@[j].name@ == cl);
    }
}

/// What `first_named` finds is the first index bearing the name.
proof fn lemma_first_named_props(names: Seq<Seq<char>>, name: Seq<char>)
    ensures
        first_named(names, name) matches Some(i) ==> 0 <= i < names.len() && names[i] == name
            && forall|k: int| 0 <= k < i ==> names[k] != name,
{
    if exists|x: int| 0 <= x < names.len() && names[x] == name {
        let x = choose|x: int| 0 <= x < names.len() && names[x] == name;
        lemma_least_index(names, name, x);
    }
}

/// Some least index bears the name when one does.
proof fn lemma_least_index(names: Seq<Seq<char>>, name: Seq<char>, x: int)
    requires
        0 <= x < names.len(),
        names[x] == name,
    ensures
        exists|i: int|
            0 <= i < names.len() && names[i] == name && forall|j: int|
                0 <= j < i ==> names[j] != name,
    decreases x,
{
    if exists|y: int| 0 <= y < x && names[y] == name {
        let y = choose|y: int| 0 <= y < x && names[y] == name;
        lemma_least_index(names, name, y);
    } else {
        assert(forall|j: int| 0 <= j < x ==> names[j] != name);
    }
}

/// When the current context is set (not empty, not `N/A`), a context
/// bears its name, and a cluster bears the name that the first such
/// context gives, there is an address to probe.
pub proof fn law_kube_addr_found(config: KubeConfig, i: int, j: int)
    requires
        config.current_context@.len() > 0,
        config.current_context@ != "N/A"@,
        0 <= i < config.contexts@.len(),
        config.contexts@[i].name@ == config.current_context@,
        forall|k: int| 0 <= k < i ==> config.contexts@[k].name@ != config.current_context@,
        0 <= j < config.clusters@.len(),
        config.clusters@[j].name@ == config.contexts@[i].context.cluster@,
    ensures
        kube_api_addr_spec(config) is Some,
{
    let cn = context_names(config);
    assert(cn[i] == config.current_context@);
    assert forall|k: int| 0 <= k < i implies cn[k] != config.current_context@ by {}
    lemma_first_named(cn, config.current_context@, i);
    let kn = cluster_names(config);
    assert(kn[j] == config.contexts@[i].context.cluster@);
}

/// With distinct cluster names, the order of the clusters does not
/// matter: two kubeconfigs with the same current context and contexts,
/// whose clusters carry the same name-to-server pairs, give the same
/// address.
pub proof fn law_kube_addr_ignores_cluster_order(c1: KubeConfig, c2: KubeConfig)
    requires
        c1.current_context@ == c2.current_context@,
        context_names(c1) == context_names(c2),
        c1.contexts@.len() == c2.contexts@.len(),
        forall|i: int|
            0 <= i < c1.contexts@.len() ==> (#[trigger] c1.contexts@[i]).context.cluster@
                == c2.contexts@[i].context.cluster@,
        forall|a: int, b: int|
            0 <= a < b < c1.clusters@.len() ==> (#[trigger] c1.clusters@[a]).name@ != (
            #[trigger] c1.clusters@[b]).name@,
        forall|a: int, b: int|
            0 <= a < b < c2.clusters@.len() ==> (#[trigger] c2.clusters@[a]).name@ != (
            #[trigger] c2.clusters@[b]).name@,
        forall|a: int|
            0 <= a < c1.clusters@.len() ==> exists|b: int|
                0 <= b < c2.clusters@.len() && (#[trigger] c2.clusters@[b]).name@ == (
                #[trigger] c1.clusters@[a]).name@ && c2.clusters@[b].cluster.server@
                    == c1.clusters@[a].cluster.server@,
        forall|b: int|
            0 <= b < c2.clusters@.len() ==> exists|a: int|
                0 <= a < c1.clusters@.len() && (#[trigger] c1.clusters@[a]).name@ == (
                #[trigger] c2.clusters@[b]).name@ && c1.clusters@[a].cluster.server@
                    == c2.clusters@[b].cluster.server@,
    ensures
        kube_api_addr_spec(c1) == kube_api_addr_spec(c2),
{
    law_kube_addr_from_named_cluster(c1);
    law_kube_addr_from_named_cluster(c2);
    let cur = c1.current_context@;
    if kube_api_addr_spec(c1) is Some {
        let a1 = kube_api_addr_spec(c1)->0;
        let (i, j) = choose|i: int, j: int|
            {
                &&& 0 <= i < c1.contexts@.len()
                &&& c1.contexts@[i].name@ == cur
                &&& (forall|k: int| 0 <= k < i ==> c1.contexts@[k].name@ != cur)
                &&& 0 <= j < c1.clusters@.len()
                &&& c1.clusters@[j].name@ == c1.contexts@[i].context.cluster@
                &&& a1 == trim_start_seq(
                    trim_start_seq(c1.clusters@[j].cluster.server@, "https://"@),
                    "http://"@,
                )
            };
        let b = choose|b: int|
            0 <= b < c2.clusters@.len() && (#[trigger] c2.clusters@[b]).name@ == c1.clusters@[j].name@
                && c2.clusters@[b].cluster.server@ == c1.clusters@[j].cluster.server@;
        assert(context_names(c2)[i] == cur);
        assert forall|k: int| 0 <= k < i implies c2.contexts@[k].name@ != cur by {
            assert(context_names(c1)[k] == c1.contexts@[k].name@);
        }
        law_kube_addr_found(c2, i, b);
        let a2 = kube_api_addr_spec(c2)->0;
        let (i2, j2) = choose|i2: int, j2: int|
            {
                &&& 0 <= i2 < c2.contexts@.len()
                &&& c2.contexts@[i2].name@ == cur
                &&& (forall|k: int| 0 <= k < i2 ==> c2.contexts@[k].name@ != cur)
                &&& 0 <= j2 < c2.clusters@.len()
                &&& c2.clusters@[j2].name@ == c2.contexts@[i2].context.cluster@
                &&& a2 == trim_start_seq(
                    trim_start_seq(c2.clusters@[j2].cluster.server@, "https://"@),
                    "http://"@,
                )
            };
        assert(i2 == i) by {
            if i2 < i {
                assert(context_names(c1)[i2] == c2.contexts@[i2].name@);
            } else if i2 > i {
            }
        }
        assert(j2 == b) by {
            if j2 < b {
                assert(c2.clusters@[j2].name@ != c2.clusters@[b].name@);
            } else if j2 > b {
                assert(c2.clusters@[b].name@ != c2.clusters@[j2].name@);
            }
        }
    } else if kube_api_addr_spec(c2) is Some {
        let a2 = kube_api_addr_spec(c2)->0;
        let (i, j) = choose|i: int, j: int|
            {
                &&& 0 <= i < c2.contexts@.len()
                &&& c2.contexts@[i].name@ == cur
                &&& (forall|k: int| 0 <= k < i ==> c2.contexts@[k].name@ != cur)
                &&& 0 <= j < c2.clusters@.len()
                &&& c2.clusters@[j].name@ == c2.contexts@[i].context.cluster@
                &&& a2 == trim_start_seq(
                    trim_start_seq(c2.clusters@[j].cluster.server@, "https://"@),
                    "http://"@,
                )
            };
        let a = choose|a: int|
            0 <= a < c1.clusters@.len() && (#[trigger] c1.clusters@[a]).name@ == c2.clusters@[j].name@
                && c1.clusters@[a].cluster.server@ == c2.clusters@[j].cluster.server@;
        assert(context_names(c1)[i] == cur);
        assert forall|k: int| 0 <= k < i implies c1.contexts@[k].name@ != cur by {
            assert(context_names(c2)[k] == c2.contexts@[k].name@);
        }
        law_kube_addr_found(c1, i, a);
    }
}

} // verus!
