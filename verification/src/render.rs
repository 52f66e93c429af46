//! The status line: the machine-wide state and the pane's context laid out
//! as Nerd Font glyphs, in a fixed order, after the pane's shortened path.
use vstd::prelude::*;

use crate::git::GitInfo;
use crate::state::{GlobalState, PerPaneContext};
use crate::text::{
    lemma_join_split, lemma_split_join, lemma_split_on_append, lemma_split_on_no_sep,
    lemma_split_on_pieces, append_chars, append_str, chars_eq_str, chars_of, decimal, decimal_exec, has_prefix,
    join_chars, join_with, last_n, lemma_split_on_nonempty, skip_chars, split_chars, split_on,
    string_of, take_chars, take_chars_exec, views,
};

verus! {

broadcast use vstd::std_specs::hash::group_hash_axioms;

// ── Nerd Font v3 glyphs ──

pub const ICON_FOLDER: &'static str = "\u{f024b}";
pub const ICON_BRANCH: &'static str = "\u{f062c}";
pub const ICON_AI: &'static str = "\u{f06a9}";

pub const ICON_PG: &'static str = "\u{e76e}";
pub const ICON_REDIS: &'static str = "\u{e76d}";
pub const ICON_MYSQL: &'static str = "\u{e704}";
pub const ICON_MONGO: &'static str = "\u{e7a4}";

pub const ICON_DOCKER: &'static str = "\u{e7b0}";
pub const ICON_NODE: &'static str = "\u{f0399}";
pub const ICON_VITE: &'static str = "\u{f0241}";
pub const ICON_PYTHON: &'static str = "\u{e73c}";
pub const ICON_JUPYTER: &'static str = "\u{e22e}";
pub const ICON_HTTP: &'static str = "\u{f14de}";

pub const ICON_ORBSTACK: &'static str = "\u{f0651}";
pub const ICON_K8S: &'static str = "\u{f10fe}";
pub const ICON_BREW: &'static str = "\u{f03d7}";
pub const ICON_RAM: &'static str = "\u{f035b}";

pub const ICON_DNSMASQ: &'static str = "\u{f059f}";
pub const ICON_MINIO: &'static str = "\u{f024b}";
pub const ICON_RABBITMQ: &'static str = "\u{f0cd6}";
pub const ICON_KAFKA: &'static str = "\u{f0fdf}";
pub const ICON_VAULT: &'static str = "\u{f0306}";
pub const ICON_CONSUL: &'static str = "\u{f07fe}";
pub const ICON_ETCD: &'static str = "\u{f0200}";
pub const ICON_PROMETHEUS: &'static str = "\u{f14fd}";
pub const ICON_GRAFANA: &'static str = "\u{f1343}";

/// What stands between two parts of the status line.
pub const SEP: &'static str = "  \u{2022}  ";

/// How many brew glyphs there are; each has a rank in `0..BREW_RANKS`.
pub const BREW_RANKS: u8 = 11;

// ── Brew service glyphs ──

/// The part of a brew service name before its first `'@'` (the name
/// without a version).
pub open spec fn brew_base(name: Seq<char>) -> Seq<char> {
    split_on(name, '@')[0]
}

/// The rank of the glyph of a service whose base name is `base`.  Ranks
/// follow the order of the glyphs' code points.
pub open spec fn brew_rank_of_base(base: Seq<char>) -> nat {
    if base == "etcd"@ {
        0
    } else if base == "minio"@ {
        1
    } else if base == "vault"@ {
        2
    } else if base == "dnsmasq"@ {
        4
    } else if base == "consul"@ {
        5
    } else if base == "rabbitmq"@ {
        6
    } else if base == "kafka"@ {
        7
    } else if base == "grafana"@ {
        8
    } else if base == "nginx"@ || base == "caddy"@ {
        9
    } else if base == "prometheus"@ {
        10
    } else {
        3
    }
}

/// The glyph of rank `r`.
pub open spec fn brew_rank_icon(r: nat) -> Seq<char> {
    if r == 0 {
        ICON_ETCD@
    } else if r == 1 {
        ICON_MINIO@
    } else if r == 2 {
        ICON_VAULT@
    } else if r == 3 {
        ICON_BREW@
    } else if r == 4 {
        ICON_DNSMASQ@
    } else if r == 5 {
        ICON_CONSUL@
    } else if r == 6 {
        ICON_RABBITMQ@
    } else if r == 7 {
        ICON_KAFKA@
    } else if r == 8 {
        ICON_GRAFANA@
    } else if r == 9 {
        ICON_HTTP@
    } else {
        ICON_PROMETHEUS@
    }
}

/// The glyph shown for brew service `name`.
pub open spec fn brew_icon_spec(name: Seq<char>) -> Seq<char> {
    brew_rank_icon(brew_rank_of_base(brew_base(name)))
}

/// Whether some service of `services` has the glyph of rank `r`.
pub open spec fn rank_present(services: Seq<Seq<char>>, r: nat) -> bool {
    exists|i: int| 0 <= i < services.len() && brew_rank_of_base(brew_base(services[i])) == r
}

/// The glyphs of ranks below `n` that some service has, by rank.
pub open spec fn present_icons_below(services: Seq<Seq<char>>, n: nat) -> Seq<Seq<char>>
    decreases n,
{
    if n == 0 {
        Seq::<Seq<char>>::empty()
    } else {
        let prev = present_icons_below(services, (n - 1) as nat);
        if rank_present(services, (n - 1) as nat) {
            prev.push(brew_rank_icon((n - 1) as nat))
        } else {
            prev
        }
    }
}

/// The glyphs of `services`, sorted and without repeats.
pub open spec fn brew_icons(services: Seq<Seq<char>>) -> Seq<Seq<char>> {
    present_icons_below(services, BREW_RANKS as nat)
}

// ── Path shortening ──

/// `path` with a leading `home` replaced by `'~'` (a `home` that is empty
/// never matches).
pub open spec fn home_display(path: Seq<char>, home: Seq<char>) -> Seq<char> {
    if home.len() > 0 && home.is_prefix_of(path) {
        seq!['~'] + path.skip(home.len() as int)
    } else {
        path
    }
}

/// The last three `'/'`-separated components of `path` after `home` is
/// replaced by `'~'`.
pub open spec fn shorten_path_spec(path: Seq<char>, home: Seq<char>) -> Seq<char> {
    join_with(last_n(split_on(home_display(path, home), '/'), 3), seq!['/'])
}

// ── Status line ──

/// `parts` with `part` added when `cond` holds.
pub open spec fn push_if(parts: Seq<Seq<char>>, cond: bool, part: Seq<char>) -> Seq<Seq<char>> {
    if cond {
        parts.push(part)
    } else {
        parts
    }
}

/// `label` followed by the decimal `n` when `n` is positive; nothing
/// otherwise.
pub open spec fn count_suffix(label: Seq<char>, n: u32) -> Seq<char> {
    if n > 0 {
        label + decimal(n as nat)
    } else {
        Seq::<char>::empty()
    }
}

/// The Git part: branch glyph, `repo:branch`, then the counts of changed
/// files, inserted and deleted lines that are not zero.
pub open spec fn git_segment(g: GitInfo) -> Seq<char> {
    ICON_BRANCH@ + seq![' '] + g.repo@ + seq![':'] + g.branch@ + count_suffix(" ~"@, g.changed)
        + count_suffix(" +"@, g.insertions) + count_suffix(" -"@, g.deletions)
}

/// Database glyphs for the database ports that listen, in a fixed order.
pub open spec fn db_icons(ports: Set<u16>) -> Seq<Seq<char>> {
    let p = Seq::<Seq<char>>::empty();
    let p = push_if(p, ports.contains(5432), ICON_PG@);
    let p = push_if(p, ports.contains(6379), ICON_REDIS@);
    let p = push_if(p, ports.contains(3306), ICON_MYSQL@);
    push_if(p, ports.contains(27017), ICON_MONGO@)
}

/// Development-server glyphs for the dev ports that listen, by port.
pub open spec fn dev_icons(ports: Set<u16>) -> Seq<Seq<char>> {
    let p = Seq::<Seq<char>>::empty();
    let p = push_if(p, ports.contains(3001), ICON_NODE@);
    let p = push_if(p, ports.contains(5001), ICON_PYTHON@);
    let p = push_if(p, ports.contains(5173), ICON_VITE@);
    let p = push_if(p, ports.contains(8000), ICON_PYTHON@);
    let p = push_if(p, ports.contains(8080), ICON_HTTP@);
    push_if(p, ports.contains(8888), ICON_JUPYTER@)
}

/// The names of the brew services of `state`.
pub open spec fn service_names(state: GlobalState) -> Seq<Seq<char>> {
    state.brew_services@.map_values(|s: String| s@)
}

/// The parts of the status line after the path, in order.
pub open spec fn status_parts(state: GlobalState, pane: PerPaneContext) -> Seq<Seq<char>> {
    let p = Seq::<Seq<char>>::empty();
    let p = match pane.git {
        Some(g) => p.push(git_segment(g)),
        None => p,
    };
    let p = match state.ollama_model {
        Some(m) => p.push(ICON_AI@ + seq![' '] + take_chars(m@, 12)),
        None => p,
    };
    let db = db_icons(state.listening_ports@);
    let p = push_if(p, db.len() > 0, join_with(db, seq![' ']));
    let p = push_if(
        p,
        state.docker_count > 0,
        ICON_DOCKER@ + seq![' '] + decimal(state.docker_count as nat),
    );
    let p = match state.ram_alert {
        Some(t) => p.push(ICON_RAM@ + seq![' '] + t@ + "% "@),
        None => p,
    };
    let dev = dev_icons(state.listening_ports@);
    let p = push_if(p, dev.len() > 0, join_with(dev, seq![' ']));
    let p = push_if(p, state.orbstack_running, ICON_ORBSTACK@ + " orb"@);
    let p = match state.kubernetes_context {
        Some(c) => p.push(ICON_K8S@ + seq![' '] + c@),
        None => p,
    };
    push_if(
        p,
        state.brew_services@.len() > 0,
        join_with(brew_icons(service_names(state)), seq![' ']),
    )
}

/// The whole status line: folder glyph and shortened path, then the parts
/// separated by `SEP`, then a space.
pub open spec fn status_line(state: GlobalState, pane: PerPaneContext, home: Seq<char>) -> Seq<
    char,
> {
    let path_display = ICON_FOLDER@ + seq![' ', ' '] + shorten_path_spec(pane.pane_path@, home);
    let parts = status_parts(state, pane);
    if parts.len() == 0 {
        path_display + seq![' ']
    } else {
        path_display + SEP@ + join_with(parts, SEP@) + seq![' ']
    }
}

// ── Executable ──

/// The rank of the glyph of brew service `name`.
fn brew_rank(name: &str) -> (r: u8)
    ensures
        r as nat == brew_rank_of_base(brew_base(name@)),
        r < BREW_RANKS,
{
    let chars = chars_of(name);
    let pieces = split_chars(&chars, '@');
    proof {
        lemma_split_on_nonempty(name@, '@');
    }
    let base = &pieces[0];
    assert(base@ == brew_base(name@));
    if chars_eq_str(base, "etcd") {
        0
    } else if chars_eq_str(base, "minio") {
        1
    } else if chars_eq_str(base, "vault") {
        2
    } else if chars_eq_str(base, "dnsmasq") {
        4
    } else if chars_eq_str(base, "consul") {
        5
    } else if chars_eq_str(base, "rabbitmq") {
        6
    } else if chars_eq_str(base, "kafka") {
        7
    } else if chars_eq_str(base, "grafana") {
        8
    } else if chars_eq_str(base, "nginx") || chars_eq_str(base, "caddy") {
        9
    } else if chars_eq_str(base, "prometheus") {
        10
    } else {
        3
    }
}

/// The glyph of rank `r`.
fn brew_rank_icon_exec(r: u8) -> (icon: &'static str)
    ensures
        icon@ == brew_rank_icon(r as nat),
{
    if r == 0 {
        ICON_ETCD
    } else if r == 1 {
        ICON_MINIO
    } else if r == 2 {
        ICON_VAULT
    } else if r == 3 {
        ICON_BREW
    } else if r == 4 {
        ICON_DNSMASQ
    } else if r == 5 {
        ICON_CONSUL
    } else if r == 6 {
        ICON_RABBITMQ
    } else if r == 7 {
        ICON_KAFKA
    } else if r == 8 {
        ICON_GRAFANA
    } else if r == 9 {
        ICON_HTTP
    } else {
        ICON_PROMETHEUS
    }
}

/// The glyph for a brew service: by the name without its `@version`, with
/// the generic brew glyph for names it does not know.
pub fn brew_icon(name: &str) -> (icon: &'static str)
    ensures
        icon@ == brew_icon_spec(name@),
{
    let r = brew_rank(name);
    brew_rank_icon_exec(r)
}

/// `path` shortened for display, with `home` as the user's home directory.
pub fn shorten_path(path: &str, home: &str) -> (out: String)
    ensures
        out@ == shorten_path_spec(path@, home@),
{
    shorten_path_with_home(path, home)
}

/// `path` with a leading `home` replaced by `~`, cut to its last three
/// `/`-separated components.
pub fn shorten_path_with_home(path: &str, home: &str) -> (out: String)
    ensures
        out@ == shorten_path_spec(path@, home@),
{
    let path_chars = chars_of(path);
    let home_chars = chars_of(home);
    let display = if !home.is_empty() && has_prefix(&path_chars, &home_chars) {
        let mut d: Vec<char> = Vec::new();
        d.push('~');
        let rest = skip_chars(&path_chars, home_chars.len());
        append_chars(&mut d, &rest);
        assert(d@ =~= seq!['~'] + path@.skip(home@.len() as int));
        d
    } else {
        path_chars
    };
    assert(display@ == home_display(path@, home@));
    let parts = split_chars(&display, '/');
    let n = parts.len();
    let from = if n >= 3 {
        n - 3
    } else {
        0
    };
    let mut kept: Vec<Vec<char>> = Vec::new();
    let mut i: usize = from;
    while i < n
        invariant
            from <= i <= n,
            n == parts.len(),
            views(kept@) == views(parts@).subrange(from as int, i as int),
        decreases n - i,
    {
        let mut piece: Vec<char> = Vec::new();
        append_chars(&mut piece, &parts[i]);
        let ghost kv = views(kept@);
        let ghost pv = piece@;
        kept.push(piece);
        assert(views(kept@) =~= kv.push(pv));
        i = i + 1;
        assert(views(parts@).subrange(from as int, i as int) =~= views(parts@).subrange(
            from as int,
            i - 1,
        ).push(views(parts@)[i - 1]));
    }
    assert(views(kept@) =~= last_n(views(parts@), 3));
    let mut slash: Vec<char> = Vec::new();
    slash.push('/');
    assert(slash@ =~= seq!['/']);
    let joined = join_chars(&kept, &slash);
    string_of(&joined)
}

/// Appends `part` to `parts`.
fn push_part(parts: &mut Vec<Vec<char>>, part: Vec<char>)
    ensures
        views(final(parts)@) == views(old(parts)@).push(part@),
{
    let ghost before = views(parts@);
    let ghost pv = part@;
    parts.push(part);
    assert(views(parts@) =~= before.push(pv));
}

/// The characters of a glyph.
fn icon_chars(icon: &str) -> (out: Vec<char>)
    ensures
        out@ == icon@,
{
    chars_of(icon)
}

/// `label` followed by the decimal `n` when `n` is positive.
fn append_count(v: &mut Vec<char>, label: &str, n: u32)
    ensures
        final(v)@ == old(v)@ + count_suffix(label@, n),
{
    if n > 0 {
        append_str(v, label);
        let d = decimal_exec(n);
        append_chars(v, &d);
        assert(final(v)@ =~= old(v)@ + count_suffix(label@, n));
    } else {
        assert(old(v)@ + count_suffix(label@, n) =~= old(v)@);
    }
}

/// The Git part of the status line.
fn git_part(g: &GitInfo) -> (out: Vec<char>)
    ensures
        out@ == git_segment(*g),
{
    let mut v = icon_chars(ICON_BRANCH);
    v.push(' ');
    append_str(&mut v, g.repo.as_str());
    v.push(':');
    append_str(&mut v, g.branch.as_str());
    append_count(&mut v, " ~", g.changed);
    append_count(&mut v, " +", g.insertions);
    append_count(&mut v, " -", g.deletions);
    assert(v@ =~= git_segment(*g));
    v
}

/// Adds `icon` to `icons` when `port` listens.
fn push_icon_if_listening(
    icons: &mut Vec<Vec<char>>,
    ports: &std::collections::HashSet<u16>,
    port: u16,
    icon: &str,
)
    ensures
        views(final(icons)@) == push_if(views(old(icons)@), ports@.contains(port), icon@),
{
    if ports.contains(&port) {
        push_part(icons, icon_chars(icon));
    }
}

/// The glyphs joined by single spaces.
fn join_icons(icons: &Vec<Vec<char>>) -> (out: Vec<char>)
    ensures
        out@ == join_with(views(icons@), seq![' ']),
{
    let mut space: Vec<char> = Vec::new();
    space.push(' ');
    assert(space@ =~= seq![' ']);
    join_chars(icons, &space)
}

/// The glyphs of the brew services, sorted and without repeats.
fn brew_icons_exec(services: &Vec<String>) -> (out: Vec<Vec<char>>)
    ensures
        views(out@) == brew_icons(services@.map_values(|s: String| s@)),
{
    let ghost names = services@.map_values(|s: String| s@);
    let mut present: Vec<bool> = Vec::new();
    let mut r: u8 = 0;
    while r < BREW_RANKS
        invariant
            r <= BREW_RANKS,
            present@.len() == r,
            forall|k: int| 0 <= k < r ==> !present@[k],
        decreases BREW_RANKS - r,
    {
        present.push(false);
        r = r + 1;
    }
    let mut i: usize = 0;
    while i < services.len()
        invariant
            i <= services.len(),
            names == services@.map_values(|s: String| s@),
            present@.len() == BREW_RANKS,
            forall|k: int|
                0 <= k < BREW_RANKS ==> (present@[k] <==> exists|j: int|
                    0 <= j < i && brew_rank_of_base(brew_base(#[trigger] names[j])) == k),
        decreases services.len() - i,
    {
        let k = brew_rank(services[i].as_str());
        present.set(k as usize, true);
        assert forall|q: int| 0 <= q < BREW_RANKS implies (present@[q] <==> exists|j: int|
            0 <= j < i + 1 && brew_rank_of_base(brew_base(#[trigger] names[j])) == q) by {
            if q == k {
                assert(brew_rank_of_base(brew_base(names[i as int])) == q);
            }
            if exists|j: int| 0 <= j < i + 1 && brew_rank_of_base(brew_base(#[trigger] names[j])) == q {
                let j = choose|j: int| 0 <= j < i + 1 && brew_rank_of_base(brew_base(#[trigger] names[j])) == q;
                if j < i {
                } else {
                    assert(j == i);
                }
            }
        }
        i = i + 1;
    }
    let mut out: Vec<Vec<char>> = Vec::new();
    let mut r: u8 = 0;
    while r < BREW_RANKS
        invariant
            r <= BREW_RANKS,
            i == services.len(),
            names == services@.map_values(|s: String| s@),
            present@.len() == BREW_RANKS,
            forall|k: int|
                0 <= k < BREW_RANKS ==> (present@[k] <==> rank_present(names, k as nat)),
            views(out@) == present_icons_below(names, r as nat),
        decreases BREW_RANKS - r,
    {
        if present[r as usize] {
            let icon = brew_rank_icon_exec(r);
            push_part(&mut out, icon_chars(icon));
        }
        r = r + 1;
    }
    out
}

/// The status line for a pane: its shortened path (with `home` as the
/// user's home directory) and the parts that the machine-wide state and
/// the pane's Git summary call for.
#[verifier::rlimit(60)]
pub fn build(state: &GlobalState, pane: &PerPaneContext, home: &str) -> (out: String)
    ensures
        out@ == status_line(*state, *pane, home@),
{
    let mut parts: Vec<Vec<char>> = Vec::new();
    let ghost p0 = Seq::<Seq<char>>::empty();
    assert(views(parts@) =~= p0);

    match &pane.git {
        Some(g) => push_part(&mut parts, git_part(g)),
        None => {},
    }
    let ghost p1 = match &pane.git {
        Some(g) => p0.push(git_segment(*g)),
        None => p0,
    };
    assert(views(parts@) == p1);

    match &state.ollama_model {
        Some(model) => {
            let mut v = icon_chars(ICON_AI);
            v.push(' ');
            let m = chars_of(model.as_str());
            let short = take_chars_exec(&m, 12);
            append_chars(&mut v, &short);
            assert(v@ =~= ICON_AI@ + seq![' '] + take_chars(model@, 12));
            push_part(&mut parts, v);
        },
        None => {},
    }
    let ghost p2 = match &state.ollama_model {
        Some(m) => p1.push(ICON_AI@ + seq![' '] + take_chars(m@, 12)),
        None => p1,
    };
    assert(views(parts@) =~= p2);

    let mut db: Vec<Vec<char>> = Vec::new();
    assert(views(db@) =~= Seq::<Seq<char>>::empty());
    push_icon_if_listening(&mut db, &state.listening_ports, 5432, ICON_PG);
    push_icon_if_listening(&mut db, &state.listening_ports, 6379, ICON_REDIS);
    push_icon_if_listening(&mut db, &state.listening_ports, 3306, ICON_MYSQL);
    push_icon_if_listening(&mut db, &state.listening_ports, 27017, ICON_MONGO);
    assert(views(db@) == db_icons(state.listening_ports@));
    if db.len() > 0 {
        push_part(&mut parts, join_icons(&db));
    }
    let ghost p3 = push_if(p2, db_icons(state.listening_ports@).len() > 0, join_with(db_icons(state.listening_ports@), seq![' ']));
    assert(views(parts@) == p3);

    if state.docker_count > 0 {
        let mut v = icon_chars(ICON_DOCKER);
        v.push(' ');
        let d = decimal_exec(state.docker_count);
        append_chars(&mut v, &d);
        assert(v@ =~= ICON_DOCKER@ + seq![' '] + decimal(state.docker_count as nat));
        push_part(&mut parts, v);
    }
    let ghost p4 = push_if(
        p3,
        state.docker_count > 0,
        ICON_DOCKER@ + seq![' '] + decimal(state.docker_count as nat),
    );
    assert(views(parts@) =~= p4);

    match &state.ram_alert {
        Some(t) => {
            let mut v = icon_chars(ICON_RAM);
            v.push(' ');
            append_str(&mut v, t.as_str());
            append_str(&mut v, "% ");
            assert(v@ =~= ICON_RAM@ + seq![' '] + t@ + "% "@);
            push_part(&mut parts, v);
        },
        None => {},
    }
    let ghost p5 = match &state.ram_alert {
        Some(t) => p4.push(ICON_RAM@ + seq![' '] + t@ + "% "@),
        None => p4,
    };
    assert(views(parts@) =~= p5);

    let mut dev: Vec<Vec<char>> = Vec::new();
    assert(views(dev@) =~= Seq::<Seq<char>>::empty());
    push_icon_if_listening(&mut dev, &state.listening_ports, 3001, ICON_NODE);
    push_icon_if_listening(&mut dev, &state.listening_ports, 5001, ICON_PYTHON);
    push_icon_if_listening(&mut dev, &state.listening_ports, 5173, ICON_VITE);
    push_icon_if_listening(&mut dev, &state.listening_ports, 8000, ICON_PYTHON);
    push_icon_if_listening(&mut dev, &state.listening_ports, 8080, ICON_HTTP);
    push_icon_if_listening(&mut dev, &state.listening_ports, 8888, ICON_JUPYTER);
    assert(views(dev@) == dev_icons(state.listening_ports@));
    if dev.len() > 0 {
        push_part(&mut parts, join_icons(&dev));
    }
    let ghost p6 = push_if(p5, dev_icons(state.listening_ports@).len() > 0, join_with(dev_icons(state.listening_ports@), seq![' ']));
    assert(views(parts@) == p6);

    if state.orbstack_running {
        let mut v = icon_chars(ICON_ORBSTACK);
        append_str(&mut v, " orb");
        push_part(&mut parts, v);
    }
    let ghost p7 = push_if(p6, state.orbstack_running, ICON_ORBSTACK@ + " orb"@);
    assert(views(parts@) =~= p7);

    match &state.kubernetes_context {
        Some(ctx) => {
            let mut v = icon_chars(ICON_K8S);
            v.push(' ');
            append_str(&mut v, ctx.as_str());
            assert(v@ =~= ICON_K8S@ + seq![' '] + ctx@);
            push_part(&mut parts, v);
        },
        None => {},
    }
    let ghost p8 = match &state.kubernetes_context {
        Some(c) => p7.push(ICON_K8S@ + seq![' '] + c@),
        None => p7,
    };
    assert(views(parts@) =~= p8);

    if state.brew_services.len() > 0 {
        let icons = brew_icons_exec(&state.brew_services);
        push_part(&mut parts, join_icons(&icons));
    }
    assert(views(parts@) == status_parts(*state, *pane));

    let mut line = icon_chars(ICON_FOLDER);
    line.push(' ');
    line.push(' ');
    let short = shorten_path(pane.pane_path.as_str(), home);
    append_str(&mut line, short.as_str());
    assert(line@ =~= ICON_FOLDER@ + seq![' ', ' '] + shorten_path_spec(pane.pane_path@, home@));
    if parts.len() == 0 {
        line.push(' ');
    } else {
        append_str(&mut line, SEP);
        let sep = chars_of(SEP);
        let joined = join_chars(&parts, &sep);
        append_chars(&mut line, &joined);
        line.push(' ');
    }
    assert(line@ =~= status_line(*state, *pane, home@));
    string_of(&line)
}

// ── Laws ──

/// Code-point lexicographic order on texts, the order of `str`'s `Ord`.
pub open spec fn text_lt(a: Seq<char>, b: Seq<char>) -> bool {
    exists|k: int|
        0 <= k <= a.len() && k <= b.len() && a.take(k) == b.take(k) && ((k == a.len() && k
            < b.len()) || (k < a.len() && k < b.len() && (a[k] as u32) < (b[k] as u32)))
}

/// The code point of the first character of `s`.
pub open spec fn code_of(s: Seq<char>) -> u32 {
    s[0] as u32
}

/// The code point of the glyph of rank `r`.
pub open spec fn brew_rank_code(r: nat) -> u32 {
    if r == 0 {
        0xf0200
    } else if r == 1 {
        0xf024b
    } else if r == 2 {
        0xf0306
    } else if r == 3 {
        0xf03d7
    } else if r == 4 {
        0xf059f
    } else if r == 5 {
        0xf07fe
    } else if r == 6 {
        0xf0cd6
    } else if r == 7 {
        0xf0fdf
    } else if r == 8 {
        0xf1343
    } else if r == 9 {
        0xf14de
    } else {
        0xf14fd
    }
}

/// Each brew glyph is the single character of its code point.
proof fn lemma_brew_rank_icon(r: nat)
    ensures
        brew_rank_icon(r).len() == 1,
        code_of(brew_rank_icon(r)) == brew_rank_code(r),
{
    reveal_strlit("\u{f0200}");
    reveal_strlit("\u{f024b}");
    reveal_strlit("\u{f0306}");
    reveal_strlit("\u{f03d7}");
    reveal_strlit("\u{f059f}");
    reveal_strlit("\u{f07fe}");
    reveal_strlit("\u{f0cd6}");
    reveal_strlit("\u{f0fdf}");
    reveal_strlit("\u{f1343}");
    reveal_strlit("\u{f14de}");
    reveal_strlit("\u{f14fd}");
}

/// The glyphs below rank `n` are single characters of increasing code
/// points, each the glyph of a present rank, and each present rank's glyph
/// is among them.
#[verifier::spinoff_prover]
#[verifier::rlimit(30)]
proof fn lemma_present_icons(services: Seq<Seq<char>>, n: nat)
    requires
        n <= BREW_RANKS,
    ensures
        forall|i: int|
            0 <= i < present_icons_below(services, n).len() ==> {
                &&& (#[trigger] present_icons_below(services, n)[i]).len() == 1
                &&& exists|r: nat|
                    r < n && rank_present(services, r) && present_icons_below(services, n)[i]
                        == #[trigger] brew_rank_icon(r)
            },
        forall|i: int|
            0 <= i < present_icons_below(services, n).len() ==> n > 0 && code_of(
                #[trigger] present_icons_below(services, n)[i],
            ) <= brew_rank_code((n - 1) as nat),
        forall|i: int, j: int|
            0 <= i < j < present_icons_below(services, n).len() ==> code_of(
                #[trigger] present_icons_below(services, n)[i],
            ) < code_of(#[trigger] present_icons_below(services, n)[j]),
        forall|r: nat|
            r < n && #[trigger] rank_present(services, r) ==> present_icons_below(
                services,
                n,
            ).contains(brew_rank_icon(r)),
    decreases n,
{
    if n > 0 {
        let m = (n - 1) as nat;
        lemma_present_icons(services, m);
        lemma_brew_rank_icon(m);
        let prev = present_icons_below(services, m);
        let cur = present_icons_below(services, n);
        if m > 0 {
            lemma_brew_rank_icon((m - 1) as nat);
        }
        assert forall|i: int| 0 <= i < prev.len() implies code_of(#[trigger] prev[i])
            < brew_rank_code(m) by {
            assert(code_of(prev[i]) <= brew_rank_code((m - 1) as nat));
        }
        if rank_present(services, m) {
            assert(cur == prev.push(brew_rank_icon(m)));
            assert forall|i: int| 0 <= i < cur.len() implies {
                &&& (#[trigger] cur[i]).len() == 1
                &&& exists|r: nat|
                    r < n && rank_present(services, r) && cur[i] == #[trigger] brew_rank_icon(r)
            } by {
                if i < prev.len() {
                    assert(cur[i] == prev[i]);
                } else {
                    assert(cur[i] == brew_rank_icon(m));
                }
            }
            assert forall|r: nat| r < n && #[trigger] rank_present(services, r) implies cur.contains(
                brew_rank_icon(r),
            ) by {
                if r < m {
                    let k = choose|k: int| 0 <= k < prev.len() && prev[k] == brew_rank_icon(r);
                    assert(cur[k] == prev[k]);
                } else {
                    assert(cur[prev.len() as int] == brew_rank_icon(r));
                }
            }
            assert forall|i: int| 0 <= i < cur.len() implies n > 0 && code_of(#[trigger] cur[i])
                <= brew_rank_code(m) by {
                if i < prev.len() {
                    assert(cur[i] == prev[i]);
                }
            }
            assert forall|i: int, j: int| 0 <= i < j < cur.len() implies code_of(#[trigger] cur[i])
                < code_of(#[trigger] cur[j]) by {
                assert(cur[i] == prev[i]);
                if j < prev.len() {
                    assert(cur[j] == prev[j]);
                }
            }
        } else {
            assert(cur == prev);
            assert forall|i: int| 0 <= i < cur.len() implies {
                &&& (#[trigger] cur[i]).len() == 1
                &&& exists|r: nat|
                    r < n && rank_present(services, r) && cur[i] == #[trigger] brew_rank_icon(r)
            } by {
                let r = choose|r: nat|
                    r < m && rank_present(services, r) && prev[i] == #[trigger] brew_rank_icon(r);
                assert(r < n);
            }
            assert forall|r: nat| r < n && #[trigger] rank_present(services, r) implies cur.contains(
                brew_rank_icon(r),
            ) by {
                assert(r != m);
            }
        }
    }
}

/// The brew part lists the glyphs of the running services sorted by
/// `str` order, each once: every glyph it lists is some service's glyph,
/// every service's glyph is listed, and each listed glyph is strictly
/// smaller than the next.
pub proof fn law_brew_icons_sorted_and_distinct(services: Seq<Seq<char>>)
    ensures
        forall|i: int, j: int|
            0 <= i < j < brew_icons(services).len() ==> text_lt(
                #[trigger] brew_icons(services)[i],
                #[trigger] brew_icons(services)[j],
            ),
        forall|t: Seq<char>|
            brew_icons(services).contains(t) <==> exists|i: int|
                0 <= i < services.len() && #[trigger] brew_icon_spec(services[i]) == t,
{
    lemma_present_icons(services, BREW_RANKS as nat);
    let icons = brew_icons(services);
    assert forall|i: int, j: int| 0 <= i < j < icons.len() implies text_lt(
        #[trigger] icons[i],
        #[trigger] icons[j],
    ) by {
        assert(icons[i].take(0) =~= icons[j].take(0));
        assert(code_of(icons[i]) < code_of(icons[j]));
    }
    assert forall|t: Seq<char>| icons.contains(t) implies exists|i: int|
        0 <= i < services.len() && #[trigger] brew_icon_spec(services[i]) == t by {
        let k = choose|k: int| 0 <= k < icons.len() && icons[k] == t;
        let r = choose|r: nat|
            r < BREW_RANKS && rank_present(services, r) && icons[k] == #[trigger] brew_rank_icon(r);
        let i = choose|i: int|
            0 <= i < services.len() && brew_rank_of_base(brew_base(services[i])) == r;
        assert(brew_icon_spec(services[i]) == t);
    }
    assert forall|t: Seq<char>|
        (exists|i: int| 0 <= i < services.len() && #[trigger] brew_icon_spec(services[i]) == t)
        implies icons.contains(t) by {
        let i = choose|i: int| 0 <= i < services.len() && #[trigger] brew_icon_spec(services[i]) == t;
        let r = brew_rank_of_base(brew_base(services[i]));
        assert(rank_present(services, r));
    }
}

/// A versioned brew service (`name@version`) gets the glyph of its
/// unversioned name.
pub proof fn law_versioned_brew_name_matches_base(base: Seq<char>, version: Seq<char>)
    requires
        !base.contains('@'),
    ensures
        brew_icon_spec(base + seq!['@'] + version) == brew_icon_spec(base),
{
    lemma_split_on_append(base, version, '@');
    lemma_split_on_no_sep(base, '@');
}

/// A shortened path never has more than three `/`-separated components.
pub proof fn law_shortened_path_has_at_most_three_components(path: Seq<char>, home: Seq<char>)
    ensures
        split_on(shorten_path_spec(path, home), '/').len() <= 3,
{
    let parts = split_on(home_display(path, home), '/');
    lemma_split_on_nonempty(home_display(path, home), '/');
    lemma_split_on_pieces(home_display(path, home), '/');
    let kept = last_n(parts, 3);
    assert forall|i: int| 0 <= i < kept.len() implies !(#[trigger] kept[i]).contains('/') by {
        if parts.len() > 3 {
            assert(kept[i] == parts[parts.len() - 3 + i]);
        }
    }
    lemma_split_join(kept, '/');
}

/// A path of at most three components after `home` is replaced by `~` is
/// shown whole: untouched when it is not under `home`, with `~` for `home`
/// when it is.
pub proof fn law_short_path_shown_whole(path: Seq<char>, home: Seq<char>)
    requires
        split_on(home_display(path, home), '/').len() <= 3,
    ensures
        shorten_path_spec(path, home) == home_display(path, home),
        !(home.len() > 0 && home.is_prefix_of(path)) ==> shorten_path_spec(path, home) == path,
{
    lemma_join_split(home_display(path, home), '/');
}

/// The status line starts with the folder glyph, two spaces and the
/// shortened path, and ends with a space; with nothing to report it is
/// exactly that and the space.
pub proof fn law_status_line_layout(state: GlobalState, pane: PerPaneContext, home: Seq<char>)
    ensures
        (ICON_FOLDER@ + seq![' ', ' '] + shorten_path_spec(pane.pane_path@, home)).is_prefix_of(
            status_line(state, pane, home),
        ),
        status_line(state, pane, home).last() == ' ',
        status_parts(state, pane).len() == 0 ==> status_line(state, pane, home) == ICON_FOLDER@
            + seq![' ', ' '] + shorten_path_spec(pane.pane_path@, home) + seq![' '],
{
    let d = ICON_FOLDER@ + seq![' ', ' '] + shorten_path_spec(pane.pane_path@, home);
    let parts = status_parts(state, pane);
    if parts.len() == 0 {
        assert(d.is_prefix_of(d + seq![' ']));
    } else {
        let rest = SEP@ + join_with(parts, SEP@) + seq![' '];
        assert(d + SEP@ + join_with(parts, SEP@) + seq![' '] =~= d + rest);
        assert(d.is_prefix_of(d + rest));
    }
}

/// Machine-wide parts are shared: two panes with the same path and Git
/// summary get the same status line.
pub proof fn law_status_line_depends_on_pane_only_through_path_and_git(
    state: GlobalState,
    a: PerPaneContext,
    b: PerPaneContext,
    home: Seq<char>,
)
    requires
        a.pane_path@ == b.pane_path@,
        a.git == b.git,
    ensures
        status_line(state, a, home) == status_line(state, b, home),
{
    let pa = PerPaneContext { pane_path: b.pane_path, git: a.git };
    assert(status_parts(state, a) == status_parts(state, pa));
    assert(pa == b);
}

/// `g` with all three counts zero.
pub open spec fn without_counts(g: GitInfo) -> GitInfo {
    GitInfo { repo: g.repo, branch: g.branch, changed: 0, insertions: 0, deletions: 0 }
}

/// The Git part is the branch glyph, a space and `repo:branch`, followed by
/// each non-zero count with its sign, in the order changed files (`~`),
/// inserted lines (`+`), deleted lines (`-`); a zero count adds nothing.
pub proof fn law_git_segment_shows_nonzero_counts(g: GitInfo)
    ensures
        git_segment(without_counts(g)) == ICON_BRANCH@ + seq![' '] + g.repo@ + seq![':']
            + g.branch@,
        git_segment(g) == git_segment(without_counts(g)) + (if g.changed > 0 {
            " ~"@ + decimal(g.changed as nat)
        } else {
            Seq::<char>::empty()
        }) + (if g.insertions > 0 {
            " +"@ + decimal(g.insertions as nat)
        } else {
            Seq::<char>::empty()
        }) + (if g.deletions > 0 {
            " -"@ + decimal(g.deletions as nat)
        } else {
            Seq::<char>::empty()
        }),
{
    let z = without_counts(g);
    assert(git_segment(z) =~= ICON_BRANCH@ + seq![' '] + g.repo@ + seq![':'] + g.branch@);
    assert(git_segment(g) =~= git_segment(z) + count_suffix(" ~"@, g.changed) + count_suffix(
        " +"@,
        g.insertions,
    ) + count_suffix(" -"@, g.deletions));
}

/// A pane in a repository gets its Git part first, right after the path
/// and the separator.
#[verifier::rlimit(80)]
pub proof fn law_git_part_comes_first(state: GlobalState, pane: PerPaneContext, home: Seq<char>)
    requires
        pane.git is Some,
    ensures
        status_parts(state, pane).len() >= 1,
        status_parts(state, pane)[0] == git_segment(pane.git->0),
        (ICON_FOLDER@ + seq![' ', ' '] + shorten_path_spec(pane.pane_path@, home) + SEP@
            + git_segment(pane.git->0)).is_prefix_of(status_line(state, pane, home)),
{
    let parts = status_parts(state, pane);
    let g = pane.git->0;
    assert(parts.len() >= 1 && parts[0] == git_segment(g)) by {
        let p1 = Seq::<Seq<char>>::empty().push(git_segment(g));
        assert(p1.len() == 1);
        assert forall|q: Seq<Seq<char>>, c: bool, x: Seq<char>|
            q.len() >= 1 implies (#[trigger] push_if(q, c, x)).len() >= 1 && push_if(q, c, x)[0]
            == q[0] by {}
    }
    lemma_join_starts_with_first(parts, SEP@);
    let d = ICON_FOLDER@ + seq![' ', ' '] + shorten_path_spec(pane.pane_path@, home);
    let j = join_with(parts, SEP@);
    let k = choose|k: Seq<char>| j == parts[0] + k;
    assert(d + SEP@ + j + seq![' '] =~= d + SEP@ + git_segment(g) + (k + seq![' ']));
}

/// Joining starts with the first piece.
proof fn lemma_join_starts_with_first(parts: Seq<Seq<char>>, sep: Seq<char>)
    requires
        parts.len() >= 1,
    ensures
        exists|k: Seq<char>| join_with(parts, sep) == parts[0] + k,
    decreases parts.len(),
{
    if parts.len() == 1 {
        assert(join_with(parts, sep) == parts[0] + Seq::<char>::empty());
    } else {
        lemma_join_starts_with_first(parts.drop_last(), sep);
        let k = choose|k: Seq<char>| join_with(parts.drop_last(), sep) == parts.drop_last()[0] + k;
        assert(join_with(parts, sep) =~= parts[0] + (k + sep + parts.last()));
    }
}

/// Each database and dev-server port that listens puts its glyph on the
/// status line: PostgreSQL 5432, Redis 6379, MySQL 3306, MongoDB 27017
/// among the databases; Node 3001, Python 5001 and 8000, Vite 5173, HTTP
/// 8080, Jupyter 8888 among the dev servers; and no other port adds one.
pub proof fn law_port_glyphs(ports: Set<u16>)
    ensures
        ports.contains(5432) ==> db_icons(ports).contains(ICON_PG@),
        ports.contains(6379) ==> db_icons(ports).contains(ICON_REDIS@),
        ports.contains(3306) ==> db_icons(ports).contains(ICON_MYSQL@),
        ports.contains(27017) ==> db_icons(ports).contains(ICON_MONGO@),
        ports.contains(3001) ==> dev_icons(ports).contains(ICON_NODE@),
        ports.contains(5001) ==> dev_icons(ports).contains(ICON_PYTHON@),
        ports.contains(5173) ==> dev_icons(ports).contains(ICON_VITE@),
        ports.contains(8000) ==> dev_icons(ports).contains(ICON_PYTHON@),
        ports.contains(8080) ==> dev_icons(ports).contains(ICON_HTTP@),
        ports.contains(8888) ==> dev_icons(ports).contains(ICON_JUPYTER@),
        db_icons(ports).len() == (if ports.contains(5432) { 1int } else { 0 }) + (if ports.contains(
            6379,
        ) {
            1int
        } else {
            0
        }) + (if ports.contains(3306) { 1int } else { 0 }) + (if ports.contains(27017) {
            1int
        } else {
            0
        }),
        dev_icons(ports).len() == (if ports.contains(3001) { 1int } else { 0 }) + (
        if ports.contains(5001) {
            1int
        } else {
            0
        }) + (if ports.contains(5173) { 1int } else { 0 }) + (if ports.contains(8000) {
            1int
        } else {
            0
        }) + (if ports.contains(8080) { 1int } else { 0 }) + (if ports.contains(8888) {
            1int
        } else {
            0
        }),
{
    assert forall|q: Seq<Seq<char>>, c: bool, x: Seq<char>|
        #![trigger push_if(q, c, x)]
        (c ==> push_if(q, c, x).contains(x)) && (q.len() > 0 ==> (forall|y: Seq<char>|
            q.contains(y) ==> push_if(q, c, x).contains(y))) && push_if(q, c, x).len() == q.len()
            + (if c {
            1int
        } else {
            0
        }) by {
        if c {
            assert(q.push(x)[q.len() as int] == x);
            assert forall|y: Seq<char>| q.contains(y) implies q.push(x).contains(y) by {
                let i = choose|i: int| 0 <= i < q.len() && q[i] == y;
                assert(q.push(x)[i] == y);
            }
        }
    }
}

/// Each known brew service gets its own glyph (a versioned name gets the
/// glyph of its name before `@`), and every other name the generic brew
/// glyph.
pub proof fn law_brew_glyphs(name: Seq<char>)
    ensures
        brew_base(name) == "nginx"@ ==> brew_icon_spec(name) == ICON_HTTP@,
        brew_base(name) == "caddy"@ ==> brew_icon_spec(name) == ICON_HTTP@,
        brew_base(name) == "dnsmasq"@ ==> brew_icon_spec(name) == ICON_DNSMASQ@,
        brew_base(name) == "minio"@ ==> brew_icon_spec(name) == ICON_MINIO@,
        brew_base(name) == "rabbitmq"@ ==> brew_icon_spec(name) == ICON_RABBITMQ@,
        brew_base(name) == "kafka"@ ==> brew_icon_spec(name) == ICON_KAFKA@,
        brew_base(name) == "vault"@ ==> brew_icon_spec(name) == ICON_VAULT@,
        brew_base(name) == "consul"@ ==> brew_icon_spec(name) == ICON_CONSUL@,
        brew_base(name) == "etcd"@ ==> brew_icon_spec(name) == ICON_ETCD@,
        brew_base(name) == "prometheus"@ ==> brew_icon_spec(name) == ICON_PROMETHEUS@,
        brew_base(name) == "grafana"@ ==> brew_icon_spec(name) == ICON_GRAFANA@,
        !(brew_base(name) == "nginx"@ || brew_base(name) == "caddy"@ || brew_base(name)
            == "dnsmasq"@ || brew_base(name) == "minio"@ || brew_base(name) == "rabbitmq"@
            || brew_base(name) == "kafka"@ || brew_base(name) == "vault"@ || brew_base(name)
            == "consul"@ || brew_base(name) == "etcd"@ || brew_base(name) == "prometheus"@
            || brew_base(name) == "grafana"@) ==> brew_icon_spec(name) == ICON_BREW@,
{
    let b = brew_base(name);
    reveal_strlit("nginx");
    reveal_strlit("caddy");
    reveal_strlit("dnsmasq");
    reveal_strlit("minio");
    reveal_strlit("rabbitmq");
    reveal_strlit("kafka");
    reveal_strlit("vault");
    reveal_strlit("consul");
    reveal_strlit("etcd");
    reveal_strlit("prometheus");
    reveal_strlit("grafana");
    if b == "nginx"@ {
        assert(b.len() == 5 && b[0] == 'n');
    }
    if b == "caddy"@ {
        assert(b.len() == 5 && b[0] == 'c' && b[1] == 'a');
    }
    if b == "dnsmasq"@ {
        assert(b.len() == 7 && b[0] == 'd');
    }
    if b == "minio"@ {
        assert(b.len() == 5 && b[0] == 'm');
    }
    if b == "rabbitmq"@ {
        assert(b.len() == 8 && b[0] == 'r');
    }
    if b == "kafka"@ {
        assert(b.len() == 5 && b[0] == 'k');
    }
    if b == "vault"@ {
        assert(b.len() == 5 && b[0] == 'v');
    }
    if b == "consul"@ {
        assert(b.len() == 6 && b[0] == 'c' && b[1] == 'o');
    }
    if b == "etcd"@ {
        assert(b.len() == 4 && b[0] == 'e');
    }
    if b == "prometheus"@ {
        assert(b.len() == 10 && b[0] == 'p');
    }
    if b == "grafana"@ {
        assert(b.len() == 7 && b[0] == 'g');
    }
}

/// Adding a part keeps the earlier ones and grows the list by one.
proof fn lemma_push_if(q: Seq<Seq<char>>, c: bool, x: Seq<char>)
    ensures
        push_if(q, c, x).len() == q.len() + (if c {
            1int
        } else {
            0
        }),
        c ==> push_if(q, c, x).contains(x),
        forall|y: Seq<char>| q.contains(y) ==> push_if(q, c, x).contains(y),
{
    if c {
        assert(q.push(x)[q.len() as int] == x);
        assert forall|y: Seq<char>| q.contains(y) implies q.push(x).contains(y) by {
            let i = choose|i: int| 0 <= i < q.len() && q[i] == y;
            assert(q.push(x)[i] == y);
        }
    }
}

/// 1 when `c` holds, else 0.
pub open spec fn one_if(c: bool) -> int {
    if c {
        1
    } else {
        0
    }
}

/// Each piece of machine state that has something to report puts exactly
/// one part on the status line: the loaded model as the AI glyph and the
/// model's first 12 characters, the Docker glyph and the container count
/// when containers run, the RAM glyph and `<percent>% ` at the warning
/// level, the database and dev-server glyphs of listening ports, `orb`
/// after the OrbStack glyph while it runs, the Kubernetes glyph and the
/// context, and the brew glyphs when brew services run.
#[verifier::rlimit(80)]
pub proof fn law_status_parts_components(state: GlobalState, pane: PerPaneContext)
    ensures
        state.ollama_model matches Some(m) ==> status_parts(state, pane).contains(
            ICON_AI@ + seq![' '] + (if m@.len() <= 12 {
                m@
            } else {
                m@.take(12)
            }),
        ),
        state.docker_count > 0 ==> status_parts(state, pane).contains(
            ICON_DOCKER@ + seq![' '] + decimal(state.docker_count as nat),
        ),
        state.ram_alert matches Some(t) ==> status_parts(state, pane).contains(
            ICON_RAM@ + seq![' '] + t@ + seq!['%', ' '],
        ),
        state.orbstack_running ==> status_parts(state, pane).contains(
            ICON_ORBSTACK@ + seq![' ', 'o', 'r', 'b'],
        ),
        state.kubernetes_context matches Some(c) ==> status_parts(state, pane).contains(
            ICON_K8S@ + seq![' '] + c@,
        ),
        db_icons(state.listening_ports@).len() > 0 ==> status_parts(state, pane).contains(
            join_with(db_icons(state.listening_ports@), seq![' ']),
        ),
        dev_icons(state.listening_ports@).len() > 0 ==> status_parts(state, pane).contains(
            join_with(dev_icons(state.listening_ports@), seq![' ']),
        ),
        state.brew_services@.len() > 0 ==> status_parts(state, pane).contains(
            join_with(brew_icons(service_names(state)), seq![' ']),
        ),
        status_parts(state, pane).len() == one_if(pane.git is Some) + one_if(
            state.ollama_model is Some,
        ) + one_if(db_icons(state.listening_ports@).len() > 0) + one_if(state.docker_count > 0)
            + one_if(state.ram_alert is Some) + one_if(dev_icons(state.listening_ports@).len() > 0)
            + one_if(state.orbstack_running) + one_if(state.kubernetes_context is Some) + one_if(
            state.brew_services@.len() > 0,
        ),
{
    reveal_strlit("% ");
    reveal_strlit(" orb");
    let p0 = Seq::<Seq<char>>::empty();
    let xg = match pane.git {
        Some(g) => git_segment(g),
        None => Seq::<char>::empty(),
    };
    let p1 = push_if(p0, pane.git is Some, xg);
    lemma_push_if(p0, pane.git is Some, xg);
    let xm = match state.ollama_model {
        Some(m) => ICON_AI@ + seq![' '] + take_chars(m@, 12),
        None => Seq::<char>::empty(),
    };
    let p2 = push_if(p1, state.ollama_model is Some, xm);
    lemma_push_if(p1, state.ollama_model is Some, xm);
    let db = db_icons(state.listening_ports@);
    let p3 = push_if(p2, db.len() > 0, join_with(db, seq![' ']));
    lemma_push_if(p2, db.len() > 0, join_with(db, seq![' ']));
    let xd = ICON_DOCKER@ + seq![' '] + decimal(state.docker_count as nat);
    let p4 = push_if(p3, state.docker_count > 0, xd);
    lemma_push_if(p3, state.docker_count > 0, xd);
    let xr = match state.ram_alert {
        Some(t) => ICON_RAM@ + seq![' '] + t@ + "% "@,
        None => Seq::<char>::empty(),
    };
    let p5 = push_if(p4, state.ram_alert is Some, xr);
    lemma_push_if(p4, state.ram_alert is Some, xr);
    let dev = dev_icons(state.listening_ports@);
    let p6 = push_if(p5, dev.len() > 0, join_with(dev, seq![' ']));
    lemma_push_if(p5, dev.len() > 0, join_with(dev, seq![' ']));
    let xo = ICON_ORBSTACK@ + " orb"@;
    let p7 = push_if(p6, state.orbstack_running, xo);
    lemma_push_if(p6, state.orbstack_running, xo);
    let xk = match state.kubernetes_context {
        Some(c) => ICON_K8S@ + seq![' '] + c@,
        None => Seq::<char>::empty(),
    };
    let p8 = push_if(p7, state.kubernetes_context is Some, xk);
    lemma_push_if(p7, state.kubernetes_context is Some, xk);
    let xb = join_with(brew_icons(service_names(state)), seq![' ']);
    let p9 = push_if(p8, state.brew_services@.len() > 0, xb);
    lemma_push_if(p8, state.brew_services@.len() > 0, xb);
    assert(status_parts(state, pane) == p9);
    assert("% "@ =~= seq!['%', ' ']);
    assert(" orb"@ =~= seq![' ', 'o', 'r', 'b']);
    if let Some(m) = state.ollama_model {
        assert(take_chars(m@, 12) == (if m@.len() <= 12 {
            m@
        } else {
            m@.take(12)
        }));
    }
}

/// The constants the collectors and the cache run on: a Git summary is
/// fresh for 3 s and a path is dropped after 5 min without a request; the
/// ports and Ollama are polled every 3 s, RAM every 3 s, the other
/// services every 15 s; a first Git fetch is waited for 150 ms; Docker is
/// retried 2 s after its event stream ends and 5 s after it was not found.
pub proof fn law_timing_constants()
    ensures
        crate::git::CACHE_TTL_NANOS == 3_000_000_000u64,
        crate::git::EVICT_AFTER_NANOS == 300_000_000_000u64,
        crate::git::COLD_START_TIMEOUT_MILLIS == 150u64,
        crate::ports::POLL_INTERVAL_SECS == 3u64,
        crate::ollama::POLL_INTERVAL_SECS == 3u64,
        crate::ram::POLL_INTERVAL_SECS == 3u64,
        crate::services::POLL_INTERVAL_SECS == 15u64,
        crate::docker::RETRY_DELAY_SECS == 2u64,
        crate::docker::ABSENT_DELAY_SECS == 5u64,
        crate::ports::EMPTY_THRESHOLD == 2u32,
        crate::ollama::NOT_RUNNING_THRESHOLD == 2u32,
{
}

/// A brew service's glyph is chosen by its name up to the first `@`.
pub proof fn law_brew_base_is_name_before_at(name: Seq<char>)
    ensures
        exists|k: int|
            #[trigger] crate::text::ends_before_first(name, '@', k) && brew_base(name) == name.take(
                k,
            ),
{
    crate::text::law_split_first_piece(name, '@');
}

/// A path under a non-empty home shows `~` in place of the home
/// directory; any other path shows as it is, before shortening.
pub proof fn law_home_becomes_tilde(path: Seq<char>, home: Seq<char>)
    ensures
        home.len() > 0 && home.is_prefix_of(path) ==> home_display(path, home) == seq!['~']
            + path.subrange(home.len() as int, path.len() as int),
        !(home.len() > 0 && home.is_prefix_of(path)) ==> home_display(path, home) == path,
{
    if home.len() > 0 && home.is_prefix_of(path) {
        assert(path.skip(home.len() as int) =~= path.subrange(home.len() as int, path.len() as int));
    }
}

/// Joining a list is joining its first `m` pieces, the separator, and
/// joining the rest.
proof fn lemma_join_split_at(parts: Seq<Seq<char>>, sep: Seq<char>, m: int)
    requires
        0 < m < parts.len(),
    ensures
        join_with(parts, sep) == join_with(parts.take(m), sep) + sep + join_with(
            parts.skip(m),
            sep,
        ),
    decreases parts.len(),
{
    if m == parts.len() - 1 {
        assert(parts.drop_last() =~= parts.take(m));
        assert(parts.skip(m) =~= seq![parts.last()]);
    } else {
        lemma_join_split_at(parts.drop_last(), sep, m);
        assert(parts.drop_last().take(m) =~= parts.take(m));
        assert(parts.skip(m).drop_last() =~= parts.drop_last().skip(m));
        assert(parts.skip(m).last() == parts.last());
        assert(join_with(parts, sep) =~= join_with(parts.take(m), sep) + sep + join_with(
            parts.skip(m),
            sep,
        ));
    }
}

/// The shortened path is the end of the displayed path (`~` for home):
/// its last three `/`-separated components, or all of them when there are
/// fewer.
pub proof fn law_shortened_path_is_last_components(path: Seq<char>, home: Seq<char>)
    ensures
        shorten_path_spec(path, home).len() <= home_display(path, home).len(),
        shorten_path_spec(path, home) == home_display(path, home).skip(
            home_display(path, home).len() - shorten_path_spec(path, home).len(),
        ),
        split_on(shorten_path_spec(path, home), '/').len() == (if split_on(
            home_display(path, home),
            '/',
        ).len() < 3 {
            split_on(home_display(path, home), '/').len()
        } else {
            3
        }),
{
    let d = home_display(path, home);
    let parts = split_on(d, '/');
    lemma_split_on_nonempty(d, '/');
    lemma_split_on_pieces(d, '/');
    lemma_join_split(d, '/');
    let kept = last_n(parts, 3);
    assert forall|i: int| 0 <= i < kept.len() implies !(#[trigger] kept[i]).contains('/') by {
        if parts.len() > 3 {
            assert(kept[i] == parts[parts.len() - 3 + i]);
        }
    }
    lemma_split_join(kept, '/');
    let r = join_with(kept, seq!['/']);
    if parts.len() > 3 {
        let m = parts.len() - 3;
        lemma_join_split_at(parts, seq!['/'], m);
        assert(parts.skip(m) =~= kept);
        let a = join_with(parts.take(m), seq!['/']) + seq!['/'];
        assert(d == a + r);
        assert((a + r).skip(a.len() as int) =~= r);
    } else {
        assert(d.skip(0) =~= d);
    }
}

/// The glyphs are single Nerd Font code points, and parts are separated
/// by two spaces, a bullet and two spaces.
pub proof fn law_glyph_code_points()
    ensures
        ICON_FOLDER@ == seq!['\u{f024b}'],
        ICON_BRANCH@ == seq!['\u{f062c}'],
        ICON_AI@ == seq!['\u{f06a9}'],
        ICON_PG@ == seq!['\u{e76e}'],
        ICON_REDIS@ == seq!['\u{e76d}'],
        ICON_MYSQL@ == seq!['\u{e704}'],
        ICON_MONGO@ == seq!['\u{e7a4}'],
        ICON_DOCKER@ == seq!['\u{e7b0}'],
        ICON_NODE@ == seq!['\u{f0399}'],
        ICON_VITE@ == seq!['\u{f0241}'],
        ICON_PYTHON@ == seq!['\u{e73c}'],
        ICON_JUPYTER@ == seq!['\u{e22e}'],
        ICON_HTTP@ == seq!['\u{f14de}'],
        ICON_ORBSTACK@ == seq!['\u{f0651}'],
        ICON_K8S@ == seq!['\u{f10fe}'],
        ICON_BREW@ == seq!['\u{f03d7}'],
        ICON_RAM@ == seq!['\u{f035b}'],
        ICON_DNSMASQ@ == seq!['\u{f059f}'],
        ICON_MINIO@ == seq!['\u{f024b}'],
        ICON_RABBITMQ@ == seq!['\u{f0cd6}'],
        ICON_KAFKA@ == seq!['\u{f0fdf}'],
        ICON_VAULT@ == seq!['\u{f0306}'],
        ICON_CONSUL@ == seq!['\u{f07fe}'],
        ICON_ETCD@ == seq!['\u{f0200}'],
        ICON_PROMETHEUS@ == seq!['\u{f14fd}'],
        ICON_GRAFANA@ == seq!['\u{f1343}'],
        SEP@ == seq![' ', ' ', '\u{2022}', ' ', ' '],
{
    reveal_strlit("\u{f024b}");
    reveal_strlit("\u{f062c}");
    reveal_strlit("\u{f06a9}");
    reveal_strlit("\u{e76e}");
    reveal_strlit("\u{e76d}");
    reveal_strlit("\u{e704}");
    reveal_strlit("\u{e7a4}");
    reveal_strlit("\u{e7b0}");
    reveal_strlit("\u{f0399}");
    reveal_strlit("\u{f0241}");
    reveal_strlit("\u{e73c}");
    reveal_strlit("\u{e22e}");
    reveal_strlit("\u{f14de}");
    reveal_strlit("\u{f0651}");
    reveal_strlit("\u{f10fe}");
    reveal_strlit("\u{f03d7}");
    reveal_strlit("\u{f035b}");
    reveal_strlit("\u{f059f}");
    reveal_strlit("\u{f0cd6}");
    reveal_strlit("\u{f0fdf}");
    reveal_strlit("\u{f0306}");
    reveal_strlit("\u{f07fe}");
    reveal_strlit("\u{f0200}");
    reveal_strlit("\u{f14fd}");
    reveal_strlit("\u{f1343}");
    reveal_strlit("  \u{2022}  ");
}

} // verus!
