//! Where the daemon's socket and the per-pane cache files live, and the
//! search path the collectors run their commands with.
use vstd::prelude::*;

use crate::text::{append_str, chars_of, string_of};

verus! {

/// `dir` joined with the relative path `name`, as `Path::join` does on
/// Unix: a `'/'` is put between them unless `dir` is empty or already
/// ends with one; an absolute `name` replaces `dir`.
pub open spec fn path_join(dir: Seq<char>, name: Seq<char>) -> Seq<char> {
    if name.len() > 0 && name[0] == '/' {
        name
    } else if dir.len() == 0 || dir.last() == '/' {
        dir + name
    } else {
        dir + seq!['/'] + name
    }
}

/// `dir` joined with `name` (`Path::join` on Unix).
pub fn join_path(dir: &str, name: &str) -> (out: String)
    ensures
        out@ == path_join(dir@, name@),
{
    let d = chars_of(dir);
    let n = chars_of(name);
    if n.len() > 0 && n[0] == '/' {
        return string_of(&n);
    }
    let mut v = d;
    if v.len() > 0 && v[v.len() - 1] != '/' {
        v.push('/');
    }
    append_str(&mut v, name);
    assert(v@ =~= path_join(dir@, name@));
    string_of(&v)
}

/// The daemon's socket: `tmuxd.sock` in the runtime directory.
pub fn sock_path(runtime_dir: &str) -> (out: String)
    ensures
        out@ == path_join(runtime_dir@, "tmuxd.sock"@),
{
    join_path(runtime_dir, "tmuxd.sock")
}

/// The file that keeps a pane's last status line: `tmux_status_<pane_id>`
/// in the runtime directory.
pub fn cache_path(runtime_dir: &str, pane_id: &str) -> (out: String)
    ensures
        out@ == path_join(runtime_dir@, "tmux_status_"@ + pane_id@),
{
    let mut name = chars_of("tmux_status_");
    append_str(&mut name, pane_id);
    let name = string_of(&name);
    join_path(runtime_dir, name.as_str())
}

/// The directories the collectors' commands are looked up in: Homebrew's
/// and the system's, then `~/.local/bin`, then the inherited `PATH` when it
/// is not empty.
pub open spec fn full_path_spec(home: Seq<char>, inherited: Seq<char>) -> Seq<char> {
    let extra = "/opt/homebrew/bin:/usr/local/bin:/usr/bin:/bin:"@ + home + "/.local/bin"@;
    if inherited.len() == 0 {
        extra
    } else {
        extra + seq![':'] + inherited
    }
}

/// The search path for the collectors' commands, given the home directory
/// and the inherited `PATH`.
pub fn full_path(home: &str, inherited: &str) -> (out: String)
    ensures
        out@ == full_path_spec(home@, inherited@),
{
    let mut v = chars_of("/opt/homebrew/bin:/usr/local/bin:/usr/bin:/bin:");
    append_str(&mut v, home);
    append_str(&mut v, "/.local/bin");
    if !inherited.is_empty() {
        v.push(':');
        append_str(&mut v, inherited);
    }
    assert(v@ =~= full_path_spec(home@, inherited@));
    string_of(&v)
}

/// Each pane has its own cache file: two panes share one only if they
/// have the same id.
pub proof fn law_cache_paths_distinct(runtime_dir: Seq<char>, a: Seq<char>, b: Seq<char>)
    requires
        path_join(runtime_dir, "tmux_status_"@ + a) == path_join(runtime_dir, "tmux_status_"@ + b),
    ensures
        a == b,
{
    reveal_strlit("tmux_status_");
    let pa = "tmux_status_"@ + a;
    let pb = "tmux_status_"@ + b;
    assert(pa[0] == 't');
    assert(pb[0] == 't');
    let head = if runtime_dir.len() == 0 || runtime_dir.last() == '/' {
        runtime_dir
    } else {
        runtime_dir + seq!['/']
    };
    assert(path_join(runtime_dir, pa) =~= head + pa);
    assert(path_join(runtime_dir, pb) =~= head + pb);
    assert(pa =~= (head + pa).skip(head.len() as int));
    assert(pb =~= (head + pb).skip(head.len() as int));
    assert(a =~= pa.skip(12));
    assert(b =~= pb.skip(12));
}

/// No pane's cache file is the daemon's socket.
pub proof fn law_cache_path_is_not_socket(runtime_dir: Seq<char>, pane_id: Seq<char>)
    ensures
        path_join(runtime_dir, "tmux_status_"@ + pane_id) != path_join(runtime_dir, "tmuxd.sock"@),
{
    reveal_strlit("tmux_status_");
    reveal_strlit("tmuxd.sock");
    let pa = "tmux_status_"@ + pane_id;
    let pb = "tmuxd.sock"@;
    let head = if runtime_dir.len() == 0 || runtime_dir.last() == '/' {
        runtime_dir
    } else {
        runtime_dir + seq!['/']
    };
    assert(pa[0] == 't');
    assert(path_join(runtime_dir, pa) =~= head + pa);
    assert(path_join(runtime_dir, pb) =~= head + pb);
    assert((head + pa)[head.len() as int + 4] == '_');
    assert((head + pb)[head.len() as int + 4] == 'd');
}

} // verus!
