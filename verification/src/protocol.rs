//! The request a status query sends over the daemon's socket, how the
//! daemon reads it, and what the query prints.
use vstd::prelude::*;

use crate::text::{
    append_chars, append_str, chars_of, lemma_split_on_append, lemma_split_on_no_sep, skip_chars,
    split_chars, split_on, string_of,
};

verus! {

/// A request without its line ending: `"<pane_id> <pane_path>"`.
pub open spec fn request_text(pane_id: Seq<char>, pane_path: Seq<char>) -> Seq<char> {
    pane_id + seq![' '] + pane_path
}

/// What the daemon makes of one request line: the pane id before the first
/// space and the path after it (`"."` when there is no space); nothing
/// when the id is empty.
pub open spec fn parse_request_spec(line: Seq<char>) -> Option<(Seq<char>, Seq<char>)> {
    let id = split_on(line, ' ')[0];
    if id.len() == 0 {
        None
    } else if line.contains(' ') {
        Some((id, line.skip(id.len() as int + 1)))
    } else {
        Some((id, "."@))
    }
}

/// The request line a status query sends: `"<pane_id> <pane_path>\n"`.
pub fn request_line(pane_id: &str, pane_path: &str) -> (line: String)
    ensures
        line@ == request_text(pane_id@, pane_path@) + seq!['\n'],
{
    let mut v = chars_of(pane_id);
    v.push(' ');
    append_str(&mut v, pane_path);
    v.push('\n');
    assert(v@ =~= request_text(pane_id@, pane_path@) + seq!['\n']);
    string_of(&v)
}

/// Reads a request line (without its line ending) as `(pane_id,
/// pane_path)`, split at the first space; a missing path reads as `"."`,
/// an empty pane id as no request.
pub fn parse_request(line: &str) -> (r: Option<(String, String)>)
    ensures
        match r {
            Some((id, path)) => parse_request_spec(line@) == Some((id@, path@)),
            None => parse_request_spec(line@) is None,
        },
{
    let chars = chars_of(line);
    let pieces = split_chars(&chars, ' ');
    proof {
        crate::text::lemma_split_on_nonempty(line@, ' ');
        crate::text::lemma_split_on_pieces(line@, ' ');
    }
    if pieces[0].len() == 0 {
        return None;
    }
    let mut id: Vec<char> = Vec::new();
    append_chars(&mut id, &pieces[0]);
    assert(crate::text::views(pieces@)[0] == pieces@[0]@);
    assert(id@ =~= split_on(line@, ' ')[0]);
    if pieces.len() > 1 {
        assert(line@.contains(' ')) by {
            lemma_contains_sep_when_split(line@, ' ');
        }
        proof {
            lemma_contains_sep_when_split(line@, ' ');
            assert(split_on(line@, ' ')[0].len() < line@.len());
            assert(id@.len() < chars@.len());
        }
        let rest = skip_chars(&chars, id.len() + 1);
        Some((string_of(&id), string_of(&rest)))
    } else {
        assert(!line@.contains(' ')) by {
            if line@.contains(' ') {
                lemma_contains_sep_when_split(line@, ' ');
            }
        }
        Some((string_of(&id), String::from_str(".")))
    }
}

/// A text holds `sep` exactly when it splits into more than one piece, and
/// then the first piece is followed by `sep`.
pub proof fn lemma_contains_sep_when_split(s: Seq<char>, sep: char)
    ensures
        s.contains(sep) <==> split_on(s, sep).len() > 1,
        s.contains(sep) ==> split_on(s, sep)[0].len() < s.len() && s[split_on(s, sep)[0].len() as int]
            == sep,
    decreases s.len(),
{
    if s.len() > 0 {
        lemma_contains_sep_when_split(s.drop_last(), sep);
        crate::text::lemma_split_on_nonempty(s.drop_last(), sep);
        let prev = split_on(s.drop_last(), sep);
        if s.drop_last().contains(sep) {
            let k = choose|k: int| 0 <= k < s.drop_last().len() && s.drop_last()[k] == sep;
            assert(s[k] == sep);
            assert(split_on(s, sep)[0] == prev[0]);
            assert(s[prev[0].len() as int] == s.drop_last()[prev[0].len() as int]);
        } else {
            lemma_split_on_no_sep(s.drop_last(), sep);
            if s.last() == sep {
                assert(s[s.len() - 1] == sep);
                assert(split_on(s, sep)[0] == s.drop_last());
            } else {
                assert(!s.contains(sep)) by {
                    if s.contains(sep) {
                        let k = choose|k: int| 0 <= k < s.len() && s[k] == sep;
                        if k < s.len() - 1 {
                            assert(s.drop_last()[k] == sep);
                        }
                    }
                }
            }
        }
    } else {
        assert(!s.contains(sep));
    }
}

/// What a status query prints: the daemon's reply when it answered, else
/// the last reply cached for the pane, else nothing.
pub fn client_output(reply: Option<String>, cached: Option<String>) -> (out: String)
    ensures
        out@ == match reply {
            Some(r) => r@,
            None => match cached {
                Some(c) => c@,
                None => Seq::<char>::empty(),
            },
        },
{
    match reply {
        Some(r) => r,
        None => match cached {
            Some(c) => c,
            None => String::new(),
        },
    }
}

/// What a query sends is what the daemon reads: a request line for a
/// non-empty pane id without spaces, read without its line ending, gives
/// back that pane id and path, whatever spaces the path holds.
pub proof fn law_request_round_trip(pane_id: Seq<char>, pane_path: Seq<char>)
    requires
        pane_id.len() > 0,
        !pane_id.contains(' '),
    ensures
        parse_request_spec(request_text(pane_id, pane_path)) == Some((pane_id, pane_path)),
{
    let line = request_text(pane_id, pane_path);
    lemma_split_on_append(pane_id, pane_path, ' ');
    lemma_split_on_no_sep(pane_id, ' ');
    assert(line[pane_id.len() as int] == ' ');
    assert(line.contains(' '));
    assert(line.skip(pane_id.len() as int + 1) =~= pane_path);
}

/// A request line is read as the pane id up to the first space and the
/// path after it; a line without a space is the pane id alone, with the
/// path `.`; an empty pane id is no request.
pub proof fn law_request_fields(line: Seq<char>)
    ensures
        parse_request_spec(line) matches Some((id, path)) ==> id.len() > 0 && !id.contains(' ')
            && (if line.contains(' ') {
            line == id + seq![' '] + path
        } else {
            line == id && path == seq!['.']
        }),
        parse_request_spec(line) is None <==> (line.len() == 0 || line[0] == ' '),
{
    reveal_strlit(".");
    crate::text::lemma_split_first(line, ' ');
    crate::text::lemma_split_on_nonempty(line, ' ');
    lemma_contains_sep_when_split(line, ' ');
    let id = split_on(line, ' ')[0];
    if line.contains(' ') {
        assert(line =~= id + seq![' '] + line.skip(id.len() as int + 1));
    } else {
        crate::text::lemma_split_on_no_sep(line, ' ');
    }
    if line.len() > 0 && line[0] == ' ' {
        assert(id.len() == 0) by {
            if id.len() > 0 {
                assert(id[0] == line[0]);
                assert(id.contains(' '));
            }
        }
    }
    if id.len() == 0 && line.len() > 0 {
        assert(line[0] == ' ');
    }
}

/// What the daemon does when its socket path is already bound.
pub enum SocketInUse {
    /// Another daemon answers on it: report that and exit with status 1.
    ExitAlreadyRunning,
    /// Nobody answers: remove the stale socket file and bind once more.
    RemoveStaleAndRebind,
}

/// The decision for a socket path that is already bound, given whether a
/// connection to it succeeded.
pub fn on_socket_in_use(another_daemon_answers: bool) -> (d: SocketInUse)
    ensures
        another_daemon_answers <==> d is ExitAlreadyRunning,
{
    if another_daemon_answers {
        SocketInUse::ExitAlreadyRunning
    } else {
        SocketInUse::RemoveStaleAndRebind
    }
}

} // verus!
