//! Docker: where the daemon's socket is, how many containers run, and
//! when its event stream calls for a recount.
use vstd::prelude::*;

use crate::text::{
    contains_seq, occurs_at,    append_str, chars_eq_str, chars_of, find_exec, find_seq, skip_chars, string_of, trim,
    trim_exec, trim_start_seq, trim_start_seq_exec,
};

verus! {

/// How long to wait before reconnecting after the event stream ends: 2 s.
pub const RETRY_DELAY_SECS: u64 = 2;

/// How long to wait before looking for Docker again when none was found:
/// 5 s.
pub const ABSENT_DELAY_SECS: u64 = 5;

/// The socket path of a Docker host (`unix://` prefixes removed).
pub open spec fn socket_path_spec(host: Seq<char>) -> Seq<char> {
    trim_start_seq(host, "unix://"@)
}

/// The socket path of a Docker host address.
pub fn socket_path_of(host: &str) -> (path: String)
    ensures
        path@ == socket_path_spec(host@),
{
    let h = chars_of(host);
    let p = chars_of("unix://");
    let out = trim_start_seq_exec(&h, &p);
    string_of(&out)
}

/// The Docker hosts to try, in order: `DOCKER_HOST` when set, OrbStack's
/// socket under the home directory, then the system socket.
pub fn docker_host_candidates(env_host: Option<String>, home: &str) -> (hosts: Vec<String>)
    ensures
        hosts@.map_values(|h: String| h@) == match env_host {
            Some(e) => seq![e@],
            None => Seq::<Seq<char>>::empty(),
        } + seq![
            "unix://"@ + home@ + "/.orbstack/run/docker.sock"@,
            "unix:///var/run/docker.sock"@,
        ],
{
    let mut hosts: Vec<String> = Vec::new();
    match env_host {
        Some(e) => hosts.push(e),
        None => {},
    }
    let mut orb = chars_of("unix://");
    append_str(&mut orb, home);
    append_str(&mut orb, "/.orbstack/run/docker.sock");
    hosts.push(string_of(&orb));
    hosts.push(String::from_str("unix:///var/run/docker.sock"));
    assert(hosts@.map_values(|h: String| h@) =~= match env_host {
        Some(e) => seq![e@],
        None => Seq::<Seq<char>>::empty(),
    } + seq![
        "unix://"@ + home@ + "/.orbstack/run/docker.sock"@,
        "unix:///var/run/docker.sock"@,
    ]);
    hosts
}

// ── Container count ──

/// How many elements `serde_json` finds when it reads `text` as one JSON
/// value that is an array; `None` when `text` is not JSON or not an array.
pub uninterp spec fn json_array_len(text: Seq<char>) -> Option<usize>;

/// `serde_json::from_str::<serde_json::Value>`: the length of the array it
/// reads from `text`, if it reads an array.
#[verifier::external_body]
fn parse_json_array_len(text: &str) -> (r: Option<usize>)
    ensures
        r == json_array_len(text@),
{
    match serde_json::from_str::<serde_json::Value>(text) {
        Ok(serde_json::Value::Array(items)) => Some(items.len()),
        _ => None,
    }
}

/// The body of an HTTP response: what follows the first blank line.
pub open spec fn response_body_spec(response: Seq<char>) -> Option<Seq<char>> {
    match find_seq(response, "\r\n\r\n"@) {
        Some(i) => Some(response.skip(i + 4)),
        None => None,
    }
}

/// The container count for a parsed body: the array's length (as `u32`,
/// wrapping like `as u32`), or 0 when the body is not an array.
pub open spec fn count_from_len_spec(len: Option<usize>) -> u32 {
    match len {
        Some(n) => n as u32,
        None => 0,
    }
}

/// The container count of an HTTP response to `GET /containers/json`.
pub open spec fn container_count_spec(response: Seq<char>) -> u32 {
    match response_body_spec(response) {
        Some(body) => count_from_len_spec(json_array_len(body)),
        None => 0,
    }
}

/// The body of an HTTP response, after its first blank line.
pub fn response_body(response: &str) -> (body: Option<String>)
    ensures
        match body {
            Some(b) => response_body_spec(response@) == Some(b@),
            None => response_body_spec(response@) is None,
        },
{
    let r = chars_of(response);
    let blank = chars_of("\r\n\r\n");
    match find_exec(&r, &blank) {
        Some(i) => {
            proof {
                reveal_strlit("\r\n\r\n");
            }
            let n = r.len();
            assert(i + 4 <= n);
            let b = skip_chars(&r, i + 4);
            Some(string_of(&b))
        },
        None => None,
    }
}

/// The container count for the length of the array a body parses to.
pub fn count_from_len(len: Option<usize>) -> (n: u32)
    ensures
        n == count_from_len_spec(len),
{
    match len {
        Some(k) => k as u32,
        None => 0,
    }
}

/// The number of running containers that an answer to
/// `GET /containers/json` lists; 0 for an answer without a body or whose
/// body is not a JSON array.
pub fn container_count(response: &str) -> (n: u32)
    ensures
        n == container_count_spec(response@),
{
    match response_body(response) {
        Some(body) => {
            let len = parse_json_array_len(body.as_str());
            count_from_len(len)
        },
        None => 0,
    }
}

// ── Event stream ──

/// Where a reader of Docker's event stream is.
#[derive(PartialEq, Eq, Structural, Clone, Copy)]
pub enum EventPhase {
    /// Still in the HTTP headers.
    Headers,
    /// In the stream of events.
    Events,
}

/// The phase after `line` (as read, line ending included) and whether
/// the line is an event that calls for a recount.
pub open spec fn on_event_line_spec(phase: EventPhase, line: Seq<char>) -> (EventPhase, bool) {
    match phase {
        EventPhase::Headers => if line == "\r\n"@ {
            (EventPhase::Events, false)
        } else {
            (EventPhase::Headers, false)
        },
        EventPhase::Events => (
            EventPhase::Events,
            trim(line).len() > 0 && trim(line)[0] == '{',
        ),
    }
}

/// Reads one line of the event stream: the blank line ends the headers,
/// and after it every line that starts (after white space) with `{` is an
/// event.
pub fn on_event_line(phase: EventPhase, line: &str) -> (r: (EventPhase, bool))
    ensures
        r == on_event_line_spec(phase, line@),
{
    match phase {
        EventPhase::Headers => {
            let l = chars_of(line);
            if chars_eq_str(&l, "\r\n") {
                (EventPhase::Events, false)
            } else {
                (EventPhase::Headers, false)
            }
        },
        EventPhase::Events => {
            let l = chars_of(line);
            let t = trim_exec(&l);
            (EventPhase::Events, t.len() > 0 && t[0] == '{')
        },
    }
}

// ── Watch loop ──

/// What the Docker collector does once it knows the host.
pub enum DockerAction {
    /// Count the containers on this host, follow its events, and retry
    /// after `RETRY_DELAY_SECS` when the stream ends.
    Watch(String),
    /// Report no containers and look again after `ABSENT_DELAY_SECS`.
    Absent,
}

/// The Docker collector's memory between rounds: the host it last found.
pub struct DockerWatch {
    pub cached_host: Option<String>,
}

impl DockerWatch {
    /// No host found yet.
    pub fn new() -> (w: DockerWatch)
        ensures
            w.cached_host is None,
    {
        DockerWatch { cached_host: None }
    }

    /// The socket to check before reusing the cached host, if there is one.
    pub fn cached_socket(&self) -> (path: Option<String>)
        ensures
            match self.cached_host {
                Some(h) => path matches Some(p) && p@ == socket_path_spec(h@),
                None => path is None,
            },
    {
        match &self.cached_host {
            Some(h) => Some(socket_path_of(h.as_str())),
            None => None,
        }
    }

    /// The host to use without searching: the cached one while its socket
    /// exists; `None` means search the candidates.
    pub fn reusable_host(&self, cached_socket_exists: bool) -> (h: Option<String>)
        ensures
            h == (if cached_socket_exists {
                self.cached_host
            } else {
                None
            }),
    {
        if cached_socket_exists {
            match &self.cached_host {
                Some(h) => Some(h.clone()),
                None => None,
            }
        } else {
            None
        }
    }

    /// Remembers the host found this round (or that none was) and says what
    /// to do.
    pub fn on_host(&mut self, host: Option<String>) -> (action: DockerAction)
        ensures
            final(self).cached_host == host,
            match host {
                Some(h) => action matches DockerAction::Watch(w) && w == h,
                None => action is Absent,
            },
    {
        match host {
            Some(h) => {
                self.cached_host = Some(h.clone());
                DockerAction::Watch(h)
            },
            None => {
                self.cached_host = None;
                DockerAction::Absent
            },
        }
    }
}

/// Reading the event stream: header lines never call for a recount and
/// keep the reader in the headers until the blank line `\r\n`, which moves
/// it to the events; there, a line calls for a recount exactly when its
/// first character that is not white space is `{`.
pub proof fn law_event_lines(line: Seq<char>)
    ensures
        !on_event_line_spec(EventPhase::Headers, line).1,
        on_event_line_spec(EventPhase::Headers, line).0 == (if line == seq!['\r', '\n'] {
            EventPhase::Events
        } else {
            EventPhase::Headers
        }),
        on_event_line_spec(EventPhase::Events, line).0 == EventPhase::Events,
        on_event_line_spec(EventPhase::Events, line).1 <==> crate::text::first_non_space_is(
            line,
            '{',
        ),
{
    reveal_strlit("\r\n");
    assert("\r\n"@ =~= seq!['\r', '\n']);
    crate::text::law_trim_starts_with(line, '{');
}

/// The body of a response is what follows its first blank line
/// (`\r\n\r\n`); a response without one has no body.
pub proof fn law_response_body(response: Seq<char>)
    ensures
        response_body_spec(response) matches Some(b) ==> exists|i: int|
            #![trigger response.take(i)]
            0 <= i && response == response.take(i) + seq!['\r', '\n', '\r', '\n'] + b
                && forall|j: int| 0 <= j < i ==> !occurs_at(response, "\r\n\r\n"@, j),
        response_body_spec(response) is None ==> forall|j: int|
            !occurs_at(response, "\r\n\r\n"@, j),
{
    reveal_strlit("\r\n\r\n");
    let p = "\r\n\r\n"@;
    assert(p =~= seq!['\r', '\n', '\r', '\n']);
    crate::text::lemma_find_seq_props(response, p);
    if find_seq(response, p) is Some {
        let i = find_seq(response, p)->0;
        assert(response.subrange(i, i + 4) == p);
        assert(response =~= response.take(i) + response.subrange(i, i + 4) + response.skip(i + 4));
    }
}

/// The container count is the number of elements of the array the body
/// holds (when it fits in `u32`), and 0 when the body is not an array.
pub proof fn law_count_is_array_length(len: Option<usize>)
    ensures
        len matches Some(n) ==> (n <= u32::MAX ==> count_from_len_spec(len) == n),
        len is None ==> count_from_len_spec(len) == 0,
{
}

/// A Docker host's socket path is the host without its leading
/// `unix://` (all of them): the host is that path after zero or more
/// `unix://`, and the path does not start with `unix://`.
pub proof fn law_socket_path(host: Seq<char>)
    ensures
        !"unix://"@.is_prefix_of(socket_path_spec(host)),
        socket_path_spec(host).len() <= host.len(),
        socket_path_spec(host) == host.skip(host.len() - socket_path_spec(host).len()),
        !"unix://"@.is_prefix_of(host) ==> socket_path_spec(host) == host,
{
    reveal_strlit("unix://");
    lemma_trim_start_seq(host, "unix://"@);
}

proof fn lemma_trim_start_seq(s: Seq<char>, p: Seq<char>)
    requires
        p.len() > 0,
    ensures
        !p.is_prefix_of(trim_start_seq(s, p)),
        trim_start_seq(s, p).len() <= s.len(),
        trim_start_seq(s, p) == s.skip(s.len() - trim_start_seq(s, p).len()),
        !p.is_prefix_of(s) ==> trim_start_seq(s, p) == s,
    decreases s.len(),
{
    if p.is_prefix_of(s) {
        lemma_trim_start_seq(s.skip(p.len() as int), p);
        let r = trim_start_seq(s, p);
        assert(s.skip(p.len() as int).skip(s.skip(p.len() as int).len() - r.len()) =~= s.skip(
            s.len() - r.len(),
        ));
    } else {
        assert(s.skip(0) =~= s);
    }
}

} // verus!
