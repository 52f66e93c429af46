//! Ollama: whether its server runs and which model it has loaded.
use vstd::prelude::*;

use crate::text::{
    ends_before_first, chars_eq_str, chars_of, lemma_split_on_nonempty, lines_exec, lines_of, split_chars, split_on,
    string_of, take_chars, take_chars_exec, trim, trim_exec,
};

verus! {

/// Misses in a row after which the model is no longer shown.
pub const NOT_RUNNING_THRESHOLD: u32 = 2;

/// Seconds between two probes of Ollama.
pub const POLL_INTERVAL_SECS: u64 = 3;

/// Whether a process listing (`ps -e -o comm=`) has a line that is
/// `ollama` once white space is trimmed.
pub open spec fn lists_ollama(ps_output: Seq<char>) -> bool {
    exists|i: int| 0 <= i < lines_of(ps_output).len() && trim(#[trigger] lines_of(ps_output)[i]) == "ollama"@
}

/// An Ollama process is seen exactly when some line of the listing,
/// without surrounding white space, reads `ollama`.
pub proof fn law_lists_ollama(ps_output: Seq<char>)
    ensures
        lists_ollama(ps_output) <==> exists|i: int|
            0 <= i < lines_of(ps_output).len() && trim(#[trigger] lines_of(ps_output)[i]) == seq![
                'o',
                'l',
                'l',
                'a',
                'm',
                'a',
            ],
{
    reveal_strlit("ollama");
    assert("ollama"@ =~= seq!['o', 'l', 'l', 'a', 'm', 'a']);
}

/// Whether the process listing shows an `ollama` process.
pub fn ps_lists_ollama(ps_output: &str) -> (r: bool)
    ensures
        r == lists_ollama(ps_output@),
{
    let text = chars_of(ps_output);
    let lines = lines_exec(&text);
    let mut i: usize = 0;
    while i < lines.len()
        invariant
            i <= lines@.len(),
            crate::text::views(lines@) == lines_of(ps_output@),
            forall|j: int| 0 <= j < i ==> trim(#[trigger] lines_of(ps_output@)[j]) != "ollama"@,
        decreases lines@.len() - i,
    {
        let t = trim_exec(&lines[i]);
        assert(lines@[i as int]@ == lines_of(ps_output@)[i as int]);
        if chars_eq_str(&t, "ollama") {
            return true;
        }
        i = i + 1;
    }
    false
}

/// A model name as shown: the part before the first `:` (the tag),
/// cut to 12 characters.
pub open spec fn model_display_name_spec(name: Seq<char>) -> Seq<char> {
    take_chars(split_on(name, ':')[0], 12)
}

/// A model's display name is the start of its name, at most 12
/// characters, stopping before the first `:` (the tag).
pub proof fn law_model_display_name(name: Seq<char>)
    ensures
        exists|k: int|
            #[trigger] ends_before_first(name, ':', k) && model_display_name_spec(name) == name.take(
                if k < 12 {
                    k
                } else {
                    12
                },
            ),
{
    crate::text::lemma_split_first(name, ':');
    lemma_split_on_nonempty(name, ':');
    let f = split_on(name, ':')[0];
    let k = f.len() as int;
    assert(f =~= name.take(k));
    assert forall|j: int| 0 <= j < k implies name[j] != ':' by {
        assert(f[j] == name[j]);
        assert(f.contains(f[j]) ==> f[j] != ':');
    }
    if k > 12 {
        assert(f.take(12) =~= name.take(12));
    }
    let m = if k < 12 {
        k
    } else {
        12
    };
    assert(model_display_name_spec(name) == name.take(m));
    assert(ends_before_first(name, ':', k));
}

/// The active model is the first listed one, when the list has a first
/// entry with a name, shown as its name before the first `:` cut to 12
/// characters; otherwise there is none.
pub proof fn law_active_model(models: Option<Seq<Option<Seq<char>>>>)
    ensures
        active_model_spec(models) is Some <==> (models matches Some(v) && v.len() > 0 && v[0] is Some),
        active_model_spec(models) matches Some(r) ==> exists|k: int|
            #[trigger] ends_before_first(models->0[0]->0, ':', k) && r == models->0[0]->0.take(
                if k < 12 {
                    k
                } else {
                    12
                },
            ),
{
    if active_model_spec(models) is Some {
        let n = models->0[0]->0;
        law_model_display_name(n);
    }
}

/// The display name of a loaded model.
pub fn model_display_name(name: &str) -> (out: String)
    ensures
        out@ == model_display_name_spec(name@),
{
    let c = chars_of(name);
    let pieces = split_chars(&c, ':');
    proof {
        lemma_split_on_nonempty(name@, ':');
    }
    let short = take_chars_exec(&pieces[0], 12);
    string_of(&short)
}

/// The `name` of each element of the `models` array of an Ollama `/api/ps`
/// body, as `serde_json` reads it: `None` for the whole when the body is
/// not JSON or has no `models` array; per element, `None` when it has no
/// string `name`.
pub uninterp spec fn ps_model_names(body: Seq<char>) -> Option<Seq<Option<Seq<char>>>>;

/// The names of an optional list of optional strings.
pub open spec fn names_view(names: Option<Vec<Option<String>>>) -> Option<Seq<Option<Seq<char>>>> {
    match names {
        Some(v) => Some(
            v@.map_values(
                |n: Option<String>|
                    match n {
                        Some(s) => Some(s@),
                        None => None,
                    },
            ),
        ),
        None => None,
    }
}

/// `serde_json::from_str::<serde_json::Value>` on an `/api/ps` body, with
/// the `name` of each element of its `models` array handed out as a plain
/// string.
#[verifier::external_body]
fn parse_ps_model_names(body: &str) -> (r: Option<Vec<Option<String>>>)
    ensures
        names_view(r) == ps_model_names(body@),
{
    match serde_json::from_str::<serde_json::Value>(body) {
        Ok(serde_json::Value::Object(fields)) => match fields.get("models") {
            Some(serde_json::Value::Array(items)) => Some(items.iter().map(|m| match m.get("name") {
                Some(serde_json::Value::String(s)) => Some(s.clone()),
                _ => None,
            }).collect()),
            _ => None,
        },
        _ => None,
    }
}

/// The model shown for a list of model names: the display name of the
/// first one, when there is a first one and it has a name.
pub open spec fn active_model_spec(models: Option<Seq<Option<Seq<char>>>>) -> Option<Seq<char>> {
    match models {
        Some(v) => if v.len() > 0 {
            match v[0] {
                Some(n) => Some(model_display_name_spec(n)),
                None => None,
            }
        } else {
            None
        },
        None => None,
    }
}

/// The display name of the first listed model, if it has a name.
pub fn active_model_display(models: Option<Vec<Option<String>>>) -> (r: Option<String>)
    ensures
        match r {
            Some(s) => active_model_spec(names_view(models)) == Some(s@),
            None => active_model_spec(names_view(models)) is None,
        },
{
    match models {
        Some(v) => {
            if v.len() > 0 {
                match &v[0] {
                    Some(n) => Some(model_display_name(n.as_str())),
                    None => None,
                }
            } else {
                None
            }
        },
        None => None,
    }
}

/// The model an Ollama `/api/ps` body reports as loaded: the display name
/// of the first model's `name`; `None` when the body is not JSON, has no
/// `models` array, the array is empty, or its first element has no string
/// `name`.
pub fn active_model(body: &str) -> (r: Option<String>)
    ensures
        match r {
            Some(s) => active_model_spec(ps_model_names(body@)) == Some(s@),
            None => active_model_spec(ps_model_names(body@)) is None,
        },
{
    let names = parse_ps_model_names(body);
    active_model_display(names)
}

/// What a probe of Ollama changes on the status line.
pub enum OllamaUpdate {
    /// Show this text.
    Show(String),
    /// Show nothing for Ollama.
    Clear,
    /// Leave what is shown.
    Keep,
}

/// The Ollama collector's memory between probes.
pub struct OllamaWatch {
    /// Probes in a row that found no Ollama process (saturating).
    pub consecutive_not_running: u32,
}

/// The miss counter after one more miss.
pub open spec fn after_miss(count: u32) -> u32 {
    if count == u32::MAX {
        count
    } else {
        (count + 1) as u32
    }
}

impl OllamaWatch {
    /// No misses yet.
    pub fn new() -> (w: OllamaWatch)
        ensures
            w.consecutive_not_running == 0,
    {
        OllamaWatch { consecutive_not_running: 0 }
    }

    /// One probe: when Ollama runs, forget the misses and show the loaded
    /// model's display name, or nothing when it runs idle (no model
    /// loaded); when it does not run, count the miss and clear the display
    /// once `NOT_RUNNING_THRESHOLD` misses have come in a row.
    pub fn on_probe(&mut self, running: bool, model: Option<String>) -> (u: OllamaUpdate)
        ensures
            running ==> final(self).consecutive_not_running == 0,
            running ==> match model {
                Some(m) => u matches OllamaUpdate::Show(t) && t == m,
                None => u is Clear,
            },
            !running ==> final(self).consecutive_not_running == after_miss(
                old(self).consecutive_not_running,
            ) && (if final(self).consecutive_not_running >= NOT_RUNNING_THRESHOLD {
                u is Clear
            } else {
                u is Keep
            }),
    {
        if running {
            self.consecutive_not_running = 0;
            match model {
                Some(m) => OllamaUpdate::Show(m),
                None => OllamaUpdate::Clear,
            }
        } else {
            self.consecutive_not_running = self.consecutive_not_running.saturating_add(1);
            if self.consecutive_not_running >= NOT_RUNNING_THRESHOLD {
                OllamaUpdate::Clear
            } else {
                OllamaUpdate::Keep
            }
        }
    }
}

/// One failed probe right after a successful one leaves the model shown;
/// a second one in a row clears it.
pub proof fn law_model_cleared_after_two_misses()
    ensures
        after_miss(0) < NOT_RUNNING_THRESHOLD,
        after_miss(after_miss(0)) >= NOT_RUNNING_THRESHOLD,
        forall|c: u32| c >= 1 ==> #[trigger] after_miss(c) >= NOT_RUNNING_THRESHOLD,
{
}

} // verus!
