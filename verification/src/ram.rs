//! RAM usage from `vm_stat`: the numbers the usage percentage is computed
//! from, picked out of the command's text.
use vstd::prelude::*;

use crate::text::{
    lemma_find_seq_props, lemma_split_first, occurs_at,    chars_of, find_exec, find_seq, has_prefix, lemma_split_on_nonempty, lines_exec, lines_of,
    skip_chars, split_chars, split_on, string_of, take_chars_exec, trim, trim_end_char,
    trim_end_char_exec, trim_exec, views,
};

verus! {

/// Seconds between two readings of `vm_stat`.
pub const POLL_INTERVAL_SECS: u64 = 3;

/// The marker before the page size in `vm_stat`'s first line.
pub open spec fn page_size_marker() -> Seq<char> {
    "page size of "@
}

/// The page size as written in `vm_stat`'s first line (`Mach Virtual
/// Memory Statistics: (page size of 16384 bytes)`): the text after the
/// first `page size of ` up to the next one, cut at the first space.
pub open spec fn page_size_token_spec(text: Seq<char>) -> Option<Seq<char>> {
    let ls = lines_of(text);
    if ls.len() == 0 {
        None
    } else {
        match find_seq(ls[0], page_size_marker()) {
            None => None,
            Some(i) => {
                let rest = ls[0].skip(i + page_size_marker().len());
                let piece = match find_seq(rest, page_size_marker()) {
                    Some(j) => rest.take(j),
                    None => rest,
                };
                Some(split_on(piece, ' ')[0])
            },
        }
    }
}

/// The page size field of `vm_stat`'s output, as text.
pub fn page_size_token(text: &str) -> (r: Option<String>)
    ensures
        match r {
            Some(t) => page_size_token_spec(text@) == Some(t@),
            None => page_size_token_spec(text@) is None,
        },
{
    let c = chars_of(text);
    let lines = lines_exec(&c);
    if lines.len() == 0 {
        return None;
    }
    let marker = chars_of("page size of ");
    let first = &lines[0];
    assert(first@ == lines_of(text@)[0]);
    match find_exec(first, &marker) {
        None => None,
        Some(i) => {
            let fl = first.len();
            assert(i + marker@.len() <= fl);
            let rest = skip_chars(first, i + marker.len());
            let piece = match find_exec(&rest, &marker) {
                Some(j) => {
                    let p = take_chars_exec(&rest, j);
                    assert(p@ == rest@.take(j as int));
                    p
                },
                None => rest,
            };
            let pieces = split_chars(&piece, ' ');
            proof {
                lemma_split_on_nonempty(piece@, ' ');
            }
            Some(string_of(&pieces[0]))
        },
    }
}

/// The index of the first of `lines` that starts with `name`.
pub open spec fn first_line_with_prefix(lines: Seq<Seq<char>>, name: Seq<char>) -> Option<int> {
    if exists|i: int| 0 <= i < lines.len() && name.is_prefix_of(lines[i]) {
        Some(
            choose|i: int|
                0 <= i < lines.len() && name.is_prefix_of(lines[i]) && forall|j: int|
                    0 <= j < i ==> !name.is_prefix_of(lines[j]),
        )
    } else {
        None
    }
}

/// The value of a `vm_stat` field (`Pages active:   1234.`): on the first
/// line that starts with `name`, the text between the first and second
/// `:`, trimmed, without trailing dots; nothing when no line starts with
/// `name` or that line has no `:`.
pub open spec fn field_token_spec(text: Seq<char>, name: Seq<char>) -> Option<Seq<char>> {
    let ls = lines_of(text);
    match first_line_with_prefix(ls, name) {
        None => None,
        Some(k) => {
            let parts = split_on(ls[k], ':');
            if parts.len() < 2 {
                None
            } else {
                Some(trim_end_char(trim(parts[1]), '.'))
            }
        },
    }
}

/// The value of the `vm_stat` field `name`, as text.
pub fn field_token(text: &str, name: &str) -> (r: Option<String>)
    ensures
        match r {
            Some(t) => field_token_spec(text@, name@) == Some(t@),
            None => field_token_spec(text@, name@) is None,
        },
{
    let c = chars_of(text);
    let n = chars_of(name);
    let lines = lines_exec(&c);
    let ghost ls = lines_of(text@);
    let mut i: usize = 0;
    while i < lines.len()
        invariant
            i <= lines@.len(),
            views(lines@) == ls,
            ls == lines_of(text@),
            n@ == name@,
            forall|j: int| 0 <= j < i ==> !name@.is_prefix_of(#[trigger] ls[j]),
        decreases lines@.len() - i,
    {
        assert(lines@[i as int]@ == ls[i as int]);
        if has_prefix(&lines[i], &n) {
            proof {
                let k = choose|k: int|
                    0 <= k < ls.len() && name@.is_prefix_of(ls[k]) && forall|j: int|
                        0 <= j < k ==> !name@.is_prefix_of(ls[j]);
                if k < i {
                    assert(!name@.is_prefix_of(ls[k]));
                } else if k > i {
                    assert(!name@.is_prefix_of(ls[i as int]));
                }
                assert(first_line_with_prefix(ls, name@) == Some(i as int));
            }
            let parts = split_chars(&lines[i], ':');
            if parts.len() < 2 {
                return None;
            }
            assert(parts@[1]@ == split_on(ls[i as int], ':')[1]);
            let t = trim_exec(&parts[1]);
            let u = trim_end_char_exec(&t, '.');
            return Some(string_of(&u));
        }
        i = i + 1;
    }
    assert(first_line_with_prefix(ls, name@) is None) by {
        if exists|k: int| 0 <= k < ls.len() && name@.is_prefix_of(ls[k]) {
            let k = choose|k: int| 0 <= k < ls.len() && name@.is_prefix_of(ls[k]);
            assert(!name@.is_prefix_of(ls[k]));
        }
    }
    None
}

/// The page size is read from the first line: it is the word (no space)
/// that directly follows the first `page size of ` there, ended by a
/// space, by a further `page size of `, or by the end of the line.
pub proof fn law_page_size_word(text: Seq<char>)
    ensures
        page_size_token_spec(text) matches Some(d) ==> {
            &&& lines_of(text).len() > 0
            &&& !d.contains(' ')
            &&& exists|a: Seq<char>, rest: Seq<char>|
                #![trigger a + "page size of "@ + d + rest]
                lines_of(text)[0] == a + "page size of "@ + d + rest && (forall|j: int|
                    0 <= j < a.len() ==> !occurs_at(lines_of(text)[0], "page size of "@, j)) && (
                rest.len() == 0 || rest[0] == ' ' || "page size of "@.is_prefix_of(rest))
        },
{
    let ls = lines_of(text);
    if page_size_token_spec(text) is Some {
        let m = page_size_marker();
        let l = ls[0];
        lemma_find_seq_props(l, m);
        let i = find_seq(l, m)->0;
        let rest0 = l.skip(i + m.len());
        lemma_find_seq_props(rest0, m);
        let piece = match find_seq(rest0, m) {
            Some(j) => rest0.take(j),
            None => rest0,
        };
        lemma_split_first(piece, ' ');
        lemma_split_on_nonempty(piece, ' ');
        let d = split_on(piece, ' ')[0];
        let rest = rest0.skip(d.len() as int);
        let a = l.take(i);
        assert(l.subrange(i, i + m.len()) == m);
        assert(rest0 =~= piece + rest0.skip(piece.len() as int));
        assert(piece =~= d + piece.skip(d.len() as int));
        assert(l =~= a + m + d + rest);
        if d.len() < piece.len() {
            assert(rest[0] == piece[d.len() as int]);
        } else if let Some(j) = find_seq(rest0, m) {
            assert(rest =~= rest0.skip(j));
            assert(rest0.subrange(j, j + m.len()) == m);
            assert(m.is_prefix_of(rest));
        } else {
            assert(rest.len() == 0);
        }
        assert(a.len() == i);
        assert(page_size_token_spec(text) == Some(d));
        assert(ls[0] == a + m + d + rest && (forall|j: int|
            0 <= j < a.len() ==> !occurs_at(ls[0], m, j)) && (rest.len() == 0 || rest[0] == ' '
            || m.is_prefix_of(rest)));
    }
}

/// A field's value comes from the first line that starts with the
/// field's name and has a `:`: it is what follows that `:` up to the next
/// one, without surrounding white space or trailing dots. When the first
/// line starting with the name has no `:`, or no line starts with it,
/// there is no value.
pub proof fn law_field_value(text: Seq<char>, name: Seq<char>)
    ensures
        field_token_spec(text, name) matches Some(v) ==> exists|k: int|
            #![trigger lines_of(text)[k]]
            0 <= k < lines_of(text).len() && name.is_prefix_of(lines_of(text)[k]) && (forall|j: int|
                0 <= j < k ==> !name.is_prefix_of(lines_of(text)[j])) && lines_of(text)[k].contains(
                ':',
            ) && (v.len() == 0 || v.last() != '.'),
        field_token_spec(text, name) is None ==> forall|k: int|
            0 <= k < lines_of(text).len() && #[trigger] name.is_prefix_of(lines_of(text)[k])
                && lines_of(text)[k].contains(':') ==> exists|j: int|
                0 <= j < k && name.is_prefix_of(lines_of(text)[j]),
{
    let ls = lines_of(text);
    if exists|x: int| 0 <= x < ls.len() && name.is_prefix_of(ls[x]) {
        let x = choose|x: int| 0 <= x < ls.len() && name.is_prefix_of(ls[x]);
        lemma_least_line(ls, name, x);
        let k = first_line_with_prefix(ls, name)->0;
        crate::protocol::lemma_contains_sep_when_split(ls[k], ':');
        if field_token_spec(text, name) is Some {
            let v = field_token_spec(text, name)->0;
            lemma_trim_end_char_last(trim(split_on(ls[k], ':')[1]), '.');
            assert(ls[k].contains(':'));
        } else {
            assert forall|q: int|
                0 <= q < ls.len() && #[trigger] name.is_prefix_of(ls[q]) && ls[q].contains(
                    ':',
                ) implies exists|j: int| 0 <= j < q && name.is_prefix_of(ls[j]) by {
                if q != k {
                    if q > k {
                        assert(0 <= k < q && name.is_prefix_of(ls[k]));
                    }
                }
            }
        }
    }
}

proof fn lemma_least_line(ls: Seq<Seq<char>>, name: Seq<char>, x: int)
    requires
        0 <= x < ls.len(),
        name.is_prefix_of(ls[x]),
    ensures
        exists|i: int|
            0 <= i < ls.len() && name.is_prefix_of(ls[i]) && forall|j: int|
                0 <= j < i ==> !name.is_prefix_of(ls[j]),
    decreases x,
{
    if exists|y: int| 0 <= y < x && name.is_prefix_of(ls[y]) {
        let y = choose|y: int| 0 <= y < x && name.is_prefix_of(ls[y]);
        lemma_least_line(ls, name, y);
    } else {
        assert(forall|j: int| 0 <= j < x ==> !name.is_prefix_of(ls[j]));
    }
}

proof fn lemma_trim_end_char_last(s: Seq<char>, c: char)
    ensures
        trim_end_char(s, c).len() == 0 || trim_end_char(s, c).last() != c,
    decreases s.len(),
{
    if s.len() > 0 && s.last() == c {
        lemma_trim_end_char_last(s.drop_last(), c);
    }
}

} // verus!
