//! Character-level text operations on which the status line, the socket
//! protocol and the collectors' parsers are built.  Text is handled as
//! `Vec<char>` inside the library and turned into `String` at the edges.
use vstd::prelude::*;

verus! {

// ───────────────────────────── specifications ─────────────────────────────

/// The character sequences held by a sequence of vectors.
pub open spec fn views(v: Seq<Vec<char>>) -> Seq<Seq<char>> {
    v.map_values(|x: Vec<char>| x@)
}

/// The pieces of `s` between occurrences of `sep` (as `str::split` with a
/// `char` pattern yields them): `n` separators give `n + 1` pieces.
pub open spec fn split_on(s: Seq<char>, sep: char) -> Seq<Seq<char>>
    decreases s.len(),
{
    if s.len() == 0 {
        seq![Seq::<char>::empty()]
    } else {
        let prev = split_on(s.drop_last(), sep);
        if s.last() == sep {
            prev.push(Seq::<char>::empty())
        } else {
            prev.update(prev.len() - 1, prev.last().push(s.last()))
        }
    }
}

/// The pieces of `parts` with `sep` between consecutive ones
/// (as `[..].join(sep)`).
pub open spec fn join_with(parts: Seq<Seq<char>>, sep: Seq<char>) -> Seq<char>
    decreases parts.len(),
{
    if parts.len() == 0 {
        Seq::<char>::empty()
    } else if parts.len() == 1 {
        parts[0]
    } else {
        join_with(parts.drop_last(), sep) + sep + parts.last()
    }
}

/// The first `n` characters of `s`, or all of them when `s` is shorter
/// (as `s.chars().take(n).collect()`).
pub open spec fn take_chars(s: Seq<char>, n: nat) -> Seq<char> {
    if s.len() <= n {
        s
    } else {
        s.take(n as int)
    }
}

/// The last `n` elements of `parts`, or all of them when there are fewer
/// (as `parts[parts.len().saturating_sub(n)..]`).
pub open spec fn last_n<A>(parts: Seq<A>, n: nat) -> Seq<A> {
    if parts.len() <= n {
        parts
    } else {
        parts.subrange(parts.len() - n, parts.len() as int)
    }
}

/// The character of decimal digit `d`.
pub open spec fn digit_char(d: nat) -> char {
    if d == 0 {
        '0'
    } else if d == 1 {
        '1'
    } else if d == 2 {
        '2'
    } else if d == 3 {
        '3'
    } else if d == 4 {
        '4'
    } else if d == 5 {
        '5'
    } else if d == 6 {
        '6'
    } else if d == 7 {
        '7'
    } else if d == 8 {
        '8'
    } else {
        '9'
    }
}

/// The decimal representation of `n`, without sign or leading zeros
/// (as `format!("{}", n)` for an unsigned integer).
pub open spec fn decimal(n: nat) -> Seq<char>
    decreases n,
{
    if n < 10 {
        seq![digit_char(n)]
    } else {
        decimal(n / 10).push(digit_char(n % 10))
    }
}

/// Unicode `White_Space`, the property that `char::is_whitespace` tests.
pub open spec fn is_white_space(c: char) -> bool {
    let u = c as u32;
    ||| 0x09 <= u <= 0x0d
    ||| u == 0x20
    ||| u == 0x85
    ||| u == 0xa0
    ||| u == 0x1680
    ||| 0x2000 <= u <= 0x200a
    ||| u == 0x2028
    ||| u == 0x2029
    ||| u == 0x202f
    ||| u == 0x205f
    ||| u == 0x3000
}

/// `s` without its leading white space.
pub open spec fn trim_start(s: Seq<char>) -> Seq<char>
    decreases s.len(),
{
    if s.len() > 0 && is_white_space(s[0]) {
        trim_start(s.drop_first())
    } else {
        s
    }
}

/// `s` without its trailing white space.
pub open spec fn trim_end(s: Seq<char>) -> Seq<char>
    decreases s.len(),
{
    if s.len() > 0 && is_white_space(s.last()) {
        trim_end(s.drop_last())
    } else {
        s
    }
}

/// `s` without leading and trailing white space (as `str::trim`).
pub open spec fn trim(s: Seq<char>) -> Seq<char> {
    trim_end(trim_start(s))
}

/// `s` without the copies of `c` at its end (as `str::trim_end_matches`
/// with a `char` pattern).
pub open spec fn trim_end_char(s: Seq<char>, c: char) -> Seq<char>
    decreases s.len(),
{
    if s.len() > 0 && s.last() == c {
        trim_end_char(s.drop_last(), c)
    } else {
        s
    }
}

/// `s` without the copies of `p` at its start (as `str::trim_start_matches`
/// with a non-empty `&str` pattern).
pub open spec fn trim_start_seq(s: Seq<char>, p: Seq<char>) -> Seq<char>
    decreases s.len(),
{
    if p.len() > 0 && p.is_prefix_of(s) {
        trim_start_seq(s.skip(p.len() as int), p)
    } else {
        s
    }
}

/// `s` without one `'\r'` at its end, if it has one.
pub open spec fn strip_cr(s: Seq<char>) -> Seq<char> {
    if s.len() > 0 && s.last() == '\r' {
        s.drop_last()
    } else {
        s
    }
}

/// The lines of `s` as `str::lines` yields them: split at `'\n'`, a `'\r'`
/// right before a `'\n'` dropped, and no empty line after a final `'\n'`.
pub open spec fn lines_of(s: Seq<char>) -> Seq<Seq<char>> {
    let p = split_on(s, '\n');
    let body = p.drop_last().map_values(|l: Seq<char>| strip_cr(l));
    if p.last().len() == 0 {
        body
    } else {
        body.push(p.last())
    }
}

/// Whether `p` occurs in `s` starting at index `i`.
pub open spec fn occurs_at(s: Seq<char>, p: Seq<char>, i: int) -> bool {
    0 <= i && i + p.len() <= s.len() && s.subrange(i, i + p.len()) == p
}

/// Whether `p` occurs somewhere in `s`.
pub open spec fn contains_seq(s: Seq<char>, p: Seq<char>) -> bool {
    exists|i: int| occurs_at(s, p, i)
}

/// The index of the first occurrence of `p` in `s` (as `str::find`).
#[verifier::opaque]
pub open spec fn find_seq(s: Seq<char>, p: Seq<char>) -> Option<int> {
    if contains_seq(s, p) {
        Some(choose|i: int| occurs_at(s, p, i) && forall|j: int| 0 <= j < i ==> !occurs_at(s, p, j))
    } else {
        None
    }
}

// ───────────────────────────── lemmas ─────────────────────────────

/// `split_on` never yields an empty list of pieces.
pub proof fn lemma_split_on_nonempty(s: Seq<char>, sep: char)
    ensures
        split_on(s, sep).len() >= 1,
    decreases s.len(),
{
    if s.len() > 0 {
        lemma_split_on_nonempty(s.drop_last(), sep);
    }
}

/// A string without `sep` is a single piece.
pub proof fn lemma_split_on_no_sep(s: Seq<char>, sep: char)
    requires
        !s.contains(sep),
    ensures
        split_on(s, sep) == seq![s],
    decreases s.len(),
{
    if s.len() > 0 {
        assert(!s.drop_last().contains(sep)) by {
            if s.drop_last().contains(sep) {
                let k = choose|k: int| 0 <= k < s.drop_last().len() && s.drop_last()[k] == sep;
                assert(s[k] == sep);
            }
        }
        lemma_split_on_no_sep(s.drop_last(), sep);
        assert(s.last() != sep) by {
            assert(s[s.len() - 1] == s.last());
        }
        assert(s.drop_last().push(s.last()) =~= s);
        let prev = split_on(s.drop_last(), sep);
        assert(prev == seq![s.drop_last()]);
        assert(prev.len() == 1);
        assert(prev.last() == s.drop_last());
        assert(split_on(s, sep) == prev.update(0, prev.last().push(s.last())));
        assert(prev.update(0, prev.last().push(s.last())) =~= seq![s]);
    } else {
        assert(s =~= Seq::<char>::empty());
    }
}

/// The pieces of `a + sep + b` are those of `a` followed by those of `b`.
pub proof fn lemma_split_on_append(a: Seq<char>, b: Seq<char>, sep: char)
    ensures
        split_on(a + seq![sep] + b, sep) == split_on(a, sep) + split_on(b, sep),
    decreases b.len(),
{
    if b.len() == 0 {
        assert((a + seq![sep] + b).drop_last() =~= a);
        assert(split_on(b, sep) =~= seq![Seq::<char>::empty()]);
        lemma_split_on_nonempty(a, sep);
        assert(split_on(a, sep).push(Seq::<char>::empty()) =~= split_on(a, sep) + split_on(b, sep));
    } else {
        let s = a + seq![sep] + b;
        assert(s.drop_last() =~= a + seq![sep] + b.drop_last());
        assert(s.last() == b.last());
        lemma_split_on_append(a, b.drop_last(), sep);
        lemma_split_on_nonempty(b.drop_last(), sep);
        lemma_split_on_nonempty(a, sep);
        let pa = split_on(a, sep);
        let pb = split_on(b.drop_last(), sep);
        if b.last() == sep {
            assert((pa + pb).push(Seq::<char>::empty()) =~= pa + pb.push(Seq::<char>::empty()));
        } else {
            let q = pa + pb;
            assert(q.update(q.len() - 1, q.last().push(b.last())) =~= pa + pb.update(
                pb.len() - 1,
                pb.last().push(b.last()),
            ));
        }
    }
}

/// Joining then splitting gives the pieces back when none holds `sep`.
pub proof fn lemma_split_join(parts: Seq<Seq<char>>, sep: char)
    requires
        parts.len() >= 1,
        forall|i: int| 0 <= i < parts.len() ==> !(#[trigger] parts[i]).contains(sep),
    ensures
        split_on(join_with(parts, seq![sep]), sep) == parts,
    decreases parts.len(),
{
    if parts.len() == 1 {
        lemma_split_on_no_sep(parts[0], sep);
        assert(seq![parts[0]] =~= parts);
    } else {
        let init = parts.drop_last();
        assert forall|i: int| 0 <= i < init.len() implies !(#[trigger] init[i]).contains(sep) by {
            assert(init[i] == parts[i]);
        }
        lemma_split_join(init, sep);
        assert(!parts[parts.len() - 1].contains(sep));
        lemma_split_on_no_sep(parts.last(), sep);
        lemma_split_on_append(join_with(init, seq![sep]), parts.last(), sep);
        assert(init + seq![parts.last()] =~= parts);
    }
}

/// No piece of `split_on(s, sep)` holds `sep`.
pub proof fn lemma_split_on_pieces(s: Seq<char>, sep: char)
    ensures
        forall|i: int|
            0 <= i < split_on(s, sep).len() ==> !(#[trigger] split_on(s, sep)[i]).contains(sep),
    decreases s.len(),
{
    if s.len() > 0 {
        lemma_split_on_pieces(s.drop_last(), sep);
        lemma_split_on_nonempty(s.drop_last(), sep);
        let prev = split_on(s.drop_last(), sep);
        if s.last() != sep {
            let l = prev.last().push(s.last());
            assert(!l.contains(sep)) by {
                if l.contains(sep) {
                    let k = choose|k: int| 0 <= k < l.len() && l[k] == sep;
                    if k < prev.last().len() {
                        assert(prev[prev.len() - 1][k] == sep);
                        assert(prev[prev.len() - 1].contains(sep));
                    }
                }
            }
            assert forall|i: int| 0 <= i < split_on(s, sep).len() implies !(
            #[trigger] split_on(s, sep)[i]).contains(sep) by {
                if i < prev.len() - 1 {
                    assert(split_on(s, sep)[i] == prev[i]);
                }
            }
        } else {
            assert forall|i: int| 0 <= i < split_on(s, sep).len() implies !(
            #[trigger] split_on(s, sep)[i]).contains(sep) by {
                if i < prev.len() {
                    assert(split_on(s, sep)[i] == prev[i]);
                } else {
                    assert(split_on(s, sep)[i] == Seq::<char>::empty());
                }
            }
        }
    }
}

/// Whether `name[..k]` is the part of `name` before its first `sep` (all
/// of it when there is none).
pub open spec fn ends_before_first(name: Seq<char>, sep: char, k: int) -> bool {
    0 <= k <= name.len() && (k == name.len() || name[k] == sep) && forall|j: int|
        0 <= j < k ==> name[j] != sep
}

/// The last piece is what follows the last `sep` (all of `s` when `s` has
/// no `sep`).
pub proof fn lemma_split_last(s: Seq<char>, sep: char)
    ensures
        !split_on(s, sep).last().contains(sep),
        !s.contains(sep) ==> split_on(s, sep).last() == s,
        s.contains(sep) ==> exists|p: Seq<char>| s == p + seq![sep] + split_on(s, sep).last(),
    decreases s.len(),
{
    lemma_split_on_nonempty(s, sep);
    lemma_split_on_pieces(s, sep);
    assert(split_on(s, sep).last() == split_on(s, sep)[split_on(s, sep).len() - 1]);
    if !s.contains(sep) {
        lemma_split_on_no_sep(s, sep);
    } else {
        lemma_split_last(s.drop_last(), sep);
        lemma_split_on_nonempty(s.drop_last(), sep);
        let prev = split_on(s.drop_last(), sep);
        if s.last() == sep {
            assert(s =~= s.drop_last() + seq![sep] + Seq::<char>::empty());
        } else if s.drop_last().contains(sep) {
            let p = choose|p: Seq<char>| s.drop_last() == p + seq![sep] + prev.last();
            assert(s =~= s.drop_last().push(s.last()));
            assert((p + seq![sep] + prev.last()).push(s.last()) =~= p + seq![sep] + prev.last().push(
                s.last(),
            ));
        } else {
            let k = choose|k: int| 0 <= k < s.len() && s[k] == sep;
            if k < s.len() - 1 {
                assert(s.drop_last()[k] == sep);
            }
        }
    }
}

/// The first piece is what precedes the first `sep` (all of `s` when `s`
/// has no `sep`).
pub proof fn lemma_split_first(s: Seq<char>, sep: char)
    ensures
        split_on(s, sep)[0].is_prefix_of(s),
        !split_on(s, sep)[0].contains(sep),
        split_on(s, sep)[0].len() < s.len() ==> s[split_on(s, sep)[0].len() as int] == sep,
    decreases s.len(),
{
    lemma_split_on_nonempty(s, sep);
    lemma_split_on_pieces(s, sep);
    if s.len() > 0 {
        lemma_split_first(s.drop_last(), sep);
        lemma_split_on_nonempty(s.drop_last(), sep);
        let prev = split_on(s.drop_last(), sep);
        crate::protocol::lemma_contains_sep_when_split(s.drop_last(), sep);
        if prev[0].len() < s.drop_last().len() {
            assert(s[prev[0].len() as int] == s.drop_last()[prev[0].len() as int]);
        }
        if s.last() == sep {
            assert(split_on(s, sep)[0] == prev[0]);
            assert(s[s.len() - 1] == sep);
        } else if prev.len() > 1 {
            assert(split_on(s, sep)[0] == prev[0]);
        } else {
            assert(split_on(s, sep)[0] == prev[0].push(s.last()));
            assert(prev[0].len() == s.drop_last().len()) by {
                if prev[0].len() < s.drop_last().len() {
                    assert(s.drop_last()[prev[0].len() as int] == sep);
                    assert(split_on(s.drop_last(), sep).len() > 1) by {
                        crate::protocol::lemma_contains_sep_when_split(s.drop_last(), sep);
                    }
                }
            }
            assert(prev[0] =~= s.drop_last());
            assert(split_on(s, sep)[0] =~= s);
        }
    }
}

/// Splitting then joining with the same separator gives the text back.
pub proof fn lemma_join_split(s: Seq<char>, sep: char)
    ensures
        join_with(split_on(s, sep), seq![sep]) == s,
    decreases s.len(),
{
    if s.len() == 0 {
        assert(join_with(split_on(s, sep), seq![sep]) =~= s);
    } else {
        lemma_join_split(s.drop_last(), sep);
        lemma_split_on_nonempty(s.drop_last(), sep);
        let prev = split_on(s.drop_last(), sep);
        if s.last() == sep {
            let cur = prev.push(Seq::<char>::empty());
            assert(cur.drop_last() =~= prev);
            assert(join_with(cur, seq![sep]) =~= s);
        } else {
            lemma_join_last(prev, s.last(), seq![sep]);
            assert(s.drop_last().push(s.last()) =~= s);
        }
    }
}

/// Extending the last piece extends the joined text.
pub proof fn lemma_join_last(parts: Seq<Seq<char>>, c: char, sep: Seq<char>)
    requires
        parts.len() >= 1,
    ensures
        join_with(parts.update(parts.len() - 1, parts.last().push(c)), sep) == join_with(
            parts,
            sep,
        ).push(c),
{
    let q = parts.update(parts.len() - 1, parts.last().push(c));
    if parts.len() == 1 {
        assert(join_with(q, sep) =~= join_with(parts, sep).push(c));
    } else {
        assert(q.drop_last() =~= parts.drop_last());
        assert(join_with(q, sep) =~= join_with(parts, sep).push(c));
    }
}

/// The number that a string of decimal digits denotes.
pub open spec fn digits_value(s: Seq<char>) -> int
    decreases s.len(),
{
    if s.len() == 0 {
        0
    } else {
        digits_value(s.drop_last()) * 10 + (s.last() as u32 - 48)
    }
}

/// Whether `c` is one of `0` to `9`.
pub open spec fn is_digit(c: char) -> bool {
    48 <= c as u32 <= 57
}

proof fn lemma_digit_char(d: nat)
    requires
        d < 10,
    ensures
        digit_char(d) as u32 == 48 + d,
{
}

/// `decimal(n)` is how `n` is written in base ten: only digits, no
/// leading zero (`0` alone for zero), and the digits denote `n`.
pub proof fn law_decimal_writes_n(n: nat)
    ensures
        decimal(n).len() >= 1,
        forall|i: int| 0 <= i < decimal(n).len() ==> is_digit(#[trigger] decimal(n)[i]),
        n == 0 ==> decimal(n) == seq!['0'],
        n > 0 ==> decimal(n)[0] != '0',
        digits_value(decimal(n)) == n,
    decreases n,
{
    if n < 10 {
        lemma_digit_char(n);
        let s = decimal(n);
        assert(s == seq![digit_char(n)]);
        assert(s.drop_last() =~= Seq::<char>::empty());
        assert(s.last() == digit_char(n));
        assert(digits_value(s) == digits_value(s.drop_last()) * 10 + (s.last() as u32 - 48));
    } else {
        law_decimal_writes_n(n / 10);
        lemma_digit_char(n % 10);
        let p = decimal(n / 10);
        let s = decimal(n);
        assert(s == p.push(digit_char(n % 10)));
        assert(s.drop_last() =~= p);
        assert(s[0] == p[0]);
        assert(s.last() == digit_char(n % 10));
        assert(digits_value(s) == digits_value(p) * 10 + (s.last() as u32 - 48));
        assert(n == (n / 10) * 10 + n % 10) by (nonlinear_arith);
        assert forall|i: int| 0 <= i < s.len() implies is_digit(#[trigger] s[i]) by {
            if i < p.len() {
                assert(s[i] == p[i]);
            }
        }
    }
}

/// The first piece of `s` is what precedes its first `sep`.
pub proof fn law_split_first_piece(s: Seq<char>, sep: char)
    ensures
        exists|k: int| #[trigger] ends_before_first(s, sep, k) && split_on(s, sep)[0] == s.take(k),
{
    lemma_split_first(s, sep);
    let f = split_on(s, sep)[0];
    let k = f.len() as int;
    assert(f =~= s.take(k));
    assert forall|j: int| 0 <= j < k implies s[j] != sep by {
        assert(f[j] == s[j]);
    }
    assert(ends_before_first(s, sep, k));
}

/// Whether the first character of `s` that is not white space is `c`.
pub open spec fn first_non_space_is(s: Seq<char>, c: char) -> bool {
    exists|k: int|
        0 <= k < s.len() && #[trigger] s[k] == c && forall|j: int|
            0 <= j < k ==> is_white_space(s[j])
}

proof fn lemma_trim_start_skips(s: Seq<char>)
    ensures
        exists|k: int|
            0 <= k <= s.len() && (forall|j: int| 0 <= j < k ==> is_white_space(#[trigger] s[j]))
                && (k == s.len() || !is_white_space(s[k])) && trim_start(s) == s.skip(k),
    decreases s.len(),
{
    if s.len() > 0 && is_white_space(s[0]) {
        lemma_trim_start_skips(s.drop_first());
        let k = choose|k: int|
            0 <= k <= s.drop_first().len() && (forall|j: int|
                0 <= j < k ==> is_white_space(#[trigger] s.drop_first()[j])) && (k
                == s.drop_first().len() || !is_white_space(s.drop_first()[k]))
                && trim_start(s.drop_first()) == s.drop_first().skip(k);
        assert(s.drop_first().skip(k) =~= s.skip(k + 1));
        assert forall|j: int| 0 <= j < k + 1 implies is_white_space(#[trigger] s[j]) by {
            if j > 0 {
                assert(s[j] == s.drop_first()[j - 1]);
            }
        }
        if k < s.drop_first().len() {
            assert(s[k + 1] == s.drop_first()[k]);
        }
    } else {
        assert(s.skip(0) =~= s);
    }
}

proof fn lemma_trim_end_keeps_first(s: Seq<char>)
    requires
        s.len() > 0,
        !is_white_space(s[0]),
    ensures
        trim_end(s).len() > 0,
        trim_end(s)[0] == s[0],
    decreases s.len(),
{
    if is_white_space(s.last()) {
        assert(s.len() >= 2);
        assert(s.drop_last()[0] == s[0]);
        lemma_trim_end_keeps_first(s.drop_last());
    }
}

/// The trimmed text starts with `c` exactly when the first character that
/// is not white space is `c` (for `c` not white space itself).
pub proof fn law_trim_starts_with(s: Seq<char>, c: char)
    requires
        !is_white_space(c),
    ensures
        (trim(s).len() > 0 && trim(s)[0] == c) <==> first_non_space_is(s, c),
{
    lemma_trim_start_skips(s);
    let k = choose|k: int|
        0 <= k <= s.len() && (forall|j: int| 0 <= j < k ==> is_white_space(#[trigger] s[j])) && (k
            == s.len() || !is_white_space(s[k])) && trim_start(s) == s.skip(k);
    if k < s.len() {
        assert(s.skip(k)[0] == s[k]);
        lemma_trim_end_keeps_first(s.skip(k));
        if first_non_space_is(s, c) {
            let k2 = choose|k2: int|
                0 <= k2 < s.len() && #[trigger] s[k2] == c && forall|j: int|
                    0 <= j < k2 ==> is_white_space(s[j]);
            if k2 < k {
                assert(is_white_space(s[k2]));
            } else if k2 > k {
                assert(is_white_space(s[k]));
            }
        }
        if trim(s).len() > 0 && trim(s)[0] == c {
            assert(first_non_space_is(s, c));
        }
    } else {
        assert(s.skip(k).len() == 0);
        assert(trim_end(s.skip(k)).len() == 0);
        if first_non_space_is(s, c) {
            let k2 = choose|k2: int|
                0 <= k2 < s.len() && #[trigger] s[k2] == c && forall|j: int|
                    0 <= j < k2 ==> is_white_space(s[j]);
            assert(is_white_space(s[k2]));
        }
    }
}

// ───────────────────────────── executable ─────────────────────────────

/// The characters of `s`, in order.
pub fn chars_of(s: &str) -> (out: Vec<char>)
    ensures
        out@ == s@,
{
    let mut out: Vec<char> = Vec::new();
    for c in it: s.chars()
        invariant
            out@ == it.seq().take(it.index() as int),
            it.seq() == s@,
    {
        out.push(c);
    }
    out
}

/// `String::from_iter` over the characters of `v`: the string made of
/// exactly those characters, in order.
#[verifier::external_body]
pub(crate) fn string_of(v: &Vec<char>) -> (s: String)
    ensures
        s@ == v@,
{
    String::from_iter(v)
}

/// Appends the characters of `w` to `v`.
pub fn append_chars(v: &mut Vec<char>, w: &Vec<char>)
    ensures
        final(v)@ == old(v)@ + w@,
{
    let ghost start = v@;
    let mut i: usize = 0;
    while i < w.len()
        invariant
            i <= w.len(),
            v@ == start + w@.take(i as int),
        decreases w.len() - i,
    {
        v.push(w[i]);
        i = i + 1;
        assert(w@.take(i as int) =~= w@.take((i - 1) as int).push(w@[i - 1]));
    }
    assert(w@.take(w.len() as int) =~= w@);
}

/// Appends the characters of `s` to `v`.
pub fn append_str(v: &mut Vec<char>, s: &str)
    ensures
        final(v)@ == old(v)@ + s@,
{
    let w = chars_of(s);
    append_chars(v, &w);
}

/// Whether `a` and `b` hold the same characters.
pub fn chars_eq(a: &Vec<char>, b: &Vec<char>) -> (r: bool)
    ensures
        r == (a@ == b@),
{
    if a.len() != b.len() {
        return false;
    }
    let mut i: usize = 0;
    while i < a.len()
        invariant
            a.len() == b.len(),
            i <= a.len(),
            forall|j: int| 0 <= j < i ==> a@[j] == b@[j],
        decreases a.len() - i,
    {
        if a[i] != b[i] {
            return false;
        }
        i = i + 1;
    }
    assert(a@ =~= b@);
    true
}

/// Whether `a` holds the characters of `s`.
pub fn chars_eq_str(a: &Vec<char>, s: &str) -> (r: bool)
    ensures
        r == (a@ == s@),
{
    let b = chars_of(s);
    chars_eq(a, &b)
}

/// Whether `p` is a prefix of `s`.
pub fn has_prefix(s: &Vec<char>, p: &Vec<char>) -> (r: bool)
    ensures
        r == p@.is_prefix_of(s@),
{
    if p.len() > s.len() {
        return false;
    }
    let mut i: usize = 0;
    while i < p.len()
        invariant
            p.len() <= s.len(),
            i <= p.len(),
            forall|j: int| 0 <= j < i ==> p@[j] == s@[j],
        decreases p.len() - i,
    {
        if p[i] != s[i] {
            return false;
        }
        i = i + 1;
    }
    true
}

/// Whether `p` occurs in `s` at index `i`.
pub fn occurs_at_exec(s: &Vec<char>, p: &Vec<char>, i: usize) -> (r: bool)
    ensures
        r == occurs_at(s@, p@, i as int),
{
    if i > s.len() || p.len() > s.len() - i {
        return false;
    }
    let mut k: usize = 0;
    while k < p.len()
        invariant
            i + p.len() <= s.len(),
            k <= p.len(),
            forall|j: int| 0 <= j < k ==> p@[j] == s@[i + j],
        decreases p.len() - k,
    {
        if p[k] != s[i + k] {
            assert(s@.subrange(i as int, i + p.len())[k as int] != p@[k as int]);
            return false;
        }
        k = k + 1;
    }
    assert(s@.subrange(i as int, i + p.len()) =~= p@);
    true
}

/// The first occurrence found by a left-to-right scan is the one `find_seq` names.
pub proof fn lemma_find_first(s: Seq<char>, p: Seq<char>, i: int)
    requires
        occurs_at(s, p, i),
        forall|j: int| 0 <= j < i ==> !occurs_at(s, p, j),
    ensures
        find_seq(s, p) == Some(i),
{
    reveal(find_seq);
    assert(contains_seq(s, p));
    let k = choose|k: int| occurs_at(s, p, k) && forall|j: int| 0 <= j < k ==> !occurs_at(s, p, j);
    if k < i {
        assert(!occurs_at(s, p, k));
    } else if k > i {
        assert(!occurs_at(s, p, i));
    }
}

/// With no occurrence at any index where one fits, `find_seq` finds nothing.
pub proof fn lemma_find_none(s: Seq<char>, p: Seq<char>)
    requires
        forall|j: int| 0 <= j && j + p.len() <= s.len() ==> !occurs_at(s, p, j),
    ensures
        find_seq(s, p) is None,
        !contains_seq(s, p),
{
    reveal(find_seq);
    if contains_seq(s, p) {
        let k = choose|k: int| occurs_at(s, p, k);
        assert(!occurs_at(s, p, k));
    }
}

/// `find_seq` finds the first occurrence, or nothing when there is none.
pub proof fn lemma_find_seq_props(s: Seq<char>, p: Seq<char>)
    ensures
        find_seq(s, p) matches Some(i) ==> occurs_at(s, p, i) && forall|j: int|
            0 <= j < i ==> !occurs_at(s, p, j),
        find_seq(s, p) is None ==> forall|j: int| !occurs_at(s, p, j),
{
    reveal(find_seq);
    if contains_seq(s, p) {
        let x = choose|x: int| occurs_at(s, p, x);
        lemma_least_occurrence(s, p, x);
    }
}

proof fn lemma_least_occurrence(s: Seq<char>, p: Seq<char>, x: int)
    requires
        occurs_at(s, p, x),
    ensures
        exists|i: int| occurs_at(s, p, i) && forall|j: int| 0 <= j < i ==> !occurs_at(s, p, j),
    decreases x,
{
    if exists|y: int| 0 <= y < x && occurs_at(s, p, y) {
        let y = choose|y: int| 0 <= y < x && occurs_at(s, p, y);
        lemma_least_occurrence(s, p, y);
    } else {
        assert(forall|j: int| 0 <= j < x ==> !occurs_at(s, p, j));
    }
}

/// The index of the first occurrence of `p` in `s`.
pub fn find_exec(s: &Vec<char>, p: &Vec<char>) -> (r: Option<usize>)
    ensures
        match r {
            Some(i) => find_seq(s@, p@) == Some(i as int) && occurs_at(s@, p@, i as int),
            None => find_seq(s@, p@) is None,
        },
        r is Some <==> contains_seq(s@, p@),
{
    if p.len() > s.len() {
        proof {
            lemma_find_none(s@, p@);
        }
        return None;
    }
    let last = s.len() - p.len();
    let mut i: usize = 0;
    loop
        invariant_except_break
            i <= last,
        invariant
            p.len() <= s.len(),
            last == s.len() - p.len(),
            forall|j: int| 0 <= j < i ==> !occurs_at(s@, p@, j),
        ensures
            forall|j: int| 0 <= j <= last ==> !occurs_at(s@, p@, j),
        decreases last - i,
    {
        if occurs_at_exec(s, p, i) {
            proof {
                lemma_find_first(s@, p@, i as int);
            }
            return Some(i);
        }
        if i == last {
            break;
        }
        i = i + 1;
    }
    proof {
        lemma_find_none(s@, p@);
    }
    None
}

/// The pieces of `s` between occurrences of `sep`.
pub fn split_chars(s: &Vec<char>, sep: char) -> (parts: Vec<Vec<char>>)
    ensures
        views(parts@) == split_on(s@, sep),
{
    let mut parts: Vec<Vec<char>> = Vec::new();
    let mut cur: Vec<char> = Vec::new();
    let mut i: usize = 0;
    while i < s.len()
        invariant
            i <= s.len(),
            views(parts@).push(cur@) == split_on(s@.take(i as int), sep),
        decreases s.len() - i,
    {
        let c = s[i];
        let ghost before = views(parts@).push(cur@);
        assert(s@.take(i + 1).drop_last() =~= s@.take(i as int));
        assert(s@.take(i + 1).last() == c);
        if c == sep {
            let ghost pd = views(parts@);
            let done = cur;
            let ghost dv = done@;
            parts.push(done);
            cur = Vec::new();
            assert(views(parts@) =~= pd.push(dv));
            assert(views(parts@).push(cur@) =~= before.push(Seq::<char>::empty()));
        } else {
            cur.push(c);
            assert(views(parts@).push(cur@) =~= before.update(
                before.len() - 1,
                before.last().push(c),
            ));
        }
        i = i + 1;
    }
    assert(s@.take(s.len() as int) =~= s@);
    let ghost pd = views(parts@);
    let ghost cv = cur@;
    parts.push(cur);
    assert(views(parts@) =~= pd.push(cv));
    parts
}

/// The pieces of `parts` with `sep` between consecutive ones.
pub fn join_chars(parts: &Vec<Vec<char>>, sep: &Vec<char>) -> (out: Vec<char>)
    ensures
        out@ == join_with(views(parts@), sep@),
{
    let mut out: Vec<char> = Vec::new();
    let mut i: usize = 0;
    while i < parts.len()
        invariant
            i <= parts.len(),
            out@ == join_with(views(parts@).take(i as int), sep@),
        decreases parts.len() - i,
    {
        assert(views(parts@).take(i + 1).drop_last() =~= views(parts@).take(i as int));
        if i > 0 {
            append_chars(&mut out, sep);
        }
        append_chars(&mut out, &parts[i]);
        i = i + 1;
        if i == 1 {
            assert(out@ =~= views(parts@).take(1)[0]);
        }
    }
    assert(views(parts@).take(parts.len() as int) =~= views(parts@));
    out
}

/// The first `n` characters of `s`, or all of them.
pub fn take_chars_exec(s: &Vec<char>, n: usize) -> (out: Vec<char>)
    ensures
        out@ == take_chars(s@, n as nat),
{
    let mut out: Vec<char> = Vec::new();
    let mut i: usize = 0;
    while i < s.len() && i < n
        invariant
            i <= s.len(),
            i <= n,
            out@ == s@.take(i as int),
        decreases s.len() - i,
    {
        out.push(s[i]);
        i = i + 1;
        assert(s@.take(i as int) =~= s@.take((i - 1) as int).push(s@[i - 1]));
    }
    if s.len() <= n {
        assert(s@.take(s.len() as int) =~= s@);
    }
    out
}

/// The character of decimal digit `d`.
fn digit_char_exec(d: u32) -> (c: char)
    requires
        d < 10,
    ensures
        c == digit_char(d as nat),
{
    if d == 0 {
        '0'
    } else if d == 1 {
        '1'
    } else if d == 2 {
        '2'
    } else if d == 3 {
        '3'
    } else if d == 4 {
        '4'
    } else if d == 5 {
        '5'
    } else if d == 6 {
        '6'
    } else if d == 7 {
        '7'
    } else if d == 8 {
        '8'
    } else {
        '9'
    }
}

/// The decimal representation of `n`.
pub fn decimal_exec(n: u32) -> (out: Vec<char>)
    ensures
        out@ == decimal(n as nat),
    decreases n,
{
    if n < 10 {
        let mut out: Vec<char> = Vec::new();
        out.push(digit_char_exec(n));
        assert(out@ =~= seq![digit_char(n as nat)]);
        out
    } else {
        let mut out = decimal_exec(n / 10);
        out.push(digit_char_exec(n % 10));
        out
    }
}

/// Whether `c` is Unicode white space (`char::is_whitespace`).
pub fn is_white_space_exec(c: char) -> (r: bool)
    ensures
        r == is_white_space(c),
{
    let u = c as u32;
    (0x09 <= u && u <= 0x0d) || u == 0x20 || u == 0x85 || u == 0xa0 || u == 0x1680 || (0x2000
        <= u && u <= 0x200a) || u == 0x2028 || u == 0x2029 || u == 0x202f || u == 0x205f || u
        == 0x3000
}

/// `s` without leading and trailing white space.
pub fn trim_exec(s: &Vec<char>) -> (out: Vec<char>)
    ensures
        out@ == trim(s@),
{
    let mut lo: usize = 0;
    assert(s@.skip(0) =~= s@);
    while lo < s.len() && is_white_space_exec(s[lo])
        invariant
            lo <= s.len(),
            trim_start(s@) == trim_start(s@.skip(lo as int)),
        decreases s.len() - lo,
    {
        assert(s@.skip(lo as int).drop_first() =~= s@.skip(lo + 1));
        lo = lo + 1;
    }
    let ghost t = s@.skip(lo as int);
    assert(trim_start(t) == t);
    let mut hi: usize = s.len();
    while hi > lo && is_white_space_exec(s[hi - 1])
        invariant
            lo <= hi <= s.len(),
            trim_end(t) == trim_end(s@.subrange(lo as int, hi as int)),
        decreases hi,
    {
        assert(s@.subrange(lo as int, hi as int).drop_last() =~= s@.subrange(lo as int, hi - 1));
        hi = hi - 1;
    }
    assert(trim_end(s@.subrange(lo as int, hi as int)) == s@.subrange(lo as int, hi as int));
    assert(t =~= s@.subrange(lo as int, s.len() as int));
    let mut out: Vec<char> = Vec::new();
    let mut i: usize = lo;
    while i < hi
        invariant
            lo <= i <= hi,
            hi <= s.len(),
            out@ == s@.subrange(lo as int, i as int),
        decreases hi - i,
    {
        out.push(s[i]);
        i = i + 1;
        assert(s@.subrange(lo as int, i as int) =~= s@.subrange(lo as int, i - 1).push(s@[i - 1]));
    }
    out
}

/// `s` without the copies of `c` at its end.
pub fn trim_end_char_exec(s: &Vec<char>, c: char) -> (out: Vec<char>)
    ensures
        out@ == trim_end_char(s@, c),
{
    let mut hi: usize = s.len();
    assert(s@.take(hi as int) =~= s@);
    while hi > 0 && s[hi - 1] == c
        invariant
            hi <= s.len(),
            trim_end_char(s@, c) == trim_end_char(s@.take(hi as int), c),
        decreases hi,
    {
        assert(s@.take(hi as int).drop_last() =~= s@.take(hi - 1));
        hi = hi - 1;
    }
    let mut out: Vec<char> = Vec::new();
    let mut i: usize = 0;
    while i < hi
        invariant
            i <= hi <= s.len(),
            out@ == s@.take(i as int),
        decreases hi - i,
    {
        out.push(s[i]);
        i = i + 1;
        assert(s@.take(i as int) =~= s@.take(i - 1).push(s@[i - 1]));
    }
    out
}

/// The elements of `s` from index `from` on.
pub fn skip_chars(s: &Vec<char>, from: usize) -> (out: Vec<char>)
    requires
        from <= s.len(),
    ensures
        out@ == s@.skip(from as int),
{
    let mut out: Vec<char> = Vec::new();
    let mut i: usize = from;
    while i < s.len()
        invariant
            from <= i <= s.len(),
            out@ == s@.subrange(from as int, i as int),
        decreases s.len() - i,
    {
        out.push(s[i]);
        i = i + 1;
        assert(s@.subrange(from as int, i as int) =~= s@.subrange(from as int, i - 1).push(
            s@[i - 1],
        ));
    }
    assert(s@.subrange(from as int, s.len() as int) =~= s@.skip(from as int));
    out
}

/// `s` without the copies of `p` at its start (`p` non-empty).
pub fn trim_start_seq_exec(s: &Vec<char>, p: &Vec<char>) -> (out: Vec<char>)
    ensures
        out@ == trim_start_seq(s@, p@),
{
    let mut lo: usize = 0;
    assert(s@.skip(0) =~= s@);
    while p.len() > 0 && lo <= s.len() && occurs_at_exec(s, p, lo)
        invariant
            lo <= s.len(),
            trim_start_seq(s@, p@) == trim_start_seq(s@.skip(lo as int), p@),
        decreases s.len() - lo,
    {
        let ghost rest = s@.skip(lo as int);
        assert(rest.subrange(0, p.len() as int) =~= s@.subrange(lo as int, lo + p.len()));
        assert(p@.is_prefix_of(rest));
        assert(rest.skip(p.len() as int) =~= s@.skip(lo + p.len()));
        lo = lo + p.len();
    }
    if p.len() > 0 && lo <= s.len() {
        let ghost rest = s@.skip(lo as int);
        assert(!p@.is_prefix_of(rest)) by {
            if p@.is_prefix_of(rest) {
                assert(s@.subrange(lo as int, lo + p.len()) =~= rest.subrange(0, p.len() as int));
            }
        }
    }
    skip_chars(s, lo)
}

/// The lines of `s` (`str::lines`).
pub fn lines_exec(s: &Vec<char>) -> (out: Vec<Vec<char>>)
    ensures
        views(out@) == lines_of(s@),
{
    let p = split_chars(s, '\n');
    proof {
        lemma_split_on_nonempty(s@, '\n');
    }
    let n = p.len();
    let mut out: Vec<Vec<char>> = Vec::new();
    let mut i: usize = 0;
    while i + 1 < n
        invariant
            n == p.len(),
            n >= 1,
            i + 1 <= n,
            views(p@) == split_on(s@, '\n'),
            views(out@) == views(p@).take(i as int).map_values(|l: Seq<char>| strip_cr(l)),
        decreases n - i,
    {
        let line = &p[i];
        let mut l: Vec<char> = Vec::new();
        if line.len() > 0 && line[line.len() - 1] == '\r' {
            let mut k: usize = 0;
            while k + 1 < line.len()
                invariant
                    line.len() >= 1,
                    k + 1 <= line.len(),
                    l@ == line@.take(k as int),
                decreases line.len() - k,
            {
                l.push(line[k]);
                k = k + 1;
                assert(line@.take(k as int) =~= line@.take(k - 1).push(line@[k - 1]));
            }
            assert(line@.take(k as int) =~= line@.drop_last());
        } else {
            append_chars(&mut l, line);
        }
        assert(l@ == strip_cr(views(p@)[i as int]));
        let ghost od = views(out@);
        let ghost lv = l@;
        out.push(l);
        assert(views(out@) =~= od.push(lv));
        i = i + 1;
        assert(views(p@).take(i as int).map_values(|l: Seq<char>| strip_cr(l)) =~= views(p@).take(
            (i - 1) as int,
        ).map_values(|l: Seq<char>| strip_cr(l)).push(strip_cr(views(p@)[i - 1])));
    }
    assert(views(p@).take((n - 1) as int) =~= views(p@).drop_last());
    let last = &p[n - 1];
    if last.len() > 0 {
        let mut l: Vec<char> = Vec::new();
        append_chars(&mut l, last);
        let ghost od = views(out@);
        let ghost lv = l@;
        out.push(l);
        assert(views(out@) =~= od.push(lv));
    }
    out
}

} // verus!
