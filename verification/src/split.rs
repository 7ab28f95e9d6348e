//! Splitting text into lines, pieces and words, and joining it again.

use crate::text::{self, chars, find_in, space, string_of};
use vstd::prelude::*;

verus! {

broadcast use vstd::seq::group_seq_axioms;

// ── joining ──────────────────────────────────────────────────────────────────

/// The parts in order, `sep` between each two.
pub open spec fn joined(parts: Seq<Seq<char>>, sep: Seq<char>) -> Seq<char>
    decreases parts.len(),
{
    if parts.len() == 0 {
        seq![]
    } else if parts.len() == 1 {
        parts[0]
    } else {
        joined(parts.drop_last(), sep) + sep + parts.last()
    }
}

/// Joins `parts`, with `sep` between each two.
pub fn join(parts: &Vec<String>, sep: &str) -> (r: String)
    ensures
        r@ == joined(text::views(parts@), sep@),
{
    let mut out = String::new();
    let mut i: usize = 0;
    let ghost vs = text::views(parts@);
    while i < parts.len()
        invariant
            i <= parts@.len(),
            vs == text::views(parts@),
            out@ == joined(vs.take(i as int), sep@),
        decreases parts.len() - i,
    {
        proof {
            assert(vs.take(i + 1).drop_last() =~= vs.take(i as int));
        }
        if i > 0 {
            out.append(sep);
        }
        out.append(parts[i].as_str());
        i += 1;
        proof {
            assert(out@ =~= joined(vs.take(i as int), sep@));
        }
    }
    proof {
        assert(vs.take(vs.len() as int) =~= vs);
    }
    out
}

// ── lines ────────────────────────────────────────────────────────────────────

/// A line without the carriage return that ends it.
pub open spec fn without_cr(s: Seq<char>) -> Seq<char> {
    if s.len() > 0 && s.last() == '\r' {
        s.drop_last()
    } else {
        s
    }
}

/// The first index, `from` or later, of the character `c`.
pub open spec fn index_from(s: Seq<char>, c: char, from: int) -> Option<int>
    decreases s.len() - from,
{
    if from < 0 || from >= s.len() {
        None
    } else if s[from] == c {
        Some(from)
    } else {
        index_from(s, c, from + 1)
    }
}

/// [`index_from`] gives the least index at which the character stands.
pub proof fn lemma_index_from(s: Seq<char>, c: char, from: int)
    requires
        0 <= from,
    ensures
        match index_from(s, c, from) {
            Some(i) => from <= i < s.len() && s[i] == c && forall|k: int|
                from <= k < i ==> s[k] != c,
            None => forall|k: int| from <= k < s.len() ==> s[k] != c,
        },
    decreases s.len() - from,
{
    if from < s.len() && s[from] != c {
        lemma_index_from(s, c, from + 1);
    }
}

/// The lines of `s`: a line ends at a line feed, which, with a carriage return
/// before it, is not part of the line. A last line without a line feed counts
/// unless it is empty.
pub open spec fn lines_of(s: Seq<char>) -> Seq<Seq<char>>
    decreases s.len(),
{
    if s.len() == 0 {
        seq![]
    } else {
        match index_from(s, '\n', 0) {
            Some(i) => if 0 <= i < s.len() {
                seq![without_cr(s.take(i))] + lines_of(s.skip(i + 1))
            } else {
                seq![]
            },
            None => seq![s],
        }
    }
}

/// The first index, `from` or later, of `c` in `v`.
pub fn find_char(v: &Vec<char>, c: char, from: usize) -> (r: Option<usize>)
    ensures
        match r {
            Some(i) => index_from(v@, c, from as int) == Some(i as int) && from <= i < v@.len(),
            None => index_from(v@, c, from as int) is None,
        },
{
    let mut i: usize = from;
    while i < v.len()
        invariant
            from <= i,
            index_from(v@, c, from as int) == index_from(v@, c, i as int),
        decreases v.len() - i,
    {
        if v[i] == c {
            return Some(i);
        }
        i += 1;
    }
    None
}

/// Searching a suffix is searching from its start.
pub proof fn lemma_index_from_skip(s: Seq<char>, c: char, at: int, from: int)
    requires
        0 <= at <= s.len(),
        0 <= from,
    ensures
        index_from(s.skip(at), c, from) == match index_from(s, c, at + from) {
            Some(i) => Some(i - at),
            None => None,
        },
    decreases s.len() - at - from,
{
    if at + from < s.len() && s[at + from] != c {
        lemma_index_from_skip(s, c, at, from + 1);
    }
}

/// Splits `s` into its lines.
pub fn lines(s: &str) -> (r: Vec<String>)
    ensures
        text::views(r@) == lines_of(s@),
{
    let v = chars(s);
    let mut out: Vec<String> = Vec::new();
    let mut pos: usize = 0;
    proof {
        assert(v@.skip(0) =~= v@);
        assert(text::views(out@) + lines_of(v@) =~= lines_of(v@));
    }
    while pos < v.len()
        invariant
            pos <= v@.len(),
            text::views(out@) + lines_of(v@.skip(pos as int)) == lines_of(v@),
        decreases v.len() - pos,
    {
        let ghost rest = v@.skip(pos as int);
        proof {
            lemma_index_from_skip(v@, '\n', pos as int, 0);
        }
        match find_char(&v, '\n', pos) {
            Some(i) => {
                let to: usize = if i > pos && v[i - 1] == '\r' {
                    i - 1
                } else {
                    i
                };
                let line = string_of(&v, pos, to);
                proof {
                    assert(line@ =~= without_cr(rest.take(i - pos)));
                    assert(rest.skip(i - pos + 1) =~= v@.skip(i + 1));
                    text::lemma_views_push(out@, line);
                    assert(text::views(out@).push(line@) + lines_of(v@.skip(i + 1))
                        =~= text::views(out@) + (seq![line@] + lines_of(v@.skip(i + 1))));
                }
                out.push(line);
                pos = i + 1;
            },
            None => {
                let line = string_of(&v, pos, v.len());
                proof {
                    assert(line@ =~= rest);
                    text::lemma_views_push(out@, line);
                    assert(v@.skip(v@.len() as int) =~= seq![]);
                    assert(text::views(out@).push(line@) + lines_of(seq![])
                        =~= text::views(out@) + seq![line@]);
                }
                out.push(line);
                pos = v.len();
            },
        }
    }
    proof {
        assert(v@.skip(pos as int) =~= seq![]);
        assert(text::views(out@) + lines_of(seq![]) =~= text::views(out@));
    }
    out
}

/// Each line is a stretch of the text.
pub proof fn lemma_lines_are_parts(s: Seq<char>, k: int)
    requires
        0 <= k < lines_of(s).len(),
    ensures
        text::is_part(lines_of(s)[k], s),
    decreases s.len(),
{
    lemma_index_from(s, '\n', 0);
    match index_from(s, '\n', 0) {
        Some(i) => {
            let line = without_cr(s.take(i));
            let rest = s.skip(i + 1);
            if k == 0 {
                assert(line =~= s.subrange(0, line.len() as int));
            } else {
                lemma_lines_are_parts(rest, k - 1);
                assert(lines_of(s)[k] == lines_of(rest)[k - 1]);
                let (a, b) = choose|a: int, b: int|
                    0 <= a <= b <= rest.len() && lines_of(s)[k] == #[trigger] rest.subrange(a, b);
                assert(rest.subrange(a, b) =~= s.subrange(i + 1 + a, i + 1 + b));
            }
        },
        None => {
            assert(s =~= s.subrange(0, s.len() as int));
        },
    }
}

/// Each line is the stretch of the text between two ends of lines.
pub proof fn lemma_line_place(s: Seq<char>, k: int) -> (r: (int, int))
    requires
        0 <= k < lines_of(s).len(),
    ensures
        0 <= r.0 <= r.1 <= s.len(),
        lines_of(s)[k] == s.subrange(r.0, r.1),
        r.0 > 0 ==> s[r.0 - 1] == '\n',
        r.1 < s.len() ==> s[r.1] == '\n' || s[r.1] == '\r',
    decreases s.len(),
{
    lemma_index_from(s, '\n', 0);
    match index_from(s, '\n', 0) {
        Some(i) => {
            let line = without_cr(s.take(i));
            let rest = s.skip(i + 1);
            if k == 0 {
                assert(line =~= s.subrange(0, line.len() as int));
                (0, line.len() as int)
            } else {
                let (a, b) = lemma_line_place(rest, k - 1);
                assert(lines_of(s)[k] == lines_of(rest)[k - 1]);
                assert(rest.subrange(a, b) =~= s.subrange(i + 1 + a, i + 1 + b));
                assert(a > 0 ==> rest[a - 1] == s[i + a]);
                assert(b < rest.len() ==> rest[b] == s[i + 1 + b]);
                (i + 1 + a, i + 1 + b)
            }
        },
        None => {
            assert(s =~= s.subrange(0, s.len() as int));
            (0, s.len() as int)
        },
    }
}

/// No line holds a line feed.
pub proof fn lemma_lines_hold_no_feed(s: Seq<char>, k: int)
    requires
        0 <= k < lines_of(s).len(),
    ensures
        forall|j: int| 0 <= j < lines_of(s)[k].len() ==> lines_of(s)[k][j] != '\n',
    decreases s.len(),
{
    lemma_index_from(s, '\n', 0);
    match index_from(s, '\n', 0) {
        Some(i) => {
            if k > 0 {
                lemma_lines_hold_no_feed(s.skip(i + 1), k - 1);
                assert(lines_of(s)[k] == lines_of(s.skip(i + 1))[k - 1]);
            }
        },
        None => {},
    }
}

// ── pieces ───────────────────────────────────────────────────────────────────

/// The pieces of `s` between the occurrences of the non-empty `sep`, taken from
/// the left without overlap.
pub open spec fn pieces_of(s: Seq<char>, sep: Seq<char>) -> Seq<Seq<char>>
    decreases s.len(),
{
    match text::first_at(s, sep, 0) {
        Some(i) => if 0 < sep.len() && 0 <= i && i + sep.len() <= s.len() {
            seq![s.take(i)] + pieces_of(s.skip(i + sep.len()), sep)
        } else {
            seq![s]
        },
        None => seq![s],
    }
}

pub proof fn lemma_first_at_skip(s: Seq<char>, p: Seq<char>, at: int, from: int)
    requires
        0 <= at <= s.len(),
        0 <= from,
    ensures
        text::first_at(s.skip(at), p, from) == match text::first_at(
            s,
            p,
            at + from,
        ) {
            Some(i) => Some(i - at),
            None => None,
        },
    decreases s.len() + 1 - at - from,
{
    if at + from + p.len() <= s.len() {
        assert(s.skip(at).subrange(from, from + p.len()) =~= s.subrange(
            at + from,
            at + from + p.len(),
        ));
        if !text::occurs_at(s, p, at + from) {
            lemma_first_at_skip(s, p, at, from + 1);
        }
    }
}

/// Splits `s` at every occurrence of `sep`.
pub fn split(s: &str, sep: &str) -> (r: Vec<String>)
    requires
        sep@.len() > 0,
    ensures
        text::views(r@) == pieces_of(s@, sep@),
        r@.len() > 0,
{
    let v = chars(s);
    let p = chars(sep);
    let mut out: Vec<String> = Vec::new();
    let mut pos: usize = 0;
    proof {
        assert(v@.skip(0) =~= v@);
        assert(text::views(out@) + pieces_of(v@, p@) =~= pieces_of(v@, p@));
    }
    loop
        invariant
            p@ == sep@,
            p@.len() > 0,
            v@ == s@,
            pos <= v@.len(),
            text::views(out@) + pieces_of(v@.skip(pos as int), p@) == pieces_of(v@, p@),
        decreases v.len() - pos,
    {
        let ghost rest = v@.skip(pos as int);
        proof {
            lemma_first_at_skip(v@, p@, pos as int, 0);
        }
        match find_in(&v, &p, pos) {
            Some(i) => {
                let piece = string_of(&v, pos, i);
                let next: usize = i + p.len();
                proof {
                    assert(piece@ =~= rest.take(i - pos));
                    assert(rest.skip(i - pos + p@.len()) =~= v@.skip(next as int));
                    text::lemma_views_push(out@, piece);
                    assert(text::views(out@).push(piece@) + pieces_of(
                        v@.skip(next as int),
                        p@,
                    ) =~= text::views(out@) + (seq![piece@] + pieces_of(
                        v@.skip(next as int),
                        p@,
                    )));
                }
                out.push(piece);
                pos = next;
            },
            None => {
                let piece = string_of(&v, pos, v.len());
                proof {
                    assert(piece@ =~= rest);
                    text::lemma_views_push(out@, piece);
                    assert(text::views(out@).push(piece@) =~= text::views(out@)
                        + seq![piece@]);
                }
                out.push(piece);
                return out;
            },
        }
    }
}

// ── words ────────────────────────────────────────────────────────────────────

/// The length of the run of characters at the start of `s` that are not white
/// space.
pub open spec fn word_len(s: Seq<char>) -> nat
    decreases s.len(),
{
    if s.len() == 0 || text::is_space(s[0]) {
        0
    } else {
        1 + word_len(s.skip(1))
    }
}

/// The maximal runs of characters that are not white space, in order.
pub open spec fn words_of(s: Seq<char>) -> Seq<Seq<char>>
    decreases s.len(),
{
    if s.len() == 0 {
        seq![]
    } else if text::is_space(s[0]) {
        words_of(s.skip(1))
    } else if word_len(s) <= s.len() && word_len(s) > 0 {
        seq![s.take(word_len(s) as int)] + words_of(s.skip(word_len(s) as int))
    } else {
        seq![]
    }
}

proof fn lemma_word_len(s: Seq<char>)
    ensures
        word_len(s) <= s.len(),
        s.len() > 0 && !text::is_space(s[0]) ==> word_len(s) > 0,
    decreases s.len(),
{
    if s.len() > 0 && !text::is_space(s[0]) {
        lemma_word_len(s.skip(1));
    }
}

/// Splits `s` into the runs between white space.
pub fn words(s: &str) -> (r: Vec<String>)
    ensures
        text::views(r@) == words_of(s@),
{
    let v = chars(s);
    let mut out: Vec<String> = Vec::new();
    let mut pos: usize = 0;
    proof {
        assert(v@.skip(0) =~= v@);
        assert(text::views(out@) + words_of(v@) =~= words_of(v@));
    }
    while pos < v.len()
        invariant
            pos <= v@.len(),
            text::views(out@) + words_of(v@.skip(pos as int)) == words_of(v@),
        decreases v.len() - pos,
    {
        let ghost rest = v@.skip(pos as int);
        proof {
            assert(rest[0] == v@[pos as int]);
            assert(rest.skip(1) =~= v@.skip(pos + 1));
        }
        if space(v[pos]) {
            pos += 1;
        } else {
            let mut end: usize = pos;
            proof {
                lemma_word_len(rest);
            }
            while end < v.len() && !space(v[end])
                invariant
                    pos <= end <= v@.len(),
                    rest == v@.skip(pos as int),
                    word_len(rest) == (end - pos) + word_len(v@.skip(end as int)),
                decreases v.len() - end,
            {
                proof {
                    assert(v@.skip(end as int).skip(1) =~= v@.skip(end + 1));
                }
                end += 1;
            }
            let word = string_of(&v, pos, end);
            proof {
                assert(word@ =~= rest.take(end - pos));
                assert(rest.skip(end - pos) =~= v@.skip(end as int));
                text::lemma_views_push(out@, word);
                assert(text::views(out@).push(word@) + words_of(v@.skip(end as int))
                    =~= text::views(out@) + (seq![word@] + words_of(v@.skip(end as int))));
            }
            out.push(word);
            pos = end;
        }
    }
    proof {
        assert(v@.skip(pos as int) =~= seq![]);
        assert(text::views(out@) + words_of(seq![]) =~= text::views(out@));
    }
    out
}

// ── cutting ────────────────────────────────────────────────────────────────

/// `s` without the character `c`.
pub open spec fn without_char(s: Seq<char>, c: char) -> Seq<char> {
    s.filter(|x: char| x != c)
}

/// Removes every `c` from `s`.
pub fn remove_char(s: &str, c: char) -> (r: String)
    ensures
        r@ == without_char(s@, c),
{
    let v = chars(s);
    let mut out = String::new();
    let mut i: usize = 0;
    proof {
        reveal(Seq::filter);
        assert(without_char(v@.take(0), c) =~= seq![]);
    }
    while i < v.len()
        invariant
            i <= v@.len(),
            out@ == without_char(v@.take(i as int), c),
        decreases v.len() - i,
    {
        proof {
            reveal(Seq::filter);
            assert(v@.take(i + 1).drop_last() =~= v@.take(i as int));
        }
        if v[i] != c {
            out.push(v[i]);
        }
        i += 1;
    }
    proof {
        assert(v@.take(v@.len() as int) =~= v@);
    }
    out
}

/// The first `n` characters of `s`, or all of it where it is shorter.
pub open spec fn prefix_of(s: Seq<char>, n: nat) -> Seq<char> {
    if n < s.len() {
        s.take(n as int)
    } else {
        s
    }
}

/// Cuts `s` to its first `n` characters.
pub fn take_chars(s: &str, n: usize) -> (r: String)
    ensures
        r@ == prefix_of(s@, n as nat),
{
    let v = chars(s);
    let k: usize = if n < v.len() {
        n
    } else {
        v.len()
    };
    let out = string_of(&v, 0, k);
    proof {
        assert(out@ =~= prefix_of(s@, n as nat));
    }
    out
}

// ── laws ─────────────────────────────────────────────────────────────────────

/// Splitting undoes joining with one separator: what stands before it is the first
/// piece, and the rest is split on.
pub proof fn law_split_at_the_separator(a: Seq<char>, sep: Seq<char>, b: Seq<char>)
    requires
        sep.len() > 0,
        forall|k: int| 0 <= k < a.len() ==> !text::occurs_at(a + sep + b, sep, k),
    ensures
        pieces_of(a + sep + b, sep) == seq![a] + pieces_of(b, sep),
{
    let s = a + sep + b;
    text::lemma_first_at(s, sep, 0);
    text::lemma_put_between(a, sep, b);
    let at = text::first_at(s, sep, 0)->0;
    assert(at == a.len());
    assert(s.take(at) =~= a);
    assert(s.skip(at + sep.len()) =~= b);
}

/// A text without the separator is one piece.
pub proof fn law_no_separator_is_one_piece(s: Seq<char>, sep: Seq<char>)
    requires
        !text::holds(s, sep),
    ensures
        pieces_of(s, sep) == seq![s],
{
    text::lemma_first_at(s, sep, 0);
}

/// Every part stands in the joined text, in order.
pub proof fn lemma_joined_holds(parts: Seq<Seq<char>>, sep: Seq<char>, i: int) -> (at: int)
    requires
        0 <= i < parts.len(),
    ensures
        text::occurs_at(joined(parts, sep), parts[i], at),
    decreases parts.len(),
{
    if parts.len() == 1 {
        assert(parts[0].subrange(0, parts[0].len() as int) =~= parts[0]);
        0
    } else if i == parts.len() - 1 {
        let head = joined(parts.drop_last(), sep);
        text::lemma_put_between(head + sep, parts.last(), seq![]);
        assert(head + sep + parts.last() + seq![] =~= joined(parts, sep));
        (head + sep).len() as int
    } else {
        let head = joined(parts.drop_last(), sep);
        let at = lemma_joined_holds(parts.drop_last(), sep, i);
        text::lemma_put_further(seq![], head, sep + parts.last(), parts[i], at);
        assert(seq![] + head + (sep + parts.last()) =~= joined(parts, sep));
        at
    }
}

/// Joining begins with the first part.
pub proof fn lemma_joined_first(parts: Seq<Seq<char>>, sep: Seq<char>)
    requires
        parts.len() > 1,
    ensures
        joined(parts, sep) == parts[0] + sep + joined(parts.skip(1), sep),
    decreases parts.len(),
{
    let rest = parts.skip(1);
    if parts.len() == 2 {
        assert(parts.drop_last() =~= seq![parts[0]]);
        assert(joined(parts.drop_last(), sep) == parts[0]);
        assert(rest[0] == parts.last());
    } else {
        lemma_joined_first(parts.drop_last(), sep);
        assert(parts.drop_last().skip(1) =~= rest.drop_last());
        assert(rest.last() == parts.last());
        assert(joined(parts, sep) =~= parts[0] + sep + joined(rest, sep));
    }
}

/// Splitting undoes joining: parts that do not hold the separator, joined by it, are
/// split into the same parts.
pub proof fn law_split_undoes_join(parts: Seq<Seq<char>>, c: char)
    requires
        parts.len() > 0,
        forall|i: int, k: int|
            0 <= i < parts.len() && 0 <= k < parts[i].len() ==> #[trigger] parts[i][k] != c,
    ensures
        pieces_of(joined(parts, seq![c]), seq![c]) == parts,
    decreases parts.len(),
{
    let sep = seq![c];
    let first = parts[0];
    assert forall|k: int| 0 <= k < first.len() implies first[k] != c by {
        assert(parts[0][k] != c);
    }
    if parts.len() == 1 {
        assert forall|k: int| !text::occurs_at(first, sep, k) by {
            if text::occurs_at(first, sep, k) {
                assert(first.subrange(k, k + 1)[0] == c);
            }
        }
        law_no_separator_is_one_piece(first, sep);
        assert(parts =~= seq![first]);
    } else {
        let rest = parts.skip(1);
        lemma_joined_first(parts, sep);
        let tail = joined(rest, sep);
        let s = first + sep + tail;
        assert forall|k: int| 0 <= k < first.len() implies !text::occurs_at(s, sep, k) by {
            if text::occurs_at(s, sep, k) {
                assert(s.subrange(k, k + 1)[0] == first[k]);
            }
        }
        law_split_at_the_separator(first, sep, tail);
        assert forall|i: int, k: int|
            0 <= i < rest.len() && 0 <= k < rest[i].len() implies #[trigger] rest[i][k] != c by {
            assert(parts[i + 1][k] != c);
        }
        law_split_undoes_join(rest, c);
        assert(seq![first] + rest =~= parts);
    }
}

/// The lines of a text that ends with one are those of the text and the last one: a
/// line feed ends a line, and what follows it is read on.
pub proof fn law_lines_end_at_line_feeds(line: Seq<char>, rest: Seq<char>)
    requires
        forall|k: int| 0 <= k < line.len() ==> line[k] != '\n',
    ensures
        lines_of(line + seq!['\n'] + rest) == seq![without_cr(line)] + lines_of(rest),
        line.len() > 0 ==> lines_of(line) == seq![line],
{
    let s = line + seq!['\n'] + rest;
    lemma_index_from(s, '\n', 0);
    lemma_index_from(line, '\n', 0);
    assert(s[line.len() as int] == '\n');
    let i = index_from(s, '\n', 0)->0;
    assert(i == line.len()) by {
        if i < line.len() {
            assert(s[i] == line[i]);
        }
    }
    assert(s.take(i) =~= line);
    assert(s.skip(i + 1) =~= rest);
}

proof fn lemma_one_word(word: Seq<char>, rest: Seq<char>)
    requires
        word.len() > 0,
        forall|k: int| 0 <= k < word.len() ==> !text::is_space(#[trigger] word[k]),
        rest.len() > 0 ==> text::is_space(rest[0]),
    ensures
        words_of(word + rest) == seq![word] + words_of(rest),
{
    let s = word + rest;
    lemma_word_run(word, rest);
    assert(!text::is_space(word[0]));
    assert(s[0] == word[0]);
    assert(s.take(word.len() as int) =~= word);
    assert(s.skip(word.len() as int) =~= rest);
}

proof fn lemma_word_run(word: Seq<char>, rest: Seq<char>)
    requires
        forall|k: int| 0 <= k < word.len() ==> !text::is_space(#[trigger] word[k]),
        rest.len() > 0 ==> text::is_space(rest[0]),
    ensures
        word_len(word + rest) == word.len(),
    decreases word.len(),
{
    let s = word + rest;
    if word.len() > 0 {
        assert(s[0] == word[0]);
        assert(!text::is_space(word[0]));
        assert(s.skip(1) =~= word.skip(1) + rest);
        assert forall|k: int| 0 <= k < word.skip(1).len() implies !text::is_space(
            #[trigger] word.skip(1)[k],
        ) by {
            assert(word.skip(1)[k] == word[k + 1]);
        }
        lemma_word_run(word.skip(1), rest);
    } else {
        assert(s =~= rest);
    }
}

/// Words that are joined by blanks are read as the same words.
pub proof fn law_words_undo_join(words: Seq<Seq<char>>)
    requires
        forall|i: int| 0 <= i < words.len() ==> (#[trigger] words[i]).len() > 0,
        forall|i: int, k: int|
            0 <= i < words.len() && 0 <= k < words[i].len() ==> !text::is_space(
                #[trigger] words[i][k],
            ),
    ensures
        words_of(joined(words, " "@)) == words,
    decreases words.len(),
{
    reveal_strlit(" ");
    if words.len() == 0 {
        assert(words_of(joined(words, " "@)) =~= words);
    } else {
        let first = words[0];
        assert forall|k: int| 0 <= k < first.len() implies !text::is_space(#[trigger] first[k]) by {
            assert(!text::is_space(words[0][k]));
        }
        assert(words[0].len() > 0);
        if words.len() == 1 {
            lemma_one_word(first, seq![]);
            assert(first + Seq::<char>::empty() =~= first);
            assert(seq![first] + words_of(seq![]) =~= words);
        } else {
            let rest = words.skip(1);
            let tail = joined(rest, " "@);
            lemma_joined_first(words, " "@);
            assert forall|i: int| 0 <= i < rest.len() implies (#[trigger] rest[i]).len() > 0 by {
                assert(rest[i] == words[i + 1]);
            }
            assert forall|i: int, k: int|
                0 <= i < rest.len() && 0 <= k < rest[i].len() implies !text::is_space(
                #[trigger] rest[i][k],
            ) by {
                assert(!text::is_space(words[i + 1][k]));
            }
            law_words_undo_join(rest);
            lemma_one_word(first, " "@ + tail);
            assert(first + (" "@ + tail) =~= first + " "@ + tail);
            assert((" "@ + tail).skip(1) =~= tail);
            assert(seq![first] + rest =~= words);
        }
    }
}

pub proof fn lemma_without_char_concat(a: Seq<char>, b: Seq<char>, c: char)
    ensures
        without_char(a + b, c) == without_char(a, c) + without_char(b, c),
    decreases b.len(),
{
    reveal(Seq::filter);
    if b.len() == 0 {
        assert(a + b =~= a);
        assert(without_char(a, c) + without_char(b, c) =~= without_char(a, c));
    } else {
        lemma_without_char_concat(a, b.drop_last(), c);
        assert((a + b).drop_last() =~= a + b.drop_last());
        assert((a + b).last() == b.last());
        assert(without_char(a + b, c) =~= without_char(a, c) + without_char(b, c));
    }
}

/// A text without the character stays as it is.
pub proof fn lemma_without_char_none(s: Seq<char>, c: char)
    requires
        forall|i: int| 0 <= i < s.len() ==> s[i] != c,
    ensures
        without_char(s, c) == s,
    decreases s.len(),
{
    reveal(Seq::filter);
    if s.len() > 0 {
        assert forall|i: int| 0 <= i < s.drop_last().len() implies s.drop_last()[i] != c by {
            assert(s.drop_last()[i] == s[i]);
        }
        lemma_without_char_none(s.drop_last(), c);
        assert(s.drop_last().push(s.last()) =~= s);
    } else {
        assert(without_char(s, c) =~= s);
    }
}

/// A text of nothing but the character is gone.
pub proof fn lemma_without_char_all(s: Seq<char>, c: char)
    requires
        forall|i: int| 0 <= i < s.len() ==> s[i] == c,
    ensures
        without_char(s, c) == Seq::<char>::empty(),
    decreases s.len(),
{
    reveal(Seq::filter);
    if s.len() > 0 {
        assert forall|i: int| 0 <= i < s.drop_last().len() implies s.drop_last()[i] == c by {
            assert(s.drop_last()[i] == s[i]);
        }
        lemma_without_char_all(s.drop_last(), c);
    } else {
        assert(without_char(s, c) =~= Seq::<char>::empty());
    }
}

} // verus!
