//! Byte offsets into text: slices and replacements at UTF-8 positions.

use crate::text::{chars, string_of};
use vstd::prelude::*;

verus! {

broadcast use vstd::seq::group_seq_axioms;

/// The number of bytes of `s` in UTF-8.
pub open spec fn byte_len(s: Seq<char>) -> nat {
    vstd::utf8::encode_utf8(s).len()
}

/// The number of bytes of one character in UTF-8.
pub open spec fn width(c: char) -> nat {
    let u = c as u32;
    if u <= 0x7f {
        1
    } else if u <= 0x7ff {
        2
    } else if u <= 0xffff {
        3
    } else {
        4
    }
}

/// The number of characters before byte `offset` of `s`, or `None` where no
/// character begins or ends there.
pub open spec fn char_index(s: Seq<char>, offset: int) -> Option<int>
    decreases s.len(),
{
    if offset == 0 {
        Some(0)
    } else if offset < 0 || s.len() == 0 {
        None
    } else {
        match char_index(s.skip(1), offset - width(s[0])) {
            Some(i) => Some(i + 1),
            None => None,
        }
    }
}

/// The characters of `s` between two byte offsets: both lie on character
/// boundaries and the first is not behind the second.
pub open spec fn byte_range(s: Seq<char>, start: int, end: int) -> Option<Seq<char>> {
    match (char_index(s, start), char_index(s, end)) {
        (Some(i), Some(j)) => if start <= end {
            Some(s.subrange(i, j))
        } else {
            None
        },
        _ => None,
    }
}

/// `s` with the bytes `start..end` replaced by `with`.
pub open spec fn spliced(s: Seq<char>, start: int, end: int, with: Seq<char>) -> Seq<char> {
    match (char_index(s, start), char_index(s, end)) {
        (Some(i), Some(j)) => s.take(i) + with + s.skip(j),
        _ => s,
    }
}

/// The bytes of a text are those of its first character and of the rest.
pub proof fn lemma_byte_len_step(s: Seq<char>)
    ensures
        s.len() == 0 ==> byte_len(s) == 0,
        s.len() > 0 ==> byte_len(s) == width(s[0]) + byte_len(s.skip(1)),
{
    if s.len() > 0 {
        let c: char = s[0];
        vstd::utf8::char_is_scalar(c);
        assert(vstd::utf8::encode_scalar(c as u32).len() == width(c));
        assert(s.drop_first() =~= s.skip(1));
    }
}

/// The bytes of a concatenation are those of its two parts.
pub proof fn lemma_byte_len_concat(a: Seq<char>, b: Seq<char>)
    ensures
        byte_len(a + b) == byte_len(a) + byte_len(b),
    decreases a.len(),
{
    lemma_byte_len_step(a);
    if a.len() == 0 {
        assert(a + b =~= b);
    } else {
        lemma_byte_len_step(a + b);
        assert((a + b).skip(1) =~= a.skip(1) + b);
        lemma_byte_len_concat(a.skip(1), b);
    }
}

/// A character index belongs to the byte offset that the characters before it
/// fill.
pub proof fn lemma_char_index(s: Seq<char>, offset: int)
    ensures
        match char_index(s, offset) {
            Some(i) => 0 <= i <= s.len() && byte_len(s.take(i)) == offset,
            None => forall|i: int| 0 <= i <= s.len() ==> byte_len(#[trigger] s.take(i)) != offset,
        },
    decreases s.len(),
{
    lemma_byte_len_step(s);
    if offset == 0 {
        assert(s.take(0) =~= seq![]);
        lemma_byte_len_step(s.take(0));
    } else if offset < 0 || s.len() == 0 {
        assert forall|i: int| 0 <= i <= s.len() implies byte_len(#[trigger] s.take(i))
            != offset by {
            lemma_byte_len_step(s.take(i));
        }
    } else {
        let rest = s.skip(1);
        lemma_char_index(rest, offset - width(s[0]));
        assert forall|i: int| 0 < i <= s.len() implies byte_len(#[trigger] s.take(i)) == width(s[0])
            + byte_len(rest.take(i - 1)) by {
            lemma_byte_len_step(s.take(i));
            assert(s.take(i).skip(1) =~= rest.take(i - 1));
        }
        match char_index(rest, offset - width(s[0])) {
            Some(i) => {
                assert(byte_len(s.take(i + 1)) == width(s[0]) + byte_len(rest.take(i)));
            },
            None => {
                assert forall|i: int| 0 <= i <= s.len() implies byte_len(#[trigger] s.take(i))
                    != offset by {
                    if i == 0 {
                        lemma_byte_len_step(s.take(0));
                    } else {
                        assert(byte_len(s.take(i)) == width(s[0]) + byte_len(rest.take(i - 1)));
                    }
                }
            },
        }
    }
}

/// The characters before an index fill the byte offset that leads back to it.
pub proof fn lemma_char_index_of(s: Seq<char>, i: int)
    requires
        0 <= i <= s.len(),
    ensures
        char_index(s, byte_len(s.take(i)) as int) == Some(i),
    decreases s.len(),
{
    lemma_byte_len_step(s.take(i));
    if i > 0 {
        assert(s.take(i).skip(1) =~= s.skip(1).take(i - 1));
        lemma_char_index_of(s.skip(1), i - 1);
    }
}

/// Character indices are ordered as the byte offsets are.
pub proof fn lemma_char_index_ordered(s: Seq<char>, a: int, b: int)
    requires
        a <= b,
        char_index(s, a) is Some,
        char_index(s, b) is Some,
    ensures
        char_index(s, a)->0 <= char_index(s, b)->0,
        a == b <==> char_index(s, a)->0 == char_index(s, b)->0,
{
    lemma_char_index(s, a);
    lemma_char_index(s, b);
    let i = char_index(s, a)->0;
    let j = char_index(s, b)->0;
    if j < i {
        let mid = s.subrange(j, i);
        assert(s.take(i) =~= s.take(j) + mid);
        lemma_byte_len_concat(s.take(j), mid);
        lemma_byte_len_step(mid);
    }
}

/// The number of bytes of one character in UTF-8.
fn char_width(c: char) -> (r: usize)
    ensures
        r == width(c),
{
    let u: u32 = c as u32;
    if u <= 0x7f {
        1
    } else if u <= 0x7ff {
        2
    } else if u <= 0xffff {
        3
    } else {
        4
    }
}

/// The number of bytes of `s` in UTF-8.
pub fn byte_count(s: &str) -> (r: usize)
    ensures
        r == byte_len(s@),
{
    s.as_bytes().len()
}

/// The number of characters before byte `offset`, or `None` where no character
/// begins or ends there.
pub fn find_offset(v: &Vec<char>, offset: usize) -> (r: Option<usize>)
    ensures
        match r {
            Some(i) => char_index(v@, offset as int) == Some(i as int) && i <= v@.len(),
            None => char_index(v@, offset as int) is None,
        },
{
    let mut left: usize = offset;
    let mut i: usize = 0;
    proof {
        assert(v@.skip(0) =~= v@);
    }
    while i < v.len() && left > 0
        invariant
            i <= v@.len(),
            match char_index(v@.skip(i as int), left as int) {
                Some(k) => char_index(v@, offset as int) == Some(i + k),
                None => char_index(v@, offset as int) is None,
            },
        decreases v.len() - i,
    {
        let w = char_width(v[i]);
        proof {
            assert(v@.skip(i as int).skip(1) =~= v@.skip(i + 1));
        }
        if w > left {
            proof {
                assert(char_index(v@.skip(i + 1), left - w) is None);
            }
            return None;
        }
        left -= w;
        i += 1;
    }
    if left == 0 {
        Some(i)
    } else {
        None
    }
}

/// The text between two byte offsets.
pub fn slice(s: &str, start: usize, end: usize) -> (r: Option<String>)
    ensures
        crate::text::opt_view(r) == byte_range(s@, start as int, end as int),
{
    if start > end {
        return None;
    }
    let v = chars(s);
    match find_offset(&v, start) {
        Some(i) => {
            match find_offset(&v, end) {
                Some(j) => {
                    proof {
                        lemma_char_index_ordered(v@, start as int, end as int);
                    }
                    Some(string_of(&v, i, j))
                },
                None => None,
            }
        },
        None => None,
    }
}

/// Replaces the bytes `start..end` of `s` by `with`.
pub fn splice(s: &str, start: usize, end: usize, with: &str) -> (r: String)
    requires
        byte_range(s@, start as int, end as int) is Some,
    ensures
        r@ == spliced(s@, start as int, end as int, with@),
{
    let v = chars(s);
    match (find_offset(&v, start), find_offset(&v, end)) {
        (Some(i), Some(j)) => {
            let mut out = string_of(&v, 0, i);
            let rest = string_of(&v, j, v.len());
            proof {
                assert(out@ =~= s@.take(i as int));
                assert(rest@ =~= s@.skip(j as int));
            }
            out.append(with);
            out.append(rest.as_str());
            out
        },
        _ => s.to_owned(),
    }
}

// ── laws ─────────────────────────────────────────────────────────────────────

/// A byte range is cut out and replaced where it stands: between what precedes it and
/// what follows it, whatever the widths of the characters.
pub proof fn law_ranges_are_cut_where_they_stand(
    before: Seq<char>,
    part: Seq<char>,
    after: Seq<char>,
    with: Seq<char>,
)
    ensures
        ({
            let s = before + part + after;
            let start = byte_len(before) as int;
            let end = byte_len(before + part) as int;
            &&& byte_range(s, start, end) == Some(part)
            &&& spliced(s, start, end, with) == before + with + after
            &&& byte_len(s) == byte_len(before) + byte_len(part) + byte_len(after)
        }),
{
    let s = before + part + after;
    let i = before.len() as int;
    let j = (before + part).len() as int;
    assert(s.take(i) =~= before);
    assert(s.take(j) =~= before + part);
    lemma_char_index_of(s, i);
    lemma_char_index_of(s, j);
    lemma_byte_len_concat(before, part);
    lemma_byte_len_concat(before + part, after);
    assert(s.subrange(i, j) =~= part);
    assert(s.skip(j) =~= after);
}

} // verus!
