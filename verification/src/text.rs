//! Text primitives: the string operations the rest of the library is built on,
//! each stated over sequences of characters.

use vstd::prelude::*;

verus! {

broadcast use vstd::seq::group_seq_axioms;

// ── characters ───────────────────────────────────────────────────────────────

/// The Unicode `White_Space` property.
pub open spec fn is_space(c: char) -> bool {
    let u = c as u32;
    ||| 0x09 <= u <= 0x0d
    ||| u == 0x20
    ||| u == 0x85
    ||| u == 0xa0
    ||| u == 0x1680
    ||| 0x2000 <= u <= 0x200a
    ||| u == 0x2028
    ||| u == 0x2029
    ||| u == 0x202f
    ||| u == 0x205f
    ||| u == 0x3000
}

/// Whether `c` is white space.
pub fn space(c: char) -> (r: bool)
    ensures
        r == is_space(c),
{
    let u: u32 = c as u32;
    (0x09 <= u && u <= 0x0d) || u == 0x20 || u == 0x85 || u == 0xa0 || u == 0x1680 || (0x2000 <= u
        && u <= 0x200a) || u == 0x2028 || u == 0x2029 || u == 0x202f || u == 0x205f || u == 0x3000
}

/// `A` to `Z`.
pub open spec fn is_ascii_upper(c: char) -> bool {
    'A' <= c <= 'Z'
}

/// `0` to `9`.
pub open spec fn is_ascii_number(c: char) -> bool {
    '0' <= c <= '9'
}

/// Letters and digits of the ASCII range.
pub open spec fn is_ascii_word(c: char) -> bool {
    is_ascii_upper(c) || 'a' <= c <= 'z' || is_ascii_number(c)
}

/// The lower-case counterpart of an ASCII letter; every other character is itself.
pub open spec fn ascii_lower(c: char) -> char {
    if is_ascii_upper(c) {
        (c as u32 + 32) as char
    } else {
        c
    }
}

/// Lower-cases one ASCII letter.
pub fn to_ascii_lower(c: char) -> (r: char)
    ensures
        r == ascii_lower(c),
{
    if 'A' <= c && c <= 'Z' {
        let b: u8 = c as u8;
        (b + 32) as char
    } else {
        c
    }
}

// ── views ────────────────────────────────────────────────────────────────────

/// The characters of each string of a list.
pub open spec fn views(list: Seq<String>) -> Seq<Seq<char>> {
    Seq::new(list.len(), |i: int| list[i]@)
}

/// The characters of an optional string.
pub open spec fn opt_view(s: Option<String>) -> Option<Seq<char>> {
    match s {
        Some(x) => Some(x@),
        None => None,
    }
}

/// The characters of each pair of strings of a list.
pub open spec fn pair_views(list: Seq<(String, String)>) -> Seq<(Seq<char>, Seq<char>)> {
    Seq::new(list.len(), |i: int| (list[i].0@, list[i].1@))
}

pub proof fn lemma_views_push(list: Seq<String>, s: String)
    ensures
        views(list.push(s)) == views(list).push(s@),
{
    assert(views(list.push(s)) =~= views(list).push(s@));
}

/// `String::push` appends one character.
pub assume_specification[ String::push ](s: &mut String, c: char)
    ensures
        final(s)@ == old(s)@.push(c),
;

/// The characters of `s`.
pub fn chars(s: &str) -> (r: Vec<char>)
    ensures
        r@ == s@,
{
    let mut out: Vec<char> = Vec::new();
    for c in it: s.chars()
        invariant
            it.seq() == s@,
            out@ == s@.take(it.index() as int),
    {
        proof {
            assert(s@.take(it.index() as int).push(c) =~= s@.take(it.index() + 1));
        }
        out.push(c);
    }
    proof {
        assert(s@.take(s@.len() as int) =~= s@);
    }
    out
}

/// The string made of the characters `from..to` of `v`.
pub fn string_of(v: &Vec<char>, from: usize, to: usize) -> (r: String)
    requires
        from <= to <= v@.len(),
    ensures
        r@ == v@.subrange(from as int, to as int),
{
    let mut out = String::new();
    let mut i: usize = from;
    proof {
        assert(v@.subrange(from as int, from as int) =~= Seq::<char>::empty());
    }
    while i < to
        invariant
            from <= i <= to <= v@.len(),
            out@ == v@.subrange(from as int, i as int),
        decreases to - i,
    {
        out.push(v[i]);
        proof {
            assert(v@.subrange(from as int, i as int).push(v@[i as int]) =~= v@.subrange(
                from as int,
                i + 1,
            ));
        }
        i += 1;
    }
    out
}

/// Whether two strings hold the same characters.
pub fn same(a: &str, b: &str) -> (r: bool)
    ensures
        r == (a@ == b@),
{
    let x = chars(a);
    let y = chars(b);
    if x.len() != y.len() {
        return false;
    }
    let mut i: usize = 0;
    while i < x.len()
        invariant
            i <= x@.len() == y@.len(),
            x@ == a@,
            y@ == b@,
            forall|k: int| 0 <= k < i ==> x@[k] == y@[k],
        decreases x.len() - i,
    {
        if x[i] != y[i] {
            return false;
        }
        i += 1;
    }
    proof {
        assert(x@ =~= y@);
    }
    true
}

/// Whether two strings are equal once ASCII letters are lower-cased.
pub open spec fn same_ignoring_ascii_case(a: Seq<char>, b: Seq<char>) -> bool {
    a.map_values(|c: char| ascii_lower(c)) == b.map_values(|c: char| ascii_lower(c))
}

/// Compares two strings, ignoring the case of ASCII letters.
pub fn same_ascii_case_insensitive(a: &str, b: &str) -> (r: bool)
    ensures
        r == same_ignoring_ascii_case(a@, b@),
{
    let x = chars(a);
    let y = chars(b);
    let ghost xs = x@.map_values(|c: char| ascii_lower(c));
    let ghost ys = y@.map_values(|c: char| ascii_lower(c));
    if x.len() != y.len() {
        proof {
            assert(xs.len() != ys.len());
        }
        return false;
    }
    let mut i: usize = 0;
    while i < x.len()
        invariant
            i <= x@.len() == y@.len(),
            xs == x@.map_values(|c: char| ascii_lower(c)),
            ys == y@.map_values(|c: char| ascii_lower(c)),
            x@ == a@,
            y@ == b@,
            forall|k: int| 0 <= k < i ==> xs[k] == ys[k],
        decreases x.len() - i,
    {
        if to_ascii_lower(x[i]) != to_ascii_lower(y[i]) {
            proof {
                assert(xs[i as int] != ys[i as int]);
            }
            return false;
        }
        i += 1;
    }
    proof {
        assert(xs =~= ys);
    }
    true
}

// ── trimming ─────────────────────────────────────────────────────────────────

/// `s` without its leading white space.
pub open spec fn trimmed_start(s: Seq<char>) -> Seq<char>
    decreases s.len(),
{
    if s.len() > 0 && is_space(s[0]) {
        trimmed_start(s.skip(1))
    } else {
        s
    }
}

/// `s` without its trailing white space.
pub open spec fn trimmed_end(s: Seq<char>) -> Seq<char>
    decreases s.len(),
{
    if s.len() > 0 && is_space(s.last()) {
        trimmed_end(s.drop_last())
    } else {
        s
    }
}

/// `s` without leading and trailing white space.
pub open spec fn trimmed(s: Seq<char>) -> Seq<char> {
    trimmed_end(trimmed_start(s))
}

/// `s` without the run of `c` at its end.
pub open spec fn without_trailing(s: Seq<char>, c: char) -> Seq<char>
    decreases s.len(),
{
    if s.len() > 0 && s.last() == c {
        without_trailing(s.drop_last(), c)
    } else {
        s
    }
}

/// The index at which the leading white space of `v[from..to]` ends.
pub fn skip_spaces(v: &Vec<char>, from: usize, to: usize) -> (r: usize)
    requires
        from <= to <= v@.len(),
    ensures
        from <= r <= to,
        v@.subrange(r as int, to as int) == trimmed_start(v@.subrange(from as int, to as int)),
        r < to ==> !is_space(v@[r as int]),
        forall|k: int| from <= k < r ==> is_space(v@[k]),
{
    let mut i: usize = from;
    while i < to && space(v[i])
        invariant
            from <= i <= to <= v@.len(),
            trimmed_start(v@.subrange(i as int, to as int)) == trimmed_start(
                v@.subrange(from as int, to as int),
            ),
            forall|k: int| from <= k < i ==> is_space(v@[k]),
        decreases to - i,
    {
        proof {
            assert(v@.subrange(i as int, to as int).skip(1) =~= v@.subrange(i + 1, to as int));
        }
        i += 1;
    }
    i
}

/// The index at which the trailing white space of `v[from..to]` begins.
fn drop_spaces(v: &Vec<char>, from: usize, to: usize) -> (r: usize)
    requires
        from <= to <= v@.len(),
    ensures
        from <= r <= to,
        v@.subrange(from as int, r as int) == trimmed_end(v@.subrange(from as int, to as int)),
{
    let mut j: usize = to;
    while j > from && space(v[j - 1])
        invariant
            from <= j <= to <= v@.len(),
            trimmed_end(v@.subrange(from as int, j as int)) == trimmed_end(
                v@.subrange(from as int, to as int),
            ),
        decreases j,
    {
        proof {
            assert(v@.subrange(from as int, j as int).drop_last() =~= v@.subrange(
                from as int,
                j - 1,
            ));
        }
        j -= 1;
    }
    j
}

/// The white-space trimmed characters `from..to` of `v`.
pub fn trim_range(v: &Vec<char>, from: usize, to: usize) -> (r: String)
    requires
        from <= to <= v@.len(),
    ensures
        r@ == trimmed(v@.subrange(from as int, to as int)),
{
    let i = skip_spaces(v, from, to);
    let j = drop_spaces(v, i, to);
    string_of(v, i, j)
}

/// Removes leading and trailing white space.
pub fn trim(s: &str) -> (r: String)
    ensures
        r@ == trimmed(s@),
{
    let v = chars(s);
    proof {
        assert(v@.subrange(0, v@.len() as int) =~= s@);
    }
    trim_range(&v, 0, v.len())
}

/// Removes leading white space.
pub fn trim_start(s: &str) -> (r: String)
    ensures
        r@ == trimmed_start(s@),
{
    let v = chars(s);
    proof {
        assert(v@.subrange(0, v@.len() as int) =~= s@);
    }
    let i = skip_spaces(&v, 0, v.len());
    string_of(&v, i, v.len())
}

/// Removes every `c` at the end of `s`.
pub fn trim_end_of(s: &str, c: char) -> (r: String)
    ensures
        r@ == without_trailing(s@, c),
{
    let v = chars(s);
    let mut j: usize = v.len();
    proof {
        assert(v@.subrange(0, v@.len() as int) =~= s@);
    }
    while j > 0 && v[j - 1] == c
        invariant
            j <= v@.len(),
            without_trailing(v@.subrange(0, j as int), c) == without_trailing(s@, c),
        decreases j,
    {
        proof {
            assert(v@.subrange(0, j as int).drop_last() =~= v@.subrange(0, j - 1));
        }
        j -= 1;
    }
    string_of(&v, 0, j)
}

/// `a` is a stretch of `b`.
pub open spec fn is_part(a: Seq<char>, b: Seq<char>) -> bool {
    exists|i: int, j: int| 0 <= i <= j <= b.len() && a == #[trigger] b.subrange(i, j)
}

pub proof fn lemma_trimmed_start_part(s: Seq<char>)
    ensures
        trimmed_start(s).len() <= s.len(),
        trimmed_start(s) == s.skip(s.len() - trimmed_start(s).len()),
    decreases s.len(),
{
    if s.len() > 0 && is_space(s[0]) {
        lemma_trimmed_start_part(s.skip(1));
        assert(s.skip(1).skip(s.skip(1).len() - trimmed_start(s).len()) =~= s.skip(
            s.len() - trimmed_start(s).len(),
        ));
    } else {
        assert(s.skip(0) =~= s);
    }
}

proof fn lemma_trimmed_end_part(s: Seq<char>)
    ensures
        trimmed_end(s).len() <= s.len(),
        trimmed_end(s) == s.take(trimmed_end(s).len() as int),
    decreases s.len(),
{
    if s.len() > 0 && is_space(s.last()) {
        lemma_trimmed_end_part(s.drop_last());
        assert(s.drop_last().take(trimmed_end(s).len() as int) =~= s.take(
            trimmed_end(s).len() as int,
        ));
    } else {
        assert(s.take(s.len() as int) =~= s);
    }
}

/// Trimming gives a stretch of the text.
pub proof fn lemma_trimmed_part(s: Seq<char>)
    ensures
        is_part(trimmed(s), s),
{
    lemma_trimmed_start_part(s);
    lemma_trimmed_end_part(trimmed_start(s));
    let i = s.len() - trimmed_start(s).len();
    let j = i + trimmed(s).len();
    assert(trimmed(s) =~= s.subrange(i, j));
}

/// Trimming cuts at white space: the trimmed text is the stretch `p..q`, with white
/// space or the end of the text at either side.
pub proof fn lemma_trimmed_place(s: Seq<char>) -> (r: (int, int))
    ensures
        0 <= r.0 <= r.1 <= s.len(),
        trimmed(s) == s.subrange(r.0, r.1),
        r.0 > 0 ==> is_space(s[r.0 - 1]),
        r.1 < s.len() ==> is_space(s[r.1]),
    decreases s.len(),
{
    if s.len() > 0 && is_space(s[0]) {
        let (p, q) = lemma_trimmed_place(s.skip(1));
        assert(s.skip(1).subrange(p, q) =~= s.subrange(p + 1, q + 1));
        assert(p > 0 ==> s.skip(1)[p - 1] == s[p]);
        assert(q + 1 < s.len() ==> s.skip(1)[q] == s[q + 1]);
        (p + 1, q + 1)
    } else if s.len() > 0 && is_space(s.last()) {
        let t = s.drop_last();
        let (p, q) = lemma_trimmed_place(t);
        assert(t.push(s.last()) =~= s);
        lemma_trimmed_push(t, s.last());
        assert(t.subrange(p, q) =~= s.subrange(p, q));
        (p, q)
    } else {
        assert(s.subrange(0, s.len() as int) =~= s);
        (0, s.len() as int)
    }
}

/// No white space stands at either end.
pub open spec fn is_trim(s: Seq<char>) -> bool {
    s.len() > 0 ==> !is_space(s[0]) && !is_space(s.last())
}

proof fn lemma_trimmed_end_ends(s: Seq<char>)
    ensures
        trimmed_end(s).len() > 0 ==> !is_space(trimmed_end(s).last()),
    decreases s.len(),
{
    if s.len() > 0 && is_space(s.last()) {
        lemma_trimmed_end_ends(s.drop_last());
    }
}

proof fn lemma_trimmed_start_starts(s: Seq<char>)
    ensures
        trimmed_start(s).len() > 0 ==> !is_space(trimmed_start(s)[0]),
    decreases s.len(),
{
    if s.len() > 0 && is_space(s[0]) {
        lemma_trimmed_start_starts(s.skip(1));
    }
}

/// Trimming leaves no white space at either end, so a second trimming changes
/// nothing.
pub proof fn lemma_trimmed_is_trim(s: Seq<char>)
    ensures
        is_trim(trimmed(s)),
        trimmed(trimmed(s)) == trimmed(s),
{
    let t = trimmed_start(s);
    lemma_trimmed_start_starts(s);
    lemma_trimmed_end_ends(t);
    lemma_trimmed_end_part(t);
    if trimmed(s).len() > 0 {
        assert(trimmed(s)[0] == t[0]);
    }
}

/// A text without white space at its ends is trimmed to itself.
pub proof fn lemma_trim_is_kept(s: Seq<char>)
    requires
        is_trim(s),
    ensures
        trimmed(s) == s,
{
}

/// White space behind a text does not count where the text is trimmed.
pub proof fn lemma_trimmed_push(s: Seq<char>, c: char)
    requires
        is_space(c),
    ensures
        trimmed(s.push(c)) == trimmed(s),
    decreases s.len(),
{
    let t = s.push(c);
    if s.len() > 0 && is_space(s[0]) {
        assert(t.skip(1) =~= s.skip(1).push(c));
        lemma_trimmed_push(s.skip(1), c);
    } else if s.len() > 0 {
        assert(t.drop_last() =~= s);
        assert(t[0] == s[0]);
    } else {
        assert(t.skip(1) =~= s);
    }
}

/// What a stretch of a text holds, the text holds.
pub proof fn lemma_part_holds(a: Seq<char>, b: Seq<char>, p: Seq<char>)
    requires
        is_part(a, b),
        holds(a, p),
    ensures
        holds(b, p),
{
    let (i, j) = choose|i: int, j: int|
        0 <= i <= j <= b.len() && a == #[trigger] b.subrange(i, j);
    let k = choose|k: int| occurs_at(a, p, k);
    assert(b.subrange(i + k, i + k + p.len()) =~= a.subrange(k, k + p.len()));
    assert(occurs_at(b, p, i + k));
}

/// `s` without the run of `p` at its end.
pub open spec fn without_suffixes(s: Seq<char>, p: Seq<char>) -> Seq<char>
    decreases s.len(),
{
    if p.len() > 0 && has_suffix(s, p) {
        without_suffixes(s.take(s.len() - p.len()), p)
    } else {
        s
    }
}

/// Removes every `p` at the end of `s`.
pub fn trim_suffixes(s: &str, p: &str) -> (r: String)
    ensures
        r@ == without_suffixes(s@, p@),
{
    let v = chars(s);
    let q = chars(p);
    let mut j: usize = v.len();
    proof {
        assert(v@.take(v@.len() as int) =~= s@);
    }
    loop
        invariant
            j <= v@.len(),
            v@ == s@,
            q@ == p@,
            without_suffixes(v@.take(j as int), q@) == without_suffixes(s@, p@),
        decreases j,
    {
        let ghost part = v@.take(j as int);
        if q.len() == 0 || q.len() > j {
            proof {
                assert(v@.subrange(0, j as int) =~= part);
            }
            return string_of(&v, 0, j);
        }
        let at: usize = j - q.len();
        proof {
            assert(part.subrange(at as int, j as int) =~= v@.subrange(at as int, j as int));
            assert(part.take(at as int) =~= v@.take(at as int));
        }
        if !matches_at(&v, &q, at) {
            proof {
                assert(v@.subrange(0, j as int) =~= part);
            }
            return string_of(&v, 0, j);
        }
        j = at;
    }
}

// ── searching ────────────────────────────────────────────────────────────────

/// `p` stands in `s` at index `i`.
pub open spec fn occurs_at(s: Seq<char>, p: Seq<char>, i: int) -> bool {
    0 <= i && i + p.len() <= s.len() && s.subrange(i, i + p.len()) == p
}

/// `s` begins with `p`.
pub open spec fn has_prefix(s: Seq<char>, p: Seq<char>) -> bool {
    occurs_at(s, p, 0)
}

/// `s` ends with `p`.
pub open spec fn has_suffix(s: Seq<char>, p: Seq<char>) -> bool {
    occurs_at(s, p, s.len() - p.len())
}

/// The first index, `from` or later, at which `p` stands in `s`.
pub open spec fn first_at(s: Seq<char>, p: Seq<char>, from: int) -> Option<int>
    decreases s.len() + 1 - from,
{
    if from < 0 || from + p.len() > s.len() {
        None
    } else if occurs_at(s, p, from) {
        Some(from)
    } else {
        first_at(s, p, from + 1)
    }
}

/// `p` stands somewhere in `s`.
pub open spec fn holds(s: Seq<char>, p: Seq<char>) -> bool {
    exists|i: int| occurs_at(s, p, i)
}

/// [`first_at`] gives the least index at which the pattern occurs.
pub proof fn lemma_first_at(s: Seq<char>, p: Seq<char>, from: int)
    requires
        0 <= from,
    ensures
        match first_at(s, p, from) {
            Some(i) => from <= i && occurs_at(s, p, i) && forall|k: int|
                from <= k < i ==> !occurs_at(s, p, k),
            None => forall|k: int| from <= k ==> !occurs_at(s, p, k),
        },
    decreases s.len() + 1 - from,
{
    if from + p.len() <= s.len() && !occurs_at(s, p, from) {
        lemma_first_at(s, p, from + 1);
    }
}

/// Whether `p` stands in `v` at index `i`.
pub fn matches_at(v: &Vec<char>, p: &Vec<char>, i: usize) -> (r: bool)
    ensures
        r == occurs_at(v@, p@, i as int),
{
    if i > v.len() || p.len() > v.len() - i {
        return false;
    }
    let mut k: usize = 0;
    while k < p.len()
        invariant
            k <= p@.len(),
            i + p@.len() <= v.len(),
            forall|j: int| 0 <= j < k ==> v@[i + j] == p@[j],
        decreases p.len() - k,
    {
        if v[i + k] != p[k] {
            proof {
                assert(v@.subrange(i as int, i + p@.len())[k as int] != p@[k as int]);
            }
            return false;
        }
        k += 1;
    }
    proof {
        assert(v@.subrange(i as int, i + p@.len()) =~= p@);
    }
    true
}

/// The first index, `from` or later, at which `p` stands in `v`.
pub fn find_in(v: &Vec<char>, p: &Vec<char>, from: usize) -> (r: Option<usize>)
    ensures
        match r {
            Some(i) => first_at(v@, p@, from as int) == Some(i as int),
            None => first_at(v@, p@, from as int) is None,
        },
        r matches Some(i) ==> from <= i && i + p@.len() <= v.len(),
{
    if from > v.len() || p.len() > v.len() - from {
        return None;
    }
    let last: usize = v.len() - p.len();
    let mut i: usize = from;
    while i <= last
        invariant
            from <= i <= last + 1,
            last + p@.len() == v@.len(),
            first_at(v@, p@, from as int) == first_at(v@, p@, i as int),
        decreases last + 1 - i,
    {
        if matches_at(v, p, i) {
            return Some(i);
        }
        if i == last {
            proof {
                assert(first_at(v@, p@, i + 1) is None);
            }
            return None;
        }
        i += 1;
    }
    None
}

/// Whether `p` stands somewhere in `s`.
pub fn contains(s: &str, p: &str) -> (r: bool)
    ensures
        r == holds(s@, p@),
{
    let v = chars(s);
    let q = chars(p);
    proof {
        lemma_first_at(s@, p@, 0);
    }
    match find_in(&v, &q, 0) {
        Some(i) => {
            proof {
                assert(occurs_at(s@, p@, i as int));
            }
            true
        },
        None => false,
    }
}

/// Whether `s` begins with `p`.
pub fn starts_with(s: &str, p: &str) -> (r: bool)
    ensures
        r == has_prefix(s@, p@),
{
    let v = chars(s);
    let q = chars(p);
    matches_at(&v, &q, 0)
}

/// Whether `s` ends with `p`.
pub fn ends_with(s: &str, p: &str) -> (r: bool)
    ensures
        r == has_suffix(s@, p@),
{
    let v = chars(s);
    let q = chars(p);
    if q.len() > v.len() {
        return false;
    }
    matches_at(&v, &q, v.len() - q.len())
}

/// What follows the prefix `p` of `s`, or `None` where `s` does not begin with it.
pub open spec fn after_prefix(s: Seq<char>, p: Seq<char>) -> Option<Seq<char>> {
    if has_prefix(s, p) {
        Some(s.skip(p.len() as int))
    } else {
        None
    }
}

/// Strips the prefix `p` off `s`.
pub fn strip_prefix(s: &str, p: &str) -> (r: Option<String>)
    ensures
        opt_view(r) == after_prefix(s@, p@),
{
    let v = chars(s);
    let q = chars(p);
    if matches_at(&v, &q, 0) {
        let out = string_of(&v, q.len(), v.len());
        proof {
            assert(out@ =~= s@.skip(p@.len() as int));
        }
        Some(out)
    } else {
        None
    }
}

/// What precedes the suffix `p` of `s`, or `None` where `s` does not end with it.
pub open spec fn before_suffix(s: Seq<char>, p: Seq<char>) -> Option<Seq<char>> {
    if has_suffix(s, p) {
        Some(s.take(s.len() - p.len()))
    } else {
        None
    }
}

/// Strips the suffix `p` off `s`.
pub fn strip_suffix(s: &str, p: &str) -> (r: Option<String>)
    ensures
        opt_view(r) == before_suffix(s@, p@),
{
    let v = chars(s);
    let q = chars(p);
    if q.len() <= v.len() && matches_at(&v, &q, v.len() - q.len()) {
        let out = string_of(&v, 0, v.len() - q.len());
        proof {
            assert(out@ =~= s@.take(s@.len() - p@.len()));
        }
        Some(out)
    } else {
        None
    }
}

// ── places ───────────────────────────────────────────────────────────────────

/// A text stands where it was put.
pub proof fn lemma_put_between(a: Seq<char>, p: Seq<char>, b: Seq<char>)
    ensures
        occurs_at(a + p + b, p, a.len() as int),
        holds(a + p + b, p),
{
    assert((a + p + b).subrange(a.len() as int, (a.len() + p.len()) as int) =~= p);
    assert(occurs_at(a + p + b, p, a.len() as int));
}

/// What stands in a text stands in every text that holds it, further on.
pub proof fn lemma_put_further(a: Seq<char>, s: Seq<char>, b: Seq<char>, p: Seq<char>, i: int)
    requires
        occurs_at(s, p, i),
    ensures
        occurs_at(a + s + b, p, a.len() + i),
{
    assert((a + s + b).subrange(a.len() + i, a.len() + i + p.len()) =~= s.subrange(
        i,
        i + p.len(),
    ));
}

/// What a text holds stands in everything that goes on from it.
pub proof fn lemma_goes_on(s: Seq<char>, t: Seq<char>, p: Seq<char>)
    requires
        holds(s, p),
    ensures
        holds(s + t, p),
{
    let i = choose|i: int| occurs_at(s, p, i);
    lemma_put_further(seq![], s, t, p, i);
    assert(seq![] + s + t =~= s + t);
}

/// A text ends with what was put last.
pub proof fn lemma_ends(s: Seq<char>, p: Seq<char>)
    ensures
        holds(s + p, p),
{
    lemma_put_between(s, p, seq![]);
    assert(s + p + seq![] =~= s + p);
}

/// A text begins with what was put first.
pub proof fn lemma_starts(s: Seq<char>, t: Seq<char>)
    ensures
        has_prefix(s + t, s),
{
    assert((s + t).subrange(0, s.len() as int) =~= s);
}

/// What a text begins with, everything begins with that goes on from it.
pub proof fn lemma_still_starts(s: Seq<char>, t: Seq<char>, p: Seq<char>)
    requires
        has_prefix(s, p),
    ensures
        has_prefix(s + t, p),
{
    assert((s + t).subrange(0, p.len() as int) =~= s.subrange(0, p.len() as int));
}

/// Leading white space is skipped, however much there is.
pub proof fn lemma_blanks_skipped(blanks: Seq<char>, rest: Seq<char>)
    requires
        forall|i: int| 0 <= i < blanks.len() ==> is_space(#[trigger] blanks[i]),
    ensures
        trimmed_start(blanks + rest) == trimmed_start(rest),
    decreases blanks.len(),
{
    let all = blanks + rest;
    if blanks.len() > 0 {
        assert(all[0] == blanks[0]);
        assert(all.skip(1) =~= blanks.skip(1) + rest);
        assert forall|i: int| 0 <= i < blanks.skip(1).len() implies is_space(
            #[trigger] blanks.skip(1)[i],
        ) by {
            assert(blanks.skip(1)[i] == blanks[i + 1]);
        }
        lemma_blanks_skipped(blanks.skip(1), rest);
    } else {
        assert(all =~= rest);
    }
}

} // verus!
