//! The dictionary order of texts, and sorted lists without duplicates.

use crate::text::{self, chars};
use vstd::prelude::*;

verus! {

broadcast use vstd::seq::group_seq_axioms;

/// `a` comes before `b` in dictionary order.
pub open spec fn before(a: Seq<char>, b: Seq<char>) -> bool
    decreases a.len(),
{
    if b.len() == 0 {
        false
    } else if a.len() == 0 {
        true
    } else if a[0] != b[0] {
        a[0] < b[0]
    } else {
        before(a.skip(1), b.skip(1))
    }
}

/// The dictionary order is total and strict.
pub proof fn lemma_before_total(a: Seq<char>, b: Seq<char>)
    ensures
        a == b <==> !before(a, b) && !before(b, a),
        !(before(a, b) && before(b, a)),
    decreases a.len(),
{
    if a.len() > 0 && b.len() > 0 {
        lemma_before_total(a.skip(1), b.skip(1));
        if a[0] == b[0] && a.skip(1) == b.skip(1) {
            assert(a =~= seq![a[0]] + a.skip(1));
            assert(b =~= seq![b[0]] + b.skip(1));
        }
    } else {
        assert(a.len() == 0 && b.len() == 0 ==> a =~= b);
    }
}

/// The dictionary order is transitive.
pub proof fn lemma_before_transitive(a: Seq<char>, b: Seq<char>, c: Seq<char>)
    requires
        before(a, b),
        before(b, c),
    ensures
        before(a, c),
    decreases a.len(),
{
    if a.len() > 0 && a[0] == b[0] && b[0] == c[0] {
        lemma_before_transitive(a.skip(1), b.skip(1), c.skip(1));
    }
}

/// Whether `a` comes before `b` in dictionary order.
pub fn comes_before(a: &str, b: &str) -> (r: bool)
    ensures
        r == before(a@, b@),
{
    let x = chars(a);
    let y = chars(b);
    let mut i: usize = 0;
    proof {
        assert(x@.skip(0) =~= x@);
        assert(y@.skip(0) =~= y@);
    }
    while i < x.len() && i < y.len()
        invariant
            i <= x@.len(),
            i <= y@.len(),
            x@ == a@,
            y@ == b@,
            before(a@, b@) == before(x@.skip(i as int), y@.skip(i as int)),
        decreases x.len() - i,
    {
        if x[i] != y[i] {
            return x[i] < y[i];
        }
        proof {
            assert(x@.skip(i as int).skip(1) =~= x@.skip(i + 1));
            assert(y@.skip(i as int).skip(1) =~= y@.skip(i + 1));
        }
        i += 1;
    }
    i < y.len()
}

/// Each entry comes before every later one.
pub open spec fn ascending(list: Seq<Seq<char>>) -> bool {
    forall|i: int, j: int|
        0 <= i < j < list.len() ==> before(#[trigger] list[i], #[trigger] list[j])
}

/// How many entries at the start of `list` come before `x`.
pub open spec fn rank(list: Seq<Seq<char>>, x: Seq<char>) -> nat
    decreases list.len(),
{
    if list.len() == 0 || !before(list[0], x) {
        0
    } else {
        1 + rank(list.skip(1), x)
    }
}

/// `list` with `x` at its place, or `list` itself where `x` is there already.
pub open spec fn with_entry(list: Seq<Seq<char>>, x: Seq<char>) -> Seq<Seq<char>> {
    let i = rank(list, x) as int;
    if i < list.len() && list[i] == x {
        list
    } else {
        list.insert(i, x)
    }
}

/// The entries of `list` in dictionary order, each once.
pub open spec fn sorted_unique(list: Seq<Seq<char>>) -> Seq<Seq<char>>
    decreases list.len(),
{
    if list.len() == 0 {
        seq![]
    } else {
        with_entry(sorted_unique(list.drop_last()), list.last())
    }
}

proof fn lemma_rank(list: Seq<Seq<char>>, x: Seq<char>)
    ensures
        rank(list, x) <= list.len(),
        forall|k: int| 0 <= k < rank(list, x) ==> before(#[trigger] list[k], x),
        rank(list, x) < list.len() ==> !before(list[rank(list, x) as int], x),
    decreases list.len(),
{
    if list.len() > 0 && before(list[0], x) {
        let rest = list.skip(1);
        lemma_rank(rest, x);
        assert forall|k: int| 0 <= k < rank(list, x) implies before(#[trigger] list[k], x) by {
            if k > 0 {
                assert(list[k] == rest[k - 1]);
            }
        }
        if rank(list, x) < list.len() {
            assert(list[rank(list, x) as int] == rest[rank(list, x) - 1]);
        }
    }
}

proof fn lemma_with_entry(list: Seq<Seq<char>>, x: Seq<char>)
    requires
        ascending(list),
    ensures
        ascending(with_entry(list, x)),
        forall|y: Seq<char>| #[trigger]
            with_entry(list, x).contains(y) <==> list.contains(y) || y == x,
{
    lemma_rank(list, x);
    let i = rank(list, x) as int;
    let out = with_entry(list, x);
    if i < list.len() && list[i] == x {
        assert(list.contains(x));
    } else {
        assert forall|p: int, q: int| 0 <= p < q < out.len() implies before(
            #[trigger] out[p],
            #[trigger] out[q],
        ) by {
            if q == i {
                assert(out[p] == list[p]);
            } else if p == i {
                assert(out[q] == list[q - 1]);
                lemma_before_total(list[i], x);
                if q - 1 > i {
                    lemma_before_transitive(x, list[i], list[q - 1]);
                }
            } else {
                let pp = if p < i { p } else { p - 1 };
                let qq = if q < i { q } else { q - 1 };
                assert(out[p] == list[pp]);
                assert(out[q] == list[qq]);
            }
        }
        assert forall|y: Seq<char>| #[trigger] out.contains(y) <==> list.contains(y) || y == x by {
            if out.contains(y) {
                let k = choose|k: int| 0 <= k < out.len() && out[k] == y;
                if k < i {
                    assert(list[k] == y);
                } else if k > i {
                    assert(list[k - 1] == y);
                }
            }
            if list.contains(y) {
                let k = choose|k: int| 0 <= k < list.len() && list[k] == y;
                if k < i {
                    assert(out[k] == y);
                } else {
                    assert(out[k + 1] == y);
                }
            }
            assert(out[i] == x);
        }
    }
}

/// [`sorted_unique`] is in strict dictionary order and holds exactly the entries
/// of the list.
pub proof fn lemma_sorted_unique(list: Seq<Seq<char>>)
    ensures
        ascending(sorted_unique(list)),
        forall|y: Seq<char>| #[trigger] sorted_unique(list).contains(y) <==> list.contains(y),
    decreases list.len(),
{
    if list.len() > 0 {
        let head = list.drop_last();
        lemma_sorted_unique(head);
        lemma_with_entry(sorted_unique(head), list.last());
        assert forall|y: Seq<char>| #[trigger]
            sorted_unique(list).contains(y) <==> list.contains(y) by {
            if list.contains(y) {
                let k = choose|k: int| 0 <= k < list.len() && list[k] == y;
                if k < list.len() - 1 {
                    assert(head[k] == y);
                    assert(head.contains(y));
                }
            }
            if head.contains(y) {
                let k = choose|k: int| 0 <= k < head.len() && head[k] == y;
                assert(list[k] == y);
            }
            assert(list[list.len() - 1] == list.last());
        }
    }
}

proof fn lemma_rank_step(list: Seq<Seq<char>>, x: Seq<char>, i: int)
    requires
        0 <= i <= list.len(),
        forall|k: int| 0 <= k < i ==> before(#[trigger] list[k], x),
        i < list.len() ==> !before(list[i], x),
    ensures
        rank(list, x) == i,
{
    lemma_rank(list, x);
    if rank(list, x) < i {
        assert(before(list[rank(list, x) as int], x));
    } else if rank(list, x) > i {
        assert(before(list[i], x));
    }
}

/// Sorts `list` in dictionary order and drops duplicates.
pub fn sort_unique(list: &Vec<String>) -> (r: Vec<String>)
    ensures
        text::views(r@) == sorted_unique(text::views(list@)),
{
    let mut out: Vec<String> = Vec::new();
    let mut n: usize = 0;
    let ghost all = text::views(list@);
    proof {
        assert(text::views(out@) =~= sorted_unique(all.take(0)));
    }
    while n < list.len()
        invariant
            n <= list@.len(),
            all == text::views(list@),
            text::views(out@) == sorted_unique(all.take(n as int)),
        decreases list.len() - n,
    {
        let x = list[n].as_str();
        let mut i: usize = 0;
        let ghost so_far = text::views(out@);
        while i < out.len() && comes_before(out[i].as_str(), x)
            invariant
                i <= out@.len(),
                so_far == text::views(out@),
                forall|k: int| 0 <= k < i ==> before(#[trigger] so_far[k], x@),
            decreases out.len() - i,
        {
            i += 1;
        }
        proof {
            lemma_rank_step(so_far, x@, i as int);
            assert(all.take(n + 1).drop_last() =~= all.take(n as int));
            assert(all.take(n + 1).last() == x@);
        }
        if i < out.len() && text::same(out[i].as_str(), x) {
        } else {
            let entry = x.to_owned();
            proof {
                assert(text::views(out@.insert(i as int, entry)) =~= so_far.insert(
                    i as int,
                    entry@,
                ));
            }
            out.insert(i, entry);
        }
        n += 1;
    }
    proof {
        assert(all.take(all.len() as int) =~= all);
    }
    out
}

/// What a filter keeps: the members that it accepts.
pub proof fn lemma_filter_members<A>(list: Seq<A>, p: spec_fn(A) -> bool, x: A)
    ensures
        list.filter(p).contains(x) <==> list.contains(x) && p(x),
        list.filter(p).len() <= list.len(),
    decreases list.len(),
{
    reveal(Seq::filter);
    if list.len() > 0 {
        let head = list.drop_last();
        lemma_filter_members(head, p, x);
        if list.contains(x) {
            let k = choose|k: int| 0 <= k < list.len() && list[k] == x;
            if k < head.len() {
                assert(head[k] == x);
            }
        }
        if head.contains(x) {
            let k = choose|k: int| 0 <= k < head.len() && head[k] == x;
            assert(list[k] == x);
        }
        let f = head.filter(p);
        if p(list.last()) {
            assert(list.filter(p) == f.push(list.last()));
            assert(list[list.len() - 1] == list.last());
            if f.contains(x) {
                let k = choose|k: int| 0 <= k < f.len() && f[k] == x;
                assert(f.push(list.last())[k] == x);
            }
            assert(f.push(list.last())[f.len() as int] == list.last());
            if f.push(list.last()).contains(x) && x != list.last() {
                let k = choose|k: int|
                    0 <= k < f.push(list.last()).len() && f.push(list.last())[k] == x;
                assert(f[k] == x);
            }
        }
    }
}

/// Sorting keeps every entry, each once, in dictionary order: the first character that
/// differs decides, and a text comes before what goes on from it.
pub proof fn law_sorting_keeps_every_entry(list: Seq<Seq<char>>, x: Seq<char>, i: int, j: int)
    ensures
        sorted_unique(list).contains(x) <==> list.contains(x),
        0 <= i < j < sorted_unique(list).len() ==> sorted_unique(list)[i] != sorted_unique(
            list,
        )[j],
        0 <= i < j < sorted_unique(list).len() ==> before(
            sorted_unique(list)[i],
            sorted_unique(list)[j],
        ),
        sorted_unique(list).len() == 0 <==> list.len() == 0,
{
    lemma_sorted_unique(list);
    let s = sorted_unique(list);
    if 0 <= i < j < s.len() {
        lemma_before_total(s[i], s[j]);
    }
    if list.len() > 0 {
        assert(list.contains(list[0]));
        assert(s.contains(list[0]));
    }
}

/// The dictionary order: the first character that differs decides, and a text comes
/// before what goes on from it.
pub proof fn law_dictionary_order(common: Seq<char>, a: Seq<char>, b: Seq<char>)
    requires
        b.len() > 0,
        a.len() > 0 ==> a[0] < b[0],
    ensures
        before(common + a, common + b),
    decreases common.len(),
{
    if common.len() > 0 {
        assert((common + a).skip(1) =~= common.skip(1) + a);
        assert((common + b).skip(1) =~= common.skip(1) + b);
        law_dictionary_order(common.skip(1), a, b);
    } else {
        assert(common + a =~= a);
        assert(common + b =~= b);
    }
}

} // verus!
