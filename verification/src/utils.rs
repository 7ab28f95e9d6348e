//! Generic text helpers shared across modules.

use crate::split::{self, join, lines};
use crate::text::{self, starts_with, trim};
use vstd::prelude::*;

verus! {

broadcast use vstd::seq::group_seq_axioms;

/// A line that opens or closes a fenced code block.
pub open spec fn is_fence(line: Seq<char>) -> bool {
    let t = text::trimmed(line);
    t == "```"@ || text::has_prefix(t, "```solidity"@) || text::has_prefix(t, "```yul"@)
}

/// The lines that stand inside fenced blocks; `open` says whether the first line
/// does.
pub open spec fn fenced_lines(lines: Seq<Seq<char>>, open: bool) -> Seq<Seq<char>>
    decreases lines.len(),
{
    if lines.len() == 0 {
        seq![]
    } else if is_fence(lines[0]) {
        fenced_lines(lines.skip(1), !open)
    } else if open {
        seq![lines[0]] + fenced_lines(lines.skip(1), open)
    } else {
        fenced_lines(lines.skip(1), open)
    }
}

/// The code of a model's answer: what stands inside its fenced blocks, or the
/// whole answer where there is nothing fenced; trimmed in both cases.
pub open spec fn code_of(s: Seq<char>) -> Seq<char> {
    let t = text::trimmed(s);
    let body = fenced_lines(split::lines_of(t), false);
    if body.len() > 0 {
        text::trimmed(split::joined(body, "\n"@))
    } else {
        t
    }
}

/// Whether `line` opens or closes a fenced code block.
fn fence(line: &str) -> (r: bool)
    ensures
        r == is_fence(line@),
{
    let t = trim(line);
    text::same(t.as_str(), "```") || starts_with(t.as_str(), "```solidity") || starts_with(
        t.as_str(),
        "```yul",
    )
}

/// Extracts code from a model's response, keeping only the contents of
/// ```` ```solidity ````/```` ```yul ````/```` ``` ```` fenced blocks.
/// Handles multi-block responses where each function is wrapped separately.
/// If nothing is fenced, returns the trimmed input unchanged.
pub fn strip_code_fences(s: &str) -> (r: String)
    ensures
        r@ == code_of(s@),
{
    let t = trim(s);
    let all = lines(t.as_str());
    let mut body: Vec<String> = Vec::new();
    let mut open: bool = false;
    let mut i: usize = 0;
    let ghost ls = text::views(all@);
    proof {
        assert(ls.skip(0) =~= ls);
        assert(text::views(body@) + fenced_lines(ls, false) =~= fenced_lines(ls, false));
    }
    while i < all.len()
        invariant
            i <= all@.len(),
            ls == text::views(all@),
            text::views(body@) + fenced_lines(ls.skip(i as int), open) == fenced_lines(ls, false),
        decreases all.len() - i,
    {
        let line = all[i].as_str();
        proof {
            assert(ls.skip(i as int)[0] == line@);
            assert(ls.skip(i as int).skip(1) =~= ls.skip(i + 1));
        }
        if fence(line) {
            open = !open;
        } else if open {
            let kept = line.to_owned();
            proof {
                text::lemma_views_push(body@, kept);
                assert(text::views(body@).push(kept@) + fenced_lines(ls.skip(i + 1), open)
                    =~= text::views(body@) + (seq![kept@] + fenced_lines(ls.skip(i + 1), open)));
            }
            body.push(kept);
        }
        i += 1;
    }
    proof {
        assert(ls.skip(i as int) =~= seq![]);
        assert(text::views(body@) =~= fenced_lines(ls, false));
    }
    if body.len() > 0 {
        let code = join(&body, "\n");
        trim(code.as_str())
    } else {
        t
    }
}

/// A text without a fence marker is handed back trimmed and otherwise unchanged.
pub proof fn law_no_fence_is_trimmed(s: Seq<char>)
    requires
        !text::holds(s, "```"@),
    ensures
        code_of(s) == text::trimmed(s),
{
    let t = text::trimmed(s);
    let ls = split::lines_of(t);
    text::lemma_trimmed_part(s);
    assert forall|i: int| 0 <= i < ls.len() implies !is_fence(#[trigger] ls[i]) by {
        if is_fence(ls[i]) {
            let u = text::trimmed(ls[i]);
            reveal_strlit("```");
            reveal_strlit("```solidity");
            reveal_strlit("```yul");
            if text::has_prefix(u, "```solidity"@) {
                assert forall|k: int| 0 <= k < 3 implies u[k] == "```"@[k] by {
                    assert(u.subrange(0, "```solidity"@.len() as int)[k] == "```solidity"@[k]);
                }
            } else if text::has_prefix(u, "```yul"@) {
                assert forall|k: int| 0 <= k < 3 implies u[k] == "```"@[k] by {
                    assert(u.subrange(0, "```yul"@.len() as int)[k] == "```yul"@[k]);
                }
            }
            assert(u.subrange(0, 3) =~= "```"@);
            assert(text::occurs_at(u, "```"@, 0));
            split::lemma_lines_are_parts(t, i);
            text::lemma_trimmed_part(ls[i]);
            text::lemma_part_holds(u, ls[i], "```"@);
            text::lemma_part_holds(ls[i], t, "```"@);
            text::lemma_part_holds(t, s, "```"@);
        }
    }
    lemma_nothing_fenced(ls);
}

proof fn lemma_nothing_fenced(ls: Seq<Seq<char>>)
    requires
        forall|i: int| 0 <= i < ls.len() ==> !is_fence(#[trigger] ls[i]),
    ensures
        fenced_lines(ls, false).len() == 0,
    decreases ls.len(),
{
    if ls.len() > 0 {
        assert(!is_fence(ls[0]));
        assert forall|i: int| 0 <= i < ls.skip(1).len() implies !is_fence(#[trigger] ls.skip(1)[i]) by {
            assert(ls.skip(1)[i] == ls[i + 1]);
        }
        lemma_nothing_fenced(ls.skip(1));
    }
}

/// The stretch `a..b` is a whole line of `t`, its line feed left out.
spec fn line_at(t: Seq<char>, a: int, b: int) -> bool {
    &&& 0 <= a <= b <= t.len()
    &&& a == 0 || t[a - 1] == '\n'
    &&& b == t.len() || t[b] == '\n'
    &&& forall|k: int| a <= k < b ==> t[k] != '\n'
}

/// No line of `t` opens or closes a fenced block.
spec fn no_fence(t: Seq<char>) -> bool {
    forall|a: int, b: int| #[trigger] line_at(t, a, b) ==> !is_fence(t.subrange(a, b))
}

/// Where no line is a fence, nothing is fenced.
proof fn lemma_no_fence_lines(t: Seq<char>)
    requires
        no_fence(t),
    ensures
        fenced_lines(split::lines_of(t), false).len() == 0,
    decreases t.len(),
{
    if t.len() > 0 {
        split::lemma_index_from(t, '\n', 0);
        match split::index_from(t, '\n', 0) {
            Some(i) => {
                let first = t.take(i);
                let rest = t.skip(i + 1);
                assert(line_at(t, 0, i));
                assert(t.subrange(0, i) =~= first);
                if first.len() > 0 && first.last() == '\r' {
                    text::lemma_trimmed_push(first.drop_last(), '\r');
                    assert(first.drop_last().push('\r') =~= first);
                }
                assert(!is_fence(split::without_cr(first)));
                assert forall|a: int, b: int| #[trigger] line_at(rest, a, b) implies !is_fence(
                    rest.subrange(a, b),
                ) by {
                    assert(line_at(t, a + i + 1, b + i + 1)) by {
                        assert(b < rest.len() ==> t[b + i + 1] == rest[b]);
                        assert(a > 0 ==> t[a + i] == rest[a - 1]);
                        assert forall|k: int| a + i + 1 <= k < b + i + 1 implies t[k] != '\n' by {
                            assert(t[k] == rest[k - i - 1]);
                        }
                    }
                    assert(t.subrange(a + i + 1, b + i + 1) =~= rest.subrange(a, b));
                }
                lemma_no_fence_lines(rest);
                let ls = split::lines_of(t);
                assert(ls[0] == split::without_cr(first));
                assert(ls.skip(1) =~= split::lines_of(rest));
            },
            None => {
                assert(line_at(t, 0, t.len() as int));
                assert(t.subrange(0, t.len() as int) =~= t);
                let ls = split::lines_of(t);
                assert(ls[0] == t);
                assert(fenced_lines(ls.skip(1), false).len() == 0);
            },
        }
    }
}

/// Trimming a text makes no line a fence.
proof fn lemma_no_fence_start(t: Seq<char>)
    requires
        no_fence(t),
    ensures
        no_fence(text::trimmed_start(t)),
    decreases t.len(),
{
    if t.len() > 0 && text::is_space(t[0]) {
        let u = t.skip(1);
        assert forall|a: int, b: int| #[trigger] line_at(u, a, b) implies !is_fence(
            u.subrange(a, b),
        ) by {
            assert(b < u.len() ==> t[b + 1] == u[b]);
            assert(a > 0 ==> t[a] == u[a - 1]);
            assert forall|k: int| a + 1 <= k < b + 1 implies t[k] != '\n' by {
                assert(t[k] == u[k - 1]);
            }
            assert(t.subrange(a + 1, b + 1) =~= u.subrange(a, b));
            if a > 0 || t[0] == '\n' {
                assert(line_at(t, a + 1, b + 1));
            } else {
                assert(line_at(t, 0, b + 1));
                assert(t.subrange(0, b + 1).skip(1) =~= u.subrange(a, b));
            }
        }
        lemma_no_fence_start(u);
    }
}

proof fn lemma_no_fence_end(t: Seq<char>)
    requires
        no_fence(t),
    ensures
        no_fence(text::trimmed_end(t)),
    decreases t.len(),
{
    if t.len() > 0 && text::is_space(t.last()) {
        let u = t.drop_last();
        assert forall|a: int, b: int| #[trigger] line_at(u, a, b) implies !is_fence(
            u.subrange(a, b),
        ) by {
            assert(a > 0 ==> t[a - 1] == u[a - 1]);
            assert forall|k: int| a <= k < b implies t[k] != '\n' by {
                assert(t[k] == u[k]);
            }
            assert(t.subrange(a, b) =~= u.subrange(a, b));
            if b < u.len() || t.last() == '\n' {
                assert(b < u.len() ==> t[b] == u[b]);
                assert(line_at(t, a, b));
            } else {
                assert(line_at(t, a, b + 1));
                text::lemma_trimmed_push(u.subrange(a, b), t.last());
                assert(t.subrange(a, b + 1) =~= u.subrange(a, b).push(t.last()));
            }
        }
        lemma_no_fence_end(u);
    }
}

/// A line: no fence, and no line feed in it.
spec fn is_code_line(line: Seq<char>) -> bool {
    !is_fence(line) && forall|k: int| 0 <= k < line.len() ==> line[k] != '\n'
}

/// Joined code lines hold no fence.
proof fn lemma_joined_no_fence(parts: Seq<Seq<char>>)
    requires
        parts.len() > 0,
        forall|i: int| 0 <= i < parts.len() ==> is_code_line(#[trigger] parts[i]),
    ensures
        no_fence(split::joined(parts, "\n"@)),
    decreases parts.len(),
{
    reveal_strlit("\n");
    let t = split::joined(parts, "\n"@);
    let last = parts.last();
    assert(is_code_line(parts[parts.len() - 1]));
    if parts.len() == 1 {
        assert forall|a: int, b: int| #[trigger] line_at(t, a, b) implies !is_fence(
            t.subrange(a, b),
        ) by {
            assert(t.subrange(0, t.len() as int) =~= t);
        }
    } else {
        let head = split::joined(parts.drop_last(), "\n"@);
        assert forall|i: int| 0 <= i < parts.drop_last().len() implies is_code_line(
            #[trigger] parts.drop_last()[i],
        ) by {
            assert(parts.drop_last()[i] == parts[i]);
        }
        lemma_joined_no_fence(parts.drop_last());
        let n = head.len() as int;
        assert(t == head + "\n"@ + last);
        assert(t[n] == '\n');
        assert forall|k: int| n < k < t.len() implies t[k] != '\n' by {
            assert(t[k] == last[k - n - 1]);
        }
        assert forall|a: int, b: int| #[trigger] line_at(t, a, b) implies !is_fence(
            t.subrange(a, b),
        ) by {
            if b <= n {
                assert(line_at(head, a, b)) by {
                    assert(b < n ==> head[b] == t[b]);
                    assert(a > 0 ==> head[a - 1] == t[a - 1]);
                    assert forall|k: int| a <= k < b implies head[k] != '\n' by {
                        assert(t[k] == head[k]);
                    }
                }
                assert(head.subrange(a, b) =~= t.subrange(a, b));
            } else {
                assert(a > n);
                assert(a == n + 1);
                assert(b == t.len());
                assert(t.subrange(a, b) =~= last);
            }
        }
    }
}

/// The lines that stand inside fenced blocks are no fences.
proof fn lemma_fenced_are_code(ls: Seq<Seq<char>>, open: bool)
    requires
        forall|i: int, k: int|
            0 <= i < ls.len() && 0 <= k < ls[i].len() ==> #[trigger] ls[i][k] != '\n',
    ensures
        forall|i: int|
            0 <= i < fenced_lines(ls, open).len() ==> is_code_line(
                #[trigger] fenced_lines(ls, open)[i],
            ),
    decreases ls.len(),
{
    if ls.len() > 0 {
        let rest = ls.skip(1);
        assert forall|i: int, k: int|
            0 <= i < rest.len() && 0 <= k < rest[i].len() implies #[trigger] rest[i][k] != '\n' by {
            assert(ls[i + 1][k] != '\n');
        }
        let now = if is_fence(ls[0]) {
            !open
        } else {
            open
        };
        lemma_fenced_are_code(rest, now);
        if !is_fence(ls[0]) && open {
            assert forall|i: int| 0 <= i < fenced_lines(ls, open).len() implies is_code_line(
                #[trigger] fenced_lines(ls, open)[i],
            ) by {
                if i > 0 {
                    assert(fenced_lines(ls, open)[i] == fenced_lines(rest, open)[i - 1]);
                } else {
                    assert(fenced_lines(ls, open)[0] == ls[0]);
                    assert forall|k: int| 0 <= k < ls[0].len() implies ls[0][k] != '\n' by {}
                }
            }
        } else {
            assert(fenced_lines(ls, open) == fenced_lines(rest, now));
        }
    }
}

/// Code needs no second extraction: stripping the fences of what was extracted
/// changes nothing, and no white space stands at either end of it.
pub proof fn law_stripping_twice_is_stripping_once(s: Seq<char>)
    ensures
        code_of(code_of(s)) == code_of(s),
        text::is_trim(code_of(s)),
{
    let t = text::trimmed(s);
    let ls = split::lines_of(t);
    let body = fenced_lines(ls, false);
    text::lemma_trimmed_is_trim(s);
    if body.len() > 0 {
        let whole = split::joined(body, "\n"@);
        text::lemma_trimmed_is_trim(whole);
        assert forall|i: int, k: int|
            0 <= i < ls.len() && 0 <= k < ls[i].len() implies #[trigger] ls[i][k] != '\n' by {
            split::lemma_lines_hold_no_feed(t, i);
        }
        lemma_fenced_are_code(ls, false);
        lemma_joined_no_fence(body);
        lemma_no_fence_start(whole);
        lemma_no_fence_end(text::trimmed_start(whole));
        lemma_no_fence_lines(text::trimmed(whole));
    }
}

/// What opens or closes a fenced block: three backquotes alone, or with `solidity` or
/// `yul` behind them. Nothing else does, not even another language.
pub proof fn law_fences_are_marked(line: Seq<char>, rest: Seq<char>)
    ensures
        text::trimmed(line) == "```"@ ==> is_fence(line),
        text::trimmed(line) == "```solidity"@ + rest ==> is_fence(line),
        text::trimmed(line) == "```yul"@ + rest ==> is_fence(line),
        text::trimmed(line).len() > 0 && text::trimmed(line)[0] != '`' ==> !is_fence(line),
        text::trimmed(line).len() == 0 ==> !is_fence(line),
        text::trimmed(line).len() > 3 && text::trimmed(line)[3] != 's' && text::trimmed(line)[3]
            != 'y' ==> !is_fence(line),
{
    let t = text::trimmed(line);
    reveal_strlit("```");
    reveal_strlit("```solidity");
    reveal_strlit("```yul");
    text::lemma_starts("```solidity"@, rest);
    text::lemma_starts("```yul"@, rest);
    if text::has_prefix(t, "```solidity"@) {
        assert(t.subrange(0, 11)[0] == t[0]);
        assert(t.subrange(0, 11)[3] == t[3]);
    }
    if text::has_prefix(t, "```yul"@) {
        assert(t.subrange(0, 6)[0] == t[0]);
        assert(t.subrange(0, 6)[3] == t[3]);
    }
}

proof fn lemma_outside(a: Seq<Seq<char>>, rest: Seq<Seq<char>>)
    requires
        forall|i: int| 0 <= i < a.len() ==> !is_fence(#[trigger] a[i]),
    ensures
        fenced_lines(a + rest, false) == fenced_lines(rest, false),
        fenced_lines(a + rest, true) == a + fenced_lines(rest, true),
    decreases a.len(),
{
    let all = a + rest;
    if a.len() > 0 {
        assert(all[0] == a[0]);
        assert(!is_fence(a[0]));
        assert(all.skip(1) =~= a.skip(1) + rest);
        assert forall|i: int| 0 <= i < a.skip(1).len() implies !is_fence(#[trigger] a.skip(1)[i]) by {
            assert(a.skip(1)[i] == a[i + 1]);
        }
        lemma_outside(a.skip(1), rest);
        assert(seq![a[0]] + (a.skip(1) + fenced_lines(rest, true)) =~= a + fenced_lines(
            rest,
            true,
        ));
    } else {
        assert(all =~= rest);
        assert(a + fenced_lines(rest, true) =~= fenced_lines(rest, true));
    }
}

/// The code of a block is kept, line by line, and the prose before it is dropped; what
/// follows the block is read on, so that every block counts.
pub proof fn law_blocks_are_kept(
    prose: Seq<Seq<char>>,
    open: Seq<char>,
    code: Seq<Seq<char>>,
    close: Seq<char>,
    rest: Seq<Seq<char>>,
)
    requires
        forall|i: int| 0 <= i < prose.len() ==> !is_fence(#[trigger] prose[i]),
        is_fence(open),
        forall|i: int| 0 <= i < code.len() ==> !is_fence(#[trigger] code[i]),
        is_fence(close),
    ensures
        fenced_lines(prose + seq![open] + code + seq![close] + rest, false) == code
            + fenced_lines(rest, false),
{
    let all = prose + seq![open] + code + seq![close] + rest;
    let one = seq![open] + code + seq![close] + rest;
    let two = code + (seq![close] + rest);
    assert(all =~= prose + one);
    lemma_outside(prose, one);
    assert(one[0] == open);
    assert(one.skip(1) =~= two);
    lemma_outside(code, seq![close] + rest);
    assert((seq![close] + rest)[0] == close);
    assert((seq![close] + rest).skip(1) =~= rest);
}

/// The code of an answer is what its blocks hold, joined and trimmed, or all of it where
/// they hold nothing.
pub proof fn law_the_code_is_what_the_blocks_hold(s: Seq<char>)
    ensures
        ({
            let body = fenced_lines(split::lines_of(text::trimmed(s)), false);
            &&& body.len() > 0 ==> code_of(s) == text::trimmed(split::joined(body, "\n"@))
            &&& body.len() == 0 ==> code_of(s) == text::trimmed(s)
        }),
{
}

} // verus!
