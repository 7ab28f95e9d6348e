//! Solidity text as far as it is read without a parser: what is code and what is a
//! comment or a string, and where keywords stand.

use crate::text::{self, chars};
use vstd::prelude::*;

verus! {

broadcast use vstd::seq::group_seq_axioms;

// ── comments and strings ─────────────────────────────────────────────────────

/// What the next character of a source belongs to.
#[derive(PartialEq, Eq, Structural, Clone, Copy, Debug)]
pub enum Mode {
    Code,
    /// A comment that ends with its line.
    LineComment,
    /// The second character of `/*`.
    Opening,
    /// A comment up to `*/`.
    BlockComment,
    /// The second character of `*/`.
    Closing,
    /// A string up to the given quote.
    Quoted(char),
    /// The character behind a backslash in such a string.
    Escaped(char),
}

/// A character that ends a line.
pub open spec fn is_line_end(c: char) -> bool {
    c == '\n' || c == '\r'
}

/// What follows the character `c`, with `next` behind it. A string ends with its
/// line, closed or not.
pub open spec fn mode_after(mode: Mode, c: char, next: Option<char>) -> Mode {
    match mode {
        Mode::Code => if c == '/' && next == Some('/') {
            Mode::LineComment
        } else if c == '/' && next == Some('*') {
            Mode::Opening
        } else if c == '"' || c == '\'' {
            Mode::Quoted(c)
        } else {
            Mode::Code
        },
        Mode::LineComment => if is_line_end(c) {
            Mode::Code
        } else {
            Mode::LineComment
        },
        Mode::Opening => Mode::BlockComment,
        Mode::BlockComment => if c == '*' && next == Some('/') {
            Mode::Closing
        } else {
            Mode::BlockComment
        },
        Mode::Closing => Mode::Code,
        Mode::Quoted(quote) => if c == quote || is_line_end(c) {
            Mode::Code
        } else if c == '\\' {
            Mode::Escaped(quote)
        } else {
            Mode::Quoted(quote)
        },
        Mode::Escaped(quote) => if is_line_end(c) {
            Mode::Code
        } else {
            Mode::Quoted(quote)
        },
    }
}

/// The character where it is code or ends a line, and a blank elsewhere.
pub open spec fn shown(mode: Mode, c: char, next: Option<char>) -> char {
    if is_line_end(c) || (mode is Code && mode_after(mode, c, next) is Code) {
        c
    } else {
        ' '
    }
}

/// The second character of `s`.
pub open spec fn second(s: Seq<char>) -> Option<char> {
    if s.len() > 1 {
        Some(s[1])
    } else {
        None
    }
}

/// `s` with a blank for every character that is not code, read on in `mode`.
pub open spec fn masked(s: Seq<char>, mode: Mode) -> Seq<char>
    decreases s.len(),
{
    if s.len() == 0 {
        seq![]
    } else {
        seq![shown(mode, s[0], second(s))] + masked(s.skip(1), mode_after(mode, s[0], second(s)))
    }
}

/// The code of a source: comments and strings are blanked out, and everything else
/// stays where it is.
pub open spec fn code_only(source: Seq<char>) -> Seq<char> {
    masked(source, Mode::Code)
}

/// Blanking out keeps every position: a character is itself or a blank, and a line
/// ends where it did.
pub proof fn lemma_masked(s: Seq<char>, mode: Mode)
    ensures
        masked(s, mode).len() == s.len(),
        forall|i: int|
            0 <= i < s.len() ==> (#[trigger] masked(s, mode)[i] == s[i] || masked(s, mode)[i]
                == ' '),
        forall|i: int|
            0 <= i < s.len() && is_line_end(s[i]) ==> #[trigger] masked(s, mode)[i] == s[i],
    decreases s.len(),
{
    if s.len() > 0 {
        let rest = s.skip(1);
        let next = mode_after(mode, s[0], second(s));
        lemma_masked(rest, next);
        assert forall|i: int| 0 < i < s.len() implies #[trigger] masked(s, mode)[i] == masked(
            rest,
            next,
        )[i - 1] && s[i] == rest[i - 1] by {}
    }
}

fn line_end(c: char) -> (r: bool)
    ensures
        r == is_line_end(c),
{
    c == '\n' || c == '\r'
}

/// What follows a character.
fn advance(mode: Mode, c: char, next: Option<char>) -> (r: Mode)
    ensures
        r == mode_after(mode, c, next),
{
    match mode {
        Mode::Code => match next {
            Some(n) if c == '/' && n == '/' => Mode::LineComment,
            Some(n) if c == '/' && n == '*' => Mode::Opening,
            _ => if c == '"' || c == '\'' {
                Mode::Quoted(c)
            } else {
                Mode::Code
            },
        },
        Mode::LineComment => if line_end(c) {
            Mode::Code
        } else {
            Mode::LineComment
        },
        Mode::Opening => Mode::BlockComment,
        Mode::BlockComment => match next {
            Some(n) if c == '*' && n == '/' => Mode::Closing,
            _ => Mode::BlockComment,
        },
        Mode::Closing => Mode::Code,
        Mode::Quoted(quote) => if c == quote || line_end(c) {
            Mode::Code
        } else if c == '\\' {
            Mode::Escaped(quote)
        } else {
            Mode::Quoted(quote)
        },
        Mode::Escaped(quote) => if line_end(c) {
            Mode::Code
        } else {
            Mode::Quoted(quote)
        },
    }
}

/// The code of a source, character by character.
pub fn code_chars(source: &str) -> (r: Vec<char>)
    ensures
        r@ == code_only(source@),
        r@.len() == source@.len(),
{
    let v = chars(source);
    let mut out: Vec<char> = Vec::new();
    let mut mode = Mode::Code;
    let mut i: usize = 0;
    proof {
        lemma_masked(source@, Mode::Code);
        assert(v@.skip(0) =~= v@);
        assert(out@ + masked(v@, mode) =~= masked(v@, Mode::Code));
    }
    while i < v.len()
        invariant
            i <= v@.len(),
            v@ == source@,
            out@ + masked(v@.skip(i as int), mode) == code_only(source@),
        decreases v.len() - i,
    {
        let c = v[i];
        let next: Option<char> = if i + 1 < v.len() {
            Some(v[i + 1])
        } else {
            None
        };
        let after = advance(mode, c, next);
        let visible = line_end(c) || (mode == Mode::Code && after == Mode::Code);
        let shown_char: char = if visible {
            c
        } else {
            ' '
        };
        proof {
            let rest = v@.skip(i as int);
            assert(rest[0] == c);
            assert(second(rest) == next);
            assert(rest.skip(1) =~= v@.skip(i + 1));
            assert(out@.push(shown_char) + masked(v@.skip(i + 1), after) =~= out@ + (
            seq![shown_char] + masked(v@.skip(i + 1), after)));
        }
        out.push(shown_char);
        mode = after;
        i += 1;
    }
    proof {
        assert(v@.skip(i as int) =~= seq![]);
        assert(out@ + masked(seq![], mode) =~= out@);
    }
    out
}

// ── keywords ─────────────────────────────────────────────────────────────────

/// A character that continues an identifier.
pub open spec fn is_identifier_char(c: char) -> bool {
    text::is_ascii_word(c) || c == '_'
}

/// The keyword at `at` is not the tail of a longer identifier.
pub open spec fn starts_word(s: Seq<char>, at: int) -> bool {
    at <= 0 || !is_identifier_char(s[at - 1])
}

/// After white space, the text at `from` goes on with an opening parenthesis.
pub open spec fn opens_next(s: Seq<char>, from: int) -> bool {
    let rest = text::trimmed_start(s.skip(from));
    rest.len() > 0 && rest[0] == '('
}

proof fn lemma_opens_next(s: Seq<char>, from: int, to: int)
    requires
        0 <= from <= to <= s.len(),
        s.subrange(to, s.len() as int) == text::trimmed_start(s.subrange(from, s.len() as int)),
    ensures
        opens_next(s, from) == (to < s.len() && s[to] == '('),
{
    assert(s.subrange(from, s.len() as int) =~= s.skip(from));
    let rest = s.subrange(to, s.len() as int);
    if to < s.len() {
        assert(rest[0] == s[to]);
    }
}

/// Whether the text at `from` goes on, after white space, with `(`.
pub fn opens(v: &Vec<char>, from: usize) -> (r: bool)
    requires
        from <= v@.len(),
    ensures
        r == opens_next(v@, from as int),
{
    let to = text::skip_spaces(v, from, v.len());
    proof {
        lemma_opens_next(v@, from as int, to as int);
    }
    to < v.len() && v[to] == '('
}

/// Whether `c` continues an identifier.
pub fn identifier_char(c: char) -> (r: bool)
    ensures
        r == is_identifier_char(c),
{
    ('a' <= c && c <= 'z') || ('A' <= c && c <= 'Z') || ('0' <= c && c <= '9') || c == '_'
}

// ── laws ─────────────────────────────────────────────────────────────────────

/// What stands in a comment that ends with its line never counts as code: up to the
/// end of the line there are blanks.
pub proof fn law_line_comments_are_blank(s: Seq<char>, i: int)
    requires
        0 <= i < s.len(),
        forall|k: int| 0 <= k <= i ==> !is_line_end(s[k]),
    ensures
        masked(s, Mode::LineComment)[i] == ' ',
    decreases i,
{
    if i > 0 {
        let rest = s.skip(1);
        assert forall|k: int| 0 <= k <= i - 1 implies !is_line_end(rest[k]) by {
            assert(rest[k] == s[k + 1]);
        }
        assert(!is_line_end(s[0]));
        law_line_comments_are_blank(rest, i - 1);
        lemma_masked(rest, Mode::LineComment);
        assert(masked(s, Mode::LineComment)[i] == masked(rest, Mode::LineComment)[i - 1]);
    }
}

/// Up to the first quote or slash, everything is code.
pub proof fn lemma_plain_start(s: Seq<char>, n: int)
    requires
        0 <= n <= s.len(),
        forall|i: int| 0 <= i < n ==> s[i] != '/' && s[i] != '"' && s[i] != '\'',
    ensures
        forall|i: int| 0 <= i < n ==> code_only(s)[i] == s[i],
    decreases n,
{
    if n > 0 {
        let rest = s.skip(1);
        assert forall|i: int| 0 <= i < n - 1 implies rest[i] != '/' && rest[i] != '"' && rest[i]
            != '\'' by {
            assert(rest[i] == s[i + 1]);
        }
        lemma_plain_start(rest, n - 1);
        lemma_masked(rest, Mode::Code);
        assert forall|i: int| 0 <= i < n implies code_only(s)[i] == s[i] by {
            if i > 0 {
                assert(code_only(s)[i] == code_only(rest)[i - 1]);
            }
        }
    }
}

/// Where there is no quote and no slash, everything is code.
pub proof fn law_plain_text_is_code(s: Seq<char>)
    requires
        forall|i: int| 0 <= i < s.len() ==> s[i] != '/' && s[i] != '"' && s[i] != '\'',
    ensures
        code_only(s) == s,
    decreases s.len(),
{
    if s.len() > 0 {
        assert forall|i: int| 0 <= i < s.skip(1).len() implies s.skip(1)[i] != '/' && s.skip(1)[i]
            != '"' && s.skip(1)[i] != '\'' by {
            assert(s.skip(1)[i] == s[i + 1]);
        }
        law_plain_text_is_code(s.skip(1));
        assert(code_only(s) =~= s);
    } else {
        assert(code_only(s) =~= s);
    }
}

proof fn lemma_masked_step(c: char, rest: Seq<char>, mode: Mode)
    ensures
        masked(seq![c] + rest, mode) == seq![
            shown(mode, c, second(seq![c] + rest)),
        ] + masked(rest, mode_after(mode, c, second(seq![c] + rest))),
{
    let s = seq![c] + rest;
    assert(s.skip(1) =~= rest);
    assert(s[0] == c);
}

/// A text with a blank for every character, but for those that end a line.
pub open spec fn blanked(s: Seq<char>) -> Seq<char> {
    s.map_values(
        |c: char|
            if c == '\n' || c == '\r' {
                c
            } else {
                ' '
            },
    )
}

proof fn lemma_blanked_step(s: Seq<char>)
    requires
        s.len() > 0,
    ensures
        blanked(s) == blanked(seq![s[0]]) + blanked(s.skip(1)),
{
    assert(blanked(s) =~= blanked(seq![s[0]]) + blanked(s.skip(1)));
}

proof fn lemma_in_line_comment(c: Seq<char>, rest: Seq<char>)
    requires
        forall|i: int| 0 <= i < c.len() ==> c[i] != '\n' && c[i] != '\r',
    ensures
        masked(c + seq!['\n'] + rest, Mode::LineComment) == blanked(c) + seq!['\n'] + code_only(
            rest,
        ),
    decreases c.len(),
{
    let s = c + seq!['\n'] + rest;
    if c.len() == 0 {
        assert(s =~= seq!['\n'] + rest);
        lemma_masked_step('\n', rest, Mode::LineComment);
        assert(blanked(c) + seq!['\n'] + code_only(rest) =~= seq!['\n'] + code_only(rest));
    } else {
        let tail = c.skip(1);
        assert(s =~= seq![c[0]] + (tail + seq!['\n'] + rest));
        lemma_masked_step(c[0], tail + seq!['\n'] + rest, Mode::LineComment);
        assert forall|i: int| 0 <= i < tail.len() implies tail[i] != '\n' && tail[i] != '\r' by {
            assert(tail[i] == c[i + 1]);
        }
        lemma_in_line_comment(tail, rest);
        lemma_blanked_step(c);
        assert(blanked(seq![c[0]]) =~= seq![' ']);
        assert(blanked(c) + seq!['\n'] + code_only(rest) =~= seq![' '] + (blanked(tail)
            + seq!['\n'] + code_only(rest)));
    }
}

/// Behind a comment that ends with its line, the code goes on with the next line.
pub proof fn law_code_follows_a_line_comment(comment: Seq<char>, rest: Seq<char>)
    requires
        forall|i: int| 0 <= i < comment.len() ==> comment[i] != '\n' && comment[i] != '\r',
    ensures
        code_only(seq!['/', '/'] + comment + seq!['\n'] + rest) == blanked(
            seq!['/', '/'] + comment,
        ) + seq!['\n'] + code_only(rest),
{
    let c = seq!['/'] + comment;
    let tail = c + seq!['\n'] + rest;
    let s = seq!['/', '/'] + comment + seq!['\n'] + rest;
    assert(s =~= seq!['/'] + tail);
    assert(tail[0] == '/');
    lemma_masked_step('/', tail, Mode::Code);
    assert(second(seq!['/'] + tail) == Some('/'));
    lemma_in_line_comment(c, rest);
    assert(blanked(seq!['/', '/'] + comment) + seq!['\n'] + code_only(rest) =~= seq![' '] + (
    blanked(c) + seq!['\n'] + code_only(rest)));
}

proof fn lemma_in_block_comment(c: Seq<char>, rest: Seq<char>)
    requires
        forall|i: int| 0 <= i < c.len() ==> c[i] != '*',
    ensures
        masked(c + seq!['*', '/'] + rest, Mode::BlockComment) == blanked(c + seq!['*', '/'])
            + code_only(rest),
    decreases c.len(),
{
    let s = c + seq!['*', '/'] + rest;
    if c.len() == 0 {
        let one = seq!['/'] + rest;
        assert(s =~= seq!['*'] + one);
        assert(one[0] == '/');
        lemma_masked_step('*', one, Mode::BlockComment);
        assert(second(seq!['*'] + one) == Some('/'));
        lemma_masked_step('/', rest, Mode::Closing);
        assert(blanked(c + seq!['*', '/']) + code_only(rest) =~= seq![' '] + (seq![' ']
            + code_only(rest)));
    } else {
        let tail = c.skip(1);
        assert(s =~= seq![c[0]] + (tail + seq!['*', '/'] + rest));
        lemma_masked_step(c[0], tail + seq!['*', '/'] + rest, Mode::BlockComment);
        assert forall|i: int| 0 <= i < tail.len() implies tail[i] != '*' by {
            assert(tail[i] == c[i + 1]);
        }
        lemma_in_block_comment(tail, rest);
        assert(blanked(c + seq!['*', '/']) + code_only(rest) =~= blanked(seq![c[0]]) + (blanked(
            tail + seq!['*', '/'],
        ) + code_only(rest)));
    }
}

/// Behind a block comment, the code goes on.
pub proof fn law_code_follows_a_block_comment(comment: Seq<char>, rest: Seq<char>)
    requires
        forall|i: int| 0 <= i < comment.len() ==> comment[i] != '*',
    ensures
        code_only(seq!['/', '*'] + comment + seq!['*', '/'] + rest) == blanked(
            seq!['/', '*'] + comment + seq!['*', '/'],
        ) + code_only(rest),
{
    let two = comment + seq!['*', '/'] + rest;
    let one = seq!['*'] + two;
    let s = seq!['/', '*'] + comment + seq!['*', '/'] + rest;
    assert(s =~= seq!['/'] + one);
    assert(one[0] == '*');
    lemma_masked_step('/', one, Mode::Code);
    assert(second(seq!['/'] + one) == Some('*'));
    lemma_masked_step('*', two, Mode::Opening);
    lemma_in_block_comment(comment, rest);
    assert(blanked(seq!['/', '*'] + comment + seq!['*', '/']) + code_only(rest) =~= seq![' '] + (
    seq![' '] + (blanked(comment + seq!['*', '/']) + code_only(rest))));
}

proof fn lemma_in_string(c: Seq<char>, quote: char, rest: Seq<char>)
    requires
        quote == '"' || quote == '\'',
        forall|i: int|
            0 <= i < c.len() ==> c[i] != quote && c[i] != '\\' && c[i] != '\n' && c[i] != '\r',
    ensures
        masked(c + seq![quote] + rest, Mode::Quoted(quote)) == blanked(c + seq![quote])
            + code_only(rest),
    decreases c.len(),
{
    let s = c + seq![quote] + rest;
    if c.len() == 0 {
        assert(s =~= seq![quote] + rest);
        lemma_masked_step(quote, rest, Mode::Quoted(quote));
        assert(blanked(c + seq![quote]) + code_only(rest) =~= seq![' '] + code_only(rest));
    } else {
        let tail = c.skip(1);
        assert(s =~= seq![c[0]] + (tail + seq![quote] + rest));
        lemma_masked_step(c[0], tail + seq![quote] + rest, Mode::Quoted(quote));
        assert forall|i: int| 0 <= i < tail.len() implies tail[i] != quote && tail[i] != '\\'
            && tail[i] != '\n' && tail[i] != '\r' by {
            assert(tail[i] == c[i + 1]);
        }
        lemma_in_string(tail, quote, rest);
        assert(blanked(c + seq![quote]) + code_only(rest) =~= seq![' '] + (blanked(
            tail + seq![quote],
        ) + code_only(rest)));
    }
}

/// Behind a string, the code goes on, and nothing in it counts.
pub proof fn law_code_follows_a_string(content: Seq<char>, quote: char, rest: Seq<char>)
    requires
        quote == '"' || quote == '\'',
        forall|i: int|
            0 <= i < content.len() ==> content[i] != quote && content[i] != '\\' && content[i]
                != '\n' && content[i] != '\r',
    ensures
        code_only(seq![quote] + content + seq![quote] + rest) == blanked(
            seq![quote] + content + seq![quote],
        ) + code_only(rest),
{
    let one = content + seq![quote] + rest;
    let s = seq![quote] + content + seq![quote] + rest;
    assert(s =~= seq![quote] + one);
    lemma_masked_step(quote, one, Mode::Code);
    lemma_in_string(content, quote, rest);
    assert(blanked(seq![quote] + content + seq![quote]) + code_only(rest) =~= seq![' '] + (
    blanked(content + seq![quote]) + code_only(rest)));
}

/// Text without slashes and quotes stays as it is, and what follows it is read as it
/// would be alone.
pub proof fn law_code_goes_on_behind_plain_text(plain: Seq<char>, rest: Seq<char>)
    requires
        forall|i: int|
            0 <= i < plain.len() ==> plain[i] != '/' && plain[i] != '"' && plain[i] != '\'',
    ensures
        code_only(plain + rest) == plain + code_only(rest),
    decreases plain.len(),
{
    if plain.len() == 0 {
        assert(plain + rest =~= rest);
        assert(plain + code_only(rest) =~= code_only(rest));
    } else {
        let tail = plain.skip(1);
        assert(plain + rest =~= seq![plain[0]] + (tail + rest));
        lemma_masked_step(plain[0], tail + rest, Mode::Code);
        assert forall|i: int| 0 <= i < tail.len() implies tail[i] != '/' && tail[i] != '"'
            && tail[i] != '\'' by {
            assert(tail[i] == plain[i + 1]);
        }
        law_code_goes_on_behind_plain_text(tail, rest);
        assert(seq![plain[0]] + (tail + code_only(rest)) =~= plain + code_only(rest));
    }
}

} // verus!
