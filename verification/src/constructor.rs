//! Constructor arguments for the sandbox: the parameter types of a contract's
//! constructor, and a default literal for each.

use crate::number::{self, read_up_to};
use crate::solidity;
use crate::split::{self, join, words};
use crate::text::{self, chars, contains, find_in, same, starts_with, string_of, trim, trim_range};
use vstd::prelude::*;

verus! {

broadcast use vstd::seq::group_seq_axioms;

// ── finding the parameter list ───────────────────────────────────────────────

/// The index of the parenthesis that opens the constructor's parameter list: the
/// first one that follows a `constructor` keyword, with nothing but white space
/// between. Only keywords at `from` or later count.
pub open spec fn parameter_list_start(s: Seq<char>, from: int) -> Option<int>
    decreases s.len() - from,
{
    match text::first_at(s, "constructor"@, from) {
        Some(at) => {
            let after = at + "constructor"@.len();
            if from < 0 || at < from || after <= from || after > s.len() {
                None
            } else if solidity::starts_word(s, at) && solidity::opens_next(
                s,
                after,
            ) {
                split::index_from(s, '(', after)
            } else {
                parameter_list_start(s, after)
            }
        },
        None => None,
    }
}

/// The index of the parenthesis that brings the nesting back to zero, walking
/// from `at` with `depth` parentheses open.
pub open spec fn matching_paren(s: Seq<char>, at: int, depth: int) -> Option<int>
    decreases s.len() - at,
{
    if at < 0 || at >= s.len() {
        None
    } else if s[at] == '(' {
        matching_paren(s, at + 1, depth + 1)
    } else if s[at] == ')' {
        if depth == 1 {
            Some(at)
        } else {
            matching_paren(s, at + 1, depth - 1)
        }
    } else {
        matching_paren(s, at + 1, depth)
    }
}

/// The text between the parentheses of the constructor's parameter list, in a source
/// without comments and strings.
pub open spec fn parameter_list(s: Seq<char>) -> Option<Seq<char>> {
    match parameter_list_start(s, 0) {
        Some(open) => match matching_paren(s, open, 0) {
            Some(close) => Some(s.subrange(open + 1, close)),
            None => None,
        },
        None => None,
    }
}

// ── splitting the parameter list ─────────────────────────────────────────────

/// Brackets of all kinds opened less those closed in `s`.
pub open spec fn nesting(s: Seq<char>) -> int
    decreases s.len(),
{
    if s.len() == 0 {
        0
    } else {
        let c = s.last();
        nesting(s.drop_last()) + (if c == '(' || c == '[' || c == '<' {
            1int
        } else if c == ')' || c == ']' || c == '>' {
            -1int
        } else {
            0int
        })
    }
}

/// The trimmed pieces of `s` between its top-level commas, where the piece that
/// begins at `from` has been read up to `at`. A blank last piece is none.
pub open spec fn parameters(s: Seq<char>, from: int, at: int) -> Seq<Seq<char>>
    decreases s.len() - at,
{
    if at < 0 || at >= s.len() {
        let last = text::trimmed(s.skip(from));
        if last.len() > 0 {
            seq![last]
        } else {
            seq![]
        }
    } else if s[at] == ',' && nesting(s.take(at)) == 0 {
        seq![text::trimmed(s.subrange(from, at))] + parameters(s, at + 1, at + 1)
    } else {
        parameters(s, from, at + 1)
    }
}

/// A word that says where a parameter is stored.
pub open spec fn is_data_location(word: Seq<char>) -> bool {
    word == "memory"@ || word == "calldata"@ || word == "storage"@
}

/// The words of a parameter without its data location.
pub open spec fn type_words(words: Seq<Seq<char>>) -> Seq<Seq<char>> {
    words.filter(|w: Seq<char>| !is_data_location(w))
}

/// A word that belongs to the type it ends: what a function type or `address` is
/// followed by, or the end of a list or an array.
pub open spec fn ends_type(word: Seq<char>) -> bool {
    ||| word == "payable"@
    ||| word == "external"@
    ||| word == "internal"@
    ||| word == "view"@
    ||| word == "pure"@
    ||| word.len() > 0 && (word.last() == ')' || word.last() == ']')
}

/// The type of a parameter: its words without the data location and, where more
/// than one is left and the last does not belong to the type, without the last,
/// which is the name.
pub open spec fn type_of(param: Seq<char>) -> Seq<char> {
    let toks = type_words(split::words_of(param));
    if toks.len() > 1 && !ends_type(toks.last()) {
        split::joined(toks.drop_last(), " "@)
    } else {
        split::joined(toks, " "@)
    }
}

/// The parameter types of the constructor: `None` without a constructor, no types
/// where the list is blank. Only the code of the source counts: a mention in a
/// comment or a string is no constructor.
pub open spec fn constructor_types(source: Seq<char>) -> Option<Seq<Seq<char>>> {
    match parameter_list(solidity::code_only(source)) {
        Some(inner) => if text::trimmed(inner).len() == 0 {
            Some(seq![])
        } else {
            Some(parameters(inner, 0, 0).map_values(|p: Seq<char>| type_of(p)))
        },
        None => None,
    }
}

// ── default literals ─────────────────────────────────────────────────────────

/// A literal of the Solidity type `ty`.
pub open spec fn default_literal(ty: Seq<char>) -> Seq<char> {
    let t = text::trimmed(ty);
    match text::before_suffix(t, "[]"@) {
        Some(inner) => "new "@ + text::trimmed(inner) + "[](0)"@,
        None => if text::holds(t, "payable"@) {
            "payable(address(0))"@
        } else if t == "address"@ {
            "address(0)"@
        } else if t == "bool"@ {
            "false"@
        } else if t == "string"@ || t == "bytes"@ {
            "\"\""@
        } else if text::has_prefix(t, "uint"@) || text::has_prefix(t, "int"@) {
            "0"@
        } else if is_fixed_bytes(t) {
            t + "(0)"@
        } else if t.len() > 0 && text::is_ascii_upper(t[0]) {
            t + "(address(0))"@
        } else {
            "0"@
        },
    }
}

/// `bytes` followed by a number.
pub open spec fn is_fixed_bytes(t: Seq<char>) -> bool {
    match text::after_prefix(t, "bytes"@) {
        Some(n) => number::number_up_to(n, u32::MAX as nat) is Some,
        None => false,
    }
}

/// The argument list for a call of the contract's constructor.
pub open spec fn constructor_args(source: Seq<char>) -> Seq<char> {
    match constructor_types(source) {
        Some(types) => split::joined(types.map_values(|t: Seq<char>| default_literal(t)), ", "@),
        None => seq![],
    }
}

// ── executable ───────────────────────────────────────────────────────────────

/// Finds the parenthesis that opens the constructor's parameter list.
fn find_parameter_list(v: &Vec<char>) -> (r: Option<usize>)
    ensures
        match r {
            Some(i) => parameter_list_start(v@, 0) == Some(i as int) && i < v@.len() && v@[i as int]
                == '(',
            None => parameter_list_start(v@, 0) is None,
        },
{
    let keyword = chars("constructor");
    let mut search: usize = 0;
    proof {
        reveal_strlit("constructor");
    }
    loop
        invariant
            keyword@ == "constructor"@,
            "constructor"@.len() == 11,
            search <= v@.len(),
            parameter_list_start(v@, 0) == parameter_list_start(v@, search as int),
        decreases v.len() - search,
    {
        match find_in(v, &keyword, search) {
            Some(at) => {
                let after: usize = at + keyword.len();
                let boundary = at == 0 || !solidity::identifier_char(v[at - 1]);
                if boundary && solidity::opens(v, after) {
                    proof {
                        lemma_paren_found(v@, after as int);
                        split::lemma_index_from(v@, '(', after as int);
                    }
                    return split::find_char(v, '(', after);
                }
                search = after;
            },
            None => {
                return None;
            },
        }
    }
}

proof fn lemma_paren_found(s: Seq<char>, from: int)
    requires
        0 <= from <= s.len(),
        solidity::opens_next(s, from),
    ensures
        split::index_from(s, '(', from) is Some,
{
    text::lemma_trimmed_start_part(s.skip(from));
    let rest = text::trimmed_start(s.skip(from));
    let at = s.len() - rest.len();
    assert(s[at] == rest[0]);
    split::lemma_index_from(s, '(', from);
}

/// Finds the parenthesis that closes the one at `open`.
fn find_matching_paren(v: &Vec<char>, open: usize) -> (r: Option<usize>)
    requires
        open < v.len(),
        v@[open as int] == '(',
    ensures
        match r {
            Some(i) => matching_paren(v@, open as int, 0) == Some(i as int) && open < i < v@.len(),
            None => matching_paren(v@, open as int, 0) is None,
        },
{
    let mut depth: usize = 1;
    let mut i: usize = open + 1;
    while i < v.len()
        invariant
            open < i <= v@.len(),
            1 <= depth <= i - open,
            matching_paren(v@, open as int, 0) == matching_paren(v@, i as int, depth as int),
        decreases v.len() - i,
    {
        if v[i] == '(' {
            depth += 1;
        } else if v[i] == ')' {
            if depth == 1 {
                return Some(i);
            }
            depth -= 1;
        }
        i += 1;
    }
    None
}

/// Splits a parameter list at its top-level commas.
fn split_parameters(v: &Vec<char>) -> (r: Vec<String>)
    ensures
        text::views(r@) == parameters(v@, 0, 0),
{
    let mut out: Vec<String> = Vec::new();
    let mut from: usize = 0;
    let mut at: usize = 0;
    let mut depth: i128 = 0;
    proof {
        assert(v@.take(0) =~= seq![]);
        assert(text::views(out@) + parameters(v@, 0, 0) =~= parameters(v@, 0, 0));
    }
    while at < v.len()
        invariant
            from <= at <= v@.len(),
            -(at as int) <= depth <= at,
            depth == nesting(v@.take(at as int)),
            text::views(out@) + parameters(v@, from as int, at as int) == parameters(v@, 0, 0),
        decreases v.len() - at,
    {
        let c = v[at];
        proof {
            assert(v@.take(at + 1).drop_last() =~= v@.take(at as int));
        }
        if c == ',' && depth == 0 {
            let p = trim_range(v, from, at);
            proof {
                text::lemma_views_push(out@, p);
                assert(text::views(out@).push(p@) + parameters(v@, at + 1, at + 1) =~= text::views(
                    out@,
                ) + (seq![p@] + parameters(v@, at + 1, at + 1)));
            }
            out.push(p);
            from = at + 1;
        } else if c == '(' || c == '[' || c == '<' {
            depth += 1;
        } else if c == ')' || c == ']' || c == '>' {
            depth -= 1;
        }
        at += 1;
    }
    let last = trim_range(v, from, v.len());
    proof {
        assert(v@.subrange(from as int, v@.len() as int) =~= v@.skip(from as int));
    }
    if !last.as_str().is_empty() {
        proof {
            text::lemma_views_push(out@, last);
            assert(text::views(out@).push(last@) =~= text::views(out@) + seq![last@]);
        }
        out.push(last);
    } else {
        proof {
            assert(text::views(out@) + Seq::<Seq<char>>::empty() =~= text::views(out@));
        }
    }
    out
}

/// Whether a word belongs to the type it ends.
fn closes_type(word: &str) -> (r: bool)
    ensures
        r == ends_type(word@),
{
    if same(word, "payable") || same(word, "external") || same(word, "internal") || same(
        word,
        "view",
    ) || same(word, "pure") {
        return true;
    }
    let v = chars(word);
    v.len() > 0 && (v[v.len() - 1] == ')' || v[v.len() - 1] == ']')
}

/// Reduce a constructor parameter (`address payable _to`) to just its type
/// (`address payable`) by dropping the data location and the parameter name, where
/// it has one.
pub fn param_type(param: &str) -> (r: String)
    ensures
        r@ == type_of(param@),
{
    let all = words(param);
    let ghost ws = text::views(all@);
    let mut toks: Vec<String> = Vec::new();
    let mut i: usize = 0;
    proof {
        reveal(Seq::filter);
        assert(text::views(toks@) =~= type_words(ws.take(0)));
    }
    while i < all.len()
        invariant
            i <= all@.len(),
            ws == text::views(all@),
            text::views(toks@) == type_words(ws.take(i as int)),
        decreases all.len() - i,
    {
        let w = all[i].as_str();
        proof {
            reveal(Seq::filter);
            assert(ws.take(i + 1).drop_last() =~= ws.take(i as int));
            assert(ws.take(i + 1).last() == w@);
        }
        if !(same(w, "memory") || same(w, "calldata") || same(w, "storage")) {
            let tok = w.to_owned();
            proof {
                text::lemma_views_push(toks@, tok);
            }
            toks.push(tok);
        }
        i += 1;
    }
    proof {
        assert(ws.take(ws.len() as int) =~= ws);
    }
    // The trailing identifier is the parameter name when more than the type remains.
    if toks.len() > 1 && !closes_type(toks[toks.len() - 1].as_str()) {
        let ghost before = toks@;
        let _name = toks.pop();
        proof {
            assert(text::views(toks@) =~= text::views(before).drop_last());
        }
    }
    join(&toks, " ")
}

/// Extract the constructor's parameter TYPES (data location + name stripped) from
/// the source. `None` = no constructor; `Some(vec![])` = constructor with no params.
pub fn extract_constructor_params(source: &str) -> (r: Option<Vec<String>>)
    ensures
        match r {
            Some(types) => constructor_types(source@) == Some(text::views(types@)),
            None => constructor_types(source@) is None,
        },
{
    let v = solidity::code_chars(source);
    let open: usize = match find_parameter_list(&v) {
        Some(i) => i,
        None => return None,
    };
    let close: usize = match find_matching_paren(&v, open) {
        Some(i) => i,
        None => return None,
    };
    let inner = string_of(&v, open + 1, close);
    let blank = trim(inner.as_str());
    if blank.as_str().is_empty() {
        let none: Vec<String> = Vec::new();
        proof {
            assert(text::views(none@) =~= seq![]);
        }
        return Some(none);
    }
    let iv = chars(inner.as_str());
    let params = split_parameters(&iv);
    let mut types: Vec<String> = Vec::new();
    let mut i: usize = 0;
    let ghost ps = text::views(params@);
    let ghost ts = ps.map_values(|p: Seq<char>| type_of(p));
    proof {
        assert(text::views(types@) =~= ts.take(0));
    }
    while i < params.len()
        invariant
            i <= params@.len(),
            ps == text::views(params@),
            ts == ps.map_values(|p: Seq<char>| type_of(p)),
            text::views(types@) == ts.take(i as int),
        decreases params.len() - i,
    {
        let t = param_type(params[i].as_str());
        proof {
            text::lemma_views_push(types@, t);
            assert(ts.take(i as int).push(ts[i as int]) =~= ts.take(i + 1));
        }
        types.push(t);
        i += 1;
    }
    proof {
        assert(ts.take(ts.len() as int) =~= ts);
    }
    Some(types)
}

/// A default literal for a Solidity type, used to fill a constructor call. Covers
/// the common primitives, arrays and contract/interface types; falls back to `0`.
pub fn default_literal_for_type(ty: &str) -> (r: String)
    ensures
        r@ == default_literal(ty@),
{
    let t = trim(ty);
    if let Some(inner) = text::strip_suffix(t.as_str(), "[]") {
        let element = trim(inner.as_str());
        let mut out = "new ".to_owned();
        out.append(element.as_str());
        out.append("[](0)");
        return out;
    }
    if contains(t.as_str(), "payable") {
        return "payable(address(0))".to_owned();
    }
    if same(t.as_str(), "address") {
        return "address(0)".to_owned();
    }
    if same(t.as_str(), "bool") {
        return "false".to_owned();
    }
    if same(t.as_str(), "string") || same(t.as_str(), "bytes") {
        return "\"\"".to_owned();
    }
    if starts_with(t.as_str(), "uint") || starts_with(t.as_str(), "int") {
        return "0".to_owned();
    }
    // Fixed-size bytesN.
    if let Some(n) = text::strip_prefix(t.as_str(), "bytes") {
        if read_up_to(n.as_str(), u32::MAX as u64).is_some() {
            let mut out = t;
            out.append("(0)");
            return out;
        }
    }
    // Contract/interface types (PascalCase): cast the zero address.
    if !t.as_str().is_empty() {
        let first = t.as_str().get_char(0);
        if 'A' <= first && first <= 'Z' {
            let mut out = t;
            out.append("(address(0))");
            return out;
        }
    }
    "0".to_owned()
}

/// Synthesize a Solidity constructor-argument list (no surrounding parens) of
/// default literals, so the sandbox can instantiate contracts whose constructor
/// takes parameters (e.g. `constructor(address _token)` gives `address(0)`). Returns
/// "" for a parameterless or absent constructor. The optimizer never changes the
/// constructor signature, so the original's args work for both contracts.
pub fn synthesize_constructor_args(source: &str) -> (r: String)
    ensures
        r@ == constructor_args(source@),
{
    let types = match extract_constructor_params(source) {
        Some(types) => types,
        None => {
            let out = String::new();
            proof {
                assert(out@ =~= seq![]);
            }
            return out;
        },
    };
    let mut literals: Vec<String> = Vec::new();
    let mut i: usize = 0;
    let ghost ts = text::views(types@);
    let ghost ls = ts.map_values(|t: Seq<char>| default_literal(t));
    proof {
        assert(text::views(literals@) =~= ls.take(0));
    }
    while i < types.len()
        invariant
            i <= types@.len(),
            ts == text::views(types@),
            ls == ts.map_values(|t: Seq<char>| default_literal(t)),
            text::views(literals@) == ls.take(i as int),
        decreases types.len() - i,
    {
        let l = default_literal_for_type(types[i].as_str());
        proof {
            text::lemma_views_push(literals@, l);
            assert(ls.take(i as int).push(ls[i as int]) =~= ls.take(i + 1));
        }
        literals.push(l);
        i += 1;
    }
    proof {
        assert(ls.take(ls.len() as int) =~= ls);
    }
    join(&literals, ", ")
}

// ── laws ─────────────────────────────────────────────────────────────────────

/// The parameters of a constructor are read where it stands: behind the keyword, white
/// space or none, and the parenthesis, up to the closing one, whatever the source holds
/// behind it.
pub proof fn law_the_constructor_is_found(
    before: Seq<char>,
    blanks: Seq<char>,
    params: Seq<char>,
    after: Seq<char>,
)
    requires
        !text::holds(before, "constructor"@),
        before.len() > 0 ==> !solidity::is_identifier_char(before.last()),
        forall|i: int|
            0 <= i < before.len() ==> before[i] != '/' && before[i] != '"' && before[i] != '\'',
        forall|i: int| 0 <= i < blanks.len() ==> text::is_space(#[trigger] blanks[i]),
        forall|i: int|
            0 <= i < params.len() ==> params[i] != '/' && params[i] != '"' && params[i] != '\''
                && params[i] != '(' && params[i] != ')',
    ensures
        parameter_list(
            solidity::code_only(before + "constructor"@ + blanks + "("@ + params + ")"@ + after),
        ) == Some(params),
{
    let word = "constructor"@;
    let s = before + word + blanks + "("@ + params + ")"@ + after;
    let n = before.len() as int;
    let open = n + 11 + blanks.len();
    let close = open + 1 + params.len();
    assert(word.len() == 11 && word[0] == 'c' && word[1] == 'o' && word[8] == 't' && word[7]
        == 'c') by {
        reveal_strlit("constructor");
    }
    assert(forall|k: int| 0 < k < 11 && k != 7 ==> word[k] != 'c') by {
        reveal_strlit("constructor");
    }
    assert("("@.len() == 1 && "("@[0] == '(' && ")"@.len() == 1 && ")"@[0] == ')') by {
        reveal_strlit("(");
        reveal_strlit(")");
    }
    let code = solidity::code_only(s);
    solidity::lemma_masked(s, solidity::Mode::Code);
    lemma_plain_constructor(before, blanks, params, after);
    assert forall|k: int| 0 <= k < n implies !text::occurs_at(code, word, k) by {
        if text::occurs_at(code, word, k) {
            let part = code.subrange(k, k + 11);
            if k + 11 <= n {
                assert(before.subrange(k, k + 11) =~= part);
                assert(text::occurs_at(before, word, k));
            } else {
                assert(part[n - k] == code[n]);
                assert(code[n] == word[0]);
                assert(n - k == 7);
                assert(part[8] == code[n + 1]);
                assert(code[n + 1] == word[1]);
            }
        }
    }
    assert(text::occurs_at(code, word, n)) by {
        assert(code.subrange(n, n + 11) =~= word);
    }
    text::lemma_first_at(code, word, 0);
    assert(text::first_at(code, word, 0) == Some(n));
    assert(n > 0 ==> code[n - 1] == before.last());
    let rest = code.skip(n + 11);
    assert(rest =~= blanks + rest.skip(blanks.len() as int));
    text::lemma_blanks_skipped(blanks, rest.skip(blanks.len() as int));
    assert(rest.skip(blanks.len() as int)[0] == code[open]);
    assert(!text::is_space('('));
    assert(solidity::opens_next(code, n + 11));
    split::lemma_index_from(code, '(', n + 11);
    assert forall|k: int| n + 11 <= k < open implies code[k] != '(' by {
        assert(code[k] == blanks[k - n - 11]);
    }
    assert(split::index_from(code, '(', n + 11) == Some(open));
    assert(parameter_list_start(code, 0) == Some(open));
    lemma_closing(code, open + 1, close);
    assert(matching_paren(code, open, 0) == Some(close));
    assert(code.subrange(open + 1, close) =~= params);
}

proof fn lemma_plain_constructor(
    before: Seq<char>,
    blanks: Seq<char>,
    params: Seq<char>,
    after: Seq<char>,
)
    requires
        forall|i: int|
            0 <= i < before.len() ==> before[i] != '/' && before[i] != '"' && before[i] != '\'',
        forall|i: int| 0 <= i < blanks.len() ==> text::is_space(#[trigger] blanks[i]),
        forall|i: int|
            0 <= i < params.len() ==> params[i] != '/' && params[i] != '"' && params[i] != '\'',
    ensures
        ({
            let head = before + "constructor"@ + blanks + "("@ + params + ")"@;
            forall|i: int|
                0 <= i < head.len() ==> solidity::code_only(head + after)[i] == head[i]
        }),
{
    reveal_strlit("constructor");
    reveal_strlit("(");
    reveal_strlit(")");
    let word = "constructor"@;
    let head = before + word + blanks + "("@ + params + ")"@;
    let n = before.len() as int;
    let open = n + 11 + blanks.len();
    assert(!text::is_space('/') && !text::is_space('"') && !text::is_space('\''));
    let s = head + after;
    assert forall|i: int| 0 <= i < head.len() implies s[i] != '/' && s[i] != '"' && s[i] != '\'' by {
        assert(s[i] == head[i]);
        if i < n {
            assert(head[i] == before[i]);
        } else if i < n + 11 {
            assert(head[i] == word[i - n]);
        } else if i < open {
            assert(head[i] == blanks[i - n - 11]);
        } else if open < i < open + 1 + params.len() {
            assert(head[i] == params[i - open - 1]);
        }
    }
    solidity::lemma_plain_start(s, head.len() as int);
    assert forall|i: int| 0 <= i < head.len() implies solidity::code_only(s)[i] == head[i] by {
        assert(solidity::code_only(s)[i] == s[i]);
    }
}

proof fn lemma_closing(code: Seq<char>, at: int, close: int)
    requires
        0 <= at <= close < code.len(),
        code[close] == ')',
        forall|k: int| at <= k < close ==> code[k] != '(' && code[k] != ')',
    ensures
        matching_paren(code, at, 1) == Some(close),
    decreases close - at,
{
    if at < close {
        lemma_closing(code, at + 1, close);
    }
}

proof fn lemma_flat(s: Seq<char>)
    requires
        forall|i: int| 0 <= i < s.len() ==> !is_bracket(#[trigger] s[i]),
    ensures
        nesting(s) == 0,
    decreases s.len(),
{
    if s.len() > 0 {
        assert forall|i: int| 0 <= i < s.drop_last().len() implies !is_bracket(
            #[trigger] s.drop_last()[i],
        ) by {
            assert(s.drop_last()[i] == s[i]);
        }
        lemma_flat(s.drop_last());
        assert(!is_bracket(s[s.len() - 1]));
    }
}

/// A bracket of any kind.
pub open spec fn is_bracket(c: char) -> bool {
    c == '(' || c == '[' || c == '<' || c == ')' || c == ']' || c == '>'
}

proof fn lemma_to_the_comma(s: Seq<char>, from: int, at: int, comma: int)
    requires
        0 <= from <= at <= comma <= s.len(),
        comma < s.len() ==> s[comma] == ',',
        forall|i: int| at <= i < comma ==> s[i] != ',',
        forall|i: int| 0 <= i < s.len() ==> !is_bracket(#[trigger] s[i]),
    ensures
        comma < s.len() ==> parameters(s, from, at) == seq![text::trimmed(s.subrange(from, comma))]
            + parameters(s, comma + 1, comma + 1),
        comma == s.len() ==> parameters(s, from, at) == (if text::trimmed(s.skip(from)).len() > 0 {
            seq![text::trimmed(s.skip(from))]
        } else {
            seq![]
        }),
    decreases comma - at,
{
    if at < comma {
        lemma_to_the_comma(s, from, at + 1, comma);
    } else if comma < s.len() {
        assert forall|i: int| 0 <= i < s.take(at).len() implies !is_bracket(
            #[trigger] s.take(at)[i],
        ) by {
            assert(s.take(at)[i] == s[i]);
        }
        lemma_flat(s.take(at));
    }
}

/// Parameters are split at their commas: texts without commas and brackets, the last of
/// them not blank, joined by commas, are the parameters, each trimmed.
pub proof fn law_parameters_are_split_at_commas(items: Seq<Seq<char>>)
    requires
        items.len() > 0,
        forall|i: int, k: int|
            0 <= i < items.len() && 0 <= k < items[i].len() ==> #[trigger] items[i][k] != ','
                && !is_bracket(items[i][k]),
        text::trimmed(items.last()).len() > 0,
    ensures
        parameters(split::joined(items, seq![',']), 0, 0) == items.map_values(
            |p: Seq<char>| text::trimmed(p),
        ),
{
    let s = split::joined(items, seq![',']);
    lemma_joined_flat(items);
    assert(s.skip(0) =~= s);
    lemma_split_from(s, 0, items);
}

proof fn lemma_joined_flat(items: Seq<Seq<char>>)
    requires
        forall|i: int, k: int|
            0 <= i < items.len() && 0 <= k < items[i].len() ==> #[trigger] items[i][k] != ','
                && !is_bracket(items[i][k]),
    ensures
        forall|k: int|
            0 <= k < split::joined(items, seq![',']).len() ==> !is_bracket(
                #[trigger] split::joined(items, seq![','])[k],
            ),
    decreases items.len(),
{
    let s = split::joined(items, seq![',']);
    if items.len() == 1 {
        assert forall|k: int| 0 <= k < s.len() implies !is_bracket(#[trigger] s[k]) by {
            assert(items[0][k] != ',');
        }
    } else if items.len() > 1 {
        let head = items.drop_last();
        assert forall|i: int, k: int|
            0 <= i < head.len() && 0 <= k < head[i].len() implies #[trigger] head[i][k] != ','
            && !is_bracket(head[i][k]) by {
            assert(items[i][k] != ',');
        }
        lemma_joined_flat(head);
        let h = split::joined(head, seq![',']);
        assert forall|k: int| 0 <= k < s.len() implies !is_bracket(#[trigger] s[k]) by {
            if k < h.len() {
                assert(s[k] == h[k]);
            } else if k > h.len() {
                assert(s[k] == items.last()[k - h.len() - 1]);
                assert(items[items.len() - 1][k - h.len() - 1] != ',');
            }
        }
    }
}

proof fn lemma_split_from(s: Seq<char>, from: int, items: Seq<Seq<char>>)
    requires
        items.len() > 0,
        0 <= from <= s.len(),
        s.skip(from) == split::joined(items, seq![',']),
        forall|i: int| 0 <= i < s.len() ==> !is_bracket(#[trigger] s[i]),
        forall|i: int, k: int|
            0 <= i < items.len() && 0 <= k < items[i].len() ==> #[trigger] items[i][k] != ',',
        text::trimmed(items.last()).len() > 0,
    ensures
        parameters(s, from, from) == items.map_values(|p: Seq<char>| text::trimmed(p)),
    decreases items.len(),
{
    let sep = seq![','];
    let first = items[0];
    let rest = s.skip(from);
    let all = items.map_values(|p: Seq<char>| text::trimmed(p));
    let comma = from + first.len();
    if items.len() == 1 {
        assert forall|i: int| from <= i < s.len() implies s[i] != ',' by {
            assert(rest[i - from] == s[i]);
            assert(items[0][i - from] != ',');
        }
        lemma_to_the_comma(s, from, from, s.len() as int);
        assert(items.last() == first);
        assert(all =~= seq![text::trimmed(first)]);
    } else {
        let others = items.skip(1);
        split::lemma_joined_first(items, sep);
        let tail = split::joined(others, sep);
        assert(rest == first + sep + tail);
        assert forall|i: int| from <= i < comma implies s[i] != ',' by {
            assert(rest[i - from] == s[i]);
            assert(items[0][i - from] != ',');
        }
        assert(s[comma] == rest[first.len() as int]);
        lemma_to_the_comma(s, from, from, comma);
        assert(s.subrange(from, comma) =~= first) by {
            assert forall|i: int| 0 <= i < first.len() implies s[from + i] == first[i] by {
                assert(rest[i] == s[from + i]);
            }
        }
        assert(s.skip(comma + 1) =~= tail) by {
            assert forall|i: int| 0 <= i < tail.len() implies s[comma + 1 + i] == tail[i] by {
                assert(rest[first.len() + 1 + i] == tail[i]);
            }
        }
        assert forall|i: int, k: int|
            0 <= i < others.len() && 0 <= k < others[i].len() implies #[trigger] others[i][k] != ',' by {
            assert(items[i + 1][k] != ',');
        }
        assert(others.last() == items.last());
        lemma_split_from(s, comma + 1, others);
        assert(seq![text::trimmed(first)] + others.map_values(|p: Seq<char>| text::trimmed(p))
            =~= all);
    }
}

/// A parameter is reduced to its type: the name and a data location are dropped, and
/// every other word is kept in order.
pub proof fn law_the_type_is_what_is_left(words: Seq<Seq<char>>, name: Seq<char>)
    requires
        words.len() > 0,
        forall|i: int|
            0 <= i < words.len() ==> (#[trigger] words[i]).len() > 0 && words[i] != "memory"@
                && words[i] != "calldata"@ && words[i] != "storage"@,
        forall|i: int, k: int|
            0 <= i < words.len() && 0 <= k < words[i].len() ==> !text::is_space(
                #[trigger] words[i][k],
            ),
        name.len() > 0,
        forall|k: int| 0 <= k < name.len() ==> !text::is_space(#[trigger] name[k]),
        name != "memory"@ && name != "calldata"@ && name != "storage"@,
        name != "payable"@ && name != "external"@ && name != "internal"@ && name != "view"@ && name
            != "pure"@,
        name.last() != ')' && name.last() != ']',
    ensures
        type_of(split::joined(words.push(name), " "@)) == split::joined(words, " "@),
        type_of(split::joined(words.push("memory"@).push(name), " "@)) == split::joined(
            words,
            " "@,
        ),
        type_of(split::joined(words.push("calldata"@).push(name), " "@)) == split::joined(
            words,
            " "@,
        ),
        words.len() == 1 ==> type_of(words[0]) == words[0],
{
    let all = words.push(name);
    lemma_solid_push(words, name);
    split::law_words_undo_join(all);
    lemma_all_type_words(words);
    lemma_type_words_push(words, name);
    assert(all.drop_last() =~= words);
    lemma_location_dropped(words, "memory"@, name);
    lemma_location_dropped(words, "calldata"@, name);
    if words.len() == 1 {
        assert(split::joined(words, " "@) == words[0]);
        split::law_words_undo_join(words);
    }
}

proof fn lemma_location_dropped(words: Seq<Seq<char>>, location: Seq<char>, name: Seq<char>)
    requires
        words.len() > 0,
        location == "memory"@ || location == "calldata"@,
        forall|i: int|
            0 <= i < words.len() ==> (#[trigger] words[i]).len() > 0 && words[i] != "memory"@
                && words[i] != "calldata"@ && words[i] != "storage"@,
        forall|i: int, k: int|
            0 <= i < words.len() && 0 <= k < words[i].len() ==> !text::is_space(
                #[trigger] words[i][k],
            ),
        name.len() > 0,
        forall|k: int| 0 <= k < name.len() ==> !text::is_space(#[trigger] name[k]),
        !is_data_location(name),
        !ends_type(name),
    ensures
        type_of(split::joined(words.push(location).push(name), " "@)) == split::joined(words, " "@),
{
    reveal_strlit("memory");
    reveal_strlit("calldata");
    assert forall|k: int| 0 <= k < location.len() implies !text::is_space(#[trigger] location[k]) by {
        assert(!text::is_space('m') && !text::is_space('e') && !text::is_space('o')
            && !text::is_space('r') && !text::is_space('y') && !text::is_space('c')
            && !text::is_space('a') && !text::is_space('l') && !text::is_space('d')
            && !text::is_space('t'));
    }
    lemma_solid_push(words, location);
    lemma_solid_push(words.push(location), name);
    split::law_words_undo_join(words.push(location).push(name));
    lemma_all_type_words(words);
    lemma_type_words_push(words, location);
    lemma_type_words_push(words.push(location), name);
    assert(words.push(name).drop_last() =~= words);
}

proof fn lemma_solid_push(words: Seq<Seq<char>>, word: Seq<char>)
    requires
        forall|i: int| 0 <= i < words.len() ==> (#[trigger] words[i]).len() > 0,
        forall|i: int, k: int|
            0 <= i < words.len() && 0 <= k < words[i].len() ==> !text::is_space(
                #[trigger] words[i][k],
            ),
        word.len() > 0,
        forall|k: int| 0 <= k < word.len() ==> !text::is_space(#[trigger] word[k]),
    ensures
        forall|i: int| 0 <= i < words.push(word).len() ==> (#[trigger] words.push(word)[i]).len() > 0,
        forall|i: int, k: int|
            0 <= i < words.push(word).len() && 0 <= k < words.push(word)[i].len()
                ==> !text::is_space(#[trigger] words.push(word)[i][k]),
{
    let all = words.push(word);
    assert forall|i: int, k: int| 0 <= i < all.len() && 0 <= k < all[i].len() implies !text::is_space(
        #[trigger] all[i][k],
    ) by {
        if i < words.len() {
            assert(!text::is_space(words[i][k]));
        } else {
            assert(!text::is_space(word[k]));
        }
    }
}

proof fn lemma_type_words_push(words: Seq<Seq<char>>, word: Seq<char>)
    ensures
        type_words(words.push(word)) == (if is_data_location(word) {
            type_words(words)
        } else {
            type_words(words).push(word)
        }),
{
    reveal(Seq::filter);
    assert(words.push(word).drop_last() =~= words);
}

proof fn lemma_all_type_words(words: Seq<Seq<char>>)
    requires
        forall|i: int| 0 <= i < words.len() ==> !is_data_location(#[trigger] words[i]),
    ensures
        type_words(words) == words,
    decreases words.len(),
{
    reveal(Seq::filter);
    if words.len() > 0 {
        let head = words.drop_last();
        assert forall|i: int| 0 <= i < head.len() implies !is_data_location(#[trigger] head[i]) by {
            assert(head[i] == words[i]);
        }
        lemma_all_type_words(head);
        assert(words =~= head.push(words.last()));
        lemma_type_words_push(head, words.last());
        assert(!is_data_location(words[words.len() - 1]));
    } else {
        assert(type_words(words) =~= words);
    }
}

/// Each parameter gets one literal of its type, in order, and a contract without a
/// constructor none.
pub proof fn law_every_parameter_gets_a_literal(source: Seq<char>, types: Seq<Seq<char>>)
    ensures
        constructor_types(source) == Some(types) ==> constructor_args(source) == split::joined(
            types.map_values(|t: Seq<char>| default_literal(t)),
            ", "@,
        ),
        constructor_types(source) is None ==> constructor_args(source).len() == 0,
{
}

/// Integers of every width are zero, a dynamic array is an empty one of its element
/// type, and a contract or interface is the zero address as one.
pub proof fn law_literals_fit_their_type(rest: Seq<char>, element: Seq<char>, contract: Seq<char>)
    requires
        text::is_trim("uint"@ + rest),
        text::is_trim("int"@ + rest),
        !text::has_suffix("uint"@ + rest, "[]"@),
        !text::has_suffix("int"@ + rest, "[]"@),
        !text::holds("uint"@ + rest, "payable"@),
        !text::holds("int"@ + rest, "payable"@),
        text::is_trim(element),
        text::is_trim(contract),
        contract.len() > 0,
        'A' <= contract[0] <= 'Z',
        !text::has_suffix(contract, "[]"@),
        !text::holds(contract, "payable"@),
    ensures
        default_literal("uint"@ + rest) == "0"@,
        default_literal("int"@ + rest) == "0"@,
        element.len() > 0 ==> default_literal(element + "[]"@) == "new "@ + element + "[](0)"@,
        default_literal(contract) == contract + "(address(0))"@,
{
    reveal_strlit("uint");
    reveal_strlit("int");
    reveal_strlit("address");
    reveal_strlit("bool");
    reveal_strlit("string");
    reveal_strlit("bytes");
    reveal_strlit("[]");
    text::lemma_trim_is_kept("uint"@ + rest);
    text::lemma_trim_is_kept("int"@ + rest);
    text::lemma_starts("uint"@, rest);
    text::lemma_starts("int"@, rest);
    assert(("uint"@ + rest)[0] == 'u');
    assert(("int"@ + rest)[0] == 'i');
    assert("address"@[0] == 'a' && "bool"@[0] == 'b' && "string"@[0] == 's' && "bytes"@[0] == 'b');
    text::lemma_trim_is_kept(contract);
    text::lemma_trim_is_kept(element);
    if element.len() > 0 {
        let a = element + "[]"@;
        assert(a[0] == element[0]);
        assert(a.last() == ']');
        assert(!text::is_space(']'));
        text::lemma_trim_is_kept(a);
        assert(a.subrange(a.len() - 2, a.len() as int) =~= "[]"@);
        assert(a.take(a.len() - 2) =~= element);
    }
    if text::has_prefix(contract, "uint"@) {
        assert(contract.subrange(0, 4)[0] == contract[0]);
    }
    if text::has_prefix(contract, "int"@) {
        assert(contract.subrange(0, 3)[0] == contract[0]);
    }
    if text::has_prefix(contract, "bytes"@) {
        assert(contract.subrange(0, 5)[0] == contract[0]);
    }
}

} // verus!
