//! Code normalization: a "Seeker" preprocessing layer.
//!
//! Two canonical forms, both produced by tokenizing with the solang lexer (which
//! drops comments and is not fooled by strings/whitespace):
//!
//! - [`lexical_key`]: comments stripped, whitespace collapsed, **identifiers and
//!   literals kept**. Used as the result-cache key so two submissions that differ
//!   only in formatting/comments collapse to one entry. Safe to return the cached
//!   *output* for, because the optimized code never echoes the input's formatting.
//!
//! - [`structural`]: additionally maps every user identifier to `ID`, numbers to
//!   `NUM`, and string/hex/address literals to placeholders, while keeping EVM/
//!   Solidity builtins (`msg`, `sender`, `sload`, `keccak256`, ...) as anchors. This
//!   is a *structural fingerprint*: alpha-equivalent code (same shape, different names)
//!   normalizes identically. Used only for **detection/matching** ([`PatternMatcher`]),
//!   never to reuse output: matching is safe, output reuse across renames is not.

use crate::split::{self, join};
use crate::text::{self, contains, same};
use solang_parser::lexer::{Lexer, Token};
use vstd::prelude::*;

verus! {

broadcast use vstd::seq::group_seq_axioms;

/// Templates shorter than this (in tokens) are too generic to match on: skipped.
pub const MIN_TEMPLATE_TOKENS: usize = 8;

/// Cap structural matches per function so retrieval stays bounded.
pub const MAX_STRUCT_MATCHES: usize = 3;

// ── tokens ───────────────────────────────────────────────────────────────────

/// What a token is, as far as the structural form tells tokens apart.
#[derive(PartialEq, Eq, Structural, Clone, Copy, Debug)]
pub enum LexemeKind {
    Identifier,
    Number,
    RationalNumber,
    HexNumber,
    StringLiteral,
    HexLiteral,
    AddressLiteral,
    /// Keywords, types, operators and punctuation.
    Other,
}

/// One token: its kind and its text.
pub struct Lexeme {
    pub kind: LexemeKind,
    pub text: String,
}

/// The kind and text of each token of a list.
pub open spec fn lexemes(list: Seq<Lexeme>) -> Seq<(LexemeKind, Seq<char>)> {
    Seq::new(list.len(), |i: int| (list[i].kind, list[i].text@))
}

/// The tokens that the solang lexer reads from a source.
pub uninterp spec fn lexed(src: Seq<char>) -> Seq<(LexemeKind, Seq<char>)>;

/// A text without a blank, and not empty.
pub open spec fn is_solid(t: Seq<char>) -> bool {
    t.len() > 0 && forall|i: int| 0 <= i < t.len() ==> #[trigger] t[i] != ' '
}

/// The tokens whose text is kept in the structural form are solid.
pub open spec fn solid_words(list: Seq<(LexemeKind, Seq<char>)>) -> bool {
    forall|i: int|
        0 <= i < list.len() && ((#[trigger] list[i]).0 == LexemeKind::Identifier || list[i].0
            == LexemeKind::Other) ==> is_solid(list[i].1)
}

/// `solang_parser::lexer::Lexer`, run to its end: the tokens are a function of the
/// source, each with the text that its `Display` gives. The lexer drops comments
/// and white space. An identifier, and every token that is neither an identifier
/// nor a number nor a literal, has a text, and no blank in it. Not stated: which
/// tokens a given source has.
#[verifier::external_body]
fn lex(src: &str) -> (r: Vec<Lexeme>)
    ensures
        lexemes(r@) == lexed(src@),
        solid_words(lexemes(r@)),
{
    let mut comments = Vec::new();
    let mut errors = Vec::new();
    Lexer::new(src, 0, &mut comments, &mut errors).map(|(_, tok, _)| Lexeme {
        text: tok.to_string(),
        kind: match tok {
            Token::Identifier(_) => LexemeKind::Identifier,
            Token::Number(..) => LexemeKind::Number,
            Token::RationalNumber(..) => LexemeKind::RationalNumber,
            Token::HexNumber(..) => LexemeKind::HexNumber,
            Token::StringLiteral(..) => LexemeKind::StringLiteral,
            Token::HexLiteral(_) => LexemeKind::HexLiteral,
            Token::AddressLiteral(_) => LexemeKind::AddressLiteral,
            _ => LexemeKind::Other,
        },
    }).collect()
}

// ── builtins ─────────────────────────────────────────────────────────────────

/// Solidity globals and their members.
pub open spec fn is_global(id: Seq<char>) -> bool {
    ||| id == "msg"@
    ||| id == "sender"@
    ||| id == "value"@
    ||| id == "data"@
    ||| id == "sig"@
    ||| id == "tx"@
    ||| id == "origin"@
    ||| id == "gasprice"@
    ||| id == "block"@
    ||| id == "timestamp"@
    ||| id == "number"@
    ||| id == "coinbase"@
    ||| id == "prevrandao"@
    ||| id == "difficulty"@
    ||| id == "gaslimit"@
    ||| id == "chainid"@
    ||| id == "basefee"@
    ||| id == "this"@
    ||| id == "super"@
    ||| id == "gasleft"@
    ||| id == "now"@
}

/// Solidity built-in functions.
pub open spec fn is_builtin_function(id: Seq<char>) -> bool {
    ||| id == "require"@
    ||| id == "revert"@
    ||| id == "assert"@
    ||| id == "keccak256"@
    ||| id == "sha256"@
    ||| id == "ripemd160"@
    ||| id == "ecrecover"@
    ||| id == "addmod"@
    ||| id == "mulmod"@
    ||| id == "selfdestruct"@
    ||| id == "abi"@
    ||| id == "encode"@
    ||| id == "encodePacked"@
    ||| id == "decode"@
    ||| id == "encodeWithSelector"@
    ||| id == "encodeWithSignature"@
    ||| id == "slot"@
    ||| id == "offset"@
    ||| id == "length"@
}

/// Yul / inline-assembly opcodes.
pub open spec fn is_opcode(id: Seq<char>) -> bool {
    ||| id == "add"@
    ||| id == "sub"@
    ||| id == "mul"@
    ||| id == "div"@
    ||| id == "sdiv"@
    ||| id == "mod"@
    ||| id == "smod"@
    ||| id == "exp"@
    ||| id == "not"@
    ||| id == "lt"@
    ||| id == "gt"@
    ||| id == "slt"@
    ||| id == "sgt"@
    ||| id == "eq"@
    ||| id == "iszero"@
    ||| id == "and"@
    ||| id == "or"@
    ||| id == "xor"@
    ||| id == "byte"@
    ||| id == "shl"@
    ||| id == "shr"@
    ||| id == "sar"@
    ||| id == "addmod"@
    ||| id == "mulmod"@
    ||| id == "signextend"@
    ||| id == "sload"@
    ||| id == "sstore"@
    ||| id == "mload"@
    ||| id == "mstore"@
    ||| id == "mstore8"@
    ||| id == "msize"@
    ||| id == "gas"@
    ||| id == "caller"@
    ||| id == "callvalue"@
    ||| id == "calldataload"@
    ||| id == "calldatasize"@
    ||| id == "calldatacopy"@
    ||| id == "codesize"@
    ||| id == "codecopy"@
    ||| id == "extcodesize"@
    ||| id == "extcodecopy"@
    ||| id == "returndatasize"@
    ||| id == "returndatacopy"@
    ||| id == "create"@
    ||| id == "create2"@
    ||| id == "call"@
    ||| id == "callcode"@
    ||| id == "delegatecall"@
    ||| id == "staticcall"@
    ||| id == "return"@
    ||| id == "selfbalance"@
    ||| id == "balance"@
    ||| id == "origin"@
    ||| id == "gasprice"@
    ||| id == "blockhash"@
    ||| id == "coinbase"@
    ||| id == "pop"@
    ||| id == "log0"@
    ||| id == "log1"@
    ||| id == "log2"@
    ||| id == "log3"@
    ||| id == "log4"@
}

fn global(id: &str) -> (r: bool)
    ensures
        r == is_global(id@),
{
    same(id, "msg") || same(id, "sender") || same(id, "value") || same(id, "data")
        || same(id, "sig") || same(id, "tx") || same(id, "origin") || same(id, "gasprice")
        || same(id, "block") || same(id, "timestamp") || same(id, "number")
        || same(id, "coinbase") || same(id, "prevrandao") || same(id, "difficulty")
        || same(id, "gaslimit") || same(id, "chainid") || same(id, "basefee") || same(id, "this")
        || same(id, "super") || same(id, "gasleft") || same(id, "now")
}

fn builtin_function(id: &str) -> (r: bool)
    ensures
        r == is_builtin_function(id@),
{
    same(id, "require") || same(id, "revert") || same(id, "assert") || same(id, "keccak256")
        || same(id, "sha256") || same(id, "ripemd160") || same(id, "ecrecover")
        || same(id, "addmod") || same(id, "mulmod") || same(id, "selfdestruct")
        || same(id, "abi") || same(id, "encode") || same(id, "encodePacked")
        || same(id, "decode") || same(id, "encodeWithSelector")
        || same(id, "encodeWithSignature") || same(id, "slot") || same(id, "offset")
        || same(id, "length")
}

fn opcode(id: &str) -> (r: bool)
    ensures
        r == is_opcode(id@),
{
    same(id, "add") || same(id, "sub") || same(id, "mul") || same(id, "div") || same(id, "sdiv")
        || same(id, "mod") || same(id, "smod") || same(id, "exp") || same(id, "not")
        || same(id, "lt") || same(id, "gt") || same(id, "slt") || same(id, "sgt")
        || same(id, "eq") || same(id, "iszero") || same(id, "and") || same(id, "or")
        || same(id, "xor") || same(id, "byte") || same(id, "shl") || same(id, "shr")
        || same(id, "sar") || same(id, "addmod") || same(id, "mulmod") || same(id, "signextend")
        || same(id, "sload") || same(id, "sstore") || same(id, "mload") || same(id, "mstore")
        || same(id, "mstore8") || same(id, "msize") || same(id, "gas") || same(id, "caller")
        || same(id, "callvalue") || same(id, "calldataload") || same(id, "calldatasize")
        || same(id, "calldatacopy") || same(id, "codesize") || same(id, "codecopy")
        || same(id, "extcodesize") || same(id, "extcodecopy") || same(id, "returndatasize")
        || same(id, "returndatacopy") || same(id, "create") || same(id, "create2")
        || same(id, "call") || same(id, "callcode") || same(id, "delegatecall")
        || same(id, "staticcall") || same(id, "return") || same(id, "selfbalance")
        || same(id, "balance") || same(id, "origin") || same(id, "gasprice")
        || same(id, "blockhash") || same(id, "coinbase") || same(id, "pop") || same(id, "log0")
        || same(id, "log1") || same(id, "log2") || same(id, "log3") || same(id, "log4")
}

/// EVM/Solidity globals and Yul opcodes that lex as identifiers, kept as anchors in
/// the structural form so matching doesn't collapse `msg.sender`/`sstore` to `ID`.
pub open spec fn is_anchor(id: Seq<char>) -> bool {
    is_global(id) || is_builtin_function(id) || is_opcode(id)
}

/// Whether an identifier is a builtin.
pub fn is_builtin(id: &str) -> (r: bool)
    ensures
        r == is_anchor(id@),
{
    global(id) || builtin_function(id) || opcode(id)
}

// ── canonical forms ──────────────────────────────────────────────────────────

/// The structural form of a token.
pub open spec fn abstracted(tok: (LexemeKind, Seq<char>)) -> Seq<char> {
    match tok.0 {
        LexemeKind::Identifier => if is_anchor(tok.1) {
            tok.1
        } else {
            "ID"@
        },
        LexemeKind::Number | LexemeKind::RationalNumber | LexemeKind::HexNumber => "NUM"@,
        LexemeKind::StringLiteral => "STR"@,
        LexemeKind::HexLiteral => "HEX"@,
        LexemeKind::AddressLiteral => "ADDR"@,
        LexemeKind::Other => tok.1,
    }
}

/// The canonical strings of a list of tokens.
pub open spec fn canonical(toks: Seq<(LexemeKind, Seq<char>)>, structural: bool) -> Seq<Seq<char>> {
    toks.map_values(
        |t: (LexemeKind, Seq<char>)|
            if structural {
                abstracted(t)
            } else {
                t.1
            },
    )
}

/// The canonical string of a token.
fn canon_token(tok: &Lexeme, structural: bool) -> (r: String)
    ensures
        r@ == (if structural {
            abstracted((tok.kind, tok.text@))
        } else {
            tok.text@
        }),
{
    if !structural {
        return tok.text.clone();
    }
    match tok.kind {
        LexemeKind::Identifier => if is_builtin(tok.text.as_str()) {
            tok.text.clone()
        } else {
            "ID".to_owned()
        },
        LexemeKind::Number | LexemeKind::RationalNumber | LexemeKind::HexNumber => "NUM".to_owned(),
        LexemeKind::StringLiteral => "STR".to_owned(),
        LexemeKind::HexLiteral => "HEX".to_owned(),
        LexemeKind::AddressLiteral => "ADDR".to_owned(),
        LexemeKind::Other => tok.text.clone(),
    }
}

/// The canonical strings of a list of tokens. When `structural`,
/// identifiers/literals are abstracted.
pub fn canon_lexemes(toks: &Vec<Lexeme>, structural: bool) -> (r: Vec<String>)
    ensures
        text::views(r@) == canonical(lexemes(toks@), structural),
{
    let ghost all = canonical(lexemes(toks@), structural);
    let mut out: Vec<String> = Vec::new();
    let mut i: usize = 0;
    proof {
        assert(text::views(out@) =~= all.take(0));
    }
    while i < toks.len()
        invariant
            i <= toks@.len(),
            all == canonical(lexemes(toks@), structural),
            text::views(out@) == all.take(i as int),
        decreases toks.len() - i,
    {
        let s = canon_token(&toks[i], structural);
        proof {
            assert(lexemes(toks@)[i as int] == (toks@[i as int].kind, toks@[i as int].text@));
            text::lemma_views_push(out@, s);
            assert(all.take(i as int).push(all[i as int]) =~= all.take(i + 1));
        }
        out.push(s);
        i += 1;
    }
    proof {
        assert(all.take(all.len() as int) =~= all);
    }
    out
}

/// Tokenize `src`, mapping each token to a canonical string. Comments are dropped
/// by the lexer.
fn canon_tokens(src: &str, structural: bool) -> (r: Vec<String>)
    ensures
        text::views(r@) == canonical(lexed(src@), structural),
        solid_words(lexed(src@)),
        structural ==> all_solid(text::views(r@)),
{
    let toks = lex(src);
    proof {
        if structural {
            lemma_canonical_solid(lexemes(toks@));
        }
    }
    canon_lexemes(&toks, structural)
}

/// The canonical strings joined by blanks.
pub open spec fn key_text(toks: Seq<Seq<char>>) -> Seq<char> {
    split::joined(toks, " "@)
}

/// Cache key: comments stripped + whitespace collapsed, identifiers/literals kept.
pub fn lexical_key(src: &str) -> (r: String)
    ensures
        r@ == key_text(canonical(lexed(src@), false)),
        solid_words(lexed(src@)),
{
    let toks = canon_tokens(src, false);
    join(&toks, " ")
}

/// Structural fingerprint: identifiers become `ID`, numbers `NUM`, literals are
/// abstracted, builtins kept. Alpha-equivalent code yields the same string.
pub fn structural(src: &str) -> (r: String)
    ensures
        r@ == key_text(canonical(lexed(src@), true)),
        solid_words(lexed(src@)),
{
    let toks = canon_tokens(src, true);
    join(&toks, " ")
}

// ── matching ─────────────────────────────────────────────────────────────────

/// A text with a blank on either side.
pub open spec fn padded(s: Seq<char>) -> Seq<char> {
    " "@ + s + " "@
}

fn pad(s: &str) -> (r: String)
    ensures
        r@ == padded(s@),
{
    let mut out = " ".to_owned();
    out.append(s);
    out.append(" ");
    out
}

/// A known pattern: its id, and the padded structural form of its code.
pub open spec fn template(id: Seq<char>, toks: Seq<Seq<char>>) -> (Seq<char>, Seq<char>) {
    (id, padded(key_text(toks)))
}

/// The templates of a list of `(id, tokens)`, without those too short to match on.
pub open spec fn templates_of(patterns: Seq<(Seq<char>, Seq<Seq<char>>)>) -> Seq<
    (Seq<char>, Seq<char>),
>
    decreases patterns.len(),
{
    if patterns.len() == 0 {
        seq![]
    } else {
        let head = templates_of(patterns.drop_last());
        let (id, toks) = patterns.last();
        if toks.len() >= MIN_TEMPLATE_TOKENS {
            head.push(template(id, toks))
        } else {
            head
        }
    }
}

/// The patterns that are long enough to match on.
pub open spec fn long_enough(patterns: Seq<(Seq<char>, Seq<Seq<char>>)>) -> Seq<
    (Seq<char>, Seq<Seq<char>>),
> {
    patterns.filter(|p: (Seq<char>, Seq<Seq<char>>)| p.1.len() >= MIN_TEMPLATE_TOKENS)
}

/// Each pattern with the structural tokens of its code.
pub open spec fn tokenized(patterns: Seq<(Seq<char>, Seq<char>)>) -> Seq<
    (Seq<char>, Seq<Seq<char>>),
> {
    patterns.map_values(|p: (Seq<char>, Seq<char>)| (p.0, canonical(lexed(p.1), true)))
}

/// The ids of the templates that stand in `hay`, at most `cap` of them.
pub open spec fn matching_ids(
    templates: Seq<(Seq<char>, Seq<char>)>,
    hay: Seq<char>,
    cap: nat,
) -> Seq<Seq<char>>
    decreases templates.len(),
{
    if templates.len() == 0 || cap == 0 {
        seq![]
    } else if text::holds(hay, templates[0].1) {
        seq![templates[0].0] + matching_ids(templates.skip(1), hay, (cap - 1) as nat)
    } else {
        matching_ids(templates.skip(1), hay, cap)
    }
}

/// The ids of the patterns whose tokens stand in those of a function, one after the
/// other: the first `cap` of them.
pub open spec fn matching_runs(
    patterns: Seq<(Seq<char>, Seq<Seq<char>>)>,
    function: Seq<Seq<char>>,
    cap: nat,
) -> Seq<Seq<char>>
    decreases patterns.len(),
{
    if patterns.len() == 0 || cap == 0 {
        seq![]
    } else if contains_run(function, patterns[0].1) {
        seq![patterns[0].0] + matching_runs(patterns.skip(1), function, (cap - 1) as nat)
    } else {
        matching_runs(patterns.skip(1), function, cap)
    }
}

/// A deterministic "Seeker" matcher: holds the structural form of each known
/// gas-pattern's `solidity_before`, and finds which patterns a function's
/// structure contains, regardless of variable names or formatting.
pub struct PatternMatcher {
    /// `(pattern_id, structural_template)`: token-joined, space-padded for
    /// boundary-safe substring matching.
    templates: Vec<(String, String)>,
    /// The structural tokens of each template.
    tokens: Ghost<Seq<Seq<Seq<char>>>>,
}

impl PatternMatcher {
    /// The `(id, template)` pairs.
    pub closed spec fn templates(self) -> Seq<(Seq<char>, Seq<char>)> {
        text::pair_views(self.templates@)
    }

    /// The `(id, structural tokens)` pairs.
    pub closed spec fn patterns(self) -> Seq<(Seq<char>, Seq<Seq<char>>)> {
        Seq::new(self.templates@.len(), |i: int| (self.templates@[i].0@, self.tokens@[i]))
    }

    /// Each template is made of the tokens of a pattern that can be matched on.
    #[verifier::type_invariant]
    spec fn well_formed(self) -> bool {
        &&& self.tokens@.len() == self.templates@.len()
        &&& forall|i: int|
            0 <= i < self.tokens@.len() ==> is_template(
                self.templates@[i].1@,
                #[trigger] self.tokens@[i],
            )
    }
}

/// Each template's id with its tokens.
spec fn with_tokens(templates: Seq<(String, String)>, tokens: Seq<Seq<Seq<char>>>) -> Seq<
    (Seq<char>, Seq<Seq<char>>),
> {
    Seq::new(templates.len(), |i: int| (templates[i].0@, tokens[i]))
}

/// A template made of the given tokens, which can be matched on.
spec fn is_template(tpl: Seq<char>, toks: Seq<Seq<char>>) -> bool {
    &&& tpl == padded(key_text(toks))
    &&& all_solid(toks)
    &&& toks.len() >= MIN_TEMPLATE_TOKENS
}

impl Default for PatternMatcher {
    fn default() -> (r: Self)
        ensures
            r.templates().len() == 0,
            r.patterns().len() == 0,
    {
        PatternMatcher { templates: Vec::new(), tokens: Ghost(Seq::empty()) }
    }
}

impl PatternMatcher {
    /// Build from `(pattern_id, solidity_before)` pairs. Templates with too few
    /// tokens are dropped as too generic.
    pub fn build(patterns: Vec<(String, String)>) -> (r: Self)
        ensures
            r.patterns() == long_enough(tokenized(text::pair_views(patterns@))),
            r.templates() == templates_of(tokenized(text::pair_views(patterns@))),
            forall|i: int|
                0 <= i < patterns@.len() ==> solid_words(lexed((#[trigger] patterns@[i]).1@)),
    {
        let ghost mut tokens: Seq<Seq<Seq<char>>> = seq![];
        let ghost ps = tokenized(text::pair_views(patterns@));
        let mut templates: Vec<(String, String)> = Vec::new();
        let mut i: usize = 0;
        proof {
            reveal(Seq::filter);
            assert(text::pair_views(templates@) =~= templates_of(ps.take(0)));
            assert(with_tokens(templates@, tokens) =~= long_enough(ps.take(0)));
        }
        while i < patterns.len()
            invariant
                i <= patterns@.len(),
                ps == tokenized(text::pair_views(patterns@)),
                text::pair_views(templates@) == templates_of(ps.take(i as int)),
                with_tokens(templates@, tokens) == long_enough(ps.take(i as int)),
                tokens.len() == templates@.len(),
                forall|k: int|
                    0 <= k < tokens.len() ==> is_template(
                        templates@[k].1@,
                        #[trigger] tokens[k],
                    ),
                forall|k: int|
                    0 <= k < i ==> solid_words(lexed((#[trigger] patterns@[k]).1@)),
            decreases patterns.len() - i,
        {
            let toks = canon_tokens(patterns[i].1.as_str(), true);
            proof {
                reveal(Seq::filter);
                assert(text::pair_views(patterns@)[i as int] == (
                    patterns@[i as int].0@,
                    patterns@[i as int].1@,
                ));
                assert(ps.take(i + 1).drop_last() =~= ps.take(i as int));
                assert(ps.take(i + 1).last() == (
                    patterns@[i as int].0@,
                    canonical(lexed(patterns@[i as int].1@), true),
                ));
                assert(text::views(toks@).len() == toks@.len());
            }
            if toks.len() >= MIN_TEMPLATE_TOKENS {
                // Pad so matching respects token boundaries.
                let key = join(&toks, " ");
                let tpl = pad(key.as_str());
                let id = patterns[i].0.clone();
                proof {
                    assert(text::pair_views(templates@.push((id, tpl))) =~= text::pair_views(
                        templates@,
                    ).push((id@, tpl@)));
                    assert(with_tokens(templates@.push((id, tpl)), tokens.push(text::views(toks@)))
                        =~= with_tokens(templates@, tokens).push((id@, text::views(toks@))));
                    tokens = tokens.push(text::views(toks@));
                }
                templates.push((id, tpl));
            }
            i += 1;
        }
        proof {
            assert(ps.take(ps.len() as int) =~= ps);
        }
        let r = PatternMatcher { templates, tokens: Ghost(tokens) };
        proof {
            assert(r.patterns() =~= with_tokens(templates@, tokens));
        }
        r
    }

    /// The number of templates.
    pub fn len(&self) -> (r: usize)
        ensures
            r == self.templates().len(),
    {
        self.templates.len()
    }

    /// Whether there is no template.
    pub fn is_empty(&self) -> (r: bool)
        ensures
            r == (self.templates().len() == 0),
    {
        self.templates.len() == 0
    }

    /// Pattern ids whose structural template appears in `fn_src` (capped at
    /// [`MAX_STRUCT_MATCHES`]): those whose tokens stand in the function's, one after
    /// the other.
    pub fn match_function(&self, fn_src: &str) -> (r: Vec<String>)
        ensures
            text::views(r@) == matching_runs(
                self.patterns(),
                canonical(lexed(fn_src@), true),
                MAX_STRUCT_MATCHES as nat,
            ),
            text::views(r@) == matching_ids(
                self.templates(),
                padded(key_text(canonical(lexed(fn_src@), true))),
                MAX_STRUCT_MATCHES as nat,
            ),
            r@.len() <= MAX_STRUCT_MATCHES,
            solid_words(lexed(fn_src@)),
    {
        let form = structural(fn_src);
        proof {
            use_type_invariant(self);
            let toks = canonical(lexed(fn_src@), true);
            lemma_canonical_solid(lexed(fn_src@));
            lemma_runs_are_texts(self.patterns(), self.templates(), toks, MAX_STRUCT_MATCHES as nat);
        }
        self.match_structure(form.as_str())
    }

    /// Pattern ids whose template appears in the structural form `form`.
    pub fn match_structure(&self, form: &str) -> (r: Vec<String>)
        ensures
            text::views(r@) == matching_ids(
                self.templates(),
                padded(form@),
                MAX_STRUCT_MATCHES as nat,
            ),
            r@.len() <= MAX_STRUCT_MATCHES,
    {
        let hay = pad(form);
        let ghost ts = self.templates();
        let ghost all = matching_ids(ts, hay@, MAX_STRUCT_MATCHES as nat);
        let mut out: Vec<String> = Vec::new();
        let mut i: usize = 0;
        proof {
            assert(ts.skip(0) =~= ts);
            assert(text::views(out@) + all =~= all);
        }
        while i < self.templates.len() && out.len() < MAX_STRUCT_MATCHES
            invariant
                i <= self.templates@.len(),
                ts == self.templates(),
                ts == text::pair_views(self.templates@),
                out@.len() <= MAX_STRUCT_MATCHES,
                text::views(out@) + matching_ids(
                    ts.skip(i as int),
                    hay@,
                    (MAX_STRUCT_MATCHES - out@.len()) as nat,
                ) == all,
            decreases self.templates.len() - i,
        {
            proof {
                assert(ts.skip(i as int)[0] == ts[i as int]);
                assert(ts.skip(i as int).skip(1) =~= ts.skip(i + 1));
            }
            if contains(hay.as_str(), self.templates[i].1.as_str()) {
                let id = self.templates[i].0.clone();
                proof {
                    let left = (MAX_STRUCT_MATCHES - out@.len() - 1) as nat;
                    text::lemma_views_push(out@, id);
                    assert(text::views(out@).push(id@) + matching_ids(ts.skip(i + 1), hay@, left)
                        =~= text::views(out@) + (seq![id@] + matching_ids(
                        ts.skip(i + 1),
                        hay@,
                        left,
                    )));
                }
                out.push(id);
            }
            i += 1;
        }
        proof {
            assert(matching_ids(
                ts.skip(i as int),
                hay@,
                (MAX_STRUCT_MATCHES - out@.len()) as nat,
            ).len() == 0);
            assert(text::views(out@) =~= all);
        }
        out
    }
}

// ── laws ─────────────────────────────────────────────────────────────────────

/// Every entry is solid.
pub open spec fn all_solid(toks: Seq<Seq<char>>) -> bool {
    forall|i: int| 0 <= i < toks.len() ==> is_solid(#[trigger] toks[i])
}

proof fn lemma_placeholders_solid()
    ensures
        is_solid("ID"@),
        is_solid("NUM"@),
        is_solid("STR"@),
        is_solid("HEX"@),
        is_solid("ADDR"@),
{
    reveal_strlit("ID");
    reveal_strlit("NUM");
    reveal_strlit("STR");
    reveal_strlit("HEX");
    reveal_strlit("ADDR");
}

/// The structural form of tokens whose words are solid is solid.
pub proof fn lemma_canonical_solid(toks: Seq<(LexemeKind, Seq<char>)>)
    requires
        solid_words(toks),
    ensures
        all_solid(canonical(toks, true)),
{
    lemma_placeholders_solid();
    assert forall|i: int| 0 <= i < canonical(toks, true).len() implies is_solid(
        #[trigger] canonical(toks, true)[i],
    ) by {
        assert(canonical(toks, true)[i] == abstracted(toks[i]));
    }
}

/// A number, however it is written.
pub open spec fn is_number(kind: LexemeKind) -> bool {
    kind == LexemeKind::Number || kind == LexemeKind::RationalNumber || kind
        == LexemeKind::HexNumber
}

/// Two tokens that only differ in what the structural form abstracts: the name of
/// a user identifier, or the value of a literal.
pub open spec fn alike(a: (LexemeKind, Seq<char>), b: (LexemeKind, Seq<char>)) -> bool {
    if is_number(a.0) {
        is_number(b.0)
    } else {
        a.0 == b.0 && match a.0 {
            LexemeKind::Identifier => a.1 == b.1 || !is_anchor(a.1) && !is_anchor(b.1),
            LexemeKind::Other => a.1 == b.1,
            _ => true,
        }
    }
}

/// Alpha-equivalent code has the same structural form: sources whose tokens differ
/// only in names and literal values get the same fingerprint.
pub proof fn law_structure_ignores_names(a: Seq<char>, b: Seq<char>)
    requires
        lexed(a).len() == lexed(b).len(),
        forall|i: int| 0 <= i < lexed(a).len() ==> alike(#[trigger] lexed(a)[i], lexed(b)[i]),
    ensures
        key_text(canonical(lexed(a), true)) == key_text(canonical(lexed(b), true)),
{
    assert forall|i: int| 0 <= i < lexed(a).len() implies canonical(lexed(a), true)[i]
        == canonical(lexed(b), true)[i] by {
        assert(alike(lexed(a)[i], lexed(b)[i]));
    }
    assert(canonical(lexed(a), true) =~= canonical(lexed(b), true));
}

/// The cache key depends on the tokens alone: sources that the lexer reads alike,
/// so that they differ only in comments and layout, share their key.
pub proof fn law_key_ignores_layout(a: Seq<char>, b: Seq<char>)
    requires
        lexed(a) == lexed(b),
    ensures
        key_text(canonical(lexed(a), false)) == key_text(canonical(lexed(b), false)),
{
}

/// The tokens in a row, each with a blank before it, and one at the end.
pub open spec fn row(toks: Seq<Seq<char>>) -> Seq<char>
    decreases toks.len(),
{
    if toks.len() == 0 {
        seq![' ']
    } else {
        seq![' '] + toks[0] + row(toks.skip(1))
    }
}

/// The tokens `b` stand in `a`, one after the other.
pub open spec fn contains_run(a: Seq<Seq<char>>, b: Seq<Seq<char>>) -> bool {
    exists|i: int| 0 <= i && i + b.len() <= a.len() && #[trigger] a.subrange(i, i + b.len()) == b
}

proof fn lemma_row_push(toks: Seq<Seq<char>>, t: Seq<char>)
    ensures
        row(toks.push(t)) == row(toks) + t + seq![' '],
    decreases toks.len(),
{
    let all = toks.push(t);
    if toks.len() == 0 {
        assert(all.skip(1) =~= toks);
        assert(all[0] == t);
        assert(row(toks) =~= seq![' ']);
        assert(row(all) =~= row(toks) + t + seq![' ']);
    } else {
        assert(all.skip(1) =~= toks.skip(1).push(t));
        lemma_row_push(toks.skip(1), t);
        assert(row(all) =~= row(toks) + t + seq![' ']);
    }
}

/// A padded key is its tokens in a row.
proof fn lemma_padded_is_row(toks: Seq<Seq<char>>)
    requires
        toks.len() > 0,
    ensures
        padded(key_text(toks)) == row(toks),
    decreases toks.len(),
{
    reveal_strlit(" ");
    assert(" "@ =~= seq![' ']);
    let head = toks.drop_last();
    assert(toks =~= head.push(toks.last()));
    lemma_row_push(head, toks.last());
    if head.len() == 0 {
        assert(padded(key_text(toks)) =~= row(toks));
    } else {
        lemma_padded_is_row(head);
        assert(padded(key_text(toks)) =~= padded(key_text(head)) + toks.last() + seq![' ']);
    }
}

proof fn lemma_row_prefix(a: Seq<Seq<char>>, b: Seq<Seq<char>>)
    requires
        all_solid(a),
        all_solid(b),
        text::has_prefix(row(a), row(b)),
    ensures
        b.len() <= a.len(),
        a.subrange(0, b.len() as int) == b,
    decreases b.len(),
{
    if b.len() == 0 {
        assert(a.subrange(0, 0) =~= b);
    } else {
        let ra = row(a);
        let rb = row(b);
        assert(is_solid(b[0]));
        assert forall|k: int| 0 <= k < rb.len() implies ra[k] == rb[k] by {
            assert(ra.subrange(0, rb.len() as int)[k] == rb[k]);
        }
        let tail = row(b.skip(1));
        lemma_row_starts_blank(b.skip(1));
        assert(rb.len() == 1 + b[0].len() + tail.len());
        assert(a.len() > 0) by {
            if a.len() == 0 {
                assert(ra.len() == 1);
            }
        }
        assert(is_solid(a[0]));
        let ta = row(a.skip(1));
        lemma_row_starts_blank(a.skip(1));
        let n = b[0].len() as int;
        let m = a[0].len() as int;
        assert(rb[1 + n] == tail[0]);
        assert(ra[1 + m] == ta[0]);
        if n < m {
            assert(ra[1 + n] == a[0][n]);
        } else if m < n {
            assert(rb[1 + m] == b[0][m]);
        }
        assert forall|k: int| 0 <= k < n implies a[0][k] == b[0][k] by {
            assert(ra[1 + k] == a[0][k]);
            assert(rb[1 + k] == b[0][k]);
        }
        assert(a[0] =~= b[0]);
        assert forall|k: int| 0 <= k < tail.len() implies ta[k] == tail[k] by {
            assert(ra[1 + n + k] == ta[k]);
            assert(rb[1 + n + k] == tail[k]);
        }
        assert(tail.len() <= ta.len());
        assert(ta.subrange(0, tail.len() as int) =~= tail);
        assert forall|i: int| 0 <= i < a.skip(1).len() implies is_solid(
            #[trigger] a.skip(1)[i],
        ) by {
            assert(a.skip(1)[i] == a[i + 1]);
        }
        assert forall|i: int| 0 <= i < b.skip(1).len() implies is_solid(
            #[trigger] b.skip(1)[i],
        ) by {
            assert(b.skip(1)[i] == b[i + 1]);
        }
        lemma_row_prefix(a.skip(1), b.skip(1));
        assert forall|i: int| 0 <= i < b.len() implies a[i] == b[i] by {
            if i > 0 {
                assert(a.skip(1).subrange(0, b.skip(1).len() as int)[i - 1] == b.skip(1)[i - 1]);
            }
        }
        assert(a.subrange(0, b.len() as int) =~= b);
    }
}

proof fn lemma_row_starts_blank(toks: Seq<Seq<char>>)
    ensures
        row(toks).len() > 0,
        row(toks)[0] == ' ',
{
}

proof fn lemma_row_occurrence(a: Seq<Seq<char>>, b: Seq<Seq<char>>, p: int)
    requires
        all_solid(a),
        all_solid(b),
        text::occurs_at(row(a), row(b), p),
        b.len() > 0,
    ensures
        contains_run(a, b),
    decreases a.len(),
{
    let ra = row(a);
    let rb = row(b);
    lemma_row_starts_blank(b);
    if p == 0 {
        lemma_row_prefix(a, b);
        assert(a.subrange(0int, 0int + b.len()) == b);
    } else {
        assert(rb.len() > 1);
        assert(a.len() > 0);
        assert(is_solid(a[0]));
        let m = a[0].len() as int;
        let ta = row(a.skip(1));
        assert(ra[p] == rb[0]) by {
            assert(ra.subrange(p, p + rb.len())[0] == rb[0]);
        }
        if p <= m {
            assert(ra[p] == a[0][p - 1]);
        } else {
            assert(ta.subrange(p - 1 - m, p - 1 - m + rb.len()) =~= ra.subrange(p, p + rb.len()));
            assert forall|i: int| 0 <= i < a.skip(1).len() implies is_solid(
                #[trigger] a.skip(1)[i],
            ) by {
                assert(a.skip(1)[i] == a[i + 1]);
            }
            lemma_row_occurrence(a.skip(1), b, p - 1 - m);
            let i = choose|i: int|
                0 <= i && i + b.len() <= a.skip(1).len() && #[trigger] a.skip(1).subrange(
                    i,
                    i + b.len(),
                ) == b;
            assert(a.subrange(i + 1, i + 1 + b.len()) =~= a.skip(1).subrange(i, i + b.len()));
        }
    }
}

proof fn lemma_run_occurs(a: Seq<Seq<char>>, b: Seq<Seq<char>>, i: int)
    requires
        0 <= i && i + b.len() <= a.len(),
        a.subrange(i, i + b.len()) == b,
    ensures
        text::holds(row(a), row(b)),
    decreases a.len(),
{
    if i == 0 {
        lemma_row_extends(a, b);
        assert(text::occurs_at(row(a), row(b), 0));
    } else {
        assert(a.skip(1).subrange(i - 1, i - 1 + b.len()) =~= a.subrange(i, i + b.len()));
        lemma_run_occurs(a.skip(1), b, i - 1);
        let k = choose|k: int| text::occurs_at(row(a.skip(1)), row(b), k);
        let at = 1 + a[0].len() + k;
        assert(row(a).subrange(at, at + row(b).len()) =~= row(a.skip(1)).subrange(
            k,
            k + row(b).len(),
        ));
        assert(text::occurs_at(row(a), row(b), at));
    }
}

proof fn lemma_row_extends(a: Seq<Seq<char>>, b: Seq<Seq<char>>)
    requires
        b.len() <= a.len(),
        a.subrange(0, b.len() as int) == b,
    ensures
        text::has_prefix(row(a), row(b)),
    decreases b.len(),
{
    if b.len() == 0 {
        lemma_row_starts_blank(a);
        assert(row(a).subrange(0, 1) =~= row(b));
    } else {
        assert(a[0] == a.subrange(0, b.len() as int)[0]);
        assert(a.skip(1).subrange(0, b.skip(1).len() as int) =~= a.subrange(
            0,
            b.len() as int,
        ).skip(1));
        lemma_row_extends(a.skip(1), b.skip(1));
        let ta = row(a.skip(1));
        let tb = row(b.skip(1));
        assert(row(a).subrange(0, row(b).len() as int) =~= seq![' '] + a[0] + ta.subrange(
            0,
            tb.len() as int,
        ));
    }
}

/// Matching is boundary-safe: a pattern's template stands in the structural form of
/// a function exactly when the pattern's tokens stand in the function's, one after
/// the other.
pub proof fn law_matching_respects_tokens(function: Seq<char>, pattern: Seq<char>)
    requires
        solid_words(lexed(function)),
        solid_words(lexed(pattern)),
        lexed(pattern).len() >= MIN_TEMPLATE_TOKENS,
    ensures
        text::holds(
            padded(key_text(canonical(lexed(function), true))),
            padded(key_text(canonical(lexed(pattern), true))),
        ) <==> contains_run(canonical(lexed(function), true), canonical(lexed(pattern), true)),
{
    lemma_canonical_solid(lexed(function));
    lemma_canonical_solid(lexed(pattern));
    lemma_padded_occurs(canonical(lexed(function), true), canonical(lexed(pattern), true));
}

/// Matching templates as texts is matching patterns token by token.
proof fn lemma_runs_are_texts(
    patterns: Seq<(Seq<char>, Seq<Seq<char>>)>,
    templates: Seq<(Seq<char>, Seq<char>)>,
    function: Seq<Seq<char>>,
    cap: nat,
)
    requires
        all_solid(function),
        patterns.len() == templates.len(),
        forall|i: int|
            0 <= i < patterns.len() ==> (#[trigger] patterns[i]).0 == templates[i].0
                && is_template(templates[i].1, patterns[i].1),
    ensures
        matching_ids(templates, padded(key_text(function)), cap) == matching_runs(
            patterns,
            function,
            cap,
        ),
    decreases patterns.len(),
{
    if patterns.len() > 0 && cap > 0 {
        let rest = patterns.skip(1);
        assert(is_template(templates[0].1, patterns[0].1) && patterns[0].0 == templates[0].0);
        lemma_padded_occurs(function, patterns[0].1);
        assert forall|i: int| 0 <= i < rest.len() implies (#[trigger] rest[i]).0
            == templates.skip(1)[i].0 && is_template(templates.skip(1)[i].1, rest[i].1) by {
            assert(rest[i] == patterns[i + 1]);
            assert(templates.skip(1)[i] == templates[i + 1]);
        }
        if contains_run(function, patterns[0].1) {
            lemma_runs_are_texts(rest, templates.skip(1), function, (cap - 1) as nat);
        } else {
            lemma_runs_are_texts(rest, templates.skip(1), function, cap);
        }
    }
}

proof fn lemma_padded_occurs(function: Seq<Seq<char>>, pattern: Seq<Seq<char>>)
    requires
        all_solid(function),
        all_solid(pattern),
        pattern.len() >= MIN_TEMPLATE_TOKENS,
    ensures
        text::holds(padded(key_text(function)), padded(key_text(pattern))) <==> contains_run(
            function,
            pattern,
        ),
{
    lemma_padded_is_row(pattern);
    if function.len() == 0 {
        reveal_strlit(" ");
        lemma_row_length(pattern);
        assert(padded(key_text(function)).len() == 2);
        assert(!contains_run(function, pattern));
    } else {
        lemma_padded_is_row(function);
        if text::holds(row(function), row(pattern)) {
            let p = choose|p: int| text::occurs_at(row(function), row(pattern), p);
            lemma_row_occurrence(function, pattern, p);
        }
        if contains_run(function, pattern) {
            let i = choose|i: int|
                0 <= i && i + pattern.len() <= function.len() && #[trigger] function.subrange(
                    i,
                    i + pattern.len(),
                ) == pattern;
            lemma_run_occurs(function, pattern, i);
        }
    }
}

proof fn lemma_row_length(toks: Seq<Seq<char>>)
    ensures
        row(toks).len() >= toks.len() + 1,
    decreases toks.len(),
{
    if toks.len() > 0 {
        lemma_row_length(toks.skip(1));
    }
}

/// The key is made of as many pieces as the lexer reads tokens, each the token's own
/// text; the structural form of as many, each the text, or what stands for it.
pub proof fn law_every_token_enters_the_forms(src: Seq<char>, i: int)
    ensures
        canonical(lexed(src), false).len() == lexed(src).len(),
        canonical(lexed(src), true).len() == lexed(src).len(),
        0 <= i < lexed(src).len() ==> canonical(lexed(src), false)[i] == lexed(src)[i].1,
        0 <= i < lexed(src).len() ==> ({
            let s = canonical(lexed(src), true)[i];
            match lexed(src)[i].0 {
                LexemeKind::Identifier => s == lexed(src)[i].1 || s == "ID"@,
                LexemeKind::Other => s == lexed(src)[i].1,
                LexemeKind::StringLiteral => s == "STR"@,
                LexemeKind::HexLiteral => s == "HEX"@,
                LexemeKind::AddressLiteral => s == "ADDR"@,
                _ => s == "NUM"@,
            }
        }),
{
}

proof fn lemma_keys_differ(a: Seq<Seq<char>>, b: Seq<Seq<char>>)
    requires
        all_solid(a),
        all_solid(b),
        key_text(a) == key_text(b),
    ensures
        a == b,
{
    if a.len() == 0 || b.len() == 0 {
        if a.len() > 0 {
            lemma_padded_is_row(a);
            assert(is_solid(a[0]));
            lemma_row_starts_blank(a.skip(1));
            assert(row(a).len() >= 3);
            reveal_strlit(" ");
            assert(padded(key_text(b)).len() == 2);
        }
        if b.len() > 0 {
            lemma_padded_is_row(b);
            assert(is_solid(b[0]));
            lemma_row_starts_blank(b.skip(1));
            assert(row(b).len() >= 3);
            reveal_strlit(" ");
            assert(padded(key_text(a)).len() == 2);
        }
        assert(a =~= b);
    } else {
        lemma_padded_is_row(a);
        lemma_padded_is_row(b);
        assert(row(a).subrange(0, row(b).len() as int) =~= row(b));
        assert(row(b).subrange(0, row(a).len() as int) =~= row(a));
        lemma_row_prefix(a, b);
        lemma_row_prefix(b, a);
        assert(a.subrange(0, b.len() as int) =~= a);
    }
}

/// The key tells contracts apart: sources whose tokens have no blanks in them, and
/// differ in text or in number anywhere, have different keys.
pub proof fn law_different_tokens_have_different_keys(a: Seq<char>, b: Seq<char>)
    requires
        forall|i: int| 0 <= i < lexed(a).len() ==> is_solid((#[trigger] lexed(a)[i]).1),
        forall|i: int| 0 <= i < lexed(b).len() ==> is_solid((#[trigger] lexed(b)[i]).1),
        lexed(a).len() != lexed(b).len() || exists|i: int|
            0 <= i < lexed(a).len() && (#[trigger] lexed(a)[i]).1 != lexed(b)[i].1,
    ensures
        key_text(canonical(lexed(a), false)) != key_text(canonical(lexed(b), false)),
{
    let ka = canonical(lexed(a), false);
    let kb = canonical(lexed(b), false);
    assert forall|i: int| 0 <= i < ka.len() implies is_solid(#[trigger] ka[i]) by {
        assert(ka[i] == lexed(a)[i].1);
    }
    assert forall|i: int| 0 <= i < kb.len() implies is_solid(#[trigger] kb[i]) by {
        assert(kb[i] == lexed(b)[i].1);
    }
    if key_text(ka) == key_text(kb) {
        lemma_keys_differ(ka, kb);
        if lexed(a).len() == lexed(b).len() {
            let i = choose|i: int|
                0 <= i < lexed(a).len() && (#[trigger] lexed(a)[i]).1 != lexed(b)[i].1;
            assert(ka[i] == kb[i]);
        }
    }
}

proof fn lemma_one_piece_differs(a: Seq<Seq<char>>, b: Seq<Seq<char>>, i: int)
    requires
        0 <= i < a.len() == b.len(),
        a[i] != b[i],
        forall|k: int| 0 <= k < a.len() && k != i ==> #[trigger] a[k] == b[k],
    ensures
        key_text(a) != key_text(b),
    decreases a.len(),
{
    let sep = " "@;
    if a.len() == 1 {
    } else {
        let ha = a.drop_last();
        let hb = b.drop_last();
        let pa = key_text(ha) + sep;
        let pb = key_text(hb) + sep;
        if i == a.len() - 1 {
            assert(ha =~= hb) by {
                assert forall|k: int| 0 <= k < ha.len() implies ha[k] == hb[k] by {
                    assert(a[k] == b[k]);
                }
            }
            if key_text(a) == key_text(b) {
                let n = pa.len() as int;
                assert(key_text(a).skip(n) =~= a.last());
                assert(key_text(b).skip(n) =~= b.last());
            }
        } else {
            assert forall|k: int| 0 <= k < ha.len() && k != i implies #[trigger] ha[k] == hb[k] by {
                assert(a[k] == b[k]);
            }
            lemma_one_piece_differs(ha, hb, i);
            assert(a[a.len() - 1] == b[a.len() - 1]);
            if key_text(a) == key_text(b) {
                assert(key_text(ha).len() == key_text(hb).len());
                let n = key_text(ha).len() as int;
                assert(key_text(a).take(n) =~= key_text(ha));
                assert(key_text(b).take(n) =~= key_text(hb));
            }
        }
    }
}

/// A change to a single token changes the key, whatever the tokens hold.
pub proof fn law_a_changed_token_changes_the_key(a: Seq<char>, b: Seq<char>, i: int)
    requires
        lexed(a).len() == lexed(b).len(),
        0 <= i < lexed(a).len(),
        lexed(a)[i].1 != lexed(b)[i].1,
        forall|k: int|
            0 <= k < lexed(a).len() && k != i ==> (#[trigger] lexed(a)[k]).1 == lexed(b)[k].1,
    ensures
        key_text(canonical(lexed(a), false)) != key_text(canonical(lexed(b), false)),
{
    let ka = canonical(lexed(a), false);
    let kb = canonical(lexed(b), false);
    assert forall|k: int| 0 <= k < ka.len() && k != i implies #[trigger] ka[k] == kb[k] by {
        assert(lexed(a)[k].1 == lexed(b)[k].1);
    }
    assert(ka[i] == lexed(a)[i].1 && kb[i] == lexed(b)[i].1);
    lemma_one_piece_differs(ka, kb, i);
}

/// An anchor is never abstracted, and nothing is taken for it: identifiers have the
/// same structural form only if they are the same, or neither is an anchor, as long as
/// none is called `ID`.
pub proof fn law_anchors_keep_their_names(a: Seq<char>, b: Seq<char>)
    requires
        is_anchor(a),
        a != b,
        a != "ID"@,
    ensures
        abstracted((LexemeKind::Identifier, a)) == a,
        abstracted((LexemeKind::Identifier, a)) != abstracted((LexemeKind::Identifier, b)),
{
}

proof fn lemma_runs_filter(
    patterns: Seq<(Seq<char>, Seq<Seq<char>>)>,
    function: Seq<Seq<char>>,
    cap: nat,
    k: int,
)
    requires
        0 <= k < patterns.len(),
        contains_run(function, patterns[k].1),
        patterns.take(k).filter(
            |p: (Seq<char>, Seq<Seq<char>>)| contains_run(function, p.1),
        ).len() < cap,
    ensures
        matching_runs(patterns, function, cap).contains(patterns[k].0),
    decreases patterns.len(),
{
    let f = |p: (Seq<char>, Seq<Seq<char>>)| contains_run(function, p.1);
    let rest = patterns.skip(1);
    let all = matching_runs(patterns, function, cap);
    if k == 0 {
        assert(all[0] == patterns[0].0);
    } else {
        assert(rest[k - 1] == patterns[k]);
        assert(patterns.take(k).skip(1) =~= rest.take(k - 1));
        lemma_filter_first(patterns.take(k), f);
        assert(patterns.take(k)[0] == patterns[0]);
        if contains_run(function, patterns[0].1) {
            lemma_runs_filter(rest, function, (cap - 1) as nat, k - 1);
            let tail = matching_runs(rest, function, (cap - 1) as nat);
            let j = choose|j: int| 0 <= j < tail.len() && tail[j] == patterns[k].0;
            assert(all[j + 1] == patterns[k].0);
        } else {
            lemma_runs_filter(rest, function, cap, k - 1);
        }
    }
}

proof fn lemma_filter_first(
    list: Seq<(Seq<char>, Seq<Seq<char>>)>,
    f: spec_fn((Seq<char>, Seq<Seq<char>>)) -> bool,
)
    requires
        list.len() > 0,
    ensures
        list.filter(f).len() == list.skip(1).filter(f).len() + (if f(list[0]) {
            1nat
        } else {
            0nat
        }),
    decreases list.len(),
{
    reveal(Seq::filter);
    if list.len() > 1 {
        lemma_filter_first(list.drop_last(), f);
        assert(list.skip(1).drop_last() =~= list.drop_last().skip(1));
        assert(list.skip(1).last() == list.last());
        assert(list.drop_last()[0] == list[0]);
    } else {
        assert(list.drop_last().filter(f).len() == 0);
        assert(list.skip(1).filter(f).len() == 0);
        assert(list.last() == list[0]);
    }
}

/// A known pattern is found: where the structural tokens of its code are eight or more
/// and stand in those of the function, one after the other, its id is among the
/// matches, unless three patterns before it match too.
pub proof fn law_a_known_pattern_is_found(
    patterns: Seq<(Seq<char>, Seq<char>)>,
    function: Seq<char>,
    k: int,
)
    requires
        0 <= k < patterns.len(),
        lexed(patterns[k].1).len() >= 8,
        contains_run(canonical(lexed(function), true), canonical(lexed(patterns[k].1), true)),
        patterns.take(k).filter(
            |p: (Seq<char>, Seq<char>)|
                lexed(p.1).len() >= 8 && contains_run(
                    canonical(lexed(function), true),
                    canonical(lexed(p.1), true),
                ),
        ).len() < 3,
    ensures
        matching_runs(
            long_enough(tokenized(patterns)),
            canonical(lexed(function), true),
            MAX_STRUCT_MATCHES as nat,
        ).contains(patterns[k].0),
{
    let toks = canonical(lexed(function), true);
    let i = lemma_long_at(patterns, k);
    let all = long_enough(tokenized(patterns));
    lemma_long_count(patterns.take(k), toks);
    assert(tokenized(patterns).take(k) =~= tokenized(patterns.take(k)));
    lemma_runs_filter(all, toks, MAX_STRUCT_MATCHES as nat, i);
}

proof fn lemma_long_at(patterns: Seq<(Seq<char>, Seq<char>)>, k: int) -> (i: int)
    requires
        0 <= k < patterns.len(),
        lexed(patterns[k].1).len() >= 8,
    ensures
        0 <= i < long_enough(tokenized(patterns)).len(),
        long_enough(tokenized(patterns))[i] == (
            patterns[k].0,
            canonical(lexed(patterns[k].1), true),
        ),
        long_enough(tokenized(patterns)).take(i) == long_enough(tokenized(patterns.take(k))),
    decreases patterns.len(),
{
    reveal(Seq::filter);
    let head = patterns.drop_last();
    let ts = tokenized(patterns);
    assert(ts.drop_last() =~= tokenized(head));
    assert(ts.last() == (patterns.last().0, canonical(lexed(patterns.last().1), true)));
    let l = long_enough(tokenized(head));
    if k < head.len() {
        let i = lemma_long_at(head, k);
        assert(head.take(k) =~= patterns.take(k));
        assert(long_enough(ts).take(i) =~= l.take(i));
        i
    } else {
        assert(patterns.take(k) =~= head);
        assert(canonical(lexed(patterns[k].1), true).len() == lexed(patterns[k].1).len());
        assert(long_enough(ts) == l.push(ts.last()));
        assert(long_enough(ts).take(l.len() as int) =~= l);
        l.len() as int
    }
}

proof fn lemma_long_count(patterns: Seq<(Seq<char>, Seq<char>)>, toks: Seq<Seq<char>>)
    ensures
        long_enough(tokenized(patterns)).filter(
            |p: (Seq<char>, Seq<Seq<char>>)| contains_run(toks, p.1),
        ).len() == patterns.filter(
            |p: (Seq<char>, Seq<char>)|
                lexed(p.1).len() >= 8 && contains_run(toks, canonical(lexed(p.1), true)),
        ).len(),
    decreases patterns.len(),
{
    reveal(Seq::filter);
    if patterns.len() > 0 {
        let head = patterns.drop_last();
        let ts = tokenized(patterns);
        let last = patterns.last();
        assert(ts.drop_last() =~= tokenized(head));
        assert(ts.last() == (last.0, canonical(lexed(last.1), true)));
        assert(canonical(lexed(last.1), true).len() == lexed(last.1).len());
        lemma_long_count(head, toks);
        let l = long_enough(tokenized(head));
        if lexed(last.1).len() >= 8 {
            assert(long_enough(ts) == l.push(ts.last()));
            assert(l.push(ts.last()).drop_last() =~= l);
        } else {
            assert(long_enough(ts) == l);
        }
    }
}

/// Nothing else is found: every match is the id of a pattern whose eight or more
/// structural tokens stand in the function's, and there are at most three.
pub proof fn law_only_known_patterns_are_found(
    patterns: Seq<(Seq<char>, Seq<char>)>,
    function: Seq<char>,
    i: int,
) -> (k: int)
    requires
        0 <= i < matching_runs(
            long_enough(tokenized(patterns)),
            canonical(lexed(function), true),
            MAX_STRUCT_MATCHES as nat,
        ).len(),
    ensures
        0 <= k < patterns.len(),
        matching_runs(
            long_enough(tokenized(patterns)),
            canonical(lexed(function), true),
            MAX_STRUCT_MATCHES as nat,
        )[i] == patterns[k].0,
        lexed(patterns[k].1).len() >= 8,
        contains_run(canonical(lexed(function), true), canonical(lexed(patterns[k].1), true)),
        i < 3,
{
    let toks = canonical(lexed(function), true);
    let all = long_enough(tokenized(patterns));
    let j = lemma_run_from(all, toks, MAX_STRUCT_MATCHES as nat, i);
    lemma_long_from(patterns, j)
}

proof fn lemma_run_from(
    patterns: Seq<(Seq<char>, Seq<Seq<char>>)>,
    function: Seq<Seq<char>>,
    cap: nat,
    i: int,
) -> (k: int)
    requires
        0 <= i < matching_runs(patterns, function, cap).len(),
    ensures
        i < cap,
        0 <= k < patterns.len(),
        matching_runs(patterns, function, cap)[i] == patterns[k].0,
        contains_run(function, patterns[k].1),
    decreases patterns.len(),
{
    let rest = patterns.skip(1);
    if contains_run(function, patterns[0].1) {
        if i == 0 {
            0
        } else {
            let k = lemma_run_from(rest, function, (cap - 1) as nat, i - 1);
            assert(rest[k] == patterns[k + 1]);
            k + 1
        }
    } else {
        let k = lemma_run_from(rest, function, cap, i);
        assert(rest[k] == patterns[k + 1]);
        k + 1
    }
}

proof fn lemma_long_from(patterns: Seq<(Seq<char>, Seq<char>)>, i: int) -> (k: int)
    requires
        0 <= i < long_enough(tokenized(patterns)).len(),
    ensures
        0 <= k < patterns.len(),
        long_enough(tokenized(patterns))[i] == (
            patterns[k].0,
            canonical(lexed(patterns[k].1), true),
        ),
        lexed(patterns[k].1).len() >= 8,
    decreases patterns.len(),
{
    reveal(Seq::filter);
    let ts = tokenized(patterns);
    assert(patterns.len() > 0) by {
        if patterns.len() == 0 {
            assert(ts.len() == 0);
        }
    }
    let head = patterns.drop_last();
    assert(ts.drop_last() =~= tokenized(head));
    assert(ts.last() == (patterns.last().0, canonical(lexed(patterns.last().1), true)));
    let l = long_enough(tokenized(head));
    if i < l.len() {
        lemma_long_from(head, i)
    } else {
        assert(canonical(lexed(patterns.last().1), true).len() == lexed(patterns.last().1).len());
        patterns.len() - 1
    }
}

} // verus!
