//! Contract analysis: category detection + per-function extraction + storage
//! layout. Each named function (with a body) is extracted with its exact source
//! text and byte range, so functions can be optimized concurrently and the
//! results spliced back at their original offsets.

use crate::bytes;
use crate::number::{self, show_usize};
use crate::solidity;
use crate::split::{self, join};
use crate::text::{self, chars, contains, same, trim, trim_range};
use crate::unicode;
use solang_parser::helpers::CodeLocation;
use solang_parser::pt::ContractPart::{
    EnumDefinition, ErrorDefinition, EventDefinition, FunctionDefinition, StructDefinition,
    TypeDefinition, VariableDefinition,
};
use solang_parser::pt::{ContractDefinition, Loc, SourceUnitPart};
use vstd::prelude::*;

verus! {

broadcast use vstd::seq::group_seq_axioms;

// ── the parsed contract ──────────────────────────────────────────────────────

/// What a part of a contract is.
pub enum PartKind {
    Variable,
    Struct,
    Enum,
    Event,
    Error,
    TypeAlias,
    /// With the keyword that introduces it: `function`, `modifier`, `constructor`,
    /// `fallback` or `receive`.
    Function(String),
    /// An annotation, a `using` directive or a stray semicolon.
    Other,
}

/// What a part of a contract is, its name, and whether it has a body.
pub struct PartHead {
    pub kind: PartKind,
    pub name: Option<String>,
    pub has_body: bool,
}

/// One part of a contract, with its byte range in the source.
pub struct Part {
    pub head: PartHead,
    pub span: Option<(usize, usize)>,
}

/// A top-level item of a source: a contract, with the identifier path of each base
/// and the parts, or an item outside every contract, which has no bases and is its
/// own only part.
pub struct Unit {
    pub bases: Vec<Vec<String>>,
    pub parts: Vec<Part>,
}

/// What a part is, as the analysis tells parts apart.
pub enum Role {
    /// A state variable.
    Variable,
    /// A definition that functions may depend on.
    Declaration,
    /// A function by its own name.
    Function,
    /// Everything else.
    Other,
}

/// A part in terms of the analysis.
pub struct PartModel {
    pub role: Role,
    pub name: Option<Seq<char>>,
    pub has_body: bool,
    pub span: Option<(int, int)>,
}

/// A byte range in terms of the analysis.
pub open spec fn span_model(span: Option<(usize, usize)>) -> Option<(int, int)> {
    match span {
        Some((s, e)) => Some((s as int, e as int)),
        None => None,
    }
}

/// A top-level item in terms of the analysis.
pub struct UnitModel {
    pub bases: Seq<Seq<Seq<char>>>,
    pub parts: Seq<PartModel>,
}

impl PartHead {
    /// What the part is to the analysis: modifiers are dependencies like the type
    /// definitions, and only a `function` is a function.
    pub open spec fn role(self) -> Role {
        match self.kind {
            PartKind::Variable => Role::Variable,
            PartKind::Struct => Role::Declaration,
            PartKind::Enum => Role::Declaration,
            PartKind::Event => Role::Declaration,
            PartKind::Error => Role::Declaration,
            PartKind::TypeAlias => Role::Declaration,
            PartKind::Function(keyword) => if keyword@ == "modifier"@ {
                Role::Declaration
            } else if keyword@ == "function"@ {
                Role::Function
            } else {
                Role::Other
            },
            PartKind::Other => Role::Other,
        }
    }

    /// The part in terms of the analysis, with its byte range.
    pub open spec fn model(self, span: Option<(int, int)>) -> PartModel {
        PartModel {
            role: self.role(),
            name: text::opt_view(self.name),
            has_body: self.has_body,
            span: span,
        }
    }
}

impl Part {
    /// The part in terms of the analysis.
    pub open spec fn model(self) -> PartModel {
        self.head.model(span_model(self.span))
    }
}

/// The characters of each list of strings.
pub open spec fn nested_views(list: Seq<Vec<String>>) -> Seq<Seq<Seq<char>>> {
    Seq::new(list.len(), |i: int| text::views(list[i]@))
}

/// Each part in terms of the analysis.
pub open spec fn part_models(list: Seq<Part>) -> Seq<PartModel> {
    Seq::new(list.len(), |i: int| list[i].model())
}

impl Unit {
    /// The item in terms of the analysis.
    pub open spec fn model(self) -> UnitModel {
        UnitModel { bases: nested_views(self.bases@), parts: part_models(self.parts@) }
    }
}

/// Each top-level item in terms of the analysis.
pub open spec fn unit_models(list: Seq<Unit>) -> Seq<UnitModel> {
    Seq::new(list.len(), |i: int| list[i].model())
}

// ── the solang parser ────────────────────────────────────────────────────────

/// `solang_parser::pt::ContractDefinition`, a contract of the parse tree.
#[verifier::external_type_specification]
#[verifier::external_body]
pub struct ExContractDefinition(ContractDefinition);

/// The bases that a contract of the parse tree holds: the identifier path of each.
pub uninterp spec fn contract_bases(def: ContractDefinition) -> Seq<Seq<Seq<char>>>;

/// The parts that a contract of the parse tree holds.
pub uninterp spec fn contract_parts(def: ContractDefinition) -> Seq<PartModel>;

/// What `solang_parser::parse` makes of a source: its top-level items in order;
/// nothing for a source with an error.
pub uninterp spec fn outline(src: Seq<char>) -> Option<Seq<UnitModel>>;

/// A top-level item of the parse tree.
pub enum ParsedUnit {
    Contract(ContractDefinition),
    /// An item outside every contract: what it is, and its byte range.
    Item(PartKind, Option<(usize, usize)>),
}

impl ParsedUnit {
    /// The item in terms of the analysis.
    pub open spec fn model(self) -> UnitModel {
        match self {
            ParsedUnit::Contract(def) => UnitModel {
                bases: contract_bases(def),
                parts: contract_parts(def),
            },
            ParsedUnit::Item(kind, span) => UnitModel {
                bases: seq![],
                parts: seq![
                    (PartHead { kind, name: None, has_body: false }).model(span_model(span)),
                ],
            },
        }
    }
}

/// Each top-level item of the parse tree in terms of the analysis.
pub open spec fn parsed_models(units: Seq<ParsedUnit>) -> Seq<UnitModel> {
    Seq::new(units.len(), |i: int| units[i].model())
}

/// `solang_parser::parse`: the parse tree is a function of the source. A contract is
/// handed out as it is; of any other top-level item the variant, and the byte range
/// of its location in the file, as `CodeLocation::loc` gives it. Not stated: which
/// sources parse, and what their trees hold.
#[verifier::external_body]
fn parse(source: &str) -> (r: Option<Vec<ParsedUnit>>)
    ensures
        match r {
            Some(units) => outline(source@) == Some(parsed_models(units@)),
            None => outline(source@) is None,
        },
{
    let unit = solang_parser::parse(source, 0).ok()?.0;
    Some(unit.0.into_iter().map(|item| {
        let span = match item.loc() { Loc::File(_, start, end) => Some((start, end)), _ => None };
        match item {
            SourceUnitPart::ContractDefinition(def) => ParsedUnit::Contract(*def),
            SourceUnitPart::StructDefinition(_) => ParsedUnit::Item(PartKind::Struct, span),
            SourceUnitPart::EnumDefinition(_) => ParsedUnit::Item(PartKind::Enum, span),
            SourceUnitPart::EventDefinition(_) => ParsedUnit::Item(PartKind::Event, span),
            SourceUnitPart::ErrorDefinition(_) => ParsedUnit::Item(PartKind::Error, span),
            SourceUnitPart::TypeDefinition(_) => ParsedUnit::Item(PartKind::TypeAlias, span),
            _ => ParsedUnit::Item(PartKind::Other, span),
        }
    }).collect())
}

/// The field `base` of `solang_parser::pt::ContractDefinition`: for each base, the
/// names of its identifier path.
#[verifier::external_body]
fn bases_of(def: &ContractDefinition) -> (r: Vec<Vec<String>>)
    ensures
        nested_views(r@) == contract_bases(*def),
{
    def.base.iter().map(|b| b.name.identifiers.iter().map(|id| id.name.clone()).collect()).collect()
}

/// The field `parts` of `solang_parser::pt::ContractDefinition`: for each part its
/// variant, and the name and body that the variant holds. A function's keyword is
/// what its `FunctionTy` prints.
#[verifier::external_body]
fn heads_of(def: &ContractDefinition) -> (r: Vec<PartHead>)
    ensures
        r@.len() == contract_parts(*def).len(),
        forall|i: int|
            0 <= i < r@.len() ==> (#[trigger] r@[i]).model(contract_parts(*def)[i].span)
                == contract_parts(*def)[i],
{
    def.parts.iter().map(|p| {
        let (kind, name, has_body) = match p {
            VariableDefinition(v) => (PartKind::Variable, v.name.clone(), false),
            StructDefinition(_) => (PartKind::Struct, None, false),
            EnumDefinition(_) => (PartKind::Enum, None, false),
            EventDefinition(_) => (PartKind::Event, None, false),
            ErrorDefinition(_) => (PartKind::Error, None, false),
            TypeDefinition(_) => (PartKind::TypeAlias, None, false),
            FunctionDefinition(f) => (PartKind::Function(f.ty.to_string()), f.name.clone(), f.body.is_some()),
            _ => (PartKind::Other, None, false),
        };
        PartHead { kind, name: name.map(|n| n.name), has_body }
    }).collect()
}

/// The field `parts` of `solang_parser::pt::ContractDefinition`: for each part the
/// byte range of its location in the file, as `CodeLocation::loc` gives it.
#[verifier::external_body]
fn spans_of(def: &ContractDefinition) -> (r: Vec<Option<(usize, usize)>>)
    ensures
        r@.len() == contract_parts(*def).len(),
        forall|i: int|
            0 <= i < r@.len() ==> span_model(#[trigger] r@[i]) == contract_parts(*def)[i].span,
{
    def.parts.iter().map(|p| match p.loc() {
        Loc::File(_, start, end) => Some((start, end)),
        _ => None,
    }).collect()
}

/// The parts of a contract of the parse tree.
fn parts_of(def: &ContractDefinition) -> (r: Vec<Part>)
    ensures
        part_models(r@) == contract_parts(*def),
{
    let mut heads = heads_of(def);
    let spans = spans_of(def);
    let ghost all = heads@;
    let ghost want = contract_parts(*def);
    let mut out: Vec<Part> = Vec::new();
    let mut i: usize = 0;
    proof {
        assert(all.skip(0) =~= all);
        assert(part_models(out@) =~= want.take(0));
    }
    while i < spans.len()
        invariant
            i <= spans@.len(),
            want == contract_parts(*def),
            spans@.len() == want.len(),
            all.len() == want.len(),
            heads@ == all.skip(i as int),
            forall|k: int|
                0 <= k < all.len() ==> (#[trigger] all[k]).model(want[k].span) == want[k],
            forall|k: int|
                0 <= k < spans@.len() ==> span_model(#[trigger] spans@[k]) == want[k].span,
            part_models(out@) == want.take(i as int),
        decreases spans.len() - i,
    {
        let head = heads.remove(0);
        let part = Part { head, span: spans[i] };
        proof {
            assert(all.skip(i as int)[0] == all[i as int]);
            assert(all.skip(i as int).remove(0) =~= all.skip(i + 1));
            assert(part.model() == want[i as int]);
            assert(part_models(out@.push(part)) =~= part_models(out@).push(part.model()));
            assert(want.take(i as int).push(want[i as int]) =~= want.take(i + 1));
        }
        out.push(part);
        i += 1;
    }
    proof {
        assert(want.take(want.len() as int) =~= want);
    }
    out
}

/// A top-level item of the parse tree.
fn unit_of(parsed: ParsedUnit) -> (r: Unit)
    ensures
        r.model() == parsed.model(),
{
    match parsed {
        ParsedUnit::Contract(def) => Unit { bases: bases_of(&def), parts: parts_of(&def) },
        ParsedUnit::Item(kind, span) => {
            let mut parts: Vec<Part> = Vec::new();
            parts.push(Part { head: PartHead { kind, name: None, has_body: false }, span });
            let r = Unit { bases: Vec::new(), parts };
            proof {
                assert(r.model().bases =~= parsed.model().bases);
                assert(r.model().parts =~= parsed.model().parts);
            }
            r
        },
    }
}

// ── the skeleton ─────────────────────────────────────────────────────────────

/// A function to optimize: its exact source text and byte range.
pub struct FunctionInfo {
    pub name: String,
    pub source: String,
    pub start: usize,
    pub end: usize,
}

/// A function header + body size, for the router's skeleton view.
pub struct FnSig {
    pub name: String,
    pub signature: String,
    pub size: usize,
}

/// The structural view of a parsed contract. `functions` + `storage_layout` drive
/// the per-function/oneshot agents; `file_decls` + `signatures` are the lightweight
/// "skeleton" the orchestrator routes on (no function bodies).
pub struct ContractSkeleton {
    pub category: Option<&'static str>,
    pub functions: Vec<FunctionInfo>,
    /// State-variable declarations, newline-joined (agent slot-derivation context).
    pub storage_layout: String,
    /// File-level declarations a function depends on to compile: structs, enums,
    /// custom errors, events, modifiers, user types. Injected into scoped agents so
    /// they don't reference or invent the wrong definitions.
    pub file_decls: String,
    /// Deterministic, per-contract storage-slot derivations (using `.slot` accessors),
    /// so the model uses THIS contract's actual layout instead of copying a retrieved
    /// pattern's (possibly packed/incompatible) slot scheme.
    pub slot_guide: String,
    pub signatures: Vec<FnSig>,
}

/// A function to optimize.
pub struct FunctionModel {
    pub name: Seq<char>,
    pub source: Seq<char>,
    pub start: int,
    pub end: int,
}

/// A function header.
pub struct SigModel {
    pub name: Seq<char>,
    pub signature: Seq<char>,
    pub size: int,
}

impl FunctionInfo {
    /// The function as a value.
    pub open spec fn model(self) -> FunctionModel {
        FunctionModel {
            name: self.name@,
            source: self.source@,
            start: self.start as int,
            end: self.end as int,
        }
    }
}

impl FnSig {
    /// The header as a value.
    pub open spec fn model(self) -> SigModel {
        SigModel { name: self.name@, signature: self.signature@, size: self.size as int }
    }
}

/// Each function as a value.
pub open spec fn function_models(list: Seq<FunctionInfo>) -> Seq<FunctionModel> {
    Seq::new(list.len(), |i: int| list[i].model())
}

/// Each header as a value.
pub open spec fn sig_models(list: Seq<FnSig>) -> Seq<SigModel> {
    Seq::new(list.len(), |i: int| list[i].model())
}

/// The text of a part.
pub open spec fn text_of(source: Seq<char>, part: PartModel) -> Option<Seq<char>> {
    match part.span {
        Some((s, e)) => bytes::byte_range(source, s, e),
        None => None,
    }
}

/// A function that can be optimized: named, with a body, and found in the source.
pub open spec fn is_target(source: Seq<char>, part: PartModel) -> bool {
    part.role is Function && part.name is Some && part.has_body && text_of(source, part) is Some
}

/// The index of the brace that opens a function's body, walking its code from `at`
/// with `depth` parentheses open: the first one that stands in no parentheses.
pub open spec fn body_brace(code: Seq<char>, at: int, depth: int) -> Option<int>
    decreases code.len() - at,
{
    if at < 0 || at >= code.len() {
        None
    } else if code[at] == '{' && depth <= 0 {
        Some(at)
    } else if code[at] == '(' {
        body_brace(code, at + 1, depth + 1)
    } else if code[at] == ')' {
        body_brace(code, at + 1, depth - 1)
    } else {
        body_brace(code, at + 1, depth)
    }
}

/// The header of a function: its text up to the opening brace of the body. A brace in
/// a comment, a string or parentheses opens no body.
pub open spec fn header(text: Seq<char>) -> Seq<char> {
    match body_brace(solidity::code_only(text), 0, 0) {
        Some(i) => text::trimmed(text.take(i)),
        None => text::trimmed(text),
    }
}

/// The functions to optimize.
pub open spec fn targets(source: Seq<char>, parts: Seq<PartModel>) -> Seq<FunctionModel>
    decreases parts.len(),
{
    if parts.len() == 0 {
        seq![]
    } else {
        let head = targets(source, parts.drop_last());
        let p = parts.last();
        if is_target(source, p) {
            head.push(
                FunctionModel {
                    name: p.name->0,
                    source: text_of(source, p)->0,
                    start: (p.span->0).0,
                    end: (p.span->0).1,
                },
            )
        } else {
            head
        }
    }
}

/// The header of each function to optimize.
pub open spec fn headers(functions: Seq<FunctionModel>) -> Seq<SigModel> {
    functions.map_values(
        |f: FunctionModel|
            SigModel { name: f.name, signature: header(f.source), size: f.end - f.start },
    )
}

/// The definitions that functions may depend on.
pub open spec fn declarations(source: Seq<char>, parts: Seq<PartModel>) -> Seq<Seq<char>>
    decreases parts.len(),
{
    if parts.len() == 0 {
        seq![]
    } else {
        let head = declarations(source, parts.drop_last());
        let p = parts.last();
        if p.role is Declaration && text_of(source, p) is Some {
            head.push(text::trimmed(text_of(source, p)->0))
        } else {
            head
        }
    }
}

/// The state-variable declarations.
pub open spec fn variables(source: Seq<char>, parts: Seq<PartModel>) -> Seq<Seq<char>>
    decreases parts.len(),
{
    if parts.len() == 0 {
        seq![]
    } else {
        let head = variables(source, parts.drop_last());
        let p = parts.last();
        if p.role is Variable && text_of(source, p) is Some {
            head.push(text::trimmed(text_of(source, p)->0))
        } else {
            head
        }
    }
}

/// The named state variables, each with its declaration.
pub open spec fn named_variables(source: Seq<char>, parts: Seq<PartModel>) -> Seq<
    (Seq<char>, Seq<char>),
>
    decreases parts.len(),
{
    if parts.len() == 0 {
        seq![]
    } else {
        let head = named_variables(source, parts.drop_last());
        let p = parts.last();
        if p.role is Variable && text_of(source, p) is Some && p.name is Some {
            head.push((p.name->0, text::trimmed(text_of(source, p)->0)))
        } else {
            head
        }
    }
}

/// The parts of all top-level items, in order.
pub open spec fn all_parts(units: Seq<UnitModel>) -> Seq<PartModel>
    decreases units.len(),
{
    if units.len() == 0 {
        seq![]
    } else {
        all_parts(units.drop_last()) + units.last().parts
    }
}

/// The bases of all top-level items, in order.
pub open spec fn all_bases(units: Seq<UnitModel>) -> Seq<Seq<Seq<char>>>
    decreases units.len(),
{
    if units.len() == 0 {
        seq![]
    } else {
        all_bases(units.drop_last()) + units.last().bases
    }
}

/// The name of a base in lower case.
pub open spec fn base_name(path: Seq<Seq<char>>) -> Seq<char> {
    split::joined(path.map_values(|id: Seq<char>| unicode::lowered(id)), "."@)
}

/// The category that a base's name stands for.
pub open spec fn category_of(base: Seq<char>) -> Option<Seq<char>> {
    if text::holds(base, "erc721"@) {
        Some("erc721"@)
    } else if text::holds(base, "erc1155"@) {
        Some("erc1155"@)
    } else if text::holds(base, "erc20"@) {
        Some("erc20"@)
    } else if text::holds(base, "erc2981"@) {
        Some("erc2981"@)
    } else {
        None
    }
}

/// The category of the first base that stands for one.
pub open spec fn first_category(bases: Seq<Seq<Seq<char>>>) -> Option<Seq<char>>
    decreases bases.len(),
{
    if bases.len() == 0 {
        None
    } else {
        match first_category(bases.drop_last()) {
            Some(c) => Some(c),
            None => category_of(base_name(bases.last())),
        }
    }
}

/// The category guessed from the text of a source that does not parse.
pub open spec fn guessed_category(source: Seq<char>) -> Option<Seq<char>> {
    let s = unicode::lowered(source);
    if text::holds(s, "is erc721"@) || text::holds(s, ": erc721"@) {
        Some("erc721"@)
    } else if text::holds(s, "is erc1155"@) || text::holds(s, ": erc1155"@) {
        Some("erc1155"@)
    } else if text::holds(s, "is erc2981"@) || text::holds(s, ": erc2981"@) {
        Some("erc2981"@)
    } else if text::holds(s, "is erc20"@) || text::holds(s, ": erc20"@) {
        Some("erc20"@)
    } else {
        None
    }
}

/// An optional category as text.
pub open spec fn category_view(c: Option<&'static str>) -> Option<Seq<char>> {
    match c {
        Some(s) => Some(s@),
        None => None,
    }
}

/// A mapping type begins at `at`: the keyword, then an opening parenthesis, with
/// nothing but white space between.
pub open spec fn mapping_at(code: Seq<char>, at: int) -> bool {
    &&& text::occurs_at(code, "mapping"@, at)
    &&& solidity::starts_word(code, at)
    &&& solidity::opens_next(code, at + "mapping"@.len())
}

/// How many mapping types begin before `to`.
pub open spec fn mappings(code: Seq<char>, to: int) -> nat
    decreases to,
{
    if to <= 0 {
        0
    } else if mapping_at(code, to - 1) {
        mappings(code, to - 1) + 1
    } else {
        mappings(code, to - 1)
    }
}

/// The mapping depth of a declaration, read from its code.
pub open spec fn mapping_depth(decl: Seq<char>) -> nat {
    mappings(solidity::code_only(decl), decl.len() as int)
}

/// The slot recipe of a state variable, by the depth of its mapping.
pub open spec fn slot_recipe(name: Seq<char>, decl: Seq<char>) -> Seq<char> {
    let depth = mapping_depth(decl);
    if depth == 0 {
        "- "@ + name + " (value type): read sload("@ + name + ".slot), write sstore("@ + name
            + ".slot, v)"@
    } else if depth == 1 {
        "- "@ + name + "[k]: mstore(0x00, k); mstore(0x20, "@ + name
            + ".slot); let s := keccak256(0x00, 0x40)"@
    } else if depth == 2 {
        "- "@ + name + "[k1][k2]: mstore(0x00, k1); mstore(0x20, "@ + name
            + ".slot); let inner := keccak256(0x00, 0x40); mstore(0x00, k2); mstore(0x20, inner); let s := keccak256(0x00, 0x40)"@
    } else {
        "- "@ + name + ": deep mapping \u{2014} derive each level as keccak256(key ++ parentSlot)"@
    }
}

/// What introduces the slot recipes.
pub const SLOT_GUIDE_INTRO: &'static str =
    "EXACT STORAGE SLOTS FOR THIS CONTRACT \u{2014} derive every slot with these recipes VERBATIM (use the `.slot` accessor; ignore any slot scheme from the retrieved patterns):\n";

/// The slot recipes, one per line.
pub open spec fn slot_lines(vars: Seq<(Seq<char>, Seq<char>)>) -> Seq<char>
    decreases vars.len(),
{
    if vars.len() == 0 {
        SLOT_GUIDE_INTRO@
    } else {
        slot_lines(vars.drop_last()) + slot_recipe(vars.last().0, vars.last().1) + "\n"@
    }
}

/// The slot guide of a contract: nothing where it has no named state variable.
pub open spec fn slot_guide(vars: Seq<(Seq<char>, Seq<char>)>) -> Seq<char> {
    if vars.len() == 0 {
        seq![]
    } else {
        slot_lines(vars)
    }
}

/// The skeleton of a source whose top-level items are known.
pub open spec fn is_skeleton_of(
    r: ContractSkeleton,
    source: Seq<char>,
    units: Seq<UnitModel>,
) -> bool {
    let parts = all_parts(units);
    &&& category_view(r.category) == first_category(all_bases(units))
    &&& function_models(r.functions@) == targets(source, parts)
    &&& r.storage_layout@ == split::joined(variables(source, parts), "\n"@)
    &&& r.file_decls@ == split::joined(declarations(source, parts), "\n\n"@)
    &&& r.slot_guide@ == slot_guide(named_variables(source, parts))
    &&& sig_models(r.signatures@) == headers(targets(source, parts))
}

/// The skeleton of a source that does not parse.
pub open spec fn is_empty_skeleton(r: ContractSkeleton, source: Seq<char>) -> bool {
    &&& category_view(r.category) == guessed_category(source)
    &&& r.functions@.len() == 0
    &&& r.storage_layout@.len() == 0
    &&& r.file_decls@.len() == 0
    &&& r.slot_guide@.len() == 0
    &&& r.signatures@.len() == 0
}

// ── categories ───────────────────────────────────────────────────────────────

/// The category that a base's name stands for.
fn base_category(base: &str) -> (r: Option<&'static str>)
    ensures
        category_view(r) == category_of(base@),
{
    if contains(base, "erc721") {
        Some("erc721")
    } else if contains(base, "erc1155") {
        Some("erc1155")
    } else if contains(base, "erc20") {
        Some("erc20")
    } else if contains(base, "erc2981") {
        Some("erc2981")
    } else {
        None
    }
}

/// The category of a source that does not parse.
pub fn detect_category_fallback(source: &str) -> (r: Option<&'static str>)
    ensures
        category_view(r) == guessed_category(source@),
{
    let lowered = source.to_lowercase();
    let s = lowered.as_str();
    if contains(s, "is erc721") || contains(s, ": erc721") {
        return Some("erc721");
    }
    if contains(s, "is erc1155") || contains(s, ": erc1155") {
        return Some("erc1155");
    }
    if contains(s, "is erc2981") || contains(s, ": erc2981") {
        return Some("erc2981");
    }
    if contains(s, "is erc20") || contains(s, ": erc20") {
        return Some("erc20");
    }
    None
}

/// The name of a base in lower case.
fn lower_path(path: &Vec<String>) -> (r: String)
    ensures
        r@ == base_name(text::views(path@)),
{
    let ghost all = text::views(path@).map_values(|id: Seq<char>| unicode::lowered(id));
    let mut out: Vec<String> = Vec::new();
    let mut i: usize = 0;
    proof {
        assert(text::views(out@) =~= all.take(0));
    }
    while i < path.len()
        invariant
            i <= path@.len(),
            all == text::views(path@).map_values(|id: Seq<char>| unicode::lowered(id)),
            text::views(out@) == all.take(i as int),
        decreases path.len() - i,
    {
        let id = path[i].as_str().to_lowercase();
        proof {
            text::lemma_views_push(out@, id);
            assert(all.take(i as int).push(all[i as int]) =~= all.take(i + 1));
        }
        out.push(id);
        i += 1;
    }
    proof {
        assert(all.take(all.len() as int) =~= all);
    }
    join(&out, ".")
}

// ── collecting ───────────────────────────────────────────────────────────────

/// What has been collected so far.
struct Collected {
    category: Option<&'static str>,
    functions: Vec<FunctionInfo>,
    signatures: Vec<FnSig>,
    storage_vars: Vec<String>,
    /// `(name, declaration_text)` for state vars: drives the slot-derivation guide.
    state_var_defs: Vec<(String, String)>,
    decls: Vec<String>,
}

impl Collected {
    /// The lists hold what the given parts contribute.
    spec fn holds(self, source: Seq<char>, parts: Seq<PartModel>) -> bool {
        &&& function_models(self.functions@) == targets(source, parts)
        &&& sig_models(self.signatures@) == headers(targets(source, parts))
        &&& text::views(self.storage_vars@) == variables(source, parts)
        &&& text::pair_views(self.state_var_defs@) == named_variables(source, parts)
        &&& text::views(self.decls@) == declarations(source, parts)
    }

    /// Takes one more base into account.
    fn add_base(&mut self, path: &Vec<String>, Ghost(bases): Ghost<Seq<Seq<Seq<char>>>>)
        requires
            category_view(old(self).category) == first_category(bases),
        ensures
            category_view(final(self).category) == first_category(bases.push(text::views(path@))),
            final(self).functions == old(self).functions,
            final(self).signatures == old(self).signatures,
            final(self).storage_vars == old(self).storage_vars,
            final(self).state_var_defs == old(self).state_var_defs,
            final(self).decls == old(self).decls,
    {
        proof {
            assert(bases.push(text::views(path@)).drop_last() =~= bases);
        }
        if self.category.is_none() {
            let name = lower_path(path);
            self.category = base_category(name.as_str());
        }
    }
}

/// Finds the brace that opens a function's body.
fn find_body(code: &Vec<char>) -> (r: Option<usize>)
    ensures
        match r {
            Some(i) => body_brace(code@, 0, 0) == Some(i as int) && i < code@.len(),
            None => body_brace(code@, 0, 0) is None,
        },
{
    let mut depth: i128 = 0;
    let mut i: usize = 0;
    while i < code.len()
        invariant
            i <= code@.len(),
            -(i as int) <= depth <= i,
            body_brace(code@, 0, 0) == body_brace(code@, i as int, depth as int),
        decreases code.len() - i,
    {
        if code[i] == '{' && depth <= 0 {
            return Some(i);
        }
        if code[i] == '(' {
            depth += 1;
        } else if code[i] == ')' {
            depth -= 1;
        }
        i += 1;
    }
    None
}

/// The header of a function.
fn header_text(source: &str) -> (r: String)
    ensures
        r@ == header(source@),
{
    let v = chars(source);
    let code = solidity::code_chars(source);
    match find_body(&code) {
        Some(i) => {
            proof {
                assert(v@.subrange(0, i as int) =~= source@.take(i as int));
            }
            trim_range(&v, 0, i)
        },
        None => trim(source),
    }
}

/// What the part is to the analysis.
fn role_of(part: &PartHead) -> (r: Role)
    ensures
        r == part.role(),
{
    match &part.kind {
        PartKind::Variable => Role::Variable,
        PartKind::Struct => Role::Declaration,
        PartKind::Enum => Role::Declaration,
        PartKind::Event => Role::Declaration,
        PartKind::Error => Role::Declaration,
        PartKind::TypeAlias => Role::Declaration,
        PartKind::Function(keyword) => if same(keyword.as_str(), "modifier") {
            Role::Declaration
        } else if same(keyword.as_str(), "function") {
            Role::Function
        } else {
            Role::Other
        },
        PartKind::Other => Role::Other,
    }
}

/// The text of a part.
fn part_text(source: &str, part: &Part) -> (r: Option<String>)
    ensures
        text::opt_view(r) == text_of(source@, part.model()),
{
    match part.span {
        Some((s, e)) => bytes::slice(source, s, e),
        None => None,
    }
}

/// Takes one more part into account.
fn collect_part(
    source: &str,
    part: &Part,
    all: Collected,
    Ghost(parts): Ghost<Seq<PartModel>>,
) -> (r: Collected)
    requires
        all.holds(source@, parts),
    ensures
        r.holds(source@, parts.push(part.model())),
        r.category == all.category,
{
    let mut out = all;
    let ghost next = parts.push(part.model());
    proof {
        assert(next.drop_last() =~= parts);
        assert(next.last() == part.model());
    }
    let found = match part_text(source, part) {
        Some(t) => t,
        None => return out,
    };
    match role_of(&part.head) {
        Role::Variable => {
            let decl = trim(found.as_str());
            if let Some(name) = &part.head.name {
                let entry = (name.clone(), decl.clone());
                proof {
                    assert(text::pair_views(out.state_var_defs@.push(entry)) =~= text::pair_views(
                        out.state_var_defs@,
                    ).push((entry.0@, entry.1@)));
                }
                out.state_var_defs.push(entry);
            }
            proof {
                text::lemma_views_push(out.storage_vars@, decl);
            }
            out.storage_vars.push(decl);
        },
        Role::Declaration => {
            let decl = trim(found.as_str());
            proof {
                text::lemma_views_push(out.decls@, decl);
            }
            out.decls.push(decl);
        },
        Role::Function => {
            if let (Some(name), true, Some((start, end))) = (
                &part.head.name,
                part.head.has_body,
                part.span,
            ) {
                let signature = header_text(found.as_str());
                let size: usize = end - start;
                let sig = FnSig { name: name.clone(), signature, size };
                let info = FunctionInfo { name: name.clone(), source: found, start, end };
                proof {
                    assert(function_models(out.functions@.push(info)) =~= function_models(
                        out.functions@,
                    ).push(info.model()));
                    assert(sig_models(out.signatures@.push(sig)) =~= sig_models(
                        out.signatures@,
                    ).push(sig.model()));
                    assert(headers(targets(source@, next)) =~= headers(
                        targets(source@, parts),
                    ).push(sig.model()));
                }
                out.signatures.push(sig);
                out.functions.push(info);
            }
        },
        Role::Other => {},
    }
    out
}

/// Takes one more top-level item into account.
fn collect_unit(
    source: &str,
    unit: &Unit,
    all: Collected,
    Ghost(bases): Ghost<Seq<Seq<Seq<char>>>>,
    Ghost(parts): Ghost<Seq<PartModel>>,
) -> (r: Collected)
    requires
        all.holds(source@, parts),
        category_view(all.category) == first_category(bases),
    ensures
        r.holds(source@, parts + unit.model().parts),
        category_view(r.category) == first_category(bases + unit.model().bases),
{
    let ghost new_bases = unit.model().bases;
    let ghost new_parts = unit.model().parts;
    let mut out = all;
    let mut i: usize = 0;
    proof {
        assert(bases + new_bases.take(0) =~= bases);
    }
    while i < unit.bases.len()
        invariant
            i <= unit.bases@.len(),
            new_bases == nested_views(unit.bases@),
            out.holds(source@, parts),
            category_view(out.category) == first_category(bases + new_bases.take(i as int)),
        decreases unit.bases.len() - i,
    {
        proof {
            assert((bases + new_bases.take(i as int)).push(text::views(unit.bases@[i as int]@))
                =~= bases + new_bases.take(i + 1));
        }
        out.add_base(&unit.bases[i], Ghost(bases + new_bases.take(i as int)));
        i += 1;
    }
    let mut k: usize = 0;
    proof {
        assert(new_bases.take(new_bases.len() as int) =~= new_bases);
        assert(parts + new_parts.take(0) =~= parts);
    }
    while k < unit.parts.len()
        invariant
            k <= unit.parts@.len(),
            new_parts == part_models(unit.parts@),
            out.holds(source@, parts + new_parts.take(k as int)),
            category_view(out.category) == first_category(bases + new_bases),
        decreases unit.parts.len() - k,
    {
        proof {
            assert((parts + new_parts.take(k as int)).push(unit.parts@[k as int].model())
                =~= parts + new_parts.take(k + 1));
        }
        out = collect_part(
            source,
            &unit.parts[k],
            out,
            Ghost(parts + new_parts.take(k as int)),
        );
        k += 1;
    }
    proof {
        assert(new_parts.take(new_parts.len() as int) =~= new_parts);
    }
    out
}

/// The structural view of a source whose top-level items are known.
pub fn analyze_units(source: &str, units: &Vec<Unit>) -> (r: ContractSkeleton)
    ensures
        is_skeleton_of(r, source@, unit_models(units@)),
{
    let ghost us = unit_models(units@);
    let mut all = Collected {
        category: None,
        functions: Vec::new(),
        signatures: Vec::new(),
        storage_vars: Vec::new(),
        state_var_defs: Vec::new(),
        decls: Vec::new(),
    };
    let mut i: usize = 0;
    proof {
        assert(us.take(0) =~= seq![]);
        let none = all_parts(us.take(0));
        assert(function_models(all.functions@) =~= targets(source@, none));
        assert(sig_models(all.signatures@) =~= headers(targets(source@, none)));
        assert(text::views(all.storage_vars@) =~= variables(source@, none));
        assert(text::pair_views(all.state_var_defs@) =~= named_variables(source@, none));
        assert(text::views(all.decls@) =~= declarations(source@, none));
    }
    while i < units.len()
        invariant
            i <= units@.len(),
            us == unit_models(units@),
            all.holds(source@, all_parts(us.take(i as int))),
            category_view(all.category) == first_category(all_bases(us.take(i as int))),
        decreases units.len() - i,
    {
        proof {
            assert(us.take(i + 1).drop_last() =~= us.take(i as int));
            assert(us.take(i + 1).last() == units@[i as int].model());
        }
        all = collect_unit(
            source,
            &units[i],
            all,
            Ghost(all_bases(us.take(i as int))),
            Ghost(all_parts(us.take(i as int))),
        );
        i += 1;
    }
    proof {
        assert(us.take(us.len() as int) =~= us);
    }
    ContractSkeleton {
        category: all.category,
        storage_layout: join(&all.storage_vars, "\n"),
        file_decls: join(&all.decls, "\n\n"),
        slot_guide: build_slot_guide(&all.state_var_defs),
        functions: all.functions,
        signatures: all.signatures,
    }
}

/// The structural view of a contract's source. One that does not parse has no
/// functions, and a category guessed from its text.
pub fn analyze_contract(source: &str) -> (r: ContractSkeleton)
    ensures
        match outline(source@) {
            Some(units) => is_skeleton_of(r, source@, units),
            None => is_empty_skeleton(r, source@),
        },
{
    let mut parsed = match parse(source) {
        Some(parsed) => parsed,
        None => {
            return ContractSkeleton {
                category: detect_category_fallback(source),
                functions: Vec::new(),
                storage_layout: String::new(),
                file_decls: String::new(),
                slot_guide: String::new(),
                signatures: Vec::new(),
            };
        },
    };
    let ghost all = parsed_models(parsed@);
    let mut units: Vec<Unit> = Vec::new();
    proof {
        assert(unit_models(units@) + all =~= all);
    }
    while parsed.len() > 0
        invariant
            unit_models(units@) + parsed_models(parsed@) == all,
        decreases parsed.len(),
    {
        let ghost left = parsed@;
        let unit = unit_of(parsed.remove(0));
        proof {
            assert(parsed_models(left) =~= seq![left[0].model()] + parsed_models(parsed@));
            assert(unit_models(units@.push(unit)) =~= unit_models(units@) + seq![unit.model()]);
            assert(unit_models(units@.push(unit)) + parsed_models(parsed@) =~= unit_models(units@)
                + parsed_models(left));
        }
        units.push(unit);
    }
    proof {
        assert(unit_models(units@) =~= all);
    }
    analyze_units(source, &units)
}

/// The mapping depth of a declaration.
fn count_mappings(decl: &str) -> (r: usize)
    ensures
        r == mapping_depth(decl@),
{
    let code = solidity::code_chars(decl);
    let keyword = chars("mapping");
    let mut count: usize = 0;
    let mut i: usize = 0;
    proof {
        reveal_strlit("mapping");
    }
    while i < code.len()
        invariant
            i <= code@.len(),
            code@ == solidity::code_only(decl@),
            keyword@ == "mapping"@,
            count == mappings(code@, i as int),
            count <= i,
        decreases code.len() - i,
    {
        if text::matches_at(&code, &keyword, i) && (i == 0 || !solidity::identifier_char(
            code[i - 1],
        )) && solidity::opens(&code, i + keyword.len()) {
            count += 1;
        }
        i += 1;
    }
    count
}

/// The slot recipe of one state variable.
fn recipe(name: &str, decl: &str) -> (r: String)
    ensures
        r@ == slot_recipe(name@, decl@),
{
    let depth = count_mappings(decl);
    let mut out = "- ".to_owned();
    out.append(name);
    if depth == 0 {
        out.append(" (value type): read sload(");
        out.append(name);
        out.append(".slot), write sstore(");
        out.append(name);
        out.append(".slot, v)");
    } else if depth == 1 {
        out.append("[k]: mstore(0x00, k); mstore(0x20, ");
        out.append(name);
        out.append(".slot); let s := keccak256(0x00, 0x40)");
    } else if depth == 2 {
        out.append("[k1][k2]: mstore(0x00, k1); mstore(0x20, ");
        out.append(name);
        out.append(
            ".slot); let inner := keccak256(0x00, 0x40); mstore(0x00, k2); mstore(0x20, inner); let s := keccak256(0x00, 0x40)",
        );
    } else {
        out.append(": deep mapping \u{2014} derive each level as keccak256(key ++ parentSlot)");
    }
    out
}

/// Deterministic per-contract storage-slot derivations. Each state variable is
/// emitted with the EXACT inline-assembly recipe for its slot, using `.slot`
/// accessors (so solc resolves the slot index, no hardcoded numbers) and the
/// canonical `keccak256(0x00, 0x40)` mapping derivation. Mapping depth is read from
/// the declaration text. This is what stops a non-reasoning model from copying a
/// retrieved pattern's incompatible (e.g. packed ERC721A) slot scheme.
pub fn build_slot_guide(vars: &Vec<(String, String)>) -> (r: String)
    ensures
        r@ == slot_guide(text::pair_views(vars@)),
{
    let ghost vs = text::pair_views(vars@);
    if vars.len() == 0 {
        let out = String::new();
        proof {
            assert(out@ =~= seq![]);
        }
        return out;
    }
    let mut out = SLOT_GUIDE_INTRO.to_owned();
    let mut i: usize = 0;
    proof {
        assert(vs.take(0) =~= seq![]);
    }
    while i < vars.len()
        invariant
            i <= vars@.len(),
            vs == text::pair_views(vars@),
            out@ == slot_lines(vs.take(i as int)),
        decreases vars.len() - i,
    {
        proof {
            assert(vs.take(i + 1).drop_last() =~= vs.take(i as int));
            assert(vs.take(i + 1).last() == (vars@[i as int].0@, vars@[i as int].1@));
        }
        let line = recipe(vars[i].0.as_str(), vars[i].1.as_str());
        out.append(line.as_str());
        out.append("\n");
        i += 1;
    }
    proof {
        assert(vs.take(vs.len() as int) =~= vs);
    }
    out
}

// ── rendering ────────────────────────────────────────────────────────────────

/// One line per function header.
pub open spec fn signature_lines(sigs: Seq<SigModel>) -> Seq<char>
    decreases sigs.len(),
{
    if sigs.len() == 0 {
        "FUNCTIONS (name \u{2014} body bytes):\n"@
    } else {
        let s = sigs.last();
        signature_lines(sigs.drop_last()) + "- "@ + s.name + " ["@ + number::decimal(s.size as nat)
            + " bytes]: "@ + s.signature + "\n"@
    }
}

/// A titled block, or nothing where it would be empty.
pub open spec fn titled(title: Seq<char>, body: Seq<char>) -> Seq<char> {
    if body.len() == 0 {
        seq![]
    } else {
        title + body + "\n"@
    }
}

impl ContractSkeleton {
    /// What the router is shown.
    pub open spec fn rendered(self) -> Seq<char> {
        signature_lines(sig_models(self.signatures@)) + titled(
            "\nSTATE VARIABLES:\n"@,
            self.storage_layout@,
        ) + titled("\nFILE-LEVEL DECLARATIONS:\n"@, self.file_decls@)
    }

    /// Render the skeleton (signatures + sizes + decl summary) for the router: no
    /// function bodies, to keep the routing prompt small and its TTFT low.
    pub fn render(&self) -> (r: String)
        ensures
            r@ == self.rendered(),
    {
        let ghost sigs = sig_models(self.signatures@);
        let mut out = "FUNCTIONS (name \u{2014} body bytes):\n".to_owned();
        let mut i: usize = 0;
        proof {
            assert(sigs.take(0) =~= seq![]);
        }
        while i < self.signatures.len()
            invariant
                i <= self.signatures@.len(),
                sigs == sig_models(self.signatures@),
                out@ == signature_lines(sigs.take(i as int)),
            decreases self.signatures.len() - i,
        {
            let s = &self.signatures[i];
            proof {
                assert(sigs.take(i + 1).drop_last() =~= sigs.take(i as int));
                assert(sigs.take(i + 1).last() == s.model());
            }
            let size = show_usize(s.size);
            out.append("- ");
            out.append(s.name.as_str());
            out.append(" [");
            out.append(size.as_str());
            out.append(" bytes]: ");
            out.append(s.signature.as_str());
            out.append("\n");
            i += 1;
        }
        let ghost first = out@;
        proof {
            assert(sigs.take(sigs.len() as int) =~= sigs);
        }
        if !self.storage_layout.as_str().is_empty() {
            out.append("\nSTATE VARIABLES:\n");
            out.append(self.storage_layout.as_str());
            out.append("\n");
        }
        let ghost second = out@;
        proof {
            assert(second =~= first + titled("\nSTATE VARIABLES:\n"@, self.storage_layout@));
        }
        if !self.file_decls.as_str().is_empty() {
            out.append("\nFILE-LEVEL DECLARATIONS:\n");
            out.append(self.file_decls.as_str());
            out.append("\n");
        }
        proof {
            assert(out@ =~= second + titled("\nFILE-LEVEL DECLARATIONS:\n"@, self.file_decls@));
        }
        out
    }
}

// ── laws ─────────────────────────────────────────────────────────────────────

/// A function is extracted with its exact text: what stands in the source at its
/// byte range.
pub open spec fn is_exact(source: Seq<char>, f: FunctionModel) -> bool {
    bytes::byte_range(source, f.start, f.end) == Some(f.source)
}

/// Every extracted function carries the exact source text of its byte range, so a
/// rewrite can be put back at the same place.
pub proof fn law_functions_are_exact(source: Seq<char>, parts: Seq<PartModel>, i: int)
    requires
        0 <= i < targets(source, parts).len(),
    ensures
        is_exact(source, targets(source, parts)[i]),
    decreases parts.len(),
{
    let head = targets(source, parts.drop_last());
    if i < head.len() {
        law_functions_are_exact(source, parts.drop_last(), i);
    }
}

/// Each function has exactly one header, in the same order and under the same name.
pub proof fn law_headers_match_functions(functions: Seq<FunctionModel>, i: int)
    requires
        0 <= i < functions.len(),
    ensures
        headers(functions).len() == functions.len(),
        headers(functions)[i].name == functions[i].name,
{
}

/// What a part is, by its keyword: only a `function` is a function, a modifier and the
/// type definitions are declarations, and a constructor, `fallback` or `receive` is
/// neither.
pub proof fn law_roles_go_by_the_keyword(head: PartHead, span: Option<(int, int)>)
    ensures
        (head.model(span).role is Function) == (head.kind matches PartKind::Function(k) && k@
            == "function"@),
        (head.model(span).role is Variable) == (head.kind is Variable),
        (head.model(span).role is Declaration) == (head.kind is Struct || head.kind is Enum
            || head.kind is Event || head.kind is Error || head.kind is TypeAlias || (
        head.kind matches PartKind::Function(k) && k@ == "modifier"@)),
        head.model(span).has_body == head.has_body,
        head.model(span).span == span,
        head.model(span).name == text::opt_view(head.name),
{
    reveal_strlit("modifier");
    reveal_strlit("function");
    assert("modifier"@[0] != "function"@[0]);
}

proof fn lemma_all_parts(units: Seq<UnitModel>, u: int, p: int) -> (k: int)
    requires
        0 <= u < units.len(),
        0 <= p < units[u].parts.len(),
    ensures
        0 <= k < all_parts(units).len(),
        all_parts(units)[k] == units[u].parts[p],
    decreases units.len(),
{
    let head = all_parts(units.drop_last());
    if u < units.len() - 1 {
        lemma_all_parts(units.drop_last(), u, p)
    } else {
        head.len() + p
    }
}

proof fn lemma_part_of_unit(units: Seq<UnitModel>, k: int) -> (r: (int, int))
    requires
        0 <= k < all_parts(units).len(),
    ensures
        0 <= r.0 < units.len(),
        0 <= r.1 < units[r.0].parts.len(),
        all_parts(units)[k] == units[r.0].parts[r.1],
    decreases units.len(),
{
    let head = all_parts(units.drop_last());
    if k < head.len() {
        lemma_part_of_unit(units.drop_last(), k)
    } else {
        (units.len() - 1, k - head.len())
    }
}

/// How many of the parts are named functions with a body whose byte range can be cut
/// out of the source.
pub open spec fn function_count(source: Seq<char>, parts: Seq<PartModel>) -> nat {
    parts.filter(
        |p: PartModel|
            p.role is Function && p.name is Some && p.has_body && (p.span matches Some(range)
                && bytes::byte_range(source, range.0, range.1) is Some),
    ).len()
}

proof fn lemma_target_count(source: Seq<char>, parts: Seq<PartModel>)
    ensures
        targets(source, parts).len() == function_count(source, parts),
    decreases parts.len(),
{
    reveal(Seq::filter);
    if parts.len() > 0 {
        lemma_target_count(source, parts.drop_last());
    }
}

proof fn lemma_target_at(source: Seq<char>, parts: Seq<PartModel>, k: int) -> (i: int)
    requires
        0 <= k < parts.len(),
        parts[k].role is Function && parts[k].name is Some && parts[k].has_body,
        parts[k].span matches Some(range) && bytes::byte_range(source, range.0, range.1) is Some,
    ensures
        0 <= i < targets(source, parts).len(),
        i == function_count(source, parts.take(k)),
        targets(source, parts)[i] == (FunctionModel {
            name: parts[k].name->0,
            source: bytes::byte_range(
                source,
                (parts[k].span->0).0,
                (parts[k].span->0).1,
            )->0,
            start: (parts[k].span->0).0,
            end: (parts[k].span->0).1,
        }),
    decreases parts.len(),
{
    let head = parts.drop_last();
    if k < head.len() {
        let i = lemma_target_at(source, head, k);
        assert(head.take(k) =~= parts.take(k));
        i
    } else {
        lemma_target_count(source, head);
        assert(parts.take(k) =~= head);
        targets(source, head).len() as int
    }
}

/// Extraction is complete: every named function of the source that has a body and a
/// byte range is extracted, an overload like any other, with its name, its exact text
/// and its range, and so is its header. Returned is its place in the lists.
pub proof fn law_every_function_is_extracted(
    r: ContractSkeleton,
    source: Seq<char>,
    units: Seq<UnitModel>,
    u: int,
    p: int,
    name: Seq<char>,
    start: int,
    end: int,
) -> (i: int)
    requires
        is_skeleton_of(r, source, units),
        0 <= u < units.len(),
        0 <= p < units[u].parts.len(),
        units[u].parts[p].role is Function,
        units[u].parts[p].name == Some(name),
        units[u].parts[p].has_body,
        units[u].parts[p].span == Some((start, end)),
        bytes::byte_range(source, start, end) is Some,
    ensures
        0 <= i < r.functions@.len(),
        r.functions@.len() == r.signatures@.len(),
        r.functions@[i].name@ == name,
        r.functions@[i].start == start,
        r.functions@[i].end == end,
        Some(r.functions@[i].source@) == bytes::byte_range(source, start, end),
        r.signatures@[i].name@ == name,
        r.signatures@[i].size == end - start,
        r.signatures@[i].signature@ == header(r.functions@[i].source@),
{
    let parts = all_parts(units);
    let k = lemma_all_parts(units, u, p);
    let i = lemma_target_at(source, parts, k);
    assert(function_models(r.functions@).len() == r.functions@.len());
    assert(sig_models(r.signatures@).len() == r.signatures@.len());
    assert(function_models(r.functions@)[i] == r.functions@[i].model());
    assert(sig_models(r.signatures@)[i] == r.signatures@[i].model());
    i
}

/// Nothing else is extracted, and nothing twice: there are as many functions, and as
/// many headers, as the source has named functions with a body and a byte range.
pub proof fn law_as_many_functions_as_the_source_has(
    r: ContractSkeleton,
    source: Seq<char>,
    units: Seq<UnitModel>,
)
    requires
        is_skeleton_of(r, source, units),
    ensures
        r.functions@.len() == function_count(
            source,
            units.map_values(|u: UnitModel| u.parts).flatten_alt(),
        ),
        r.signatures@.len() == r.functions@.len(),
{
    lemma_target_count(source, all_parts(units));
    lemma_flattened(units);
    assert(function_models(r.functions@).len() == r.functions@.len());
    assert(sig_models(r.signatures@).len() == r.signatures@.len());
}

proof fn lemma_flattened(units: Seq<UnitModel>)
    ensures
        all_parts(units) == units.map_values(|u: UnitModel| u.parts).flatten_alt(),
    decreases units.len(),
{
    let lists = units.map_values(|u: UnitModel| u.parts);
    if units.len() > 0 {
        lemma_flattened(units.drop_last());
        assert(lists.drop_last() =~= units.drop_last().map_values(|u: UnitModel| u.parts));
        assert(lists.last() == units.last().parts);
    }
}

proof fn lemma_declaration_at(source: Seq<char>, parts: Seq<PartModel>, k: int) -> (i: int)
    requires
        0 <= k < parts.len(),
        parts[k].role is Declaration,
        parts[k].span matches Some(range) && bytes::byte_range(source, range.0, range.1) is Some,
    ensures
        0 <= i < declarations(source, parts).len(),
        declarations(source, parts)[i] == text::trimmed(
            bytes::byte_range(source, (parts[k].span->0).0, (parts[k].span->0).1)->0,
        ),
    decreases parts.len(),
{
    let head = parts.drop_last();
    if k < head.len() {
        lemma_declaration_at(source, head, k)
    } else {
        declarations(source, head).len() as int
    }
}

proof fn lemma_variable_at(source: Seq<char>, parts: Seq<PartModel>, k: int) -> (i: (int, int))
    requires
        0 <= k < parts.len(),
        parts[k].role is Variable,
        parts[k].span matches Some(range) && bytes::byte_range(source, range.0, range.1) is Some,
    ensures
        0 <= i.0 < variables(source, parts).len(),
        variables(source, parts)[i.0] == text::trimmed(
            bytes::byte_range(source, (parts[k].span->0).0, (parts[k].span->0).1)->0,
        ),
        parts[k].name is Some ==> 0 <= i.1 < named_variables(source, parts).len()
            && named_variables(source, parts)[i.1] == (
            parts[k].name->0,
            text::trimmed(
                bytes::byte_range(source, (parts[k].span->0).0, (parts[k].span->0).1)->0,
            ),
        ),
    decreases parts.len(),
{
    let head = parts.drop_last();
    if k < head.len() {
        lemma_variable_at(source, head, k)
    } else {
        (variables(source, head).len() as int, named_variables(source, head).len() as int)
    }
}

/// Every definition that functions may depend on is shown, and so is every state
/// variable: the trimmed text of each stands in its list.
pub proof fn law_definitions_and_variables_are_shown(
    r: ContractSkeleton,
    source: Seq<char>,
    units: Seq<UnitModel>,
    u: int,
    p: int,
    start: int,
    end: int,
)
    requires
        is_skeleton_of(r, source, units),
        0 <= u < units.len(),
        0 <= p < units[u].parts.len(),
        units[u].parts[p].span == Some((start, end)),
        bytes::byte_range(source, start, end) is Some,
    ensures
        units[u].parts[p].role is Declaration ==> text::holds(
            r.file_decls@,
            text::trimmed(bytes::byte_range(source, start, end)->0),
        ),
        units[u].parts[p].role is Variable ==> text::holds(
            r.storage_layout@,
            text::trimmed(bytes::byte_range(source, start, end)->0),
        ),
{
    let parts = all_parts(units);
    let k = lemma_all_parts(units, u, p);
    if parts[k].role is Declaration {
        let i = lemma_declaration_at(source, parts, k);
        let at = split::lemma_joined_holds(declarations(source, parts), "\n\n"@, i);
    }
    if parts[k].role is Variable {
        let i = lemma_variable_at(source, parts, k);
        let at = split::lemma_joined_holds(variables(source, parts), "\n"@, i.0);
    }
}

/// The guide has a recipe for every named state variable.
pub proof fn law_every_variable_has_a_recipe(
    r: ContractSkeleton,
    source: Seq<char>,
    units: Seq<UnitModel>,
    u: int,
    p: int,
    name: Seq<char>,
    start: int,
    end: int,
)
    requires
        is_skeleton_of(r, source, units),
        0 <= u < units.len(),
        0 <= p < units[u].parts.len(),
        units[u].parts[p].role is Variable,
        units[u].parts[p].name == Some(name),
        units[u].parts[p].span == Some((start, end)),
        bytes::byte_range(source, start, end) is Some,
    ensures
        text::holds(
            r.slot_guide@,
            slot_recipe(name, text::trimmed(bytes::byte_range(source, start, end)->0)) + "\n"@,
        ),
{
    let parts = all_parts(units);
    let k = lemma_all_parts(units, u, p);
    let i = lemma_variable_at(source, parts, k);
    lemma_recipe_at(named_variables(source, parts), i.1);
}

proof fn lemma_recipe_at(vars: Seq<(Seq<char>, Seq<char>)>, i: int)
    requires
        0 <= i < vars.len(),
    ensures
        text::holds(slot_lines(vars), slot_recipe(vars[i].0, vars[i].1) + "\n"@),
    decreases vars.len(),
{
    let head = slot_lines(vars.drop_last());
    let line = slot_recipe(vars.last().0, vars.last().1);
    if i < vars.len() - 1 {
        lemma_recipe_at(vars.drop_last(), i);
        let p = slot_recipe(vars[i].0, vars[i].1) + "\n"@;
        let at = choose|at: int| text::occurs_at(head, p, at);
        text::lemma_put_further(seq![], head, line + "\n"@, p, at);
        assert(seq![] + head + (line + "\n"@) =~= slot_lines(vars));
    } else {
        text::lemma_put_between(head, line + "\n"@, seq![]);
        assert(head + (line + "\n"@) + seq![] =~= slot_lines(vars));
    }
}

proof fn lemma_split_literals()
    ensures
        " (value type): read sload("@ == " (value type): read "@ + "sload("@,
        ".slot), write sstore("@ == ".slot)"@ + ", write sstore("@,
        ", write sstore("@ == ", write "@ + "sstore("@,
        ".slot, v)"@ == ".slot"@ + ", v)"@,
{
    reveal_strlit(" (value type): read sload(");
    reveal_strlit(" (value type): read ");
    reveal_strlit("sload(");
    reveal_strlit(".slot), write sstore(");
    reveal_strlit(".slot)");
    reveal_strlit(", write sstore(");
    reveal_strlit(", write ");
    reveal_strlit("sstore(");
    reveal_strlit(".slot, v)");
    reveal_strlit(".slot");
    reveal_strlit(", v)");
    assert(" (value type): read sload("@ =~= " (value type): read "@ + "sload("@);
    assert(".slot), write sstore("@ =~= ".slot)"@ + ", write sstore("@);
    assert(", write sstore("@ =~= ", write "@ + "sstore("@);
    assert(".slot, v)"@ =~= ".slot"@ + ", v)"@);
}

/// The recipe of a value type reads and writes the variable's own slot.
pub proof fn law_value_types_use_their_own_slot(name: Seq<char>, decl: Seq<char>)
    requires
        mapping_depth(decl) == 0,
    ensures
        text::has_prefix(slot_recipe(name, decl), "- "@ + name),
        text::holds(slot_recipe(name, decl), "sload("@ + name + ".slot)"@),
        text::holds(slot_recipe(name, decl), "sstore("@ + name + ".slot"@),
{
    let r = slot_recipe(name, decl);
    lemma_split_literals();
    let a = " (value type): read "@;
    let b = "sload("@;
    let c = ".slot)"@;
    let d = ", write sstore("@;
    let e = ".slot, v)"@;
    let p = "- "@ + name + a;
    let q = b + name + c;
    assert(r =~= p + q + (d + name + e));
    text::lemma_put_between(p, q, d + name + e);
    let w = ", write "@;
    let x = "sstore("@ + name + ".slot"@;
    assert(d + name + e =~= w + x + ", v)"@);
    assert(r =~= (p + q + w) + x + ", v)"@);
    text::lemma_put_between(p + q + w, x, ", v)"@);
    assert(r.subrange(0, ("- "@ + name).len() as int) =~= "- "@ + name);
}

proof fn lemma_recipe_chain(a: Seq<char>, b: Seq<char>, c: Seq<char>, d: Seq<char>, e: Seq<char>)
    ensures
        text::has_prefix(a + b + c + d + e, a + b),
        text::holds(a + b + c + d + e, c + d + e),
{
    let r = a + b + c + d + e;
    assert(r.subrange(0, (a + b).len() as int) =~= a + b);
    assert(r =~= (a + b) + (c + d + e) + seq![]);
    text::lemma_put_between(a + b, c + d + e, seq![]);
}

/// The recipe of a mapping hashes its key with the variable's own slot.
pub proof fn law_mappings_use_their_own_slot(name: Seq<char>, decl: Seq<char>)
    requires
        mapping_depth(decl) == 1,
    ensures
        text::has_prefix(slot_recipe(name, decl), "- "@ + name),
        text::holds(
            slot_recipe(name, decl),
            "[k]: mstore(0x00, k); mstore(0x20, "@ + name
                + ".slot); let s := keccak256(0x00, 0x40)"@,
        ),
{
    lemma_recipe_chain(
        "- "@,
        name,
        "[k]: mstore(0x00, k); mstore(0x20, "@,
        name,
        ".slot); let s := keccak256(0x00, 0x40)"@,
    );
}

/// The recipe of a mapping of two keys hashes the first with the variable's own slot,
/// and the second with what came of it.
pub proof fn law_double_mappings_use_their_own_slot(name: Seq<char>, decl: Seq<char>)
    requires
        mapping_depth(decl) == 2,
    ensures
        text::has_prefix(slot_recipe(name, decl), "- "@ + name),
        text::holds(
            slot_recipe(name, decl),
            "[k1][k2]: mstore(0x00, k1); mstore(0x20, "@ + name
                + ".slot); let inner := keccak256(0x00, 0x40); mstore(0x00, k2); mstore(0x20, inner); let s := keccak256(0x00, 0x40)"@,
        ),
{
    lemma_recipe_chain(
        "- "@,
        name,
        "[k1][k2]: mstore(0x00, k1); mstore(0x20, "@,
        name,
        ".slot); let inner := keccak256(0x00, 0x40); mstore(0x00, k2); mstore(0x20, inner); let s := keccak256(0x00, 0x40)"@,
    );
}

proof fn lemma_no_mappings(code: Seq<char>, to: int)
    requires
        to <= code.len(),
        !text::holds(code, "mapping"@),
    ensures
        mappings(code, to) == 0,
    decreases to,
{
    if to > 0 {
        lemma_no_mappings(code, to - 1);
        assert(!text::occurs_at(code, "mapping"@, to - 1));
    }
}

/// A declaration without the keyword is of a value type, and in plain text every
/// `mapping(` adds one to the depth: with a text before it that holds none, the depth
/// is one more than that of what follows.
pub proof fn law_every_mapping_adds_one(before: Seq<char>, blanks: Seq<char>, after: Seq<char>)
    requires
        !text::holds(before, "mapping"@),
        before.len() > 0 ==> !solidity::is_identifier_char(before.last()),
        forall|i: int| 0 <= i < blanks.len() ==> text::is_space(#[trigger] blanks[i]),
        forall|i: int|
            0 <= i < before.len() ==> before[i] != '/' && before[i] != '"' && before[i] != '\'',
        forall|i: int|
            0 <= i < after.len() ==> after[i] != '/' && after[i] != '"' && after[i] != '\'',
    ensures
        mapping_depth(before) == 0,
        mapping_depth(before + "mapping"@ + blanks + "("@ + after) == 1 + mapping_depth(after),
{
    let word = "mapping"@;
    let s = before + word + blanks + "("@ + after;
    let n = before.len() as int;
    let m = (before + word + blanks + "("@).len() as int;
    assert(word.len() == 7 && word[0] == 'm' && "("@.len() == 1 && "("@[0] == '(') by {
        reveal_strlit("mapping");
        reveal_strlit("(");
    }
    assert(forall|k: int| 0 < k < 7 ==> word[k] != 'm') by {
        reveal_strlit("mapping");
    }
    lemma_plain_declaration(before, blanks, after);
    solidity::law_plain_text_is_code(before);
    solidity::law_plain_text_is_code(after);
    lemma_no_mappings(before, n);
    assert forall|k: int| 0 <= k < n implies !text::occurs_at(s, word, k) by {
        if text::occurs_at(s, word, k) {
            if k + 7 <= n {
                assert(before.subrange(k, k + 7) =~= s.subrange(k, k + 7));
                assert(text::occurs_at(before, word, k));
            } else {
                assert(s.subrange(k, k + 7)[n - k] == s[n]);
                assert(s[n] == word[0]);
            }
        }
    }
    lemma_mappings_none(s, n);
    assert(mapping_at(s, n)) by {
        assert(s.subrange(n, n + 7) =~= word);
        assert(n > 0 ==> s[n - 1] == before.last());
        assert(s.skip(n + 7) =~= blanks + ("("@ + after));
        text::lemma_blanks_skipped(blanks, "("@ + after);
        assert(("("@ + after)[0] == '(');
        assert(!text::is_space('('));
        assert(text::trimmed_start("("@ + after) == "("@ + after);
    }
    assert forall|k: int| n + 1 <= k < m implies !text::occurs_at(s, word, k) by {
        if text::occurs_at(s, word, k) {
            assert(s.subrange(k, k + 7)[0] == s[k]);
            if k < n + 7 {
                assert(s[k] == word[k - n]);
            } else if k < m - 1 {
                assert(s[k] == blanks[k - n - 7]);
                assert(!text::is_space('m'));
            }
        }
    }
    lemma_mappings_between(s, n + 1, m);
    assert(s.skip(m) =~= after);
    assert(s[m - 1] == '(');
    lemma_mappings_shift(s, after, m, after.len() as int);
}

proof fn lemma_plain_declaration(before: Seq<char>, blanks: Seq<char>, after: Seq<char>)
    requires
        forall|i: int| 0 <= i < blanks.len() ==> text::is_space(#[trigger] blanks[i]),
        forall|i: int|
            0 <= i < before.len() ==> before[i] != '/' && before[i] != '"' && before[i] != '\'',
        forall|i: int|
            0 <= i < after.len() ==> after[i] != '/' && after[i] != '"' && after[i] != '\'',
    ensures
        solidity::code_only(before + "mapping"@ + blanks + "("@ + after) == before + "mapping"@
            + blanks + "("@ + after,
{
    reveal_strlit("mapping");
    reveal_strlit("(");
    let word = "mapping"@;
    let s = before + word + blanks + "("@ + after;
    let n = before.len() as int;
    let m = (before + word + blanks + "("@).len() as int;
    assert(!text::is_space('/') && !text::is_space('"') && !text::is_space('\''));
    assert forall|i: int| 0 <= i < s.len() implies s[i] != '/' && s[i] != '"' && s[i] != '\'' by {
        if i < n {
            assert(s[i] == before[i]);
        } else if i < n + 7 {
            assert(s[i] == word[i - n]);
        } else if i < m - 1 {
            assert(s[i] == blanks[i - n - 7]);
        } else if i >= m {
            assert(s[i] == after[i - m]);
        }
    }
    solidity::law_plain_text_is_code(s);
}

proof fn lemma_mappings_none(code: Seq<char>, to: int)
    requires
        forall|k: int| 0 <= k < to ==> !text::occurs_at(code, "mapping"@, k),
    ensures
        mappings(code, to) == 0,
    decreases to,
{
    if to > 0 {
        lemma_mappings_none(code, to - 1);
    }
}

proof fn lemma_mappings_between(code: Seq<char>, from: int, to: int)
    requires
        0 <= from <= to,
        forall|k: int| from <= k < to ==> !text::occurs_at(code, "mapping"@, k),
    ensures
        mappings(code, to) == mappings(code, from),
    decreases to,
{
    if to > from {
        lemma_mappings_between(code, from, to - 1);
    }
}

proof fn lemma_mappings_shift(s: Seq<char>, after: Seq<char>, m: int, to: int)
    requires
        0 < m <= s.len(),
        after == s.skip(m),
        !solidity::is_identifier_char(s[m - 1]),
        0 <= to <= after.len(),
    ensures
        mappings(s, m + to) == mappings(s, m) + mappings(after, to),
    decreases to,
{
    if to > 0 {
        lemma_mappings_shift(s, after, m, to - 1);
        let k = to - 1;
        reveal_strlit("mapping");
        if k + 7 <= after.len() {
            assert(s.subrange(m + k, m + k + 7) =~= after.subrange(k, k + 7));
            assert(s.skip(m + k + 7) =~= after.skip(k + 7));
        }
        assert(k > 0 ==> after[k - 1] == s[m + k - 1]);
        assert(mapping_at(s, m + k) == mapping_at(after, k));
    }
}

/// The depth of the parentheses behind a text, where the nesting was `depth` before.
pub open spec fn depth_after(code: Seq<char>, depth: int) -> int
    decreases code.len(),
{
    if code.len() == 0 {
        depth
    } else if code[0] == '(' {
        depth_after(code.skip(1), depth + 1)
    } else if code[0] == ')' {
        depth_after(code.skip(1), depth - 1)
    } else {
        depth_after(code.skip(1), depth)
    }
}

proof fn lemma_body_found(code: Seq<char>, at: int, depth: int, to: int)
    requires
        0 <= at <= to < code.len(),
        code[to] == '{',
        forall|k: int| at <= k < to ==> code[k] != '{',
        depth_after(code.subrange(at, to), depth) <= 0,
    ensures
        body_brace(code, at, depth) == Some(to),
    decreases to - at,
{
    if at < to {
        let part = code.subrange(at, to);
        assert(part[0] == code[at]);
        assert(part.skip(1) =~= code.subrange(at + 1, to));
        if code[at] == '(' {
            lemma_body_found(code, at + 1, depth + 1, to);
        } else if code[at] == ')' {
            lemma_body_found(code, at + 1, depth - 1, to);
        } else {
            lemma_body_found(code, at + 1, depth, to);
        }
    } else {
        assert(code.subrange(at, to) =~= seq![]);
    }
}

/// The header is all that stands before the body: of a function whose head is plain
/// text with balanced parentheses and no brace, the head, whatever the body holds.
pub proof fn law_the_header_is_what_precedes_the_body(head: Seq<char>, body: Seq<char>)
    requires
        forall|i: int|
            0 <= i < head.len() ==> head[i] != '/' && head[i] != '"' && head[i] != '\'' && head[i]
                != '{',
        depth_after(head, 0) <= 0,
    ensures
        header(head + "{"@ + body) == text::trimmed(head),
{
    reveal_strlit("{");
    let s = head + "{"@ + body;
    let code = solidity::code_only(s);
    let n = head.len() as int;
    solidity::lemma_masked(s, solidity::Mode::Code);
    assert forall|i: int| 0 <= i <= n implies s[i] != '/' && s[i] != '"' && s[i] != '\'' by {
        if i < n {
            assert(s[i] == head[i]);
        }
    }
    solidity::lemma_plain_start(s, n + 1);
    assert(code.subrange(0, n) =~= head) by {
        assert forall|i: int| 0 <= i < n implies code[i] == head[i] by {
            assert(code[i] == s[i]);
        }
    }
    assert(code[n] == s[n]);
    assert forall|k: int| 0 <= k < n implies code[k] != '{' by {
        assert(code[k] == s[k]);
        assert(s[k] == head[k]);
    }
    lemma_body_found(code, 0, 0, n);
    assert(s.take(n) =~= head);
}

/// The category goes by the first base whose name, in lower case, holds that of a
/// standard.
pub proof fn law_the_category_goes_by_the_first_base(
    bases: Seq<Seq<Seq<char>>>,
    i: int,
    kind: Seq<char>,
)
    requires
        0 <= i < bases.len(),
        kind == "erc721"@ || kind == "erc1155"@ || kind == "erc20"@ || kind == "erc2981"@,
        text::holds(base_name(bases[i]), kind),
        forall|k: int|
            0 <= k < i ==> !text::holds(base_name(#[trigger] bases[k]), "erc721"@) && !text::holds(
                base_name(bases[k]),
                "erc1155"@,
            ) && !text::holds(base_name(bases[k]), "erc20"@) && !text::holds(
                base_name(bases[k]),
                "erc2981"@,
            ),
        forall|other: Seq<char>|
            other != kind && (other == "erc721"@ || other == "erc1155"@ || other == "erc20"@
                || other == "erc2981"@) ==> !#[trigger] text::holds(base_name(bases[i]), other),
    ensures
        first_category(bases) == Some(kind),
    decreases bases.len(),
{
    let head = bases.drop_last();
    if i < head.len() {
        assert(head[i] == bases[i]);
        assert forall|k: int| 0 <= k < i implies !text::holds(
            base_name(#[trigger] head[k]),
            "erc721"@,
        ) && !text::holds(base_name(head[k]), "erc1155"@) && !text::holds(
            base_name(head[k]),
            "erc20"@,
        ) && !text::holds(base_name(head[k]), "erc2981"@) by {
            assert(head[k] == bases[k]);
        }
        law_the_category_goes_by_the_first_base(head, i, kind);
    } else {
        assert forall|k: int| 0 <= k < head.len() implies category_of(
            base_name(#[trigger] head[k]),
        ) is None by {
            assert(head[k] == bases[k]);
        }
        lemma_no_category(head);
        let b = base_name(bases[i]);
        assert("erc721"@ != kind ==> !text::holds(b, "erc721"@));
        assert("erc1155"@ != kind ==> !text::holds(b, "erc1155"@));
        assert("erc20"@ != kind ==> !text::holds(b, "erc20"@));
        assert("erc2981"@ != kind ==> !text::holds(b, "erc2981"@));
    }
}

proof fn lemma_no_category(bases: Seq<Seq<Seq<char>>>)
    requires
        forall|k: int|
            0 <= k < bases.len() ==> category_of(base_name(#[trigger] bases[k])) is None,
    ensures
        first_category(bases) is None,
    decreases bases.len(),
{
    if bases.len() > 0 {
        assert forall|k: int| 0 <= k < bases.drop_last().len() implies category_of(
            base_name(#[trigger] bases.drop_last()[k]),
        ) is None by {
            assert(bases.drop_last()[k] == bases[k]);
        }
        lemma_no_category(bases.drop_last());
        assert(category_of(base_name(bases[bases.len() - 1])) is None);
    }
}

/// The name of a base that is one identifier of ASCII letters is that identifier in
/// lower case.
pub proof fn law_a_base_is_named_in_lower_case(id: Seq<char>)
    requires
        unicode::all_ascii(id),
    ensures
        base_name(seq![id]) == id.map_values(|c: char| text::ascii_lower(c)),
{
    let path = seq![id].map_values(|id: Seq<char>| unicode::lowered(id));
    assert(path.len() == 1);
    assert(path[0] == unicode::lowered(id));
}

/// The router is shown every header, with its size.
pub proof fn law_every_header_is_rendered(r: ContractSkeleton, i: int)
    requires
        0 <= i < r.signatures@.len(),
    ensures
        text::holds(
            r.rendered(),
            "- "@ + r.signatures@[i].name@ + " ["@ + number::decimal(
                r.signatures@[i].size as nat,
            ) + " bytes]: "@ + r.signatures@[i].signature@ + "\n"@,
        ),
        r.storage_layout@.len() > 0 ==> text::holds(r.rendered(), r.storage_layout@),
        r.file_decls@.len() > 0 ==> text::holds(r.rendered(), r.file_decls@),
{
    let sigs = sig_models(r.signatures@);
    let lines = signature_lines(sigs);
    let vars = titled("\nSTATE VARIABLES:\n"@, r.storage_layout@);
    let decls = titled("\nFILE-LEVEL DECLARATIONS:\n"@, r.file_decls@);
    assert(sigs[i] == r.signatures@[i].model());
    lemma_signature_line(sigs, i);
    let line = "- "@ + sigs[i].name + " ["@ + number::decimal(sigs[i].size as nat) + " bytes]: "@
        + sigs[i].signature + "\n"@;
    let at = choose|at: int| text::occurs_at(lines, line, at);
    text::lemma_put_further(seq![], lines, vars + decls, line, at);
    assert(seq![] + lines + (vars + decls) =~= r.rendered());
    if r.storage_layout@.len() > 0 {
        let title = "\nSTATE VARIABLES:\n"@;
        text::lemma_put_between(lines + title, r.storage_layout@, "\n"@ + decls);
        assert((lines + title) + r.storage_layout@ + ("\n"@ + decls) =~= r.rendered());
    }
    if r.file_decls@.len() > 0 {
        let title = "\nFILE-LEVEL DECLARATIONS:\n"@;
        text::lemma_put_between(lines + vars + title, r.file_decls@, "\n"@);
        assert((lines + vars + title) + r.file_decls@ + "\n"@ =~= r.rendered());
    }
}

proof fn lemma_signature_line(sigs: Seq<SigModel>, i: int)
    requires
        0 <= i < sigs.len(),
    ensures
        text::holds(
            signature_lines(sigs),
            "- "@ + sigs[i].name + " ["@ + number::decimal(sigs[i].size as nat) + " bytes]: "@
                + sigs[i].signature + "\n"@,
        ),
    decreases sigs.len(),
{
    let head = signature_lines(sigs.drop_last());
    let s = sigs.last();
    let last = "- "@ + s.name + " ["@ + number::decimal(s.size as nat) + " bytes]: "@ + s.signature
        + "\n"@;
    let line = "- "@ + sigs[i].name + " ["@ + number::decimal(sigs[i].size as nat) + " bytes]: "@
        + sigs[i].signature + "\n"@;
    assert(signature_lines(sigs) =~= head + last);
    if i < sigs.len() - 1 {
        lemma_signature_line(sigs.drop_last(), i);
        let at = choose|at: int| text::occurs_at(head, line, at);
        text::lemma_put_further(seq![], head, last, line, at);
        assert(seq![] + head + last =~= head + last);
    } else {
        text::lemma_put_between(head, last, seq![]);
        assert(head + last + seq![] =~= head + last);
    }
}

} // verus!
