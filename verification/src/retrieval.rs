//! Composed retrieval: category-filtered + general + antipattern vector search and
//! structural matching, merged into one list of candidates, whose full pattern text
//! is fetched from the pattern store.
//!
//! A candidate found by vector search carries the position of its search hit, by
//! which the hit's score is found again.

use crate::db::{self, Row, TursoArg};
use crate::normalize::{self, PatternMatcher};
use crate::split::{self, join, remove_char};
use crate::text::{self, same, trim};
use vstd::prelude::*;

verus! {

broadcast use vstd::seq::group_seq_axioms;

// ── searches ─────────────────────────────────────────────────────────────────

/// A token standard's category.
pub open spec fn is_token_category(c: Seq<char>) -> bool {
    c == "erc20"@ || c == "erc721"@ || c == "erc1155"@ || c == "erc2981"@ || c == "accounts"@
}

/// The token standards' categories, each as a condition.
pub open spec fn token_conditions() -> Seq<(Seq<char>, Seq<char>)> {
    seq![
        ("category"@, "erc20"@),
        ("category"@, "erc721"@),
        ("category"@, "erc1155"@),
        ("category"@, "erc2981"@),
        ("category"@, "accounts"@),
    ]
}

/// A vector search: how many hits, and conditions `field = value` on them.
pub struct Search {
    pub limit: u64,
    pub must: Vec<(String, String)>,
    pub must_not: Vec<(String, String)>,
}

/// The searches for one function.
pub struct SearchPlan {
    /// For patterns; the hits are taken in this order.
    pub patterns: Vec<Search>,
    /// For antipatterns.
    pub antipatterns: Search,
}

/// A search as a value.
pub struct SearchModel {
    pub limit: int,
    pub must: Seq<(Seq<char>, Seq<char>)>,
    pub must_not: Seq<(Seq<char>, Seq<char>)>,
}

impl Search {
    /// The search as a value.
    pub open spec fn model(self) -> SearchModel {
        SearchModel {
            limit: self.limit as int,
            must: text::pair_views(self.must@),
            must_not: text::pair_views(self.must_not@),
        }
    }
}

/// Each search as a value.
pub open spec fn search_models(list: Seq<Search>) -> Seq<SearchModel> {
    Seq::new(list.len(), |i: int| list[i].model())
}

/// The pattern searches: for a token contract two hits of its own category and one
/// of no token category, for everything else the three nearest.
pub open spec fn pattern_searches(category: Option<Seq<char>>) -> Seq<SearchModel> {
    match category {
        Some(c) => if is_token_category(c) {
            seq![
                SearchModel { limit: 2, must: seq![("category"@, c)], must_not: seq![] },
                SearchModel { limit: 1, must: seq![], must_not: token_conditions() },
            ]
        } else {
            seq![SearchModel { limit: 3, must: seq![], must_not: seq![] }]
        },
        None => seq![SearchModel { limit: 3, must: seq![], must_not: seq![] }],
    }
}

fn token_category(c: &str) -> (r: bool)
    ensures
        r == is_token_category(c@),
{
    same(c, "erc20") || same(c, "erc721") || same(c, "erc1155") || same(c, "erc2981") || same(
        c,
        "accounts",
    )
}

fn condition(field: &str, value: &str) -> (r: (String, String))
    ensures
        r.0@ == field@,
        r.1@ == value@,
{
    (field.to_owned(), value.to_owned())
}

/// Plans the searches for a function of a contract of the given category.
pub fn plan_searches(category: Option<&'static str>) -> (r: SearchPlan)
    ensures
        search_models(r.patterns@) == pattern_searches(crate::analyze::category_view(category)),
        r.antipatterns.model() == (SearchModel {
            limit: 2,
            must: seq![("type"@, "antipattern"@)],
            must_not: seq![],
        }),
{
    let mut anti_must: Vec<(String, String)> = Vec::new();
    anti_must.push(condition("type", "antipattern"));
    let antipatterns = Search { limit: 2, must: anti_must, must_not: Vec::new() };
    proof {
        assert(antipatterns.model().must =~= seq![("type"@, "antipattern"@)]);
        assert(antipatterns.model().must_not =~= seq![]);
    }
    let mut patterns: Vec<Search> = Vec::new();
    let own = match category {
        Some(c) => if token_category(c) {
            Some(c)
        } else {
            None
        },
        None => None,
    };
    match own {
        Some(c) => {
            let mut must: Vec<(String, String)> = Vec::new();
            must.push(condition("category", c));
            let first = Search { limit: 2, must, must_not: Vec::new() };
            let mut must_not: Vec<(String, String)> = Vec::new();
            must_not.push(condition("category", "erc20"));
            must_not.push(condition("category", "erc721"));
            must_not.push(condition("category", "erc1155"));
            must_not.push(condition("category", "erc2981"));
            must_not.push(condition("category", "accounts"));
            let second = Search { limit: 1, must: Vec::new(), must_not };
            proof {
                assert(first.model().must =~= seq![("category"@, c@)]);
                assert(first.model().must_not =~= seq![]);
                assert(second.model().must =~= seq![]);
                assert(second.model().must_not =~= token_conditions());
            }
            patterns.push(first);
            patterns.push(second);
        },
        None => {
            let plain = Search { limit: 3, must: Vec::new(), must_not: Vec::new() };
            proof {
                assert(plain.model().must =~= seq![]);
                assert(plain.model().must_not =~= seq![]);
            }
            patterns.push(plain);
        },
    }
    proof {
        assert(search_models(patterns@) =~= pattern_searches(
            crate::analyze::category_view(category),
        ));
    }
    SearchPlan { patterns, antipatterns }
}

// ── candidates ───────────────────────────────────────────────────────────────

/// Which retrieval signal produced a candidate: decides score and document format.
/// The number is the position of the hit among those of its search.
#[derive(PartialEq, Eq, Structural, Clone, Copy, Debug)]
pub enum HitKind {
    Pattern(usize),
    Anti(usize),
    Structure,
}

/// A pattern to retrieve, and how it was found.
pub struct Candidate {
    pub id: String,
    pub kind: HitKind,
}

/// Each candidate as a value.
pub open spec fn candidate_models(list: Seq<Candidate>) -> Seq<(Seq<char>, HitKind)> {
    Seq::new(list.len(), |i: int| (list[i].id@, list[i].kind))
}

/// The id in a hit's payload: trimmed, without the quotes that it is printed with.
pub open spec fn hit_id(raw: Option<Seq<char>>) -> Option<Seq<char>> {
    match raw {
        Some(s) => Some(split::without_char(text::trimmed(s), '"')),
        None => None,
    }
}

/// A candidate of that id is in the list.
pub open spec fn is_listed(list: Seq<(Seq<char>, HitKind)>, id: Seq<char>) -> bool {
    exists|i: int| 0 <= i < list.len() && (#[trigger] list[i]).0 == id
}

/// The list with one more candidate, unless its id is there already.
pub open spec fn with_candidate(
    list: Seq<(Seq<char>, HitKind)>,
    id: Option<Seq<char>>,
    kind: HitKind,
) -> Seq<(Seq<char>, HitKind)> {
    match id {
        Some(x) => if is_listed(list, x) {
            list
        } else {
            list.push((x, kind))
        },
        None => list,
    }
}

/// The list with the first `n` pattern hits.
pub open spec fn with_patterns(
    list: Seq<(Seq<char>, HitKind)>,
    hits: Seq<Option<Seq<char>>>,
    n: nat,
) -> Seq<(Seq<char>, HitKind)>
    decreases n,
{
    if n == 0 {
        list
    } else {
        with_candidate(
            with_patterns(list, hits, (n - 1) as nat),
            hit_id(hits[n - 1]),
            HitKind::Pattern((n - 1) as usize),
        )
    }
}

/// The list with the first `n` antipattern hits.
pub open spec fn with_antipatterns(
    list: Seq<(Seq<char>, HitKind)>,
    hits: Seq<Option<Seq<char>>>,
    n: nat,
) -> Seq<(Seq<char>, HitKind)>
    decreases n,
{
    if n == 0 {
        list
    } else {
        with_candidate(
            with_antipatterns(list, hits, (n - 1) as nat),
            hit_id(hits[n - 1]),
            HitKind::Anti((n - 1) as usize),
        )
    }
}

/// The list with the first `n` structural matches.
pub open spec fn with_structural(
    list: Seq<(Seq<char>, HitKind)>,
    ids: Seq<Seq<char>>,
    n: nat,
) -> Seq<(Seq<char>, HitKind)>
    decreases n,
{
    if n == 0 {
        list
    } else {
        with_candidate(
            with_structural(list, ids, (n - 1) as nat),
            Some(ids[n - 1]),
            HitKind::Structure,
        )
    }
}

/// The candidates, in injection order, each pattern once: what the pattern search
/// found, then the antipatterns, then the structural matches.
pub open spec fn merged(
    patterns: Seq<Option<Seq<char>>>,
    antipatterns: Seq<Option<Seq<char>>>,
    structural: Seq<Seq<char>>,
) -> Seq<(Seq<char>, HitKind)> {
    let first = with_patterns(seq![], patterns, patterns.len());
    let second = with_antipatterns(first, antipatterns, antipatterns.len());
    with_structural(second, structural, structural.len())
}

/// The payload ids of a list of hits.
pub open spec fn raw_ids(hits: Seq<Option<String>>) -> Seq<Option<Seq<char>>> {
    Seq::new(hits.len(), |i: int| text::opt_view(hits[i]))
}

fn listed(list: &Vec<Candidate>, id: &str) -> (r: bool)
    ensures
        r == is_listed(candidate_models(list@), id@),
{
    let ghost ms = candidate_models(list@);
    let mut i: usize = 0;
    while i < list.len()
        invariant
            i <= list@.len(),
            ms == candidate_models(list@),
            forall|k: int| 0 <= k < i ==> (#[trigger] ms[k]).0 != id@,
        decreases list.len() - i,
    {
        if same(list[i].id.as_str(), id) {
            proof {
                assert(ms[i as int].0 == id@);
            }
            return true;
        }
        i += 1;
    }
    false
}

fn add_candidate(list: &mut Vec<Candidate>, id: Option<String>, kind: HitKind)
    ensures
        candidate_models(final(list)@) == with_candidate(
            candidate_models(old(list)@),
            text::opt_view(id),
            kind,
        ),
{
    if let Some(x) = id {
        if !listed(list, x.as_str()) {
            let ghost before = candidate_models(list@);
            list.push(Candidate { id: x, kind });
            proof {
                assert(candidate_models(list@) =~= before.push((x@, kind)));
            }
        }
    }
}

fn clean_id(raw: &Option<String>) -> (r: Option<String>)
    ensures
        text::opt_view(r) == hit_id(text::opt_view(*raw)),
{
    match raw {
        Some(s) => {
            let t = trim(s.as_str());
            Some(remove_char(t.as_str(), '"'))
        },
        None => None,
    }
}

/// Merges what the searches and the structural matcher found into one list of
/// candidates (deduped across sources, in injection order).
pub fn merge_candidates(
    patterns: &Vec<Option<String>>,
    antipatterns: &Vec<Option<String>>,
    structural: &Vec<String>,
) -> (r: Vec<Candidate>)
    ensures
        candidate_models(r@) == merged(
            raw_ids(patterns@),
            raw_ids(antipatterns@),
            text::views(structural@),
        ),
{
    let ghost ps = raw_ids(patterns@);
    let ghost aps = raw_ids(antipatterns@);
    let ghost ss = text::views(structural@);
    let mut out: Vec<Candidate> = Vec::new();
    let mut i: usize = 0;
    proof {
        assert(candidate_models(out@) =~= seq![]);
    }
    while i < patterns.len()
        invariant
            i <= patterns@.len(),
            ps == raw_ids(patterns@),
            candidate_models(out@) == with_patterns(seq![], ps, i as nat),
        decreases patterns.len() - i,
    {
        let id = clean_id(&patterns[i]);
        add_candidate(&mut out, id, HitKind::Pattern(i));
        i += 1;
    }
    let ghost first = candidate_models(out@);
    let mut j: usize = 0;
    while j < antipatterns.len()
        invariant
            j <= antipatterns@.len(),
            aps == raw_ids(antipatterns@),
            candidate_models(out@) == with_antipatterns(first, aps, j as nat),
        decreases antipatterns.len() - j,
    {
        let id = clean_id(&antipatterns[j]);
        add_candidate(&mut out, id, HitKind::Anti(j));
        j += 1;
    }
    let ghost second = candidate_models(out@);
    let mut k: usize = 0;
    while k < structural.len()
        invariant
            k <= structural@.len(),
            ss == text::views(structural@),
            candidate_models(out@) == with_structural(second, ss, k as nat),
        decreases structural.len() - k,
    {
        add_candidate(&mut out, Some(structural[k].clone()), HitKind::Structure);
        k += 1;
    }
    out
}

/// The candidates for a function: the hits of the two searches, and what the
/// structural matcher finds in the function's source.
pub fn find_candidates(
    matcher: &PatternMatcher,
    query: &str,
    patterns: &Vec<Option<String>>,
    antipatterns: &Vec<Option<String>>,
) -> (r: Vec<Candidate>)
    ensures
        candidate_models(r@) == merged(
            raw_ids(patterns@),
            raw_ids(antipatterns@),
            normalize::matching_runs(
                matcher.patterns(),
                normalize::canonical(normalize::lexed(query@), true),
                normalize::MAX_STRUCT_MATCHES as nat,
            ),
        ),
{
    let structural = matcher.match_function(query);
    merge_candidates(patterns, antipatterns, &structural)
}

// ── the batched fetch ────────────────────────────────────────────────────────

/// One placeholder per candidate.
pub open spec fn placeholders(n: nat) -> Seq<Seq<char>> {
    Seq::new(n, |i: int| "?"@)
}

/// The statement that fetches `n` patterns.
pub open spec fn fetch_statement(n: nat) -> Seq<char> {
    "SELECT id, title, explanation, yul_optimized, risk_level, when_not_to_apply, solidity_before FROM optimization_patterns WHERE id IN ("@
        + split::joined(placeholders(n), ","@) + ")"@
}

/// A statement with its arguments.
pub struct Fetch {
    pub sql: String,
    pub args: Vec<TursoArg>,
}

/// The one batched fetch for all candidates; none where there is no candidate.
pub fn fetch_candidates(candidates: &Vec<Candidate>) -> (r: Option<Fetch>)
    ensures
        r is Some <==> candidates@.len() > 0,
        r matches Some(f) ==> {
            &&& f.sql@ == fetch_statement(candidates@.len())
            &&& f.args@.len() == candidates@.len()
            &&& forall|i: int|
                0 <= i < f.args@.len() ==> (#[trigger] f.args@[i]).model() == db::ArgModel::Text(
                    candidates@[i].id@,
                )
        },
{
    if candidates.len() == 0 {
        return None;
    }
    let mut marks: Vec<String> = Vec::new();
    let mut args: Vec<TursoArg> = Vec::new();
    let mut i: usize = 0;
    proof {
        assert(text::views(marks@) =~= placeholders(0));
    }
    while i < candidates.len()
        invariant
            i <= candidates@.len(),
            text::views(marks@) == placeholders(i as nat),
            args@.len() == i,
            forall|k: int|
                0 <= k < args@.len() ==> (#[trigger] args@[k]).model() == db::ArgModel::Text(
                    candidates@[k].id@,
                ),
        decreases candidates.len() - i,
    {
        let mark = "?".to_owned();
        proof {
            text::lemma_views_push(marks@, mark);
            assert(placeholders(i as nat).push("?"@) =~= placeholders((i + 1) as nat));
        }
        marks.push(mark);
        args.push(TursoArg::Text(candidates[i].id.clone()));
        i += 1;
    }
    let list = join(&marks, ",");
    let mut sql =
        "SELECT id, title, explanation, yul_optimized, risk_level, when_not_to_apply, solidity_before FROM optimization_patterns WHERE id IN (".to_owned();
    sql.append(list.as_str());
    sql.append(")");
    Some(Fetch { sql, args })
}

// ── documents ────────────────────────────────────────────────────────────────

/// The last row, before `to`, with the given id.
pub open spec fn row_of(rows: Seq<Row>, id: Seq<char>, to: int) -> Option<int>
    decreases to,
{
    if to <= 0 || to > rows.len() {
        None
    } else if rows[to - 1].text("id"@) == Some(id) {
        Some(to - 1)
    } else {
        row_of(rows, id, to - 1)
    }
}

/// The text in a column, empty where there is none.
pub open spec fn column(row: Row, col: Seq<char>) -> Seq<char> {
    match row.text(col) {
        Some(s) => s,
        None => ""@,
    }
}

/// The document that a candidate becomes: what the agent is shown of its pattern.
pub open spec fn document(id: Seq<char>, kind: HitKind, row: Row) -> Seq<char> {
    match kind {
        HitKind::Anti(_) => "ANTIPATTERN ID: "@ + id + "\nTitle: "@ + column(row, "title"@)
            + "\nExplanation: "@ + column(row, "explanation"@) + "\nWrong:\n"@ + column(
            row,
            "solidity_before"@,
        ) + "\nCorrect:\n"@ + column(row, "yul_optimized"@),
        HitKind::Pattern(_) => "PATTERN ID: "@ + id + "\nTitle: "@ + column(row, "title"@)
            + "\nExplanation: "@ + column(row, "explanation"@) + "\nOptimized YUL:\n"@ + column(
            row,
            "yul_optimized"@,
        ) + "\nRisk: "@ + column(row, "risk_level"@) + "\nDo NOT apply when: "@ + column(
            row,
            "when_not_to_apply"@,
        ),
        HitKind::Structure => "PATTERN ID: "@ + id + " (structural match)"@ + "\nTitle: "@
            + column(row, "title"@) + "\nExplanation: "@ + column(row, "explanation"@)
            + "\nOptimized YUL:\n"@ + column(row, "yul_optimized"@) + "\nRisk: "@ + column(
            row,
            "risk_level"@,
        ) + "\nDo NOT apply when: "@ + column(row, "when_not_to_apply"@),
    }
}

/// One retrieved entry: how it was found, its pattern, and the document.
pub struct Hit {
    pub kind: HitKind,
    pub id: String,
    pub text: String,
}

/// A retrieved entry as a value.
pub struct HitModel {
    pub kind: HitKind,
    pub id: Seq<char>,
    pub text: Seq<char>,
}

impl Hit {
    /// The entry as a value.
    pub open spec fn model(self) -> HitModel {
        HitModel { kind: self.kind, id: self.id@, text: self.text@ }
    }
}

/// Each entry as a value.
pub open spec fn hit_models(list: Seq<Hit>) -> Seq<HitModel> {
    Seq::new(list.len(), |i: int| list[i].model())
}

/// The entries: each candidate whose pattern was found, in the order of the
/// candidates.
pub open spec fn retrieved(candidates: Seq<(Seq<char>, HitKind)>, rows: Seq<Row>) -> Seq<HitModel>
    decreases candidates.len(),
{
    if candidates.len() == 0 {
        seq![]
    } else {
        let head = retrieved(candidates.drop_last(), rows);
        let (id, kind) = candidates.last();
        match row_of(rows, id, rows.len() as int) {
            Some(i) => head.push(
                HitModel { kind: kind, id: id, text: document(id, kind, rows[i]) },
            ),
            None => head,
        }
    }
}

fn find_row(rows: &Vec<Row>, id: &str) -> (r: Option<usize>)
    ensures
        match r {
            Some(i) => row_of(rows@, id@, rows@.len() as int) == Some(i as int) && i < rows@.len(),
            None => row_of(rows@, id@, rows@.len() as int) is None,
        },
{
    let mut to: usize = rows.len();
    while to > 0
        invariant
            to <= rows@.len(),
            row_of(rows@, id@, rows@.len() as int) == row_of(rows@, id@, to as int),
        decreases to,
    {
        let found = match rows[to - 1].get_str("id") {
            Some(s) => same(s, id),
            None => false,
        };
        if found {
            return Some(to - 1);
        }
        to -= 1;
    }
    None
}

fn column_text(row: &Row, col: &str) -> (r: String)
    ensures
        r@ == column(*row, col@),
{
    match row.get_str(col) {
        Some(s) => s.to_owned(),
        None => "".to_owned(),
    }
}

fn make_document(id: &str, kind: HitKind, row: &Row) -> (r: String)
    ensures
        r@ == document(id@, kind, *row),
{
    let title = column_text(row, "title");
    let explanation = column_text(row, "explanation");
    let yul = column_text(row, "yul_optimized");
    let mut out = match kind {
        HitKind::Anti(_) => "ANTIPATTERN ID: ".to_owned(),
        _ => "PATTERN ID: ".to_owned(),
    };
    out.append(id);
    if let HitKind::Structure = kind {
        out.append(" (structural match)");
    }
    out.append("\nTitle: ");
    out.append(title.as_str());
    out.append("\nExplanation: ");
    out.append(explanation.as_str());
    match kind {
        HitKind::Anti(_) => {
            let before = column_text(row, "solidity_before");
            out.append("\nWrong:\n");
            out.append(before.as_str());
            out.append("\nCorrect:\n");
            out.append(yul.as_str());
        },
        _ => {
            let risk = column_text(row, "risk_level");
            let unless = column_text(row, "when_not_to_apply");
            out.append("\nOptimized YUL:\n");
            out.append(yul.as_str());
            out.append("\nRisk: ");
            out.append(risk.as_str());
            out.append("\nDo NOT apply when: ");
            out.append(unless.as_str());
        },
    }
    out
}

/// Formats each candidate from its row; a candidate without a row is left out.
pub fn hydrate(candidates: &Vec<Candidate>, rows: &Vec<Row>) -> (r: Vec<Hit>)
    ensures
        hit_models(r@) == retrieved(candidate_models(candidates@), rows@),
{
    let ghost cs = candidate_models(candidates@);
    let mut out: Vec<Hit> = Vec::new();
    let mut i: usize = 0;
    proof {
        assert(hit_models(out@) =~= retrieved(cs.take(0), rows@));
    }
    while i < candidates.len()
        invariant
            i <= candidates@.len(),
            cs == candidate_models(candidates@),
            hit_models(out@) == retrieved(cs.take(i as int), rows@),
        decreases candidates.len() - i,
    {
        let c = &candidates[i];
        proof {
            assert(cs.take(i + 1).drop_last() =~= cs.take(i as int));
            assert(cs.take(i + 1).last() == (c.id@, c.kind));
        }
        if let Some(k) = find_row(rows, c.id.as_str()) {
            let text = make_document(c.id.as_str(), c.kind, &rows[k]);
            let hit = Hit { kind: c.kind, id: c.id.clone(), text };
            proof {
                assert(hit_models(out@.push(hit)) =~= hit_models(out@).push(hit.model()));
            }
            out.push(hit);
        }
        i += 1;
    }
    proof {
        assert(cs.take(cs.len() as int) =~= cs);
    }
    out
}

/// Pattern ids for the optimize response.
pub fn pattern_ids(hits: &Vec<Hit>) -> (r: Vec<String>)
    ensures
        r@.len() == hits@.len(),
        forall|i: int| 0 <= i < r@.len() ==> (#[trigger] r@[i])@ == hits@[i].id@,
{
    let mut out: Vec<String> = Vec::new();
    let mut i: usize = 0;
    while i < hits.len()
        invariant
            i <= hits@.len(),
            out@.len() == i,
            forall|k: int| 0 <= k < out@.len() ==> (#[trigger] out@[k])@ == hits@[k].id@,
        decreases hits.len() - i,
    {
        out.push(hits[i].id.clone());
        i += 1;
    }
    out
}

// ── ranking ──────────────────────────────────────────────────────────────────

/// How many positions at the front have a key of at least `key`.
pub open spec fn rank_place(order: Seq<int>, keys: Seq<int>, key: int) -> nat
    decreases order.len(),
{
    if order.len() == 0 || keys[order[0]] < key {
        0
    } else {
        1 + rank_place(order.skip(1), keys, key)
    }
}

/// The first `n` positions by descending key; equal keys keep their order.
pub open spec fn ranking(keys: Seq<int>, n: nat) -> Seq<int>
    decreases n,
{
    if n == 0 {
        seq![]
    } else {
        let head = ranking(keys, (n - 1) as nat);
        head.insert(rank_place(head, keys, keys[n - 1]) as int, n - 1)
    }
}

/// The positions to keep: the best `n`, or all of them where `n` is zero or they are
/// fewer.
pub open spec fn top(keys: Seq<int>, n: nat) -> Seq<int> {
    let all = ranking(keys, keys.len());
    if 0 < n < all.len() {
        all.take(n as int)
    } else {
        all
    }
}

/// The keys as numbers.
pub open spec fn key_values(keys: Seq<i64>) -> Seq<int> {
    Seq::new(keys.len(), |i: int| keys[i] as int)
}

/// Positions as numbers.
pub open spec fn positions(list: Seq<usize>) -> Seq<int> {
    Seq::new(list.len(), |i: int| list[i] as int)
}

proof fn lemma_rank_place(order: Seq<int>, keys: Seq<int>, key: int)
    ensures
        rank_place(order, keys, key) <= order.len(),
        forall|k: int|
            0 <= k < rank_place(order, keys, key) ==> keys[#[trigger] order[k]] >= key,
        rank_place(order, keys, key) < order.len() ==> keys[order[rank_place(
            order,
            keys,
            key,
        ) as int]] < key,
    decreases order.len(),
{
    if order.len() > 0 && keys[order[0]] >= key {
        let rest = order.skip(1);
        lemma_rank_place(rest, keys, key);
        assert forall|k: int| 0 <= k < rank_place(order, keys, key) implies keys[
        #[trigger] order[k]] >= key by {
            if k > 0 {
                assert(order[k] == rest[k - 1]);
            }
        }
        if rank_place(order, keys, key) < order.len() {
            assert(order[rank_place(order, keys, key) as int] == rest[rank_place(
                order,
                keys,
                key,
            ) - 1]);
        }
    }
}

proof fn lemma_rank_place_is(order: Seq<int>, keys: Seq<int>, key: int, i: int)
    requires
        0 <= i <= order.len(),
        forall|k: int| 0 <= k < i ==> keys[#[trigger] order[k]] >= key,
        i < order.len() ==> keys[order[i]] < key,
    ensures
        rank_place(order, keys, key) == i,
{
    lemma_rank_place(order, keys, key);
    if rank_place(order, keys, key) < i {
        assert(keys[order[rank_place(order, keys, key) as int]] >= key);
    } else if rank_place(order, keys, key) > i {
        assert(keys[order[i]] >= key);
    }
}

/// Positions below a bound.
pub open spec fn all_below(list: Seq<int>, n: int) -> bool {
    forall|k: int| 0 <= k < list.len() ==> 0 <= #[trigger] list[k] < n
}

/// The keys never increase.
pub open spec fn keys_descend(list: Seq<int>, keys: Seq<int>) -> bool {
    forall|i: int, j: int|
        0 <= i <= j < list.len() ==> keys[#[trigger] list[i]] >= keys[#[trigger] list[j]]
}

proof fn lemma_ranking(keys: Seq<int>, n: nat)
    requires
        n <= keys.len(),
    ensures
        ranking(keys, n).len() == n,
        all_below(ranking(keys, n), n as int),
        keys_descend(ranking(keys, n), keys),
        forall|p: int| 0 <= p < n ==> #[trigger] ranking(keys, n).contains(p),
    decreases n,
{
    if n > 0 {
        let m = (n - 1) as nat;
        lemma_ranking(keys, m);
        let head = ranking(keys, m);
        let out = ranking(keys, n);
        lemma_rank_place(head, keys, keys[n - 1]);
        let i = rank_place(head, keys, keys[n - 1]) as int;
        assert forall|k: int| 0 <= k < out.len() implies 0 <= #[trigger] out[k] < n by {
            if k != i {
                let kk = if k < i { k } else { k - 1 };
                assert(out[k] == head[kk]);
            }
        }
        assert forall|a: int, b: int| 0 <= a <= b < out.len() implies keys[#[trigger] out[a]]
            >= keys[#[trigger] out[b]] by {
            if a == b {
            } else if b == i {
                assert(out[a] == head[a]);
            } else if a == i {
                assert(out[b] == head[b - 1]);
                assert(keys[head[i]] >= keys[head[b - 1]]);
            } else {
                let aa = if a < i { a } else { a - 1 };
                let bb = if b < i { b } else { b - 1 };
                assert(out[a] == head[aa] && out[b] == head[bb]);
            }
        }
        assert forall|p: int| 0 <= p < n implies #[trigger] out.contains(p) by {
            if p < m {
                assert(head.contains(p));
                let k = choose|k: int| 0 <= k < head.len() && head[k] == p;
                if k < i {
                    assert(out[k] == p);
                } else {
                    assert(out[k + 1] == p);
                }
            } else {
                assert(out[i] == p);
            }
        }
    }
}

/// Ranks the entries by descending score, given by integer keys in the order of the
/// scores, and keeps the best `n`. Everything is kept where `n` is zero.
pub fn top_positions(keys: &Vec<i64>, n: usize) -> (r: Vec<usize>)
    ensures
        positions(r@) == top(key_values(keys@), n as nat),
        forall|k: int| 0 <= k < r@.len() ==> (#[trigger] r@[k]) < keys@.len(),
{
    let ghost ks = key_values(keys@);
    let mut out: Vec<usize> = Vec::new();
    let mut p: usize = 0;
    proof {
        assert(positions(out@) =~= ranking(ks, 0));
    }
    while p < keys.len()
        invariant
            p <= keys@.len(),
            ks == key_values(keys@),
            positions(out@) == ranking(ks, p as nat),
            forall|k: int| 0 <= k < out@.len() ==> (#[trigger] out@[k]) < p,
        decreases keys.len() - p,
    {
        let key = keys[p];
        let ghost head = positions(out@);
        let mut i: usize = 0;
        while i < out.len() && keys[out[i]] >= key
            invariant
                i <= out@.len(),
                p < keys@.len(),
                ks == key_values(keys@),
                head == positions(out@),
                key == keys@[p as int],
                forall|k: int| 0 <= k < out@.len() ==> (#[trigger] out@[k]) < p,
                forall|k: int| 0 <= k < i ==> ks[#[trigger] head[k]] >= key,
            decreases out.len() - i,
        {
            proof {
                assert(head[i as int] == out@[i as int]);
            }
            i += 1;
        }
        proof {
            if i < out@.len() {
                assert(head[i as int] == out@[i as int]);
            }
            lemma_rank_place_is(head, ks, ks[p as int], i as int);
            assert(positions(out@.insert(i as int, p)) =~= head.insert(i as int, p as int));
        }
        out.insert(i, p);
        p += 1;
    }
    proof {
        lemma_ranking(ks, ks.len());
    }
    if n > 0 && n < out.len() {
        let ghost all = positions(out@);
        out.truncate(n);
        proof {
            assert(positions(out@) =~= all.take(n as int));
        }
    }
    out
}

// ── laws ─────────────────────────────────────────────────────────────────────

/// No two candidates are of the same pattern.
pub open spec fn distinct_ids(list: Seq<(Seq<char>, HitKind)>) -> bool {
    forall|i: int, j: int|
        0 <= i < j < list.len() ==> (#[trigger] list[i]).0 != (#[trigger] list[j]).0
}

proof fn lemma_with_candidate(
    list: Seq<(Seq<char>, HitKind)>,
    id: Option<Seq<char>>,
    kind: HitKind,
)
    requires
        distinct_ids(list),
    ensures
        distinct_ids(with_candidate(list, id, kind)),
{
    match id {
        Some(x) => {
            if !is_listed(list, x) {
                let out = list.push((x, kind));
                assert forall|i: int, j: int| 0 <= i < j < out.len() implies (#[trigger] out[i]).0
                    != (#[trigger] out[j]).0 by {
                    if j == list.len() {
                        assert(list[i].0 == out[i].0);
                    }
                }
            }
        },
        None => {},
    }
}

proof fn lemma_patterns_distinct(
    list: Seq<(Seq<char>, HitKind)>,
    hits: Seq<Option<Seq<char>>>,
    n: nat,
)
    requires
        distinct_ids(list),
    ensures
        distinct_ids(with_patterns(list, hits, n)),
        distinct_ids(with_antipatterns(list, hits, n)),
    decreases n,
{
    if n > 0 {
        lemma_patterns_distinct(list, hits, (n - 1) as nat);
        lemma_with_candidate(
            with_patterns(list, hits, (n - 1) as nat),
            hit_id(hits[n - 1]),
            HitKind::Pattern((n - 1) as usize),
        );
        lemma_with_candidate(
            with_antipatterns(list, hits, (n - 1) as nat),
            hit_id(hits[n - 1]),
            HitKind::Anti((n - 1) as usize),
        );
    }
}

proof fn lemma_structural_distinct(
    list: Seq<(Seq<char>, HitKind)>,
    ids: Seq<Seq<char>>,
    n: nat,
)
    requires
        distinct_ids(list),
    ensures
        distinct_ids(with_structural(list, ids, n)),
    decreases n,
{
    if n > 0 {
        lemma_structural_distinct(list, ids, (n - 1) as nat);
        lemma_with_candidate(
            with_structural(list, ids, (n - 1) as nat),
            Some(ids[n - 1]),
            HitKind::Structure,
        );
    }
}

/// A pattern is a candidate at most once, however many searches find it.
pub proof fn law_candidates_are_distinct(
    patterns: Seq<Option<Seq<char>>>,
    antipatterns: Seq<Option<Seq<char>>>,
    structural: Seq<Seq<char>>,
)
    ensures
        distinct_ids(merged(patterns, antipatterns, structural)),
{
    lemma_patterns_distinct(seq![], patterns, patterns.len());
    let first = with_patterns(seq![], patterns, patterns.len());
    lemma_patterns_distinct(first, antipatterns, antipatterns.len());
    let second = with_antipatterns(first, antipatterns, antipatterns.len());
    lemma_structural_distinct(second, structural, structural.len());
}

/// Truncation keeps the highest signal: no entry that is dropped has a higher key
/// than one that is kept.
pub proof fn law_top_keeps_the_best(keys: Seq<int>, n: nat, kept: int, dropped: int)
    requires
        top(keys, n).contains(kept),
        0 <= dropped < keys.len(),
        !top(keys, n).contains(dropped),
    ensures
        keys[kept] >= keys[dropped],
        top(keys, n).len() == n,
{
    let all = ranking(keys, keys.len());
    lemma_ranking(keys, keys.len());
    assert(all.contains(dropped));
    let d = choose|k: int| 0 <= k < all.len() && all[k] == dropped;
    let t = top(keys, n);
    let k = choose|k: int| 0 <= k < t.len() && t[k] == kept;
    assert(all[k] == kept);
    if d < t.len() {
        assert(t[d] == dropped);
    }
}

/// The id of a hit is what its payload prints, without white space and quotes around it.
pub proof fn law_ids_are_read_without_quotes(id: Seq<char>)
    requires
        forall|i: int| 0 <= i < id.len() ==> id[i] != '"',
        text::is_trim(id),
    ensures
        hit_id(Some(seq!['"'] + id + seq!['"'])) == Some(id),
        hit_id(Some(id)) == Some(id),
        hit_id(None) is None,
{
    let quoted = seq!['"'] + id + seq!['"'];
    assert(!text::is_space('"'));
    assert(quoted[0] == '"' && quoted.last() == '"');
    text::lemma_trim_is_kept(quoted);
    text::lemma_trim_is_kept(id);
    split::lemma_without_char_concat(seq!['"'] + id, seq!['"'], '"');
    split::lemma_without_char_concat(seq!['"'], id, '"');
    split::lemma_without_char_none(id, '"');
    split::lemma_without_char_all(seq!['"'], '"');
    assert(Seq::<char>::empty() + id + Seq::<char>::empty() =~= id);
}

proof fn lemma_listed_after(
    list: Seq<(Seq<char>, HitKind)>,
    id: Option<Seq<char>>,
    kind: HitKind,
    x: Seq<char>,
)
    ensures
        is_listed(with_candidate(list, id, kind), x) <==> is_listed(list, x) || id == Some(x),
{
    let out = with_candidate(list, id, kind);
    if is_listed(list, x) {
        let k = choose|k: int| 0 <= k < list.len() && (#[trigger] list[k]).0 == x;
        assert(out[k].0 == x);
    }
    if id == Some(x) && !is_listed(list, x) {
        assert(out[list.len() as int].0 == x);
    }
    if is_listed(out, x) && id != Some(x) {
        let k = choose|k: int| 0 <= k < out.len() && (#[trigger] out[k]).0 == x;
        assert(list[k].0 == x);
    }
}

proof fn lemma_hits_listed(
    list: Seq<(Seq<char>, HitKind)>,
    hits: Seq<Option<Seq<char>>>,
    n: nat,
    x: Seq<char>,
)
    requires
        n <= hits.len(),
    ensures
        is_listed(with_patterns(list, hits, n), x) <==> is_listed(list, x) || exists|i: int|
            0 <= i < n && hit_id(#[trigger] hits[i]) == Some(x),
        is_listed(with_antipatterns(list, hits, n), x) <==> is_listed(list, x) || exists|i: int|
            0 <= i < n && hit_id(#[trigger] hits[i]) == Some(x),
    decreases n,
{
    if n > 0 {
        let m = (n - 1) as nat;
        lemma_hits_listed(list, hits, m, x);
        lemma_listed_after(
            with_patterns(list, hits, m),
            hit_id(hits[n - 1]),
            HitKind::Pattern(m as usize),
            x,
        );
        lemma_listed_after(
            with_antipatterns(list, hits, m),
            hit_id(hits[n - 1]),
            HitKind::Anti(m as usize),
            x,
        );
    }
}

proof fn lemma_matches_listed(
    list: Seq<(Seq<char>, HitKind)>,
    ids: Seq<Seq<char>>,
    n: nat,
    x: Seq<char>,
)
    requires
        n <= ids.len(),
    ensures
        is_listed(with_structural(list, ids, n), x) <==> is_listed(list, x) || exists|i: int|
            0 <= i < n && #[trigger] ids[i] == x,
    decreases n,
{
    if n > 0 {
        let m = (n - 1) as nat;
        lemma_matches_listed(list, ids, m, x);
        lemma_listed_after(
            with_structural(list, ids, m),
            Some(ids[n - 1]),
            HitKind::Structure,
            x,
        );
    }
}

/// Whatever a search or the structural matcher finds is a candidate, and nothing else
/// is.
pub proof fn law_every_find_is_a_candidate(
    patterns: Seq<Option<Seq<char>>>,
    antipatterns: Seq<Option<Seq<char>>>,
    structural: Seq<Seq<char>>,
    id: Seq<char>,
)
    ensures
        (exists|i: int|
            0 <= i < merged(patterns, antipatterns, structural).len() && (#[trigger] merged(
                patterns,
                antipatterns,
                structural,
            )[i]).0 == id) <==> (exists|i: int|
            0 <= i < patterns.len() && hit_id(#[trigger] patterns[i]) == Some(id)) || (exists|
            i: int,
        |
            0 <= i < antipatterns.len() && hit_id(#[trigger] antipatterns[i]) == Some(id)) || (
        exists|i: int| 0 <= i < structural.len() && #[trigger] structural[i] == id),
{
    let none = Seq::<(Seq<char>, HitKind)>::empty();
    let first = with_patterns(none, patterns, patterns.len());
    let second = with_antipatterns(first, antipatterns, antipatterns.len());
    lemma_hits_listed(none, patterns, patterns.len(), id);
    lemma_hits_listed(first, antipatterns, antipatterns.len(), id);
    lemma_matches_listed(second, structural, structural.len(), id);
    assert(!is_listed(none, id));
    assert(is_listed(merged(patterns, antipatterns, structural), id) <==> exists|i: int|
        0 <= i < merged(patterns, antipatterns, structural).len() && (#[trigger] merged(
            patterns,
            antipatterns,
            structural,
        )[i]).0 == id);
}

proof fn lemma_kept_in_place(
    list: Seq<(Seq<char>, HitKind)>,
    hits: Seq<Option<Seq<char>>>,
    ids: Seq<Seq<char>>,
    n: nat,
    k: int,
)
    requires
        0 <= k < list.len(),
    ensures
        k < with_patterns(list, hits, n).len() && with_patterns(list, hits, n)[k] == list[k],
        k < with_antipatterns(list, hits, n).len() && with_antipatterns(list, hits, n)[k] == list[k],
        k < with_structural(list, ids, n).len() && with_structural(list, ids, n)[k] == list[k],
    decreases n,
{
    if n > 0 {
        lemma_kept_in_place(list, hits, ids, (n - 1) as nat, k);
    }
}

/// A pattern that the pattern search found counts as its hit, by its first position,
/// whatever else found it too; and the pattern search's finds come first.
pub proof fn law_pattern_hits_come_first(
    patterns: Seq<Option<Seq<char>>>,
    antipatterns: Seq<Option<Seq<char>>>,
    structural: Seq<Seq<char>>,
    i: int,
    id: Seq<char>,
) -> (k: int)
    requires
        0 <= i < patterns.len() <= usize::MAX,
        hit_id(patterns[i]) == Some(id),
        forall|j: int| 0 <= j < i ==> hit_id(#[trigger] patterns[j]) != Some(id),
    ensures
        0 <= k <= i,
        k < merged(patterns, antipatterns, structural).len(),
        merged(patterns, antipatterns, structural)[k] == (id, HitKind::Pattern(i as usize)),
{
    let none = Seq::<(Seq<char>, HitKind)>::empty();
    let before = with_patterns(none, patterns, i as nat);
    lemma_hits_listed(none, patterns, i as nat, id);
    assert(!is_listed(none, id));
    assert(!is_listed(before, id));
    let now = with_patterns(none, patterns, (i + 1) as nat);
    let k = before.len() as int;
    assert(now == before.push((id, HitKind::Pattern(i as usize))));
    lemma_patterns_go_on(none, patterns, (i + 1) as nat, patterns.len(), k);
    let first = with_patterns(none, patterns, patterns.len());
    lemma_kept_in_place(first, antipatterns, structural, antipatterns.len(), k);
    let second = with_antipatterns(first, antipatterns, antipatterns.len());
    lemma_kept_in_place(second, antipatterns, structural, structural.len(), k);
    lemma_at_most(none, patterns, i as nat);
    k
}

proof fn lemma_patterns_go_on(
    list: Seq<(Seq<char>, HitKind)>,
    hits: Seq<Option<Seq<char>>>,
    n: nat,
    m: nat,
    k: int,
)
    requires
        n <= m,
        0 <= k < with_patterns(list, hits, n).len(),
    ensures
        k < with_patterns(list, hits, m).len(),
        with_patterns(list, hits, m)[k] == with_patterns(list, hits, n)[k],
    decreases m,
{
    if n < m {
        lemma_patterns_go_on(list, hits, n, (m - 1) as nat, k);
    }
}

proof fn lemma_at_most(list: Seq<(Seq<char>, HitKind)>, hits: Seq<Option<Seq<char>>>, n: nat)
    ensures
        with_patterns(list, hits, n).len() <= list.len() + n,
    decreases n,
{
    if n > 0 {
        lemma_at_most(list, hits, (n - 1) as nat);
    }
}

proof fn lemma_row_of(rows: Seq<Row>, id: Seq<char>, to: int)
    requires
        0 <= to <= rows.len(),
    ensures
        match row_of(rows, id, to) {
            Some(i) => 0 <= i < to && rows[i].text("id"@) == Some(id),
            None => forall|k: int| 0 <= k < to ==> (#[trigger] rows[k]).text("id"@) != Some(id),
        },
    decreases to,
{
    if to > 0 && rows[to - 1].text("id"@) != Some(id) {
        lemma_row_of(rows, id, to - 1);
    }
}

/// Every candidate whose pattern the store has is retrieved, in the order of the
/// candidates, under its id and kind, and no other is.
pub proof fn law_stored_candidates_are_retrieved(
    candidates: Seq<(Seq<char>, HitKind)>,
    rows: Seq<Row>,
    k: int,
) -> (i: int)
    requires
        0 <= k < candidates.len(),
        exists|j: int|
            0 <= j < rows.len() && (#[trigger] rows[j]).text("id"@) == Some(candidates[k].0),
    ensures
        0 <= i < retrieved(candidates, rows).len(),
        retrieved(candidates, rows)[i].id == candidates[k].0,
        retrieved(candidates, rows)[i].kind == candidates[k].1,
        exists|j: int|
            0 <= j < rows.len() && (#[trigger] rows[j]).text("id"@) == Some(candidates[k].0)
                && retrieved(candidates, rows)[i].text == document(
                candidates[k].0,
                candidates[k].1,
                rows[j],
            ),
        i == retrieved(candidates.take(k), rows).len(),
    decreases candidates.len(),
{
    let head = candidates.drop_last();
    let (id, kind) = candidates.last();
    lemma_row_of(rows, id, rows.len() as int);
    if k < head.len() {
        assert(head[k] == candidates[k]);
        let i = law_stored_candidates_are_retrieved(head, rows, k);
        assert(head.take(k) =~= candidates.take(k));
        i
    } else {
        assert(candidates.take(k) =~= head);
        let j = row_of(rows, id, rows.len() as int)->0;
        assert(rows[j].text("id"@) == Some(candidates[k].0));
        retrieved(head, rows).len() as int
    }
}

/// A pattern's document shows its id, its title, why it works, and the optimized code;
/// that of a pattern also when not to apply it, that of an antipattern also the wrong
/// code.
pub proof fn law_documents_show_the_pattern(id: Seq<char>, kind: HitKind, row: Row, value: Seq<char>)
    ensures
        text::holds(document(id, kind, row), id),
        row.text("title"@) == Some(value) ==> text::holds(document(id, kind, row), value),
        row.text("explanation"@) == Some(value) ==> text::holds(document(id, kind, row), value),
        row.text("yul_optimized"@) == Some(value) ==> text::holds(document(id, kind, row), value),
        row.text("risk_level"@) == Some(value) && !(kind is Anti) ==> text::holds(
            document(id, kind, row),
            value,
        ),
        row.text("when_not_to_apply"@) == Some(value) && !(kind is Anti) ==> text::holds(
            document(id, kind, row),
            value,
        ),
        row.text("solidity_before"@) == Some(value) && kind is Anti ==> text::holds(
            document(id, kind, row),
            value,
        ),
        kind is Anti <==> text::has_prefix(document(id, kind, row), "ANTIPATTERN ID: "@),
{
    let title = column(row, "title"@);
    let why = column(row, "explanation"@);
    let yul = column(row, "yul_optimized"@);
    let d = document(id, kind, row);
    match kind {
        HitKind::Anti(_) => {
            let parts = seq![
                "ANTIPATTERN ID: "@,
                id,
                "\nTitle: "@,
                title,
                "\nExplanation: "@,
                why,
                "\nWrong:\n"@,
                column(row, "solidity_before"@),
                "\nCorrect:\n"@,
                yul,
            ];
            lemma_chain(parts);
            lemma_chain_is(parts);
        },
        HitKind::Pattern(_) => {
            let parts = seq![
                "PATTERN ID: "@,
                id,
                "\nTitle: "@,
                title,
                "\nExplanation: "@,
                why,
                "\nOptimized YUL:\n"@,
                yul,
                "\nRisk: "@,
                column(row, "risk_level"@),
                "\nDo NOT apply when: "@,
                column(row, "when_not_to_apply"@),
            ];
            lemma_chain(parts);
            lemma_chain_is(parts);
            lemma_not_anti(d);
        },
        HitKind::Structure => {
            let parts = seq![
                "PATTERN ID: "@,
                id,
                " (structural match)"@,
                "\nTitle: "@,
                title,
                "\nExplanation: "@,
                why,
                "\nOptimized YUL:\n"@,
                yul,
                "\nRisk: "@,
                column(row, "risk_level"@),
                "\nDo NOT apply when: "@,
                column(row, "when_not_to_apply"@),
            ];
            lemma_chain(parts);
            lemma_chain_is(parts);
            lemma_not_anti(d);
        },
    }
}

/// The best entries come first: keys never rise along the list, equal ones keep their
/// order, and without a bound every entry is kept.
pub proof fn law_ranking_is_by_descending_key(keys: Seq<int>, n: nat, i: int, j: int)
    requires
        0 <= i < j < top(keys, n).len(),
    ensures
        0 <= top(keys, n)[i] < keys.len(),
        0 <= top(keys, n)[j] < keys.len(),
        keys[top(keys, n)[i]] >= keys[top(keys, n)[j]],
        n == 0 || n >= keys.len() ==> top(keys, n).len() == keys.len(),
        0 < n < keys.len() ==> top(keys, n).len() == n,
{
    lemma_ranking(keys, keys.len());
    let all = ranking(keys, keys.len());
    assert(keys[all[i]] >= keys[all[j]]);
}

/// The searches for a token standard look in its own category first and then outside of
/// every token category, and those for anything else have no condition; three hits are
/// asked for in all.
pub proof fn law_searches_go_by_the_category(c: Seq<char>)
    ensures
        c == "erc20"@ || c == "erc721"@ || c == "erc1155"@ || c == "erc2981"@ || c == "accounts"@
            ==> ({
            let s = pattern_searches(Some(c));
            &&& s.len() == 2
            &&& s[0].must == seq![("category"@, c)] && s[0].must_not.len() == 0
            &&& s[1].must.len() == 0 && s[1].must_not.contains(("category"@, c))
            &&& s[0].limit + s[1].limit == 3
            &&& s[0].limit == 2
        }),
        pattern_searches(None).len() == 1,
        pattern_searches(None)[0].limit == 3,
        pattern_searches(None)[0].must.len() == 0 && pattern_searches(None)[0].must_not.len() == 0,
{
    let t = token_conditions();
    assert(t[0] == ("category"@, "erc20"@));
    assert(t[1] == ("category"@, "erc721"@));
    assert(t[2] == ("category"@, "erc1155"@));
    assert(t[3] == ("category"@, "erc2981"@));
    assert(t[4] == ("category"@, "accounts"@));
}

/// Texts put one behind the other.
spec fn chain(parts: Seq<Seq<char>>) -> Seq<char>
    decreases parts.len(),
{
    if parts.len() <= 1 {
        parts[0]
    } else {
        chain(parts.drop_last()) + parts.last()
    }
}

proof fn lemma_chain(parts: Seq<Seq<char>>)
    requires
        parts.len() > 0,
    ensures
        forall|i: int| 0 <= i < parts.len() ==> text::holds(chain(parts), #[trigger] parts[i]),
        text::has_prefix(chain(parts), parts[0]),
    decreases parts.len(),
{
    if parts.len() == 1 {
        text::lemma_starts(parts[0], seq![]);
        assert(parts[0] + Seq::<char>::empty() =~= parts[0]);
        assert(text::occurs_at(chain(parts), parts[0], 0));
    } else {
        let head = parts.drop_last();
        lemma_chain(head);
        text::lemma_still_starts(chain(head), parts.last(), parts[0]);
        text::lemma_ends(chain(head), parts.last());
        assert forall|i: int| 0 <= i < parts.len() implies text::holds(
            chain(parts),
            #[trigger] parts[i],
        ) by {
            if i < head.len() {
                assert(head[i] == parts[i]);
                text::lemma_goes_on(chain(head), parts.last(), parts[i]);
            }
        }
    }
}

proof fn lemma_chain_is(parts: Seq<Seq<char>>)
    requires
        parts.len() == 10 || parts.len() == 12 || parts.len() == 13,
    ensures
        parts.len() == 10 ==> chain(parts) == parts[0] + parts[1] + parts[2] + parts[3] + parts[4]
            + parts[5] + parts[6] + parts[7] + parts[8] + parts[9],
        parts.len() == 12 ==> chain(parts) == parts[0] + parts[1] + parts[2] + parts[3] + parts[4]
            + parts[5] + parts[6] + parts[7] + parts[8] + parts[9] + parts[10] + parts[11],
        parts.len() == 13 ==> chain(parts) == parts[0] + parts[1] + parts[2] + parts[3] + parts[4]
            + parts[5] + parts[6] + parts[7] + parts[8] + parts[9] + parts[10] + parts[11]
            + parts[12],
{
    reveal_with_fuel(chain, 14);
}

proof fn lemma_not_anti(d: Seq<char>)
    requires
        text::has_prefix(d, "PATTERN ID: "@),
    ensures
        !text::has_prefix(d, "ANTIPATTERN ID: "@),
{
    reveal_strlit("PATTERN ID: ");
    reveal_strlit("ANTIPATTERN ID: ");
    assert(d.subrange(0, 12)[0] == d[0]);
    if text::has_prefix(d, "ANTIPATTERN ID: "@) {
        assert(d.subrange(0, 16)[0] == d[0]);
    }
}

} // verus!
