//! The limits of the service, its result cache, and the statements by which the
//! durable cache and the knowledge base are read and written.

use crate::db::{self, ArgModel, Row, TursoArg, TursoResult};
use crate::dto::{OptimizeResponse, ResponseModel};
use crate::normalize::{self, PatternMatcher};
use crate::number::{self, show_i64};
use crate::text;
use vstd::hash_map::StringHashMap;
use vstd::prelude::*;

verus! {

broadcast use {vstd::seq::group_seq_axioms, vstd::hash_map::group_hash_map_axioms};

/// The collection that holds the pattern vectors.
pub const COLLECTION: &'static str = "gaslite_patterns";

/// The dimension of the pattern vectors.
pub const VECTOR_DIM: u64 = 384;

/// Max functions optimized concurrently (bounds in-flight model requests).
pub const MAX_PARALLEL_FUNCS: usize = 6;

/// Contracts at or below BOTH thresholds skip the router call: they are always
/// routed oneshot, so the round-trip is pure latency.
pub const ONESHOT_MAX_FUNCS: usize = 4;

/// The size threshold, in bytes.
pub const ONESHOT_MAX_BYTES: usize = 4096;

/// The in-memory cache takes no new result once it holds this many.
pub const CACHE_CAPACITY: usize = 1024;

// ── the in-memory cache ──────────────────────────────────────────────────────

/// Result cache keyed on the *normalized* contract source (comments/whitespace
/// stripped). A hit skips the whole agent + forge pipeline. Only successful/one-shot
/// results are cached so transient failures can be retried. Cleared when the
/// knowledge base is reset.
pub struct ResultCache {
    entries: StringHashMap<OptimizeResponse>,
}

impl ResultCache {
    /// The cached answers by key.
    pub closed spec fn entries(self) -> Map<Seq<char>, OptimizeResponse> {
        self.entries@
    }

    /// The answer under a key.
    pub open spec fn answer(self, key: Seq<char>) -> Option<ResponseModel> {
        if self.entries().contains_key(key) {
            Some(self.entries()[key].model())
        } else {
            None
        }
    }

    /// An empty cache.
    pub fn new() -> (r: Self)
        ensures
            r.entries() == Map::<Seq<char>, OptimizeResponse>::empty(),
    {
        ResultCache { entries: StringHashMap::new() }
    }

    /// The answer cached under a key.
    pub fn get(&self, key: &str) -> (r: Option<OptimizeResponse>)
        ensures
            match r {
                Some(resp) => self.answer(key@) == Some(resp.model()),
                None => self.answer(key@) is None,
            },
    {
        match self.entries.get(key) {
            Some(resp) => Some(resp.clone()),
            None => None,
        }
    }

    /// Warms the cache with an answer that the durable cache has given, so that
    /// subsequent hits are instant.
    pub fn warm(&mut self, key: String, resp: OptimizeResponse)
        ensures
            final(self).entries() == old(self).entries().insert(key@, resp),
    {
        self.entries.insert(key, resp);
    }

    /// Caches a new answer, bounded so a flood of distinct inputs can't grow the
    /// cache.
    pub fn put(&mut self, key: String, resp: OptimizeResponse)
        ensures
            final(self).entries() == bounded_insert(old(self).entries(), key@, resp),
    {
        if self.entries.len() < CACHE_CAPACITY {
            self.entries.insert(key, resp);
        }
    }

    /// Forgets everything.
    pub fn clear(&mut self)
        ensures
            final(self).entries() == Map::<Seq<char>, OptimizeResponse>::empty(),
    {
        self.entries.clear();
    }
}

/// The cache with one more answer, as long as it is not full.
pub open spec fn bounded_insert(
    entries: Map<Seq<char>, OptimizeResponse>,
    key: Seq<char>,
    resp: OptimizeResponse,
) -> Map<Seq<char>, OptimizeResponse> {
    if entries.len() < CACHE_CAPACITY {
        entries.insert(key, resp)
    } else {
        entries
    }
}

/// New answers never push the cache beyond its capacity.
pub proof fn law_cache_is_bounded(
    entries: Map<Seq<char>, OptimizeResponse>,
    key: Seq<char>,
    resp: OptimizeResponse,
)
    requires
        entries.dom().finite(),
        entries.len() <= CACHE_CAPACITY,
    ensures
        bounded_insert(entries, key, resp).len() <= CACHE_CAPACITY,
        bounded_insert(entries, key, resp).dom().finite(),
{
    broadcast use vstd::map::group_map_axioms;
    broadcast use vstd::set::group_set_axioms;

    assert(entries.insert(key, resp).dom() =~= entries.dom().insert(key));
}

/// What was cached is read back: under its own key the new answer, under every other
/// key what was there before.
pub proof fn law_cache_reads_back(
    entries: Map<Seq<char>, OptimizeResponse>,
    key: Seq<char>,
    resp: OptimizeResponse,
    other: Seq<char>,
)
    requires
        entries.len() < CACHE_CAPACITY,
        other != key,
    ensures
        bounded_insert(entries, key, resp).contains_key(key),
        bounded_insert(entries, key, resp)[key] == resp,
        bounded_insert(entries, key, resp).contains_key(other) == entries.contains_key(other),
        entries.contains_key(other) ==> bounded_insert(entries, key, resp)[other]
            == entries[other],
{
}

// ── the durable cache ────────────────────────────────────────────────────────

/// Reads a stored answer. Filters on `verified = 1`: the store is durable and shared
/// across restarts and deployments, so a row written by a deployment without forge
/// (or by a build predating the `verified` column) must never be served as though it
/// were proven.
pub const CACHE_SELECT: &'static str =
    "SELECT response FROM optimize_cache WHERE cache_key = ? AND verified = 1";

/// Stores an answer, as verified.
pub const CACHE_INSERT: &'static str =
    "INSERT OR REPLACE INTO optimize_cache (cache_key, response, created_at, verified) VALUES (?,?,?,1)";

/// Forgets every stored answer.
pub const CACHE_CLEAR: &'static str = "DELETE FROM optimize_cache";

/// What [`CACHE_SELECT`] is given to look for.
pub open spec fn select_args(key: Seq<char>) -> Seq<ArgModel> {
    seq![ArgModel::Text(key)]
}

/// What [`CACHE_INSERT`] is given to store: the key, the answer as JSON, and the time.
pub open spec fn insert_args(key: Seq<char>, json: Seq<char>, now: int) -> Seq<ArgModel> {
    seq![
        ArgModel::Text(key),
        ArgModel::Text(json),
        ArgModel::Integer(number::signed_decimal(now)),
    ]
}

/// The arguments of [`CACHE_SELECT`].
pub fn cache_select_args(key: &str) -> (r: Vec<TursoArg>)
    ensures
        db::arg_models(r@) == select_args(key@),
{
    let mut out: Vec<TursoArg> = Vec::new();
    out.push(TursoArg::Text(key.to_owned()));
    proof {
        assert(db::arg_models(out@) =~= select_args(key@));
    }
    out
}

/// The arguments of [`CACHE_INSERT`].
pub fn cache_insert_args(key: &str, json: &str, now: i64) -> (r: Vec<TursoArg>)
    ensures
        db::arg_models(r@) == insert_args(key@, json@, now as int),
{
    let mut out: Vec<TursoArg> = Vec::new();
    out.push(TursoArg::Text(key.to_owned()));
    out.push(TursoArg::Text(json.to_owned()));
    out.push(TursoArg::Integer(show_i64(now)));
    proof {
        assert(db::arg_models(out@) =~= insert_args(key@, json@, now as int));
    }
    out
}

/// The stored answer, as JSON, that a query has found: that of the first row.
pub open spec fn found(rows: Result<Vec<Row>, String>) -> Option<Seq<char>> {
    match rows {
        Ok(rs) => if rs@.len() > 0 {
            rs@[0].text("response"@)
        } else {
            None
        },
        Err(_) => None,
    }
}

/// The stored answer, as JSON: that of the first row. A query that fails finds
/// nothing.
pub fn stored_response(rows: &Result<Vec<Row>, String>) -> (r: Option<String>)
    ensures
        text::opt_view(r) == found(*rows),
{
    match rows {
        Ok(rs) => {
            if rs.len() > 0 {
                match rs[0].get_str("response") {
                    Some(s) => Some(s.to_owned()),
                    None => None,
                }
            } else {
                None
            }
        },
        Err(_) => None,
    }
}

/// The first of the rows has the argument in its `response` column.
pub open spec fn first_holds(rows: Seq<Row>, arg: ArgModel) -> bool {
    rows.len() > 0 && match rows[0].text("response"@) {
        Some(t) => arg == ArgModel::Text(t),
        None => false,
    }
}

/// The durable cache gives back what it was given: where the query finds a row whose
/// `response` is the answer that was handed to the insertion, that answer comes out,
/// letter for letter. Without a row, or where the query fails, nothing does.
pub proof fn law_stored_answer_is_read_back(
    key: Seq<char>,
    json: Seq<char>,
    now: int,
    rows: Result<Vec<Row>, String>,
)
    ensures
        rows matches Ok(rs) && first_holds(rs@, insert_args(key, json, now)[1]) ==> found(rows)
            == Some(json),
        rows matches Ok(rs) && rs@.len() == 0 ==> found(rows) is None,
        rows is Err ==> found(rows) is None,
{
}

/// The same holds from the wire on: where the reply's first row has the stored answer
/// in its `response` column, the answer comes out. A reply without rows, or with an
/// error first, gives nothing.
pub proof fn law_stored_answer_survives_the_wire(
    key: Seq<char>,
    json: Seq<char>,
    now: int,
    results: Seq<TursoResult>,
    rows: Result<Vec<Row>, String>,
)
    requires
        db::is_outcome(results, rows),
    ensures
        match db::settling(results, 0) {
            Some(i) => match (results[i].error, results[i].response) {
                (None, Some(Some(data))) => if data.rows@.len() == 0 {
                    found(rows) is None
                } else {
                    data.cols@.len() == 1 && data.cols@[0]@ == "response"@
                        && data.rows@[0]@.len() == 1 && db::holds_text(
                        data.rows@[0]@[0],
                        insert_args(key, json, now)[1],
                    ) ==> found(rows) == Some(json)
                },
                _ => found(rows) is None,
            },
            None => found(rows) is None,
        },
{
    if let Some(i) = db::settling(results, 0) {
        db::lemma_settling(results, 0);
        if let (None, Some(Some(data))) = (results[i].error, results[i].response) {
            let rs = rows->Ok_0@;
            if data.rows@.len() > 0 && data.cols@.len() == 1 && data.cols@[0]@ == "response"@
                && data.rows@[0]@.len() == 1 && db::holds_text(
                data.rows@[0]@[0],
                insert_args(key, json, now)[1],
            ) {
                assert(db::is_row(rs[0], data.cols@, data.rows@[0]@));
                assert(rs[0].cells@[0].0@ == "response"@);
                db::law_texts_keep_their_value(data.rows@[0]@[0], json);
            }
        }
    }
}

// ── the durable cache as a table ─────────────────────────────────────────────

/// A row of the table `optimize_cache`, as far as answers are read from it.
pub struct StoredAnswer {
    pub response: Seq<char>,
    pub verified: int,
}

/// The table after [`CACHE_INSERT`]: the row of the key is new, or replaced, and
/// counts as verified.
pub open spec fn inserted(table: Map<Seq<char>, StoredAnswer>, args: Seq<ArgModel>) -> Map<
    Seq<char>,
    StoredAnswer,
> {
    match (args[0], args[1]) {
        (ArgModel::Text(key), ArgModel::Text(response)) => table.insert(
            key,
            StoredAnswer { response, verified: 1 },
        ),
        _ => table,
    }
}

/// The answers that [`CACHE_SELECT`] picks from the table.
pub open spec fn selected(table: Map<Seq<char>, StoredAnswer>, args: Seq<ArgModel>) -> Seq<
    Seq<char>,
> {
    match args[0] {
        ArgModel::Text(key) => if table.contains_key(key) && table[key].verified == 1 {
            seq![table[key].response]
        } else {
            seq![]
        },
        _ => seq![],
    }
}

/// The rows hold these answers, one each.
pub open spec fn hold(rows: Seq<Row>, answers: Seq<Seq<char>>) -> bool {
    rows.len() == answers.len() && forall|i: int|
        0 <= i < rows.len() ==> (#[trigger] rows[i]).text("response"@) == Some(answers[i])
}

/// As long as the database runs the two statements as SQL defines them, a stored
/// answer is served under its key, whatever was there before, and the answers under
/// other keys stay.
pub proof fn law_durable_cache_reads_back(
    table: Map<Seq<char>, StoredAnswer>,
    key: Seq<char>,
    json: Seq<char>,
    now: int,
    other: Seq<char>,
    rows: Vec<Row>,
)
    requires
        other != key,
        hold(rows@, selected(inserted(table, insert_args(key, json, now)), select_args(key))),
    ensures
        found(Ok(rows)) == Some(json),
        selected(inserted(table, insert_args(key, json, now)), select_args(other)) == selected(
            table,
            select_args(other),
        ),
{
    assert(rows@[0].text("response"@) == Some(json));
}

/// An answer that was stored without being verified is never served, nor is one under
/// a key that nothing was stored under.
pub proof fn law_unverified_answers_are_not_served(
    table: Map<Seq<char>, StoredAnswer>,
    key: Seq<char>,
    rows: Vec<Row>,
)
    requires
        !table.contains_key(key) || table[key].verified != 1,
        hold(rows@, selected(table, select_args(key))),
    ensures
        found(Ok(rows)) is None,
{
}

// ── the knowledge base ───────────────────────────────────────────────────────

/// Reads the code that each pattern applies to.
pub const PATTERN_SELECT: &'static str =
    "SELECT id, solidity_before FROM optimization_patterns WHERE solidity_before != ''";

/// The `(id, code)` pairs of the rows that have both.
pub open spec fn pattern_pairs(rows: Seq<Row>) -> Seq<(Seq<char>, Seq<char>)>
    decreases rows.len(),
{
    if rows.len() == 0 {
        seq![]
    } else {
        let head = pattern_pairs(rows.drop_last());
        match (rows.last().text("id"@), rows.last().text("solidity_before"@)) {
            (Some(id), Some(before)) => head.push((id, before)),
            _ => head,
        }
    }
}

fn read_pairs(rows: &Vec<Row>) -> (r: Vec<(String, String)>)
    ensures
        text::pair_views(r@) == pattern_pairs(rows@),
{
    let mut out: Vec<(String, String)> = Vec::new();
    let mut i: usize = 0;
    proof {
        assert(text::pair_views(out@) =~= pattern_pairs(rows@.take(0)));
    }
    while i < rows.len()
        invariant
            i <= rows@.len(),
            text::pair_views(out@) == pattern_pairs(rows@.take(i as int)),
        decreases rows.len() - i,
    {
        proof {
            assert(rows@.take(i + 1).drop_last() =~= rows@.take(i as int));
        }
        if let (Some(id), Some(before)) = (
            rows[i].get_str("id"),
            rows[i].get_str("solidity_before"),
        ) {
            let pair = (id.to_owned(), before.to_owned());
            proof {
                assert(text::pair_views(out@.push(pair)) =~= text::pair_views(out@).push(
                    (pair.0@, pair.1@),
                ));
            }
            out.push(pair);
        }
        i += 1;
    }
    proof {
        assert(rows@.take(rows@.len() as int) =~= rows@);
    }
    out
}

/// Builds the structural pattern matcher from the rows of the knowledge base. A
/// query that fails leaves the matcher empty.
pub fn load_pattern_matcher(rows: Result<Vec<Row>, String>) -> (r: PatternMatcher)
    ensures
        r.patterns() == match rows {
            Ok(rs) => normalize::long_enough(normalize::tokenized(pattern_pairs(rs@))),
            Err(_) => Seq::<(Seq<char>, Seq<Seq<char>>)>::empty(),
        },
        r.templates() == match rows {
            Ok(rs) => normalize::templates_of(normalize::tokenized(pattern_pairs(rs@))),
            Err(_) => Seq::<(Seq<char>, Seq<char>)>::empty(),
        },
{
    match rows {
        Ok(rs) => PatternMatcher::build(read_pairs(&rs)),
        Err(_) => {
            let m = PatternMatcher::default();
            proof {
                assert(m.patterns() =~= Seq::<(Seq<char>, Seq<Seq<char>>)>::empty());
                assert(m.templates() =~= Seq::<(Seq<char>, Seq<char>)>::empty());
            }
            m
        },
    }
}

// ── origins ──────────────────────────────────────────────────────────────────

/// The entries of a comma-separated list, trimmed.
pub open spec fn list_entries(list: Seq<char>) -> Seq<Seq<char>> {
    crate::split::pieces_of(list, ","@).map_values(|o: Seq<char>| text::trimmed(o))
}

/// The origins that may call the API: those of a list that is set and not blank, or
/// any origin.
pub fn allowed_origins(var: Option<&str>) -> (r: Option<Vec<String>>)
    ensures
        match var {
            Some(list) => if text::trimmed(list@).len() > 0 {
                r matches Some(origins) && text::views(origins@) == list_entries(list@)
            } else {
                r is None
            },
            None => r is None,
        },
{
    let list = match var {
        Some(list) => list,
        None => return None,
    };
    let bare = text::trim(list);
    if bare.as_str().is_empty() {
        return None;
    }
    proof {
        reveal_strlit(",");
    }
    let pieces = crate::split::split(list, ",");
    let ghost all = list_entries(list@);
    let mut out: Vec<String> = Vec::new();
    let mut i: usize = 0;
    proof {
        assert(text::views(out@) =~= all.take(0));
    }
    while i < pieces.len()
        invariant
            i <= pieces@.len(),
            all == list_entries(list@),
            text::views(pieces@) == crate::split::pieces_of(list@, ","@),
            text::views(out@) == all.take(i as int),
        decreases pieces.len() - i,
    {
        let o = text::trim(pieces[i].as_str());
        proof {
            assert(text::views(pieces@)[i as int] == pieces@[i as int]@);
            text::lemma_views_push(out@, o);
            assert(all.take(i as int).push(all[i as int]) =~= all.take(i + 1));
        }
        out.push(o);
        i += 1;
    }
    proof {
        assert(text::views(pieces@).len() == pieces@.len());
        assert(all.take(all.len() as int) =~= all);
    }
    Some(out)
}

// ── laws on the knowledge base ───────────────────────────────────────────────

/// Every row that has an id and code is a pattern to match on, and no other is.
pub proof fn law_complete_rows_are_patterns(rows: Seq<Row>, id: Seq<char>, code: Seq<char>)
    ensures
        pattern_pairs(rows).contains((id, code)) <==> exists|i: int|
            0 <= i < rows.len() && (#[trigger] rows[i]).text("id"@) == Some(id)
                && rows[i].text("solidity_before"@) == Some(code),
    decreases rows.len(),
{
    if rows.len() > 0 {
        let head = rows.drop_last();
        law_complete_rows_are_patterns(head, id, code);
        let old = pattern_pairs(head);
        let all = pattern_pairs(rows);
        if exists|i: int|
            0 <= i < rows.len() && (#[trigger] rows[i]).text("id"@) == Some(id)
                && rows[i].text("solidity_before"@) == Some(code) {
            let i = choose|i: int|
                0 <= i < rows.len() && (#[trigger] rows[i]).text("id"@) == Some(id)
                    && rows[i].text("solidity_before"@) == Some(code);
            if i < head.len() {
                assert(head[i].text("id"@) == Some(id));
                let k = choose|k: int| 0 <= k < old.len() && old[k] == (id, code);
                assert(all[k] == (id, code));
            } else {
                assert(all[old.len() as int] == (id, code));
            }
        }
        if all.contains((id, code)) {
            let k = choose|k: int| 0 <= k < all.len() && all[k] == (id, code);
            if k < old.len() {
                assert(old[k] == (id, code));
                let i = choose|i: int|
                    0 <= i < head.len() && (#[trigger] head[i]).text("id"@) == Some(id)
                        && head[i].text("solidity_before"@) == Some(code);
                assert(rows[i].text("id"@) == Some(id));
            } else {
                assert(rows[rows.len() - 1].text("id"@) == Some(id));
            }
        }
    }
}

/// The origins of a list are its entries, each trimmed.
pub proof fn law_origins_are_listed(entries: Seq<Seq<char>>)
    requires
        entries.len() > 0,
        forall|i: int, k: int|
            0 <= i < entries.len() && 0 <= k < entries[i].len() ==> #[trigger] entries[i][k] != ',',
    ensures
        list_entries(crate::split::joined(entries, ","@)) == entries.map_values(
            |o: Seq<char>| text::trimmed(o),
        ),
{
    reveal_strlit(",");
    assert(","@ =~= seq![',']);
    crate::split::law_split_undoes_join(entries, ',');
}

} // verus!
