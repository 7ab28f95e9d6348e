//! Knowledge-base ingest: what a pattern file becomes in the two stores, and what
//! is reported about each file.

use crate::db::{self, TursoArg};
use crate::json::{self, get_flag, get_json, get_text, get_text_or, FieldModel, JsonField};
use crate::split;
use crate::text;
use crate::unicode;
use vstd::prelude::*;

verus! {

broadcast use vstd::seq::group_seq_axioms;

/// The statement that stores a pattern.
pub const INSERT_PATTERN: &'static str =
    "INSERT OR REPLACE INTO optimization_patterns (id,category,version,title,source,source_file,difficulty,mantle_specific,evm_version,trigger_patterns,solidity_before,yul_optimized,patterns_used,explanation,risk_level,when_to_apply,when_not_to_apply) VALUES (?,?,?,?,?,?,?,?,?,?,?,?,?,?,?,?,?)";

// ── files ────────────────────────────────────────────────────────────────────

/// A file whose extension is `json`.
pub open spec fn is_json_name(name: Seq<char>) -> bool {
    text::has_suffix(name, ".json"@) && name.len() > ".json"@.len()
}

/// Whether a file's extension is `json`.
pub fn is_pattern_file(name: &str) -> (r: bool)
    ensures
        r == is_json_name(name@),
{
    proof {
        reveal_strlit(".json");
    }
    text::ends_with(name, ".json") && name.unicode_len() > 5
}

// ── records ──────────────────────────────────────────────────────────────────

/// A pattern ready to be stored.
pub struct Record {
    pub id: String,
    pub category: String,
    pub entry_type: String,
    /// The text whose embedding stands for the pattern.
    pub embed_text: String,
    /// The arguments of [`INSERT_PATTERN`].
    pub args: Vec<TursoArg>,
}

/// The first of three fields that is a string, or nothing.
pub open spec fn first_text(
    fields: Seq<FieldModel>,
    a: Seq<char>,
    b: Seq<char>,
    c: Seq<char>,
) -> Seq<char> {
    match json::text_at(fields, a) {
        Some(s) => s,
        None => match json::text_at(fields, b) {
            Some(s) => s,
            None => json::text_or(fields, c, ""@),
        },
    }
}

/// The code that a pattern applies to.
pub open spec fn code_before(fields: Seq<FieldModel>) -> Seq<char> {
    first_text(fields, "solidity_before"@, "pattern_before"@, "wrong_code"@)
}

/// The code that a pattern leads to.
pub open spec fn code_after(fields: Seq<FieldModel>) -> Seq<char> {
    first_text(fields, "yul_optimized"@, "pattern_after"@, "correct_code"@)
}

/// The text that a pattern is found by.
pub open spec fn embed_text(fields: Seq<FieldModel>) -> Seq<char> {
    let category = unicode::uppered(json::text_or(fields, "category"@, "general"@));
    let title = json::text_or(fields, "title"@, "title"@);
    let triggers = json::json_at(fields, "trigger_patterns"@);
    if json::text_or(fields, "type"@, "pattern"@) == "antipattern"@ {
        "TOKEN_STANDARD_NAMESPACE: "@ + category + "\n// Antipattern to avoid: "@ + title
            + "\n// Triggers: "@ + triggers + "\n// Wrong code: "@ + json::text_or(
            fields,
            "wrong_code"@,
            ""@,
        ) + "\n// Why wrong: "@ + json::text_or(fields, "why_wrong"@, ""@)
    } else {
        "TOKEN_STANDARD_NAMESPACE: "@ + category + "\n// Optimization: "@ + title
            + "\n// Keywords: "@ + triggers + "\n"@ + code_before(fields)
    }
}

/// The columns of a pattern, in the order of [`INSERT_PATTERN`].
pub open spec fn columns(fields: Seq<FieldModel>, id: Seq<char>) -> Seq<db::ArgModel> {
    seq![
        db::ArgModel::Text(id),
        db::ArgModel::Text(json::text_or(fields, "category"@, "general"@)),
        db::ArgModel::Text(json::text_or(fields, "version"@, "1.0"@)),
        db::ArgModel::Text(json::text_or(fields, "title"@, "title"@)),
        db::ArgModel::Text(json::text_or(fields, "source"@, ""@)),
        db::ArgModel::Text(json::text_or(fields, "source_file"@, ""@)),
        db::ArgModel::Text(json::text_or(fields, "difficulty"@, "medium"@)),
        db::ArgModel::Integer(
            if json::flag_at(fields, "mantle_specific"@) == Some(true) {
                "1"@
            } else {
                "0"@
            },
        ),
        db::ArgModel::Text(json::text_or(fields, "evm_version"@, "paris"@)),
        db::ArgModel::Text(json::json_at(fields, "trigger_patterns"@)),
        db::ArgModel::Text(code_before(fields)),
        db::ArgModel::Text(code_after(fields)),
        db::ArgModel::Text(json::json_at(fields, "patterns_used"@)),
        db::ArgModel::Text(json::json_at(fields, "explanation"@)),
        db::ArgModel::Text(json::text_or(fields, "risk_level"@, "low"@)),
        db::ArgModel::Text(json::json_at(fields, "when_to_apply"@)),
        db::ArgModel::Text(json::text_or(fields, "when_not_to_apply"@, ""@)),
    ]
}

/// The record of a document with the given fields.
pub open spec fn is_record(r: Record, fields: Seq<FieldModel>, id: Seq<char>) -> bool {
    &&& r.id@ == id
    &&& r.category@ == json::text_or(fields, "category"@, "general"@)
    &&& r.entry_type@ == json::text_or(fields, "type"@, "pattern"@)
    &&& r.embed_text@ == embed_text(fields)
    &&& db::arg_models(r.args@) == columns(fields, id)
}

fn get_first(fields: &Vec<JsonField>, a: &str, b: &str, c: &str) -> (r: String)
    ensures
        r@ == first_text(json::field_models(fields@), a@, b@, c@),
{
    match get_text(fields, a) {
        Some(s) => s,
        None => match get_text(fields, b) {
            Some(s) => s,
            None => get_text_or(fields, c, ""),
        },
    }
}

fn make_embed_text(fields: &Vec<JsonField>) -> (r: String)
    ensures
        r@ == embed_text(json::field_models(fields@)),
{
    let category = get_text_or(fields, "category", "general");
    let upper = category.as_str().to_uppercase();
    let title = get_text_or(fields, "title", "title");
    let triggers = get_json(fields, "trigger_patterns");
    let entry_type = get_text_or(fields, "type", "pattern");
    let mut out = "TOKEN_STANDARD_NAMESPACE: ".to_owned();
    out.append(upper.as_str());
    if text::same(entry_type.as_str(), "antipattern") {
        let wrong = get_text_or(fields, "wrong_code", "");
        let why = get_text_or(fields, "why_wrong", "");
        out.append("\n// Antipattern to avoid: ");
        out.append(title.as_str());
        out.append("\n// Triggers: ");
        out.append(triggers.as_str());
        out.append("\n// Wrong code: ");
        out.append(wrong.as_str());
        out.append("\n// Why wrong: ");
        out.append(why.as_str());
    } else {
        let before = get_first(fields, "solidity_before", "pattern_before", "wrong_code");
        out.append("\n// Optimization: ");
        out.append(title.as_str());
        out.append("\n// Keywords: ");
        out.append(triggers.as_str());
        out.append("\n");
        out.append(before.as_str());
    }
    out
}

fn make_args(fields: &Vec<JsonField>, id: &str) -> (r: Vec<TursoArg>)
    ensures
        db::arg_models(r@) == columns(json::field_models(fields@), id@),
{
    let flag: bool = match get_flag(fields, "mantle_specific") {
        Some(b) => b,
        None => false,
    };
    let mut out: Vec<TursoArg> = Vec::new();
    out.push(TursoArg::Text(id.to_owned()));
    out.push(TursoArg::Text(get_text_or(fields, "category", "general")));
    out.push(TursoArg::Text(get_text_or(fields, "version", "1.0")));
    out.push(TursoArg::Text(get_text_or(fields, "title", "title")));
    out.push(TursoArg::Text(get_text_or(fields, "source", "")));
    out.push(TursoArg::Text(get_text_or(fields, "source_file", "")));
    out.push(TursoArg::Text(get_text_or(fields, "difficulty", "medium")));
    out.push(
        TursoArg::Integer(
            if flag {
                "1".to_owned()
            } else {
                "0".to_owned()
            },
        ),
    );
    out.push(TursoArg::Text(get_text_or(fields, "evm_version", "paris")));
    out.push(TursoArg::Text(get_json(fields, "trigger_patterns")));
    out.push(
        TursoArg::Text(get_first(fields, "solidity_before", "pattern_before", "wrong_code")),
    );
    out.push(TursoArg::Text(get_first(fields, "yul_optimized", "pattern_after", "correct_code")));
    out.push(TursoArg::Text(get_json(fields, "patterns_used")));
    out.push(TursoArg::Text(get_json(fields, "explanation")));
    out.push(TursoArg::Text(get_text_or(fields, "risk_level", "low")));
    out.push(TursoArg::Text(get_json(fields, "when_to_apply")));
    out.push(TursoArg::Text(get_text_or(fields, "when_not_to_apply", "")));
    proof {
        assert(db::arg_models(out@) =~= columns(json::field_models(fields@), id@));
    }
    out
}

/// The record of a document whose fields are known; nothing without an id.
pub fn make_record(fields: &Vec<JsonField>) -> (r: Option<Record>)
    ensures
        match r {
            Some(rec) => json::text_at(json::field_models(fields@), "id"@) matches Some(id)
                && is_record(rec, json::field_models(fields@), id),
            None => json::text_at(json::field_models(fields@), "id"@) is None,
        },
{
    let id = match get_text(fields, "id") {
        Some(id) => id,
        None => return None,
    };
    let args = make_args(fields, id.as_str());
    Some(
        Record {
            id,
            category: get_text_or(fields, "category", "general"),
            entry_type: get_text_or(fields, "type", "pattern"),
            embed_text: make_embed_text(fields),
            args,
        },
    )
}

/// What is kept beside a pattern's vector: the id, the category and the type.
pub fn payload(record: &Record) -> (r: Vec<(String, String)>)
    ensures
        text::pair_views(r@) == seq![
            ("pattern_id"@, record.id@),
            ("category"@, record.category@),
            ("type"@, record.entry_type@),
        ],
{
    let mut out: Vec<(String, String)> = Vec::new();
    out.push(("pattern_id".to_owned(), record.id.clone()));
    out.push(("category".to_owned(), record.category.clone()));
    out.push(("type".to_owned(), record.entry_type.clone()));
    proof {
        assert(text::pair_views(out@) =~= seq![
            ("pattern_id"@, record.id@),
            ("category"@, record.category@),
            ("type"@, record.entry_type@),
        ]);
    }
    out
}

// ── reporting ────────────────────────────────────────────────────────────────

/// Why something was not ingested.
pub enum IngestFailure {
    NotADirectory,
    UnreadableDirectory(String),
    UnreadableFile(String),
    InvalidJson(String),
    MissingId,
    Embedding(String),
    Turso(String),
    Qdrant(String),
}

impl IngestFailure {
    /// The failure in words.
    pub open spec fn words(self) -> Seq<char> {
        match self {
            IngestFailure::NotADirectory => "Not a valid directory"@,
            IngestFailure::UnreadableDirectory(e) => "Cannot read directory: "@ + e@,
            IngestFailure::UnreadableFile(e) => "Read error: "@ + e@,
            IngestFailure::InvalidJson(e) => "Invalid JSON: "@ + e@,
            IngestFailure::MissingId => "Missing 'id' field"@,
            IngestFailure::Embedding(e) => "Embedding error: "@ + e@,
            IngestFailure::Turso(e) => "Turso error: "@ + e@,
            IngestFailure::Qdrant(e) => "Qdrant error: "@ + e@,
        }
    }

    /// The failure in words.
    pub fn reason(&self) -> (r: String)
        ensures
            r@ == self.words(),
    {
        let (intro, detail) = match self {
            IngestFailure::NotADirectory => return "Not a valid directory".to_owned(),
            IngestFailure::MissingId => return "Missing 'id' field".to_owned(),
            IngestFailure::UnreadableDirectory(e) => ("Cannot read directory: ", e),
            IngestFailure::UnreadableFile(e) => ("Read error: ", e),
            IngestFailure::InvalidJson(e) => ("Invalid JSON: ", e),
            IngestFailure::Embedding(e) => ("Embedding error: ", e),
            IngestFailure::Turso(e) => ("Turso error: ", e),
            IngestFailure::Qdrant(e) => ("Qdrant error: ", e),
        };
        let mut out = intro.to_owned();
        out.append(detail.as_str());
        out
    }
}

/// Reads a pattern file.
pub fn read_record(content: &str) -> (r: Result<Record, IngestFailure>)
    ensures
        match json::document(content@) {
            Err(e) => r matches Err(IngestFailure::InvalidJson(m)) && m@ == e,
            Ok(fields) => match json::text_at(fields, "id"@) {
                Some(id) => r matches Ok(rec) && is_record(rec, fields, id),
                None => r matches Err(IngestFailure::MissingId),
            },
        },
        json::document(content@) matches Ok(fields) ==> json::unique_keys(fields),
{
    match json::parse_fields(content) {
        Err(e) => Err(IngestFailure::InvalidJson(e)),
        Ok(fields) => match make_record(&fields) {
            Some(rec) => Ok(rec),
            None => Err(IngestFailure::MissingId),
        },
    }
}

/// What an ingest came to: the ids that were stored, and what failed, each under the
/// id, file or directory it concerns.
pub struct IngestReport {
    pub successful_patterns: Vec<String>,
    pub failed_patterns: Vec<(String, String)>,
}

impl IngestReport {
    /// A report on nothing.
    pub fn new() -> (r: Self)
        ensures
            r.successful_patterns@.len() == 0,
            r.failed_patterns@.len() == 0,
    {
        IngestReport { successful_patterns: Vec::new(), failed_patterns: Vec::new() }
    }

    /// Notes that a pattern was stored.
    pub fn succeed(&mut self, id: String)
        ensures
            final(self).successful_patterns@ == old(self).successful_patterns@.push(id),
            final(self).failed_patterns == old(self).failed_patterns,
    {
        self.successful_patterns.push(id);
    }

    /// Notes a failure.
    pub fn fail(&mut self, what: String, failure: &IngestFailure)
        ensures
            final(self).successful_patterns == old(self).successful_patterns,
            text::pair_views(final(self).failed_patterns@) == text::pair_views(
                old(self).failed_patterns@,
            ).push((what@, failure.words())),
    {
        let reason = failure.reason();
        let ghost before = self.failed_patterns@;
        self.failed_patterns.push((what, reason));
        proof {
            assert(text::pair_views(self.failed_patterns@) =~= text::pair_views(before).push(
                (what@, reason@),
            ));
        }
    }
}

// ── the course of an ingest ──────────────────────────────────────────────────

/// What a pattern file still needs before its pattern counts as ingested.
pub enum FileStage {
    /// Embed the record's text.
    Embed(Record),
    /// Run [`INSERT_PATTERN`] with the record's arguments.
    Store(Record),
    /// Keep the vector with the record's [`payload`].
    Index(Record),
}

/// Opens a directory for ingest: whether it is one, and whether it can be listed.
/// Says whether its files are to be gone through.
pub fn open_directory(
    report: &mut IngestReport,
    path: &str,
    is_directory: bool,
    listing: Result<(), String>,
) -> (r: bool)
    ensures
        r == (is_directory && listing is Ok),
        final(report).successful_patterns == old(report).successful_patterns,
        if !is_directory {
            text::pair_views(final(report).failed_patterns@) == text::pair_views(
                old(report).failed_patterns@,
            ).push((path@, "Not a valid directory"@))
        } else {
            match listing {
                Ok(_) => final(report).failed_patterns == old(report).failed_patterns,
                Err(e) => text::pair_views(final(report).failed_patterns@) == text::pair_views(
                    old(report).failed_patterns@,
                ).push((path@, "Cannot read directory: "@ + e@)),
            }
        },
{
    if !is_directory {
        report.fail(path.to_owned(), &IngestFailure::NotADirectory);
        return false;
    }
    match listing {
        Ok(_) => true,
        Err(e) => {
            report.fail(path.to_owned(), &IngestFailure::UnreadableDirectory(e));
            false
        },
    }
}

/// Opens a pattern file for ingest. A file that cannot be used is reported under its
/// name and done with; any other is to be embedded first.
pub fn open_file(
    report: &mut IngestReport,
    name: &str,
    content: Result<String, String>,
) -> (r: Option<FileStage>)
    ensures
        final(report).successful_patterns == old(report).successful_patterns,
        match content {
            Err(e) => r is None && text::pair_views(final(report).failed_patterns@)
                == text::pair_views(old(report).failed_patterns@).push(
                (name@, "Read error: "@ + e@),
            ),
            Ok(c) => match json::document(c@) {
                Err(e) => r is None && text::pair_views(final(report).failed_patterns@)
                    == text::pair_views(old(report).failed_patterns@).push(
                    (name@, "Invalid JSON: "@ + e),
                ),
                Ok(fields) => match json::text_at(fields, "id"@) {
                    None => r is None && text::pair_views(final(report).failed_patterns@)
                        == text::pair_views(old(report).failed_patterns@).push(
                        (name@, "Missing 'id' field"@),
                    ),
                    Some(id) => r matches Some(FileStage::Embed(rec)) && is_record(rec, fields, id)
                        && final(report).failed_patterns == old(report).failed_patterns,
                },
            },
        },
{
    let read = match content {
        Err(e) => Err(IngestFailure::UnreadableFile(e)),
        Ok(c) => read_record(c.as_str()),
    };
    match read {
        Ok(rec) => Some(FileStage::Embed(rec)),
        Err(f) => {
            report.fail(name.to_owned(), &f);
            None
        },
    }
}

/// Goes on with a pattern file once a stage is done. The pattern counts as ingested
/// only when it has been embedded, stored and indexed; the first stage that fails
/// is reported under the pattern's id and ends it.
pub fn next_stage(
    report: &mut IngestReport,
    stage: FileStage,
    outcome: Result<(), String>,
) -> (r: Option<FileStage>)
    ensures
        match stage {
            FileStage::Embed(rec) => match outcome {
                Ok(_) => r == Some(FileStage::Store(rec)) && *final(report) == *old(report),
                Err(e) => r is None && final(report).successful_patterns == old(
                    report,
                ).successful_patterns && text::pair_views(final(report).failed_patterns@)
                    == text::pair_views(old(report).failed_patterns@).push(
                    (rec.id@, "Embedding error: "@ + e@),
                ),
            },
            FileStage::Store(rec) => match outcome {
                Ok(_) => r == Some(FileStage::Index(rec)) && *final(report) == *old(report),
                Err(e) => r is None && final(report).successful_patterns == old(
                    report,
                ).successful_patterns && text::pair_views(final(report).failed_patterns@)
                    == text::pair_views(old(report).failed_patterns@).push(
                    (rec.id@, "Turso error: "@ + e@),
                ),
            },
            FileStage::Index(rec) => match outcome {
                Ok(_) => r is None && final(report).successful_patterns@ == old(
                    report,
                ).successful_patterns@.push(rec.id) && final(report).failed_patterns == old(
                    report,
                ).failed_patterns,
                Err(e) => r is None && final(report).successful_patterns == old(
                    report,
                ).successful_patterns && text::pair_views(final(report).failed_patterns@)
                    == text::pair_views(old(report).failed_patterns@).push(
                    (rec.id@, "Qdrant error: "@ + e@),
                ),
            },
        },
{
    match stage {
        FileStage::Embed(rec) => match outcome {
            Ok(_) => Some(FileStage::Store(rec)),
            Err(e) => {
                report.fail(rec.id, &IngestFailure::Embedding(e));
                None
            },
        },
        FileStage::Store(rec) => match outcome {
            Ok(_) => Some(FileStage::Index(rec)),
            Err(e) => {
                report.fail(rec.id, &IngestFailure::Turso(e));
                None
            },
        },
        FileStage::Index(rec) => match outcome {
            Ok(_) => {
                report.succeed(rec.id);
                None
            },
            Err(e) => {
                report.fail(rec.id, &IngestFailure::Qdrant(e));
                None
            },
        },
    }
}

// ── laws ─────────────────────────────────────────────────────────────────────

/// The statement has one argument per column.
pub proof fn law_one_argument_per_column(fields: Seq<FieldModel>, id: Seq<char>)
    ensures
        columns(fields, id).len() == 17,
        columns(fields, id)[0] == db::ArgModel::Text(id),
{
}

/// The columns that [`INSERT_PATTERN`] names, in order.
pub open spec fn column_names() -> Seq<Seq<char>> {
    seq![
        "id"@,
        "category"@,
        "version"@,
        "title"@,
        "source"@,
        "source_file"@,
        "difficulty"@,
        "mantle_specific"@,
        "evm_version"@,
        "trigger_patterns"@,
        "solidity_before"@,
        "yul_optimized"@,
        "patterns_used"@,
        "explanation"@,
        "risk_level"@,
        "when_to_apply"@,
        "when_not_to_apply"@,
    ]
}

/// The statement names the columns in this order.
#[verifier::rlimit(60)]
pub proof fn law_the_statement_names_the_columns()
    ensures
        text::has_prefix(
            INSERT_PATTERN@,
            "INSERT OR REPLACE INTO optimization_patterns ("@ + split::joined(
                column_names(),
                ","@,
            ) + ")"@,
        ),
{
    reveal_strlit("INSERT OR REPLACE INTO optimization_patterns (id,category,version,title,source,source_file,difficulty,mantle_specific,evm_version,trigger_patterns,solidity_before,yul_optimized,patterns_used,explanation,risk_level,when_to_apply,when_not_to_apply) VALUES (?,?,?,?,?,?,?,?,?,?,?,?,?,?,?,?,?)");
    reveal_strlit("INSERT OR REPLACE INTO optimization_patterns (");
    reveal_strlit(")");
    reveal_strlit(",");
    reveal_strlit("id");
    reveal_strlit("category");
    reveal_strlit("version");
    reveal_strlit("title");
    reveal_strlit("source");
    reveal_strlit("source_file");
    reveal_strlit("difficulty");
    reveal_strlit("mantle_specific");
    reveal_strlit("evm_version");
    reveal_strlit("trigger_patterns");
    reveal_strlit("solidity_before");
    reveal_strlit("yul_optimized");
    reveal_strlit("patterns_used");
    reveal_strlit("explanation");
    reveal_strlit("risk_level");
    reveal_strlit("when_to_apply");
    reveal_strlit("when_not_to_apply");
    let c = column_names();
    let sep = ","@;
    assert(c.take(2).drop_last() =~= c.take(1));
    assert(c.take(3).drop_last() =~= c.take(2));
    assert(c.take(4).drop_last() =~= c.take(3));
    assert(c.take(5).drop_last() =~= c.take(4));
    assert(c.take(6).drop_last() =~= c.take(5));
    assert(c.take(7).drop_last() =~= c.take(6));
    assert(c.take(8).drop_last() =~= c.take(7));
    assert(c.take(9).drop_last() =~= c.take(8));
    assert(c.take(10).drop_last() =~= c.take(9));
    assert(c.take(11).drop_last() =~= c.take(10));
    assert(c.take(12).drop_last() =~= c.take(11));
    assert(c.take(13).drop_last() =~= c.take(12));
    assert(c.take(14).drop_last() =~= c.take(13));
    assert(c.take(15).drop_last() =~= c.take(14));
    assert(c.take(16).drop_last() =~= c.take(15));
    assert(c.take(17).drop_last() =~= c.take(16));
    assert(c.take(17) =~= c);
    let j = split::joined(c, sep);
    reveal_with_fuel(split::joined, 18);
    assert(INSERT_PATTERN@.subrange(
        0,
        ("INSERT OR REPLACE INTO optimization_patterns ("@ + j + ")"@).len() as int,
    ) =~= "INSERT OR REPLACE INTO optimization_patterns ("@ + j + ")"@);
}

/// The argument in a text column's place is the field of that name, where the document
/// has one: so for the code that a pattern applies to, the code that it leads to, and
/// every other column that holds a text.
pub proof fn law_text_fields_reach_their_column(
    r: Record,
    fields: Seq<FieldModel>,
    id: Seq<char>,
    k: int,
    place: int,
    value: Seq<char>,
)
    requires
        is_record(r, fields, id),
        json::unique_keys(fields),
        0 <= k < fields.len(),
        fields[k].text == Some(value),
        0 < place < 17,
        fields[k].key == column_names()[place],
        place != 7 && place != 9 && place != 12 && place != 13 && place != 15,
    ensures
        r.args@.len() == 17,
        r.args@[place].model() == db::ArgModel::Text(value),
{
    json::law_fields_are_found_by_their_key(fields, k);
    let args = db::arg_models(r.args@);
    assert(args.len() == r.args@.len());
    assert(args[place] == r.args@[place].model());
    assert(args == columns(fields, id));
    let default = seq![' '];
    assert(json::text_or(fields, fields[k].key, default) == value);
}

/// The columns for lists and notes hold the field's value as JSON, or `null`, and the
/// flag is a one exactly where the field is `true`.
pub proof fn law_values_reach_their_column(
    r: Record,
    fields: Seq<FieldModel>,
    id: Seq<char>,
    k: int,
    place: int,
)
    requires
        is_record(r, fields, id),
        json::unique_keys(fields),
        0 <= k < fields.len(),
        0 < place < 17,
        fields[k].key == column_names()[place],
    ensures
        place == 9 || place == 12 || place == 13 || place == 15 ==> r.args@[place].model()
            == db::ArgModel::Text(fields[k].json),
        place == 7 ==> r.args@[place].model() == db::ArgModel::Integer(
            if fields[k].flag == Some(true) {
                "1"@
            } else {
                "0"@
            },
        ),
{
    json::law_fields_are_found_by_their_key(fields, k);
    let args = db::arg_models(r.args@);
    assert(args.len() == r.args@.len());
    assert(args == columns(fields, id));
    assert(args[place] == r.args@[place].model());
}

/// The code columns fall back in order: to the general form's fields, then to those of
/// an antipattern.
pub proof fn law_code_columns_fall_back(
    r: Record,
    fields: Seq<FieldModel>,
    id: Seq<char>,
    k: int,
    value: Seq<char>,
)
    requires
        is_record(r, fields, id),
        json::unique_keys(fields),
        0 <= k < fields.len(),
        fields[k].text == Some(value),
    ensures
        fields[k].key == "pattern_before"@ && json::text_at(fields, "solidity_before"@) is None
            ==> r.args@[10].model() == db::ArgModel::Text(value),
        fields[k].key == "pattern_after"@ && json::text_at(fields, "yul_optimized"@) is None
            ==> r.args@[11].model() == db::ArgModel::Text(value),
        fields[k].key == "wrong_code"@ && json::text_at(fields, "solidity_before"@) is None
            && json::text_at(fields, "pattern_before"@) is None ==> r.args@[10].model()
            == db::ArgModel::Text(value),
        fields[k].key == "correct_code"@ && json::text_at(fields, "yul_optimized"@) is None
            && json::text_at(fields, "pattern_after"@) is None ==> r.args@[11].model()
            == db::ArgModel::Text(value),
        fields[k].key == "id"@ ==> (json::text_at(fields, "id"@) == Some(value)),
        r.args@[0].model() == db::ArgModel::Text(id),
        r.id@ == id,
{
    json::law_fields_are_found_by_their_key(fields, k);
    let args = db::arg_models(r.args@);
    assert(args.len() == r.args@.len());
    assert(args == columns(fields, id));
    assert(args[0] == r.args@[0].model());
    assert(args[10] == r.args@[10].model());
    assert(args[11] == r.args@[11].model());
    assert(json::text_or(fields, fields[k].key, ""@) == value);
}

/// The text that a pattern is found by holds its title and the code that it applies to;
/// that of an antipattern its title, the wrong code and why it is wrong.
pub proof fn law_patterns_are_found_by_their_code(
    r: Record,
    fields: Seq<FieldModel>,
    id: Seq<char>,
    k: int,
    value: Seq<char>,
)
    requires
        is_record(r, fields, id),
        json::unique_keys(fields),
        0 <= k < fields.len(),
        fields[k].text == Some(value),
    ensures
        fields[k].key == "title"@ ==> text::holds(r.embed_text@, value),
        fields[k].key == "category"@ ==> text::has_prefix(
            r.embed_text@,
            "TOKEN_STANDARD_NAMESPACE: "@ + unicode::uppered(value),
        ) && r.category@ == value,
        fields[k].key == "solidity_before"@ && r.entry_type@ != "antipattern"@ ==> text::holds(
            r.embed_text@,
            value,
        ),
        fields[k].key == "wrong_code"@ && r.entry_type@ == "antipattern"@ ==> text::holds(
            r.embed_text@,
            value,
        ),
        fields[k].key == "why_wrong"@ && r.entry_type@ == "antipattern"@ ==> text::holds(
            r.embed_text@,
            value,
        ),
        fields[k].key == "type"@ ==> r.entry_type@ == value,
{
    json::law_fields_are_found_by_their_key(fields, k);
    let default = seq![' '];
    assert(json::text_or(fields, fields[k].key, default) == value);
    let category = unicode::uppered(json::text_or(fields, "category"@, "general"@));
    let title = json::text_or(fields, "title"@, "title"@);
    if r.entry_type@ == "antipattern"@ {
        lemma_antipattern_text(
            category,
            title,
            json::json_at(fields, "trigger_patterns"@),
            json::text_or(fields, "wrong_code"@, ""@),
            json::text_or(fields, "why_wrong"@, ""@),
        );
    } else {
        lemma_pattern_text(
            category,
            title,
            json::json_at(fields, "trigger_patterns"@),
            code_before(fields),
        );
    }
}

proof fn lemma_pattern_text(
    category: Seq<char>,
    title: Seq<char>,
    triggers: Seq<char>,
    before: Seq<char>,
)
    ensures
        ({
            let e = "TOKEN_STANDARD_NAMESPACE: "@ + category + "\n// Optimization: "@ + title
                + "\n// Keywords: "@ + triggers + "\n"@ + before;
            &&& text::has_prefix(e, "TOKEN_STANDARD_NAMESPACE: "@ + category)
            &&& text::holds(e, title)
            &&& text::holds(e, before)
        }),
{
    let s = "TOKEN_STANDARD_NAMESPACE: "@ + category;
    let a = s + "\n// Optimization: "@;
    let b = a + title;
    let c = b + "\n// Keywords: "@;
    let d = c + triggers;
    let e = d + "\n"@;
    text::lemma_starts(s, "\n// Optimization: "@);
    text::lemma_still_starts(a, title, s);
    text::lemma_still_starts(b, "\n// Keywords: "@, s);
    text::lemma_still_starts(c, triggers, s);
    text::lemma_still_starts(d, "\n"@, s);
    text::lemma_still_starts(e, before, s);
    text::lemma_ends(a, title);
    text::lemma_goes_on(b, "\n// Keywords: "@, title);
    text::lemma_goes_on(c, triggers, title);
    text::lemma_goes_on(d, "\n"@, title);
    text::lemma_goes_on(e, before, title);
    text::lemma_ends(e, before);
}

proof fn lemma_antipattern_text(
    category: Seq<char>,
    title: Seq<char>,
    triggers: Seq<char>,
    wrong: Seq<char>,
    why: Seq<char>,
)
    ensures
        ({
            let e = "TOKEN_STANDARD_NAMESPACE: "@ + category + "\n// Antipattern to avoid: "@
                + title + "\n// Triggers: "@ + triggers + "\n// Wrong code: "@ + wrong
                + "\n// Why wrong: "@ + why;
            &&& text::has_prefix(e, "TOKEN_STANDARD_NAMESPACE: "@ + category)
            &&& text::holds(e, title)
            &&& text::holds(e, wrong)
            &&& text::holds(e, why)
        }),
{
    let s = "TOKEN_STANDARD_NAMESPACE: "@ + category;
    let a = s + "\n// Antipattern to avoid: "@;
    let b = a + title;
    let c = b + "\n// Triggers: "@;
    let d = c + triggers;
    let e = d + "\n// Wrong code: "@;
    let f = e + wrong;
    let g = f + "\n// Why wrong: "@;
    text::lemma_starts(s, "\n// Antipattern to avoid: "@);
    text::lemma_still_starts(a, title, s);
    text::lemma_still_starts(b, "\n// Triggers: "@, s);
    text::lemma_still_starts(c, triggers, s);
    text::lemma_still_starts(d, "\n// Wrong code: "@, s);
    text::lemma_still_starts(e, wrong, s);
    text::lemma_still_starts(f, "\n// Why wrong: "@, s);
    text::lemma_still_starts(g, why, s);
    text::lemma_ends(a, title);
    text::lemma_goes_on(b, "\n// Triggers: "@, title);
    text::lemma_goes_on(c, triggers, title);
    text::lemma_goes_on(d, "\n// Wrong code: "@, title);
    text::lemma_goes_on(e, wrong, title);
    text::lemma_goes_on(f, "\n// Why wrong: "@, title);
    text::lemma_goes_on(g, why, title);
    text::lemma_ends(e, wrong);
    text::lemma_goes_on(f, "\n// Why wrong: "@, wrong);
    text::lemma_goes_on(g, why, wrong);
    text::lemma_ends(g, why);
}

} // verus!
