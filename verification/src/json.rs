//! The fields of a JSON document, as far as the library reads them.

use crate::text::{self, same};
use vstd::prelude::*;

verus! {

broadcast use vstd::seq::group_seq_axioms;

/// One field of a JSON object.
pub struct JsonField {
    pub key: String,
    /// The value, where it is a string.
    pub text: Option<String>,
    /// The value, where it is a boolean.
    pub flag: Option<bool>,
    /// The value as JSON.
    pub json: String,
}

/// A field as a value.
pub struct FieldModel {
    pub key: Seq<char>,
    pub text: Option<Seq<char>>,
    pub flag: Option<bool>,
    pub json: Seq<char>,
}

impl JsonField {
    /// The field as a value.
    pub open spec fn model(self) -> FieldModel {
        FieldModel {
            key: self.key@,
            text: text::opt_view(self.text),
            flag: self.flag,
            json: self.json@,
        }
    }
}

/// Each field as a value.
pub open spec fn field_models(fields: Seq<JsonField>) -> Seq<FieldModel> {
    Seq::new(fields.len(), |i: int| fields[i].model())
}

/// What `serde_json` reads from a document: the fields of the object that it is,
/// none where it is another value, or the message of the syntax error.
pub uninterp spec fn document(src: Seq<char>) -> Result<Seq<FieldModel>, Seq<char>>;

/// No key occurs twice.
pub open spec fn unique_keys(fields: Seq<FieldModel>) -> bool {
    forall|i: int, j: int|
        0 <= i < j < fields.len() ==> (#[trigger] fields[i]).key != (#[trigger] fields[j]).key
}

/// `serde_json::from_str` into a `serde_json::Value`: the value is a function of the
/// document. An object's keys are distinct; each value is handed out as
/// `Value::as_str`, `Value::as_bool` and its `Display` give it. Not stated: which
/// documents parse, and what their fields are.
#[verifier::external_body]
pub(crate) fn parse_fields(src: &str) -> (r: Result<Vec<JsonField>, String>)
    ensures
        match r {
            Ok(fields) => document(src@) == Ok::<Seq<FieldModel>, Seq<char>>(
                field_models(fields@),
            ) && unique_keys(field_models(fields@)),
            Err(e) => document(src@) == Err::<Seq<FieldModel>, Seq<char>>(e@),
        },
{
    let value: serde_json::Value = serde_json::from_str(src).map_err(|e| e.to_string())?;
    Ok(value.as_object().into_iter().flatten().map(|(k, v)| JsonField {
        key: k.clone(),
        text: v.as_str().map(String::from),
        flag: v.as_bool(),
        json: v.to_string(),
    }).collect())
}

/// The first field, `from` or later, with the given key.
pub open spec fn field_index(fields: Seq<FieldModel>, key: Seq<char>, from: int) -> Option<int>
    decreases fields.len() - from,
{
    if from < 0 || from >= fields.len() {
        None
    } else if fields[from].key == key {
        Some(from)
    } else {
        field_index(fields, key, from + 1)
    }
}

/// The string under a key.
pub open spec fn text_at(fields: Seq<FieldModel>, key: Seq<char>) -> Option<Seq<char>> {
    match field_index(fields, key, 0) {
        Some(i) => fields[i].text,
        None => None,
    }
}

/// The boolean under a key.
pub open spec fn flag_at(fields: Seq<FieldModel>, key: Seq<char>) -> Option<bool> {
    match field_index(fields, key, 0) {
        Some(i) => fields[i].flag,
        None => None,
    }
}

/// The value under a key as JSON, `null` where there is none.
pub open spec fn json_at(fields: Seq<FieldModel>, key: Seq<char>) -> Seq<char> {
    match field_index(fields, key, 0) {
        Some(i) => fields[i].json,
        None => "null"@,
    }
}

/// The string under a key, or a default.
pub open spec fn text_or(fields: Seq<FieldModel>, key: Seq<char>, default: Seq<char>) -> Seq<char> {
    match text_at(fields, key) {
        Some(s) => s,
        None => default,
    }
}

fn find_field(fields: &Vec<JsonField>, key: &str) -> (r: Option<usize>)
    ensures
        match r {
            Some(i) => field_index(field_models(fields@), key@, 0) == Some(i as int) && i
                < fields@.len(),
            None => field_index(field_models(fields@), key@, 0) is None,
        },
{
    let ghost fs = field_models(fields@);
    let mut i: usize = 0;
    while i < fields.len()
        invariant
            i <= fields@.len(),
            fs == field_models(fields@),
            field_index(fs, key@, 0) == field_index(fs, key@, i as int),
        decreases fields.len() - i,
    {
        if same(fields[i].key.as_str(), key) {
            return Some(i);
        }
        i += 1;
    }
    None
}

/// The string under a key.
pub fn get_text(fields: &Vec<JsonField>, key: &str) -> (r: Option<String>)
    ensures
        text::opt_view(r) == text_at(field_models(fields@), key@),
{
    match find_field(fields, key) {
        Some(i) => match &fields[i].text {
            Some(s) => Some(s.clone()),
            None => None,
        },
        None => None,
    }
}

/// The string under a key, or a default.
pub fn get_text_or(fields: &Vec<JsonField>, key: &str, default: &str) -> (r: String)
    ensures
        r@ == text_or(field_models(fields@), key@, default@),
{
    match get_text(fields, key) {
        Some(s) => s,
        None => default.to_owned(),
    }
}

/// The boolean under a key.
pub fn get_flag(fields: &Vec<JsonField>, key: &str) -> (r: Option<bool>)
    ensures
        r == flag_at(field_models(fields@), key@),
{
    match find_field(fields, key) {
        Some(i) => fields[i].flag,
        None => None,
    }
}

/// The value under a key as JSON, `null` where there is none.
pub fn get_json(fields: &Vec<JsonField>, key: &str) -> (r: String)
    ensures
        r@ == json_at(field_models(fields@), key@),
{
    match find_field(fields, key) {
        Some(i) => fields[i].json.clone(),
        None => "null".to_owned(),
    }
}

// ── laws ─────────────────────────────────────────────────────────────────────

proof fn lemma_field_index(fields: Seq<FieldModel>, key: Seq<char>, from: int)
    requires
        0 <= from,
    ensures
        match field_index(fields, key, from) {
            Some(i) => from <= i < fields.len() && fields[i].key == key,
            None => forall|k: int| from <= k < fields.len() ==> (#[trigger] fields[k]).key != key,
        },
    decreases fields.len() - from,
{
    if from < fields.len() && fields[from].key != key {
        lemma_field_index(fields, key, from + 1);
    }
}

/// A field is found under its key, with its own value.
pub proof fn law_fields_are_found_by_their_key(fields: Seq<FieldModel>, k: int)
    requires
        unique_keys(fields),
        0 <= k < fields.len(),
    ensures
        text_at(fields, fields[k].key) == fields[k].text,
        flag_at(fields, fields[k].key) == fields[k].flag,
        json_at(fields, fields[k].key) == fields[k].json,
        fields[k].text matches Some(t) ==> forall|default: Seq<char>| #[trigger]
            text_or(fields, fields[k].key, default) == t,
{
    lemma_field_index(fields, fields[k].key, 0);
}

/// A key that no field has leads to nothing: the default stands in for a text, and
/// `null` for a value.
pub proof fn law_absent_keys_have_no_value(fields: Seq<FieldModel>, key: Seq<char>)
    requires
        forall|k: int| 0 <= k < fields.len() ==> (#[trigger] fields[k]).key != key,
    ensures
        text_at(fields, key) is None,
        flag_at(fields, key) is None,
        json_at(fields, key) == "null"@,
        forall|default: Seq<char>| #[trigger] text_or(fields, key, default) == default,
{
    lemma_field_index(fields, key, 0);
}

} // verus!
