//! JSON documents read through `serde_json` by JSON Pointer, and provider
//! timestamps read through `chrono`.
use vstd::prelude::*;

verus! {

/// What a JSON Pointer finds in a document: the document does not parse
/// (with the parser's message), nothing is there, or a value of one kind —
/// a number as `serde_json` writes it, an array by its length, an object by
/// its keys.
pub enum JsonAt {
    Invalid(String),
    Missing,
    Null,
    Bool(bool),
    Number(String),
    Str(String),
    Array(usize),
    Object(Vec<String>),
}

/// The view of a [`JsonAt`].
pub enum JsonAtModel {
    Invalid(Seq<char>),
    Missing,
    Null,
    Bool(bool),
    Number(Seq<char>),
    Str(Seq<char>),
    Array(nat),
    Object(Seq<Seq<char>>),
}

impl View for JsonAt {
    type V = JsonAtModel;

    open spec fn view(&self) -> JsonAtModel {
        match self {
            JsonAt::Invalid(m) => JsonAtModel::Invalid(m@),
            JsonAt::Missing => JsonAtModel::Missing,
            JsonAt::Null => JsonAtModel::Null,
            JsonAt::Bool(b) => JsonAtModel::Bool(*b),
            JsonAt::Number(n) => JsonAtModel::Number(n@),
            JsonAt::Str(s) => JsonAtModel::Str(s@),
            JsonAt::Array(n) => JsonAtModel::Array(*n as nat),
            JsonAt::Object(k) => JsonAtModel::Object(k@.map_values(|s: String| s@)),
        }
    }
}

/// What `pointer` finds in the JSON document `text`.
pub uninterp spec fn json_at(text: Seq<char>, pointer: Seq<char>) -> JsonAtModel;

/// Parses `text` as a `serde_json::Value` (`serde_json::from_str`) and
/// looks `pointer` up in it (`Value::pointer`, RFC 6901). The contract
/// names the result; it states nothing of JSON syntax.
#[verifier::external_body]
pub fn json_pointer(text: &str, pointer: &str) -> (r: JsonAt)
    ensures
        r@ == json_at(text@, pointer@),
{
    match serde_json::from_str::<serde_json::Value>(text) {
        Err(e) => JsonAt::Invalid(e.to_string()),
        Ok(v) => match v.pointer(pointer) {
            None => JsonAt::Missing,
            Some(serde_json::Value::Null) => JsonAt::Null,
            Some(serde_json::Value::Bool(b)) => JsonAt::Bool(*b),
            Some(serde_json::Value::Number(n)) => JsonAt::Number(n.to_string()),
            Some(serde_json::Value::String(s)) => JsonAt::Str(s.clone()),
            Some(serde_json::Value::Array(a)) => JsonAt::Array(a.len()),
            Some(serde_json::Value::Object(o)) => JsonAt::Object(o.keys().cloned().collect()),
        },
    }
}

/// A timestamp read with a `chrono` format: the Unix time, the local date
/// written with a second format, and the RFC 3339 form.
pub struct ParsedTime {
    pub timestamp: i64,
    pub date: String,
    pub rfc3339: String,
}

/// What [`parse_time`] reads from `text` with the formats `fmt` and
/// `date_fmt`.
pub uninterp spec fn time_of(text: Seq<char>, fmt: Seq<char>, date_fmt: Seq<char>) -> Option<(i64, Seq<char>, Seq<char>)>;

/// Parses `text` with `chrono::DateTime::parse_from_str(text, fmt)` (the
/// format must carry an offset) and returns its `timestamp()`, its
/// `format(date_fmt)` and its `to_rfc3339()`; `None` when it does not
/// parse. The contract names the result. `format` panics when writing an
/// invalid format, so the date format is held to the one the library uses.
#[verifier::external_body]
pub fn parse_time(text: &str, fmt: &str, date_fmt: &str) -> (r: Option<ParsedTime>)
    requires
        date_fmt@ == "%Y-%m-%d"@,
    ensures
        match r {
            Some(t) => time_of(text@, fmt@, date_fmt@) == Some((t.timestamp, t.date@, t.rfc3339@)),
            None => time_of(text@, fmt@, date_fmt@) is None,
        },
{
    chrono::DateTime::parse_from_str(text, fmt).ok().map(|d| ParsedTime { timestamp: d.timestamp(), date: d.format(date_fmt).to_string(), rfc3339: d.to_rfc3339() })
}

} // verus!
