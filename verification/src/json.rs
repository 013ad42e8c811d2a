//! The little JSON that the library reads and writes, through `serde_json`.

use vstd::prelude::*;
use vstd::string::*;

use crate::text::{decimal_int, decimal_int_text, join, joined, texts_view};

verus! {

/// A string as a JSON string literal.
pub uninterp spec fn json_text(s: Seq<char>) -> Seq<char>;

/// The compact texts of the elements of a JSON array, or nothing where the
/// text is no JSON array.
pub uninterp spec fn json_items(s: Seq<char>) -> Option<Seq<Seq<char>>>;

/// An entry of an error log: the error's text and the time at which it came.
pub struct LogEntry {
    pub error: Seq<char>,
    pub ts: i64,
}

/// An entry as a JSON object.
pub open spec fn entry_text(e: LogEntry) -> Seq<char> {
    "{\"error\":"@ + json_text(e.error) + ",\"ts\":"@ + decimal_int(e.ts as int) + "}"@
}

/// The objects of a list of entries.
pub open spec fn entry_texts(entries: Seq<LogEntry>) -> Seq<Seq<char>> {
    Seq::new(entries.len(), |i: int| entry_text(entries[i]))
}

/// Texts as a JSON array.
pub open spec fn array_text(items: Seq<Seq<char>>) -> Seq<char> {
    "["@ + joined(items, ","@) + "]"@
}

/// An error log: a JSON array of entries.
pub open spec fn log_text(entries: Seq<LogEntry>) -> Seq<char> {
    array_text(entry_texts(entries))
}

/// `serde_json::to_string` on a string: its JSON string literal. The claim is
/// that the result depends on nothing but the string.
#[verifier::external_body]
pub(crate) fn json_string(s: &str) -> (r: String)
    ensures
        r@ == json_text(s@),
{
    match serde_json::to_string(s) {
        Ok(text) => text,
        Err(e) => e.to_string(),
    }
}

/// `serde_json::from_str` into a list of values, and each value's compact
/// text. The claim is that the result depends on nothing but the text, and
/// that an array of entries, as this library writes it, reads back as those
/// entries: their keys stand in the order in which `serde_json` keeps them,
/// and a string and a whole number are written in one way only.
#[verifier::external_body]
pub(crate) fn json_array(s: &str) -> (r: Option<Vec<String>>)
    ensures
        match json_items(s@) {
            Some(items) => r is Some && texts_view(r->0@) == items,
            None => r is None,
        },
        forall|entries: Seq<LogEntry>|
            s@ == #[trigger] log_text(entries) ==> r is Some && texts_view(r->0@) == entry_texts(
                entries,
            ),
{
    match serde_json::from_str::<Vec<serde_json::Value>>(s) {
        Ok(values) => Some(values.iter().map(|v| v.to_string()).collect()),
        Err(_) => None,
    }
}

/// The object of an entry.
pub fn log_entry(error: &str, ts: i64) -> (r: String)
    ensures
        r@ == entry_text(LogEntry { error: error@, ts }),
{
    let quoted = json_string(error);
    let time = decimal_int_text(ts);
    let mut out = "{\"error\":".to_owned();
    out.append(quoted.as_str());
    out.append(",\"ts\":");
    out.append(time.as_str());
    out.append("}");
    out
}

/// A list of texts as a JSON array.
pub fn write_array(items: &Vec<String>) -> (r: String)
    ensures
        r@ == array_text(texts_view(items@)),
{
    let body = join(items, ",");
    "[".to_owned().concat(body.as_str()).concat("]")
}

} // verus!
