//! Date handling for exported documents.
//!
//! A message's Date header is parsed into epoch seconds and rendered in two
//! forms: a `YYYY-MM-DD` day string used in filenames and the dedup check,
//! and an RFC 3339 timestamp used in the document's metadata. When the
//! header cannot be parsed, a sentinel day string is used and the raw header
//! text stands in for the timestamp.

use vstd::prelude::*;

verus! {

/// What mailparse::dateparse yields for a Date header: a function of the
/// text alone.
pub uninterp spec fn date_header_seconds(s: Seq<char>) -> Option<i64>;

/// Relies on mailparse::dateparse: the epoch seconds it yields depend on
/// the header text alone; an unparseable header yields None.
#[verifier::external_body]
pub fn parse_email_date(date_str: &str) -> (r: Option<i64>)
    ensures
        r == date_header_seconds(date_str@),
{
    mailparse::dateparse(date_str).ok()
}

/// What chrono renders for an epoch second: the `YYYY-MM-DD` form and the
/// RFC 3339 form, functions of the timestamp alone.
pub uninterp spec fn date_strings_of(ts: i64) -> Option<(Seq<char>, Seq<char>)>;

/// Relies on chrono's DateTime::from_timestamp (None outside the supported
/// range), its `%Y-%m-%d` formatting and its to_rfc3339: all three depend
/// on the timestamp alone.
#[verifier::external_body]
pub fn format_timestamp(ts: i64) -> (r: Option<(String, String)>)
    ensures
        r is Some <==> date_strings_of(ts) is Some,
        r matches Some(p) ==> date_strings_of(ts) == Some((p.0@, p.1@)),
{
    chrono::DateTime::from_timestamp(ts, 0).map(
        |d| (d.format("%Y-%m-%d").to_string(), d.to_rfc3339()),
    )
}

/// Relies on chrono::Utc::now and its `%Y-%m-%d` formatting: the current
/// date, of which no contract can say more.
#[verifier::external_body]
pub fn today_ymd() -> String {
    chrono::Utc::now().format("%Y-%m-%d").to_string()
}

/// The day string used in a document's filename: the rendered date, or a
/// sentinel when the header cannot be parsed or rendered.
pub open spec fn ymd_or_unknown(field: Seq<char>) -> Seq<char> {
    match date_header_seconds(field) {
        Some(ts) => match date_strings_of(ts) {
            Some(p) => p.0,
            None => "unknown-date"@,
        },
        None => "unknown-date"@,
    }
}

/// The timestamp written into a document's metadata: the RFC 3339 form, or
/// the raw header text when the header cannot be parsed or rendered.
pub open spec fn rfc_or_raw(field: Seq<char>) -> Seq<char> {
    match date_header_seconds(field) {
        Some(ts) => match date_strings_of(ts) {
            Some(p) => p.1,
            None => field,
        },
        None => field,
    }
}

/// Parse and render a Date header into the filename day string and the
/// metadata timestamp.
pub fn export_date_parts(date_field: &str) -> (r: (String, String))
    ensures
        r.0@ == ymd_or_unknown(date_field@),
        r.1@ == rfc_or_raw(date_field@),
{
    match parse_email_date(date_field) {
        Some(ts) => match format_timestamp(ts) {
            Some(p) => p,
            None => (String::from_str("unknown-date"), String::from_str(date_field)),
        },
        None => (String::from_str("unknown-date"), String::from_str(date_field)),
    }
}

} // verus!
