//! A scripture lookup library: given a book name or ID, a chapter, and a
//! verse list or range, it selects the matching verse records from a loaded
//! collection and renders them as a text report.
//!
//! All text is handled as UTF-8 byte strings (`Vec<u8>`), so that matching and
//! formatting are plain functions on bytes.

use vstd::prelude::*;

pub mod bytes;
pub mod format;
pub mod laws;
pub mod matching;
pub mod numeral;
pub mod parse;
pub mod records;

use crate::records::{LookupKey, Scripture};

verus! {

/// Looks the key up in the loaded records and renders the report the tool
/// prints: a header and one line per matching verse, or the not-found
/// message when nothing matches.
pub fn lookup_report(bible: &Vec<Scripture>, key: &LookupKey) -> (out: Vec<u8>)
    ensures
        out@ == format::report(matching::matching_records(records::views_of(bible@), key@)),
{
    let matches = matching::find_matches(bible, key);
    format::render_report(&matches)
}

/// Looks up only the first record answering the key, in dataset order, and
/// renders the single-verse report. This is the single-verse revision of the
/// tool, made deterministic: of several records answering (duplicates,
/// translations), the earliest in the dataset is the one shown.
pub fn lookup_first_report(bible: &Vec<Scripture>, key: &LookupKey) -> (out: Vec<u8>)
    ensures
        out@ == format::single_report(matching::first_match(records::views_of(bible@), key@)),
{
    let m = matching::find_first_match(bible, key);
    format::render_single_report(&m)
}

} // verus!
