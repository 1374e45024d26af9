//! The totals written out as a JSON object.

use crate::stat::{Stat, StatError};
use crate::totals::Totals;
use std::collections::BTreeMap;
use vstd::prelude::*;

verus! {

/// The error of `serde_json`, carried through unread.
#[verifier::external_type_specification]
#[verifier::external_body]
pub struct ExJsonError(serde_json::Error);

/// The text that `serde_json::to_string` writes for a map, ordered by key,
/// that is gathered from these pairs of a key and a number.
pub uninterp spec fn json_object_text(pairs: Seq<(Seq<char>, nat)>) -> Seq<char>;

/// Each pair as mathematics: the characters of the key, and the number.
pub open spec fn pairs_of(entries: Seq<(&'static str, u64)>) -> Seq<(Seq<char>, nat)> {
    Seq::new(entries.len(), |i: int| (entries[i].0@, entries[i].1 as nat))
}

/// The five totals under their names.
pub open spec fn labelled(totals: Totals) -> Seq<(Seq<char>, nat)> {
    seq![
        ("size"@, totals.size),
        ("num_files"@, totals.num_files),
        ("num_images"@, totals.num_images),
        ("num_mp4s"@, totals.num_mp4s),
        ("num_galleries"@, totals.num_galleries),
    ]
}

/// Calls `serde_json::to_string` on the map, ordered by key, that holds
/// `entries`. The call gives a text, the one named `json_object_text` for
/// these pairs: it can fail only where the writer fails, where a key is no
/// string or where a value refuses to be written, and here the writer is a
/// vector of bytes, the keys are strings and the values are integers.
#[verifier::external_body]
fn to_json(entries: &Vec<(&'static str, u64)>) -> (outcome: Result<String, serde_json::Error>)
    ensures
        outcome is Ok,
        outcome matches Ok(text) ==> text@ == json_object_text(pairs_of(entries@)),
{
    let object: BTreeMap<&str, u64> = entries.iter().copied().collect();
    serde_json::to_string(&object)
}

/// What is handed on of an attempt to write the totals out: the text, or
/// `Encoding` where there is none.
pub fn written(outcome: Result<String, serde_json::Error>) -> (report: Result<String, StatError>)
    ensures
        match outcome {
            Ok(text) => report == Ok::<String, StatError>(text),
            Err(_) => report == Err::<String, StatError>(StatError::Encoding),
        },
{
    match outcome {
        Ok(text) => Ok(text),
        Err(_) => Err(StatError::Encoding),
    }
}

/// The five counters with their names, in the order `size`, `num_files`,
/// `num_images`, `num_mp4s`, `num_galleries`.
pub fn entries_of(stat: &Stat) -> (entries: Vec<(&'static str, u64)>)
    ensures
        pairs_of(entries@) == labelled(stat@),
{
    let mut entries: Vec<(&'static str, u64)> = Vec::new();
    entries.push(("size", stat.size));
    entries.push(("num_files", stat.num_files));
    entries.push(("num_images", stat.num_images));
    entries.push(("num_mp4s", stat.num_mp4s));
    entries.push(("num_galleries", stat.num_galleries));
    assert(pairs_of(entries@) =~= labelled(stat@));
    entries
}

/// Writes the counters out as a JSON object of five members, each counter
/// under its name. A text is always given.
pub fn render(stat: &Stat) -> (report: Result<String, StatError>)
    ensures
        report is Ok,
        report matches Ok(text) ==> text@ == json_object_text(labelled(stat@)),
{
    let entries = entries_of(stat);
    written(to_json(&entries))
}

} // verus!
