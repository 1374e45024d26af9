//! Aggregate statistics of a directory tree, counted relative to a depth
//! threshold: total byte size, files, images, videos and gallery directories.
//!
//! The tree is handed over as plain data. What the root directory holds is
//! at depth 0, what its subdirectories hold at depth 1, and so on. Sizes and
//! videos are counted at every depth; files at the threshold and deeper;
//! images and galleries at the threshold only.

pub mod ascii;
pub mod extension;
pub mod laws;
pub mod media;
pub mod report;
pub mod stat;
pub mod totals;
pub mod tree;

use crate::report::{json_object_text, labelled, render};
use crate::stat::{countable, look_through, Stat, StatError};
use crate::totals::{
    counted_files, counted_images, galleries, lemma_totals_empty, total_size, totals, videos,
    Totals,
};
use crate::tree::{Entry, Found};
use vstd::prelude::*;

verus! {

/// What a walk from the root meets: nothing where there is no root or the
/// root is a file, else all that lies below the root directory, with what
/// it holds at depth 0.
pub open spec fn root_walk(root: Option<Entry>) -> Seq<Found> {
    match root {
        Some(entry) => entry.walk(0),
        None => Seq::empty(),
    }
}

/// The statistics of the tree at `root` for the threshold `depth`. A root
/// that is missing or is no directory gives counters of zero. Where a
/// counter or a depth would overflow, the answer is `Overflow`.
pub fn collect(root: &Option<Entry>, depth: i64) -> (outcome: Result<Stat, StatError>)
    ensures
        outcome is Ok <==> countable(Totals::zero(), root_walk(*root), depth as int),
        outcome matches Ok(stat) ==> {
            &&& stat@ == totals(root_walk(*root), depth as int)
            &&& stat.size == total_size(root_walk(*root))
            &&& stat.num_mp4s == videos(root_walk(*root)).len()
            &&& stat.num_galleries == galleries(root_walk(*root), depth as int).len()
            &&& stat.num_files == counted_files(root_walk(*root), depth as int).len()
            &&& stat.num_images == counted_images(root_walk(*root), depth as int).len()
        },
        outcome matches Err(e) ==> e == StatError::Overflow,
        !(*root matches Some(Entry::Dir { .. })) ==> outcome == Ok::<Stat, StatError>(
            Stat { size: 0, num_files: 0, num_images: 0, num_mp4s: 0, num_galleries: 0 },
        ),
{
    let mut stat = Stat::new();
    proof {
        lemma_totals_empty(depth as int);
    }
    match root {
        None => Ok(stat),
        Some(entry) => match look_through(entry, 0, depth, &mut stat) {
            Ok(()) => Ok(stat),
            Err(e) => Err(e),
        },
    }
}

/// The statistics of the tree at `root` for the threshold `depth`, as the
/// text of a JSON object whose five members are the counters under the
/// names `size`, `num_files`, `num_images`, `num_mp4s` and `num_galleries`.
/// The text is given whenever the counters and depths stay within their
/// types; a root that is missing or is no directory gives five zeros.
pub fn standalone_stat(root: &Option<Entry>, depth: i64) -> (report: Result<String, StatError>)
    ensures
        report is Ok <==> countable(Totals::zero(), root_walk(*root), depth as int),
        report matches Ok(text) ==> text@ == json_object_text(
            labelled(totals(root_walk(*root), depth as int)),
        ),
        report matches Err(e) ==> e == StatError::Overflow,
        !(*root matches Some(Entry::Dir { .. })) ==> report is Ok && report->Ok_0@
            == json_object_text(labelled(Totals::zero())),
{
    match collect(root, depth) {
        Ok(stat) => render(&stat),
        Err(e) => Err(e),
    }
}

} // verus!
