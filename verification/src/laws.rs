//! What holds of the totals of every tree.

use crate::totals::{
    lemma_totals_concat, lemma_totals_empty, lemma_totals_single, share, totals, Totals,
};
use crate::tree::{lemma_listing_concat, listing, met, Entry, Found};
use vstd::prelude::*;

verus! {

/// The size and the number of videos do not depend on the threshold.
pub proof fn lemma_size_and_videos_ignore_threshold(entries: Seq<Entry>, depth: int, a: int, b: int)
    ensures
        totals(listing(entries, depth), a).size == totals(listing(entries, depth), b).size,
        totals(listing(entries, depth), a).num_mp4s == totals(listing(entries, depth), b).num_mp4s,
{
}

/// The size and the number of videos of a walk do not depend on the depth
/// at which it starts, nor on the threshold: every file below the entries
/// adds its length, and one video where it is one, wherever it lies.
pub proof fn lemma_size_and_videos_ignore_depth(
    entries: Seq<Entry>,
    from: int,
    other: int,
    a: int,
    b: int,
)
    ensures
        totals(listing(entries, from), a).size == totals(listing(entries, other), b).size,
        totals(listing(entries, from), a).num_mp4s == totals(listing(entries, other), b).num_mp4s,
    decreases entries, 1int,
{
    if entries.len() > 0 {
        let front = entries.drop_last();
        let last = entries.last();
        lemma_size_and_videos_ignore_depth(front, from, other, a, b);
        lemma_size_and_videos_of_entry(last, from, other, a, b);
        lemma_totals_concat(listing(front, from), met(last, from), a);
        lemma_totals_concat(listing(front, other), met(last, other), b);
    }
}

/// The same of what a walk meets at one entry and below it.
proof fn lemma_size_and_videos_of_entry(entry: Entry, from: int, other: int, a: int, b: int)
    ensures
        totals(met(entry, from), a).size == totals(met(entry, other), b).size,
        totals(met(entry, from), a).num_mp4s == totals(met(entry, other), b).num_mp4s,
    decreases entry, 0int,
{
    match entry {
        Entry::File { name, size } => {
            lemma_totals_single(met(entry, from)[0], a);
            lemma_totals_single(met(entry, other)[0], b);
            assert(met(entry, from) =~= seq![met(entry, from)[0]]);
            assert(met(entry, other) =~= seq![met(entry, other)[0]]);
        },
        Entry::Dir { children } => {
            lemma_size_and_videos_ignore_depth(children@, from + 1, other + 1, a, b);
            let here = Found::Dir { depth: from };
            let there = Found::Dir { depth: other };
            lemma_totals_single(here, a);
            lemma_totals_single(there, b);
            lemma_totals_concat(seq![here], listing(children@, from + 1), a);
            lemma_totals_concat(seq![there], listing(children@, other + 1), b);
        },
    }
}

/// A directory that holds nothing gives totals of zero at every threshold.
pub proof fn lemma_empty_directory_is_zero(entry: Entry, depth: int, target: int)
    requires
        entry is Dir,
        entry->children@.len() == 0,
    ensures
        totals(entry.walk(depth), target) == Totals::zero(),
{
    lemma_totals_empty(target);
}

/// An entry that is no directory gives totals of zero at every threshold.
pub proof fn lemma_file_root_is_zero(entry: Entry, depth: int, target: int)
    requires
        entry is File,
    ensures
        totals(entry.walk(depth), target) == Totals::zero(),
{
    lemma_totals_empty(target);
}

/// The totals do not depend on the order in which a directory is listed:
/// two runs of entries give the same totals whichever is walked first.
pub proof fn lemma_totals_ignore_order(a: Seq<Entry>, b: Seq<Entry>, depth: int, target: int)
    ensures
        totals(listing(a + b, depth), target) == totals(listing(b + a, depth), target),
{
    lemma_listing_concat(a, b, depth);
    lemma_listing_concat(b, a, depth);
    lemma_totals_concat(listing(a, depth), listing(b, depth), target);
    lemma_totals_concat(listing(b, depth), listing(a, depth), target);
}

/// The totals of a walk that goes on to meet one more thing grow by the
/// share of that thing.
pub proof fn lemma_totals_push(met: Seq<Found>, found: Found, target: int)
    ensures
        totals(met.push(found), target) == totals(met, target).plus(share(found, target)),
{
    assert(met.push(found) =~= met + seq![found]);
    lemma_totals_concat(met, seq![found], target);
    lemma_totals_single(found, target);
}

} // verus!
