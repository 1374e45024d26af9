//! The five totals of a walk, as mathematics.

use crate::media::{is_image, is_video};
use crate::tree::Found;
use vstd::prelude::*;

verus! {

/// The length of what was met, where it is a file; a directory has none.
pub open spec fn size_of(found: Found) -> nat {
    match found {
        Found::File { size, .. } => size,
        Found::Dir { .. } => 0,
    }
}

/// A file whose extension is that of a video.
pub open spec fn is_video_file(found: Found) -> bool {
    found matches Found::File { name, .. } && is_video(name)
}

/// A file at the threshold or deeper.
pub open spec fn is_counted_file(found: Found, target: int) -> bool {
    found matches Found::File { depth, .. } && depth >= target
}

/// A file at the threshold whose extension is that of an image.
pub open spec fn is_counted_image(found: Found, target: int) -> bool {
    found matches Found::File { depth, name, .. } && depth == target && is_image(name)
}

/// A directory at the threshold.
pub open spec fn is_gallery(found: Found, target: int) -> bool {
    found matches Found::Dir { depth } && depth == target
}

/// The sum of the lengths of all files met.
pub open spec fn total_size(met: Seq<Found>) -> nat
    decreases met.len(),
{
    if met.len() == 0 {
        0
    } else {
        total_size(met.drop_last()) + size_of(met.last())
    }
}

/// The videos met, at any depth.
pub open spec fn videos(met: Seq<Found>) -> Seq<Found> {
    met.filter(|found: Found| is_video_file(found))
}

/// The files met at the threshold or deeper.
pub open spec fn counted_files(met: Seq<Found>, target: int) -> Seq<Found> {
    met.filter(|found: Found| is_counted_file(found, target))
}

/// The images met at the threshold.
pub open spec fn counted_images(met: Seq<Found>, target: int) -> Seq<Found> {
    met.filter(|found: Found| is_counted_image(found, target))
}

/// The directories met at the threshold.
pub open spec fn galleries(met: Seq<Found>, target: int) -> Seq<Found> {
    met.filter(|found: Found| is_gallery(found, target))
}

/// Five totals, without bound.
pub struct Totals {
    pub size: nat,
    pub num_files: nat,
    pub num_images: nat,
    pub num_mp4s: nat,
    pub num_galleries: nat,
}

impl Totals {
    /// All five at zero.
    pub open spec fn zero() -> Totals {
        Totals { size: 0, num_files: 0, num_images: 0, num_mp4s: 0, num_galleries: 0 }
    }

    /// The sum, total by total.
    pub open spec fn plus(self, other: Totals) -> Totals {
        Totals {
            size: self.size + other.size,
            num_files: self.num_files + other.num_files,
            num_images: self.num_images + other.num_images,
            num_mp4s: self.num_mp4s + other.num_mp4s,
            num_galleries: self.num_galleries + other.num_galleries,
        }
    }

    /// Each total can be held in 64 bits.
    pub open spec fn fits(self) -> bool {
        &&& self.size <= u64::MAX
        &&& self.num_files <= u64::MAX
        &&& self.num_images <= u64::MAX
        &&& self.num_mp4s <= u64::MAX
        &&& self.num_galleries <= u64::MAX
    }
}

/// The totals of what was met, for the threshold `target`: the size of
/// every file; the files at the threshold or deeper; the images at the
/// threshold; the videos; the directories at the threshold.
pub open spec fn totals(met: Seq<Found>, target: int) -> Totals {
    Totals {
        size: total_size(met),
        num_files: counted_files(met, target).len(),
        num_images: counted_images(met, target).len(),
        num_mp4s: videos(met).len(),
        num_galleries: galleries(met, target).len(),
    }
}

/// The size of two walks is the sum of their sizes.
pub proof fn lemma_total_size_concat(a: Seq<Found>, b: Seq<Found>)
    ensures
        total_size(a + b) == total_size(a) + total_size(b),
    decreases b.len(),
{
    if b.len() == 0 {
        assert(a + b =~= a);
    } else {
        assert((a + b).drop_last() =~= a + b.drop_last());
        lemma_total_size_concat(a, b.drop_last());
    }
}

/// The totals of two walks, one after the other, are the sums of theirs.
pub proof fn lemma_totals_concat(a: Seq<Found>, b: Seq<Found>, target: int)
    ensures
        totals(a + b, target) == totals(a, target).plus(totals(b, target)),
{
    lemma_total_size_concat(a, b);
    Seq::filter_distributes_over_add(a, b, |found: Found| is_video_file(found));
    Seq::filter_distributes_over_add(a, b, |found: Found| is_counted_file(found, target));
    Seq::filter_distributes_over_add(a, b, |found: Found| is_counted_image(found, target));
    Seq::filter_distributes_over_add(a, b, |found: Found| is_gallery(found, target));
}

/// Nothing met gives totals of zero.
pub proof fn lemma_totals_empty(target: int)
    ensures
        totals(Seq::<Found>::empty(), target) == Totals::zero(),
{
    let none = Seq::<Found>::empty();
    assert(videos(none).len() == 0) by {
        none.lemma_filter_len(|found: Found| is_video_file(found));
    }
    assert(counted_files(none, target).len() == 0) by {
        none.lemma_filter_len(|found: Found| is_counted_file(found, target));
    }
    assert(counted_images(none, target).len() == 0) by {
        none.lemma_filter_len(|found: Found| is_counted_image(found, target));
    }
    assert(galleries(none, target).len() == 0) by {
        none.lemma_filter_len(|found: Found| is_gallery(found, target));
    }
}

/// What one thing met adds to the totals: a file its size, one video where
/// it is one, one file where it lies at the threshold or deeper, and one
/// image where it is one and lies at the threshold; a directory one gallery
/// where it lies at the threshold.
pub open spec fn share(found: Found, target: int) -> Totals {
    Totals {
        size: size_of(found),
        num_files: if is_counted_file(found, target) { 1 } else { 0 },
        num_images: if is_counted_image(found, target) { 1 } else { 0 },
        num_mp4s: if is_video_file(found) { 1 } else { 0 },
        num_galleries: if is_gallery(found, target) { 1 } else { 0 },
    }
}

/// The totals of a walk that meets one thing are the share of that thing.
pub proof fn lemma_totals_single(found: Found, target: int)
    ensures
        totals(seq![found], target) == share(found, target),
{
    let one = seq![found];
    assert(one.drop_last() =~= Seq::<Found>::empty());
    assert(total_size(one) == size_of(found)) by {
        reveal_with_fuel(total_size, 2);
    }
    reveal_with_fuel(Seq::filter, 2);
}

} // verus!
