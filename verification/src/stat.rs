//! The accumulator of a walk, and the walk that fills it.

use crate::media::{has_image_extension, has_video_extension};
use crate::totals::{
    lemma_totals_concat, lemma_totals_empty, lemma_totals_single, share, total_size, totals,
    Totals,
};
use crate::tree::{lemma_listing_concat, lemma_listing_push, listing, met, Entry, Found};
use vstd::prelude::*;

verus! {

/// Why no statistics could be given.
#[derive(Debug, Clone, Copy, PartialEq, Eq, Structural)]
pub enum StatError {
    /// A total passes what 64 bits hold, or the tree is deeper than a depth
    /// can say.
    Overflow,
    /// An attempt to write the totals out gave no text.
    Encoding,
}

/// The five counters of a walk.
#[derive(Debug, Clone, Copy, PartialEq, Eq, Structural)]
pub struct Stat {
    /// The length in bytes of every file met, at any depth.
    pub size: u64,
    /// The files met at the threshold or deeper.
    pub num_files: u64,
    /// The images met at the threshold.
    pub num_images: u64,
    /// The videos met, at any depth.
    pub num_mp4s: u64,
    /// The directories met at the threshold.
    pub num_galleries: u64,
}

impl View for Stat {
    type V = Totals;

    open spec fn view(&self) -> Totals {
        Totals {
            size: self.size as nat,
            num_files: self.num_files as nat,
            num_images: self.num_images as nat,
            num_mp4s: self.num_mp4s as nat,
            num_galleries: self.num_galleries as nat,
        }
    }
}

/// No directory met lies so deep that what it holds has no depth.
pub open spec fn shallow(found: Seq<Found>) -> bool {
    forall|i: int| 0 <= i < found.len() && (#[trigger] found[i]) is Dir ==> found[i]->Dir_depth < i64::MAX
}

/// A walk that starts from the totals `start` and meets `found` can be
/// counted: its depths and its totals stay within their types.
pub open spec fn countable(start: Totals, found: Seq<Found>, target: int) -> bool {
    shallow(found) && start.plus(totals(found, target)).fits()
}

/// A walk of two parts can be counted just when the first part can, and
/// the second can from where the first has left the totals.
pub proof fn lemma_countable_concat(start: Totals, a: Seq<Found>, b: Seq<Found>, target: int)
    ensures
        countable(start, a + b, target) <==> countable(start, a, target) && countable(
            start.plus(totals(a, target)),
            b,
            target,
        ),
        start.plus(totals(a + b, target)) == start.plus(totals(a, target)).plus(
            totals(b, target),
        ),
{
    lemma_totals_concat(a, b, target);
    let whole = a + b;
    if shallow(whole) {
        assert forall|i: int| 0 <= i < a.len() && (#[trigger] a[i]) is Dir implies a[i]->Dir_depth
            < i64::MAX by {
            assert(whole[i] == a[i]);
        }
        assert forall|i: int| 0 <= i < b.len() && (#[trigger] b[i]) is Dir implies b[i]->Dir_depth
            < i64::MAX by {
            assert(whole[a.len() + i] == b[i]);
        }
    }
    if shallow(a) && shallow(b) {
        assert forall|i: int| 0 <= i < whole.len() && (#[trigger] whole[i]) is Dir implies whole[i]->Dir_depth
            < i64::MAX by {
            if i < a.len() {
                assert(whole[i] == a[i]);
            } else {
                assert(whole[i] == b[i - a.len()]);
            }
        }
    }
}

/// One more where `step` holds, unless the count is full.
fn checked_step(count: u64, step: bool) -> (next: Option<u64>)
    ensures
        match next {
            Some(n) => n == count + (if step { 1int } else { 0 }),
            None => step && count == u64::MAX,
        },
{
    if step {
        count.checked_add(1)
    } else {
        Some(count)
    }
}

impl Stat {
    /// All counters at zero.
    pub fn new() -> (stat: Stat)
        ensures
            stat@ == Totals::zero(),
    {
        Stat { size: 0, num_files: 0, num_images: 0, num_mp4s: 0, num_galleries: 0 }
    }

    /// Counts a file met at `current_depth`: its size and, where it is a
    /// video, one more video, whatever the depth; one more file at the
    /// threshold `depth` or deeper; one more image where it is one and lies
    /// at the threshold. Where a counter would overflow, nothing is counted.
    pub fn count_file(&mut self, name: &[u8], size: u64, current_depth: i64, depth: i64) -> (outcome:
        Result<(), StatError>)
        ensures
            outcome is Ok <==> old(self)@.plus(
                share(
                    Found::File { depth: current_depth as int, name: name@, size: size as nat },
                    depth as int,
                ),
            ).fits(),
            outcome is Ok ==> final(self)@ == old(self)@.plus(
                share(
                    Found::File { depth: current_depth as int, name: name@, size: size as nat },
                    depth as int,
                ),
            ),
            outcome is Err ==> *final(self) == *old(self),
            outcome is Err ==> outcome == Err::<(), StatError>(StatError::Overflow),
    {
        let video: bool = has_video_extension(name);
        let image: bool = current_depth == depth && has_image_extension(name);
        let counted: bool = current_depth >= depth;
        let total: u64 = match self.size.checked_add(size) {
            Some(total) => total,
            None => { return Err(StatError::Overflow); },
        };
        let num_mp4s: u64 = match checked_step(self.num_mp4s, video) {
            Some(n) => n,
            None => { return Err(StatError::Overflow); },
        };
        let num_files: u64 = match checked_step(self.num_files, counted) {
            Some(n) => n,
            None => { return Err(StatError::Overflow); },
        };
        let num_images: u64 = match checked_step(self.num_images, image) {
            Some(n) => n,
            None => { return Err(StatError::Overflow); },
        };
        self.size = total;
        self.num_mp4s = num_mp4s;
        self.num_files = num_files;
        self.num_images = num_images;
        Ok(())
    }

    /// Counts a directory met at `current_depth`: one more gallery where it
    /// lies at the threshold `depth`. Where the counter would overflow,
    /// nothing is counted.
    pub fn count_dir(&mut self, current_depth: i64, depth: i64) -> (outcome: Result<(), StatError>)
        ensures
            outcome is Ok <==> old(self)@.plus(
                share(Found::Dir { depth: current_depth as int }, depth as int),
            ).fits(),
            outcome is Ok ==> final(self)@ == old(self)@.plus(
                share(Found::Dir { depth: current_depth as int }, depth as int),
            ),
            outcome is Err ==> *final(self) == *old(self),
            outcome is Err ==> outcome == Err::<(), StatError>(StatError::Overflow),
    {
        match checked_step(self.num_galleries, current_depth == depth) {
            Some(n) => {
                self.num_galleries = n;
                Ok(())
            },
            None => Err(StatError::Overflow),
        }
    }
}

/// Walks `p` and adds what it meets to `stat`, where what `p` holds lies at
/// `current_depth` and `depth` is the threshold. A `p` that is no directory
/// adds nothing. On `Overflow` the walk is given up and `stat` is as it was.
pub fn look_through(p: &Entry, current_depth: i64, depth: i64, stat: &mut Stat) -> (outcome: Result<
    (),
    StatError,
>)
    ensures
        outcome is Ok <==> countable(old(stat)@, p.walk(current_depth as int), depth as int),
        outcome is Ok ==> final(stat)@ == old(stat)@.plus(
            totals(p.walk(current_depth as int), depth as int),
        ),
        outcome is Ok ==> final(stat).size == old(stat).size + total_size(
            p.walk(current_depth as int),
        ),
        outcome is Err ==> *final(stat) == *old(stat),
        outcome is Err ==> outcome == Err::<(), StatError>(StatError::Overflow),
    decreases p,
{
    let ghost start = stat@;
    let ghost target = depth as int;
    let ghost level = current_depth as int;
    let saved: Stat = *stat;
    proof {
        lemma_totals_empty(target);
    }
    match p {
        Entry::File { .. } => Ok(()),
        Entry::Dir { children } => {
            let mut i: usize = 0;
            assert(children@.take(0) =~= Seq::<Entry>::empty());
            while i < children.len()
                invariant
                    i <= children.len(),
                    saved == *old(stat),
                    start == old(stat)@,
                    target == depth as int,
                    level == current_depth as int,
                    p == (Entry::Dir { children: *children }),
                    countable(start, listing(children@.take(i as int), level), target),
                    stat@ == start.plus(totals(listing(children@.take(i as int), level), target)),
                decreases children.len() - i,
            {
                let entry = &children[i];
                let ghost before = listing(children@.take(i as int), level);
                let ghost here = met(*entry, level);
                let ghost rest = listing(children@.skip(i + 1), level);
                proof {
                    assert(children@.take(i + 1) =~= children@.take(i as int).push(*entry));
                    lemma_listing_push(children@.take(i as int), *entry, level);
                    assert(children@ =~= children@.take(i + 1) + children@.skip(i + 1));
                    lemma_listing_concat(children@.take(i + 1), children@.skip(i + 1), level);
                    lemma_countable_concat(start, before + here, rest, target);
                    lemma_countable_concat(start, before, here, target);
                    vstd::std_specs::vec::axiom_vec_index_decreases(p->children, i as int);
                }
                let step: Result<(), StatError> = match entry {
                    Entry::File { name, size } => {
                        proof {
                            lemma_totals_single(here[0], target);
                            assert(here =~= seq![here[0]]);
                        }
                        stat.count_file(name.as_slice(), *size, current_depth, depth)
                    },
                    Entry::Dir { children: below } => {
                        let ghost dir = seq![Found::Dir { depth: level }];
                        let ghost under = listing(below@, level + 1);
                        proof {
                            lemma_countable_concat(stat@, dir, under, target);
                            lemma_totals_single(dir[0], target);
                        }
                        match stat.count_dir(current_depth, depth) {
                            Err(e) => Err(e),
                            Ok(()) => match current_depth.checked_add(1) {
                                None => {
                                    assert(!shallow(dir)) by {
                                        assert(dir[0] is Dir);
                                    }
                                    Err(StatError::Overflow)
                                },
                                Some(next_depth) => {
                                    assert(shallow(dir)) by {
                                        assert(dir[0]->Dir_depth < i64::MAX);
                                    }
                                    look_through(entry, next_depth, depth, stat)
                                },
                            },
                        }
                    },
                };
                match step {
                    Ok(()) => {},
                    Err(e) => {
                        *stat = saved;
                        return Err(e);
                    },
                }
                i += 1;
            }
            assert(children@.take(i as int) =~= children@);
            Ok(())
        },
    }
}

} // verus!
