//! A directory tree as plain data, and what a walk of it meets.

use vstd::prelude::*;
use vstd::slice::slice_to_vec;
use vstd::string::StringSliceAdditionalSpecFns;

verus! {

/// An entry of a directory tree.
#[derive(Debug)]
pub enum Entry {
    /// Anything that is no directory: its name and its length in bytes.
    File { name: Vec<u8>, size: u64 },
    /// A directory and what it holds, in the order in which it was listed.
    Dir { children: Vec<Entry> },
}

/// One thing met on a walk, with the depth at which it was met. What the
/// root directory holds is at depth 0.
pub enum Found {
    /// A file.
    File { depth: int, name: Seq<u8>, size: nat },
    /// A directory. What it holds follows it, one level deeper.
    Dir { depth: int },
}

/// Everything met on a walk of `entries` and of all that lies below them,
/// each directory followed at once by what it holds, where `entries`
/// themselves are at `depth`.
pub open spec fn listing(entries: Seq<Entry>, depth: int) -> Seq<Found>
    decreases entries,
{
    if entries.len() == 0 {
        Seq::empty()
    } else {
        listing(entries.drop_last(), depth) + met(entries.last(), depth)
    }
}

/// What a walk meets at `entry` and below it, where `entry` is at `depth`.
pub open spec fn met(entry: Entry, depth: int) -> Seq<Found>
    decreases entry,
{
    match entry {
        Entry::File { name, size } => seq![Found::File { depth, name: name@, size: size as nat }],
        Entry::Dir { children } => seq![Found::Dir { depth }] + listing(children@, depth + 1),
    }
}

impl Entry {
    /// What a walk that starts at this entry meets: nothing where it is a
    /// file, else all that lies below it, with what it holds at `depth`.
    pub open spec fn walk(self, depth: int) -> Seq<Found> {
        match self {
            Entry::File { .. } => Seq::empty(),
            Entry::Dir { children } => listing(children@, depth),
        }
    }

    /// A file of the given name and length.
    pub fn file(name: &str, size: u64) -> (entry: Entry)
        ensures
            entry is File,
            entry->name@ == name.spec_bytes(),
            entry->size == size,
    {
        Entry::File { name: slice_to_vec(name.as_bytes()), size }
    }

    /// A directory that holds `children`.
    pub fn dir(children: Vec<Entry>) -> (entry: Entry)
        ensures
            entry == (Entry::Dir { children }),
    {
        Entry::Dir { children }
    }

    /// Whether this entry is a directory.
    pub fn is_dir(&self) -> (dir: bool)
        ensures
            dir == (self is Dir),
    {
        match self {
            Entry::Dir { .. } => true,
            Entry::File { .. } => false,
        }
    }
}

/// A walk takes the entries in order: what it meets in a listing followed
/// by one more entry is what it meets in the listing, then at that entry.
pub proof fn lemma_listing_push(entries: Seq<Entry>, entry: Entry, depth: int)
    ensures
        listing(entries.push(entry), depth) == listing(entries, depth) + met(entry, depth),
{
    assert(entries.push(entry).drop_last() =~= entries);
}

/// A walk of two runs of entries, one after the other, meets what a walk of
/// the first meets and then what a walk of the second meets.
pub proof fn lemma_listing_concat(a: Seq<Entry>, b: Seq<Entry>, depth: int)
    ensures
        listing(a + b, depth) == listing(a, depth) + listing(b, depth),
    decreases b.len(),
{
    if b.len() == 0 {
        assert(a + b =~= a);
        assert(listing(a, depth) + listing(b, depth) =~= listing(a, depth));
    } else {
        assert((a + b).drop_last() =~= a + b.drop_last());
        lemma_listing_concat(a, b.drop_last(), depth);
        assert((listing(a, depth) + listing(b.drop_last(), depth)) + met(b.last(), depth)
            =~= listing(a, depth) + (listing(b.drop_last(), depth) + met(b.last(), depth)));
    }
}

} // verus!
