//! Names of lines and of versions of a store.

use vstd::prelude::*;

verus! {

/// The version of a store, by which what was computed from it is found out of date.
///
/// One part counts the sources that came and went and the scores that were set; the
/// other is the sum of the versions of the sources.
#[derive(Debug, Clone, Copy, PartialEq, Eq, Structural, Hash)]
pub struct StoreVersion {
    pub sources: u64,
    pub lines: u64,
}

impl Default for StoreVersion {
    fn default() -> (r: Self)
        ensures
            r.sources == 0,
            r.lines == 0,
    {
        StoreVersion { sources: 0, lines: 0 }
    }
}

/// A line of a store. It stays the same while other sources come and go.
#[derive(Debug, Clone, Copy, PartialEq, Eq, Structural, Hash, PartialOrd, Ord)]
pub struct StoreID {
    source_id: u64,
    line_index: usize,
}

impl StoreID {
    /// The source of the line.
    pub closed spec fn source(self) -> u64 {
        self.source_id
    }

    /// The place of the line in its source.
    pub closed spec fn index(self) -> usize {
        self.line_index
    }

    /// The number of the source of the line.
    pub fn source_id(&self) -> (r: u64)
        ensures
            r == self.source(),
    {
        self.source_id
    }

    /// The place of the line in its source, from 0.
    pub fn line_index_within_source(&self) -> (r: usize)
        ensures
            r == self.index(),
    {
        self.line_index
    }

    /// The line at a place of a source.
    pub fn make(source_id: u64, line_index: usize) -> (r: Self)
        ensures
            r.source() == source_id,
            r.index() == line_index,
    {
        StoreID { source_id, line_index }
    }

    /// A line is known by its source and its place.
    pub proof fn lemma_parts_equal(a: StoreID, b: StoreID)
        ensures
            a == b <==> a.source() == b.source() && a.index() == b.index(),
    {
    }
}

/// Hands out the numbers of sources, one after the other. They count round in 64 bits.
#[derive(Debug)]
pub struct SourceIds {
    next: u64,
}

impl SourceIds {
    /// The next number that will be handed out.
    pub closed spec fn upcoming(&self) -> u64 {
        self.next
    }

    /// The first number is 1.
    pub fn new() -> (r: Self)
        ensures
            r.upcoming() == 1,
    {
        SourceIds { next: 1 }
    }

    /// The next number.
    pub fn allocate(&mut self) -> (r: u64)
        ensures
            r == old(self).upcoming(),
            final(self).upcoming() == (old(self).upcoming() + 1) % 0x1_0000_0000_0000_0000,
    {
        let id: u64 = self.next;
        self.next = id.wrapping_add(1);
        id
    }
}

} // verus!
