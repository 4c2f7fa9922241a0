//! Cursors: a selection is an ordered collection of ranges, each with an anchor
//! and a head; the head is where a cursor stands.
use vstd::prelude::*;

verus! {

/// A range of a selection, from its anchor to its head.
#[derive(Clone, Copy, Debug, PartialEq, Eq, Structural)]
pub struct Range {
    pub anchor: usize,
    pub head: usize,
}

impl Range {
    /// A range from `anchor` to `head`.
    pub fn new(anchor: usize, head: usize) -> (r: Range)
        ensures
            r.anchor == anchor && r.head == head,
    {
        Range { anchor, head }
    }

    /// An empty range: a cursor at `head`.
    pub fn point(head: usize) -> (r: Range)
        ensures
            r.anchor == head && r.head == head,
    {
        Range { anchor: head, head }
    }
}

/// An ordered, non-empty collection of ranges, one of which is the primary one.
#[derive(Clone, Debug)]
pub struct Selection {
    pub ranges: Vec<Range>,
    pub primary_index: usize,
}

impl Selection {
    /// The heads of the ranges, in order.
    pub open spec fn heads(&self) -> Seq<usize> {
        self.ranges@.map_values(|r: Range| r.head)
    }

    /// A selection of `ranges`, in the order given, whose primary range is the one
    /// at `primary_index`.
    pub fn new(ranges: Vec<Range>, primary_index: usize) -> (r: Selection)
        requires
            ranges@.len() > 0,
            primary_index < ranges@.len(),
        ensures
            r.ranges@ == ranges@,
            r.primary_index == primary_index,
    {
        Selection { ranges, primary_index }
    }
}

} // verus!
