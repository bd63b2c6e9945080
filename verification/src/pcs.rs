use vstd::prelude::*;

use crate::class_mapping::{Leader, RevisionNESet};

verus! {

/// One of the three sides to be merged
#[derive(Debug, PartialEq, Eq, Structural, Hash, Copy, Clone)]
pub enum Revision {
    Base,
    Left,
    Right,
}

impl Revision {
    /// The name of the revision, as displayed to users
    pub fn name(self) -> (res: &'static str)
        ensures
            res@ == revision_name(self),
    {
        match self {
            Revision::Base => "Base",
            Revision::Left => "Left",
            Revision::Right => "Right",
        }
    }
}

/// The displayed name of a revision
pub open spec fn revision_name(r: Revision) -> Seq<char> {
    match r {
        Revision::Base => "Base"@,
        Revision::Left => "Left"@,
        Revision::Right => "Right"@,
    }
}

/// A node in a PCS triple: the root above all trees, a marker before the first child or
/// after the last one, or a class of nodes with the revisions it is present in
#[derive(Debug, Copy, Clone, PartialEq, Eq, Structural, Hash)]
pub enum PCSNode {
    VirtualRoot,
    LeftMarker,
    Node { revisions: RevisionNESet, node: Leader },
    RightMarker,
}

/// A triple saying that, in a revision, `successor` comes right after `predecessor` among
/// the children of `parent`
#[derive(Debug, Copy, Clone)]
pub struct PCS {
    pub parent: PCSNode,
    pub predecessor: PCSNode,
    pub successor: PCSNode,
    pub revision: Revision,
}

/// Do two triples relate the same nodes (whatever their revisions)?
pub open spec fn same_triple(a: PCS, b: PCS) -> bool {
    a.parent == b.parent && a.predecessor == b.predecessor && a.successor == b.successor
}

impl PCS {
    /// Does this triple relate the same nodes as the other one (whatever their revisions)?
    pub fn same_as(&self, other: &PCS) -> (res: bool)
        ensures
            res == same_triple(*self, *other),
    {
        self.parent == other.parent && self.predecessor == other.predecessor && self.successor == other.successor
    }
}

} // verus!
