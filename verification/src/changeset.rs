//! Sets of PCS triples, which encode trees as the 3DM-Merge algorithm merges them
use vstd::prelude::*;

use crate::ast::AstNode;
use crate::class_mapping::{
    class_revisions, leader_or_self, lemma_ne_extensional, lemma_ne_set_of, ClassMapping, ClassMappingView, Leader,
    RevNode,
};
use crate::pcs::{same_triple, PCSNode, Revision, PCS};

verus! {

/// The PCS node standing for node `n` of revision `rev`: its class, with the revisions
/// where the class has nodes
pub open spec fn pcs_node_of<'a>(v: ClassMappingView, rev: Revision, n: AstNode<'a>) -> PCSNode {
    let leader = Leader(leader_or_self(v.0, RevNode { rev, node: n.id }));
    PCSNode::Node { revisions: class_revisions(v, leader, rev), node: leader }
}

/// Are the children of node `n` of revision `rev` encoded too? Not when all three
/// revisions of its class are isomorphic
pub open spec fn descends_into<'a>(v: ClassMappingView, rev: Revision, n: AstNode<'a>) -> bool {
    let leader = Leader(leader_or_self(v.0, RevNode { rev, node: n.id }));
    !(v.2.contains_key(leader) && v.2[leader] >= 2)
}

/// The predecessor of child `k` among `s`: the left marker for the first one
pub open spec fn predecessor_of<'a>(v: ClassMappingView, rev: Revision, s: Seq<AstNode<'a>>, k: int) -> PCSNode {
    if k <= 0 {
        PCSNode::LeftMarker
    } else {
        pcs_node_of(v, rev, s[k - 1])
    }
}

/// The triples that encode node `n` (below `parent`, after `predecessor`) and its
/// subtree, in the order in which they are added
pub open spec fn node_triples<'a>(n: AstNode<'a>, parent: PCSNode, predecessor: PCSNode, rev: Revision, v: ClassMappingView) -> Seq<PCS>
    decreases n, 1nat,
{
    let wrapped = pcs_node_of(v, rev, n);
    let own = seq![PCS { parent, predecessor, successor: wrapped, revision: rev }];
    if descends_into(v, rev, n) {
        own + children_triples(n.children@, wrapped, rev, v, n.children@.len() as int) + seq![
            PCS {
                parent: wrapped,
                predecessor: predecessor_of(v, rev, n.children@, n.children@.len() as int),
                successor: PCSNode::RightMarker,
                revision: rev,
            },
        ]
    } else {
        own
    }
}

/// The triples that encode the first `k` children `s` of `parent`
pub open spec fn children_triples<'a>(s: Seq<AstNode<'a>>, parent: PCSNode, rev: Revision, v: ClassMappingView, k: int) -> Seq<PCS>
    decreases s, k,
{
    if k <= 0 || k > s.len() {
        Seq::empty()
    } else {
        children_triples(s, parent, rev, v, k - 1) + node_triples(s[k - 1], parent, predecessor_of(v, rev, s, k - 1), rev, v)
    }
}

/// The triples that encode a tree of revision `rev`, below the virtual root
pub open spec fn tree_triples<'a>(root: AstNode<'a>, rev: Revision, v: ClassMappingView) -> Seq<PCS> {
    node_triples(root, PCSNode::VirtualRoot, PCSNode::LeftMarker, rev, v) + seq![
        PCS {
            parent: PCSNode::VirtualRoot,
            predecessor: pcs_node_of(v, rev, root),
            successor: PCSNode::RightMarker,
            revision: rev,
        },
    ]
}

/// The set after adding a triple, unless it has one relating the same nodes
pub open spec fn with_triple(set: Seq<PCS>, t: PCS) -> Seq<PCS> {
    if exists|i: int| 0 <= i < set.len() && same_triple(#[trigger] set[i], t) {
        set
    } else {
        set.push(t)
    }
}

/// The set after adding triples, in order
pub open spec fn with_triples(set: Seq<PCS>, ts: Seq<PCS>) -> Seq<PCS>
    decreases ts.len(),
{
    if ts.len() == 0 {
        set
    } else {
        with_triple(with_triples(set, ts.drop_last()), ts.last())
    }
}

proof fn lemma_with_triples_append(set: Seq<PCS>, a: Seq<PCS>, b: Seq<PCS>)
    ensures
        with_triples(set, a + b) == with_triples(with_triples(set, a), b),
    decreases b.len(),
{
    if b.len() == 0 {
        assert(a + b =~= a);
    } else {
        lemma_with_triples_append(set, a, b.drop_last());
        assert((a + b).drop_last() =~= a + b.drop_last());
        assert((a + b).last() == b.last());
    }
}

proof fn lemma_with_single(set: Seq<PCS>, t: PCS)
    ensures
        with_triples(set, seq![t]) == with_triple(set, t),
{
    assert(seq![t].drop_last() =~= Seq::<PCS>::empty());
    assert(seq![t].last() == t);
    assert(with_triples(set, Seq::<PCS>::empty()) == set);
    assert(with_triples(set, seq![t]) == with_triple(with_triples(set, seq![t].drop_last()), t));
}

/// A set of [PCS] triples, each relating distinct nodes from the others
#[derive(Debug)]
pub struct ChangeSet {
    triples: Vec<PCS>,
}

impl View for ChangeSet {
    type V = Seq<PCS>;

    closed spec fn view(&self) -> Seq<PCS> {
        self.triples@
    }
}

/// Keeps the triples that satisfy `f`, whose results `pred` describes
fn select<F: Fn(&PCS) -> bool>(set: &Vec<PCS>, f: &F, Ghost(pred): Ghost<spec_fn(PCS) -> bool>) -> (res: Vec<PCS>)
    requires
        forall|t: PCS| f.requires((&t,)),
        forall|t: PCS, b: bool| f.ensures((&t,), b) ==> b == pred(t),
    ensures
        res@ == set@.filter(pred),
{
    let mut res: Vec<PCS> = Vec::new();
    let mut i: usize = 0;
    while i < set.len()
        invariant
            0 <= i <= set@.len(),
            forall|t: PCS| f.requires((&t,)),
            forall|t: PCS, b: bool| f.ensures((&t,), b) ==> b == pred(t),
            res@ == set@.take(i as int).filter(pred),
        decreases set@.len() - i,
    {
        let t = set[i];
        let keep = f(&t);
        proof {
            assert(set@.take(i + 1).drop_last() =~= set@.take(i as int));
            assert(set@.take(i + 1).last() == t);
            reveal(Seq::filter);
        }
        if keep {
            res.push(t);
        }
        i = i + 1;
    }
    assert(set@.take(set@.len() as int) =~= set@);
    res
}

impl ChangeSet {
    /// Constructs an empty instance
    pub fn new() -> (res: ChangeSet)
        ensures
            res@ == Seq::<PCS>::empty(),
    {
        ChangeSet { triples: Vec::new() }
    }

    /// Adds a new PCS to the set, unless it has one relating the same nodes
    pub fn add(&mut self, pcs: PCS)
        ensures
            final(self)@ == with_triple(old(self)@, pcs),
    {
        let mut i: usize = 0;
        while i < self.triples.len()
            invariant
                0 <= i <= self.triples@.len(),
                self.triples@ == old(self).triples@,
                forall|j: int| 0 <= j < i ==> !same_triple(#[trigger] self.triples@[j], pcs),
            decreases self.triples@.len() - i,
        {
            if self.triples[i].same_as(&pcs) {
                return;
            }
            i = i + 1;
        }
        self.triples.push(pcs);
    }

    /// Adds the triples that encode `node` and its subtree, below `parent` and after
    /// `predecessor`, and returns the PCS node standing for `node`
    fn add_node_recursively(
        &mut self,
        node: &AstNode,
        parent: PCSNode,
        predecessor: PCSNode,
        revision: Revision,
        classmapping: &ClassMapping,
    ) -> (res: PCSNode)
        ensures
            res == pcs_node_of(classmapping@, revision, *node),
            final(self)@ == with_triples(old(self)@, node_triples(*node, parent, predecessor, revision, classmapping@)),
        decreases node,
    {
        let ghost v = classmapping@;
        let ghost start = self@;
        let rev_node = RevNode::new(revision, node.id);
        let leader = classmapping.map_to_leader(rev_node);
        let mut revision_set = classmapping.revision_set(&leader);
        revision_set.add(revision);
        proof {
            let expected = class_revisions(v, leader, revision);
            let has = |r: Revision| r == leader.0.rev || v.1.contains_key((leader, r)) || r == revision;
            lemma_ne_set_of(has(Revision::Base), has(Revision::Left), has(Revision::Right));
            assert forall|r: Revision| revision_set.set_view().has(r) == expected.set_view().has(r) by {
                match r {
                    Revision::Base => {},
                    Revision::Left => {},
                    Revision::Right => {},
                }
            }
            lemma_ne_extensional(revision_set, expected);
        }
        let wrapped = PCSNode::Node { revisions: revision_set, node: leader };
        let own = PCS { parent, predecessor, successor: wrapped, revision };
        self.add(own);
        proof {
            lemma_with_single(start, own);
            assert(seq![own] + children_triples(node.children@, wrapped, revision, v, 0) =~= seq![own]);
        }
        if !classmapping.is_isomorphic_in_all_revisions(&leader) {
            let mut current = PCSNode::LeftMarker;
            let mut i: usize = 0;
            while i < node.children.len()
                invariant
                    0 <= i <= node.children@.len(),
                    v == classmapping@,
                    wrapped == pcs_node_of(v, revision, *node),
                    self@ == with_triples(start, seq![own] + children_triples(node.children@, wrapped, revision, v, i as int)),
                    current == predecessor_of(v, revision, node.children@, i as int),
                decreases node.children@.len() - i,
            {
                let ghost before = self@;
                current = self.add_node_recursively(&node.children[i], wrapped, current, revision, classmapping);
                proof {
                    let done = seq![own] + children_triples(node.children@, wrapped, revision, v, i as int);
                    let next = node_triples(node.children@[i as int], wrapped, predecessor_of(v, revision, node.children@, i as int), revision, v);
                    lemma_with_triples_append(start, done, next);
                    assert(done + next =~= seq![own] + children_triples(node.children@, wrapped, revision, v, i + 1));
                }
                i = i + 1;
            }
            let last = PCS { parent: wrapped, predecessor: current, successor: PCSNode::RightMarker, revision };
            self.add(last);
            proof {
                let done = seq![own] + children_triples(node.children@, wrapped, revision, v, node.children@.len() as int);
                lemma_with_triples_append(start, done, seq![last]);
                lemma_with_single(with_triples(start, done), last);
                assert(done + seq![last] =~= node_triples(*node, parent, predecessor, revision, v));
            }
        }
        wrapped
    }

    /// Adds PCS triples that encode a tree
    pub fn add_tree(&mut self, tree: &AstNode, revision: Revision, classmapping: &ClassMapping)
        ensures
            final(self)@ == with_triples(old(self)@, tree_triples(*tree, revision, classmapping@)),
    {
        let ghost start = self@;
        let root = self.add_node_recursively(tree, PCSNode::VirtualRoot, PCSNode::LeftMarker, revision, classmapping);
        let last = PCS { parent: PCSNode::VirtualRoot, predecessor: root, successor: PCSNode::RightMarker, revision };
        self.add(last);
        proof {
            let first = node_triples(*tree, PCSNode::VirtualRoot, PCSNode::LeftMarker, revision, classmapping@);
            lemma_with_triples_append(start, first, seq![last]);
            lemma_with_single(with_triples(start, first), last);
        }
    }
}

/// The triples of `set` that have `n` as predecessor, then those that have it as successor,
/// keeping only those whose parent is not `parent` (none if `n` is not a node)
pub open spec fn neighbours_elsewhere(set: Seq<PCS>, n: PCSNode, parent: PCSNode) -> Seq<PCS> {
    if n is Node {
        set.filter(|t: PCS| t.predecessor == n && t.parent != parent) + set.filter(|t: PCS| t.successor == n && t.parent != parent)
    } else {
        Seq::empty()
    }
}

/// The triples that have the predecessor or the successor of `pcs` as predecessor or
/// successor, under another parent
pub open spec fn other_roots_of(set: Seq<PCS>, pcs: PCS) -> Seq<PCS> {
    neighbours_elsewhere(set, pcs.predecessor, pcs.parent) + neighbours_elsewhere(set, pcs.successor, pcs.parent)
}

impl ChangeSet {
    fn neighbours_elsewhere(&self, n: PCSNode, parent: PCSNode) -> (res: Vec<PCS>)
        ensures
            res@ == neighbours_elsewhere(self@, n, parent),
    {
        match n {
            PCSNode::Node { .. } => {
                let mut res = select(
                    &self.triples,
                    &(|t: &PCS| -> (b: bool)
                        ensures
                            b == (t.predecessor == n && t.parent != parent),
                        { t.predecessor == n && t.parent != parent }),
                    Ghost(|t: PCS| t.predecessor == n && t.parent != parent),
                );
                let mut after = select(
                    &self.triples,
                    &(|t: &PCS| -> (b: bool)
                        ensures
                            b == (t.successor == n && t.parent != parent),
                        { t.successor == n && t.parent != parent }),
                    Ghost(|t: PCS| t.successor == n && t.parent != parent),
                );
                res.append(&mut after);
                res
            },
            _ => Vec::new(),
        }
    }

    /// Finds all the PCS which contain either the successor or predecessor of this PCS as successor or predecessor,
    /// and whose parent is different.
    pub fn other_roots(&self, pcs: PCS) -> (res: Vec<PCS>)
        ensures
            res@ == other_roots_of(self@, pcs),
    {
        let mut res = self.neighbours_elsewhere(pcs.predecessor, pcs.parent);
        let mut after = self.neighbours_elsewhere(pcs.successor, pcs.parent);
        res.append(&mut after);
        res
    }

    /// Finds all the PCS that are successor-conflicting with this PCS
    pub fn other_successors(&self, pcs: PCS) -> (res: Vec<PCS>)
        ensures
            res@ == self@.filter(|t: PCS| t.parent == pcs.parent && t.successor != pcs.successor && t.predecessor == pcs.predecessor),
    {
        select(
            &self.triples,
            &(|t: &PCS| -> (b: bool)
                ensures
                    b == (t.parent == pcs.parent && t.successor != pcs.successor && t.predecessor == pcs.predecessor),
                { t.parent == pcs.parent && t.successor != pcs.successor && t.predecessor == pcs.predecessor }),
            Ghost(|t: PCS| t.parent == pcs.parent && t.successor != pcs.successor && t.predecessor == pcs.predecessor),
        )
    }

    /// Finds all the inconsistent triples: those under the same parent that agree with this
    /// one on the predecessor but not on the successor or conversely, then its other roots
    pub fn inconsistent_triples(&self, pcs: PCS) -> (res: Vec<PCS>)
        ensures
            res@ == self@.filter(|t: PCS| t.parent == pcs.parent && ((t.predecessor == pcs.predecessor) != (t.successor == pcs.successor)))
                + other_roots_of(self@, pcs),
    {
        let mut res = select(
            &self.triples,
            &(|t: &PCS| -> (b: bool)
                ensures
                    b == (t.parent == pcs.parent && ((t.predecessor == pcs.predecessor) != (t.successor == pcs.successor))),
                { t.parent == pcs.parent && ((t.predecessor == pcs.predecessor) != (t.successor == pcs.successor)) }),
            Ghost(|t: PCS| t.parent == pcs.parent && ((t.predecessor == pcs.predecessor) != (t.successor == pcs.successor))),
        );
        let mut roots = self.other_roots(pcs);
        res.append(&mut roots);
        res
    }

    /// The PCS triples contained in this `ChangeSet`
    pub fn iter(&self) -> (res: Vec<PCS>)
        ensures
            res@ == self@,
    {
        let mut res: Vec<PCS> = Vec::new();
        let mut i: usize = 0;
        while i < self.triples.len()
            invariant
                0 <= i <= self.triples@.len(),
                res@ == self.triples@.take(i as int),
            decreases self.triples@.len() - i,
        {
            res.push(self.triples[i]);
            i = i + 1;
            assert(res@ =~= self.triples@.take(i as int));
        }
        assert(self.triples@.take(self.triples@.len() as int) =~= self.triples@);
        res
    }

    /// Number of PCS triples
    pub fn len(&self) -> (res: usize)
        ensures
            res == self@.len(),
    {
        self.triples.len()
    }
}

/// No two triples of a change set relate the same nodes.
pub proof fn law_triples_are_distinct(set: Seq<PCS>, ts: Seq<PCS>)
    requires
        forall|i: int, j: int| 0 <= i < j < set.len() ==> !same_triple(#[trigger] set[i], #[trigger] set[j]),
    ensures
        ({
            let r = with_triples(set, ts);
            forall|i: int, j: int| 0 <= i < j < r.len() ==> !same_triple(#[trigger] r[i], #[trigger] r[j])
        }),
    decreases ts.len(),
{
    if ts.len() > 0 {
        law_triples_are_distinct(set, ts.drop_last());
        let r0 = with_triples(set, ts.drop_last());
        let r = with_triples(set, ts);
        let t = ts.last();
        if !(exists|i: int| 0 <= i < r0.len() && same_triple(#[trigger] r0[i], t)) {
            assert forall|i: int, j: int| 0 <= i < j < r.len() implies !same_triple(#[trigger] r[i], #[trigger] r[j]) by {
                if j == r0.len() {
                    assert(r[j] == t);
                    assert(r[i] == r0[i]);
                } else {
                    assert(r[i] == r0[i] && r[j] == r0[j]);
                }
            }
        }
    }
}

} // verus!
