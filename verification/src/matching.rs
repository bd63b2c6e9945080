use vstd::prelude::*;

use std::collections::{HashMap, HashSet};
use vstd::std_specs::iter::IteratorSpec;
use crate::ast::{derefs, dfs_of, AstNode};
use crate::merged_tree::{find_node, node_with_id};
use crate::text::str_eq;

verus! {

broadcast use vstd::std_specs::hash::group_hash_axioms;

/// Are two maps inverse of each other (so that both are one-to-one)?
pub open spec fn inverse_maps(l2r: Map<usize, usize>, r2l: Map<usize, usize>) -> bool {
    &&& forall|l: usize| #[trigger] l2r.contains_key(l) ==> r2l.contains_key(l2r[l]) && r2l[l2r[l]] == l
    &&& forall|r: usize| #[trigger] r2l.contains_key(r) ==> l2r.contains_key(r2l[r]) && l2r[r2l[r]] == r
}

/// The pairs of a matching other than those involving `from` on the left or `to` on the right
pub open spec fn without_pairs(m: Map<usize, usize>, from: usize, to: usize) -> Map<usize, usize> {
    Map::new(|l: usize| m.contains_key(l) && l != from && m[l] != to, |l: usize| m[l])
}

/// Is `r` the image of some left node in `m`?
pub open spec fn matched_on_right(m: Map<usize, usize>, r: usize) -> bool {
    exists|l: usize| m.contains_key(l) && m[l] == r
}

/// The pairs of a matching read from right to left
pub open spec fn reversed(m: Map<usize, usize>) -> Map<usize, usize> {
    Map::new(|r: usize| matched_on_right(m, r), |r: usize| choose|l: usize| m.contains_key(l) && m[l] == r)
}

/// The pairs of `base` that conflict with none of `top`, together with all pairs of `top`
pub open spec fn overlaid(base: Map<usize, usize>, top: Map<usize, usize>) -> Map<usize, usize> {
    Map::new(
        |l: usize| top.contains_key(l) || (base.contains_key(l) && !matched_on_right(top, base[l])),
        |l: usize| if top.contains_key(l) { top[l] } else { base[l] },
    )
}

/// What a matching needs to know of a node of a syntax tree
pub struct NodeSummary {
    /// The identifier of the node in its tree
    pub id: usize,
    /// The kind of the node in the grammar
    pub grammar_name: String,
    /// Does the node have no children?
    pub is_leaf: bool,
    /// The source text of the node
    pub source: String,
}

/// A one-to-one relation between nodes of two trees, given by their identifiers
#[derive(Debug)]
pub struct Matching {
    left_to_right: HashMap<usize, usize>,
    right_to_left: HashMap<usize, usize>,
}

impl View for Matching {
    type V = Map<usize, usize>;

    /// The matched pairs, from left to right
    closed spec fn view(&self) -> Map<usize, usize> {
        self.left_to_right@
    }
}

impl Matching {
    /// The two directions of the matching are inverse of each other
    pub closed spec fn wf(self) -> bool {
        inverse_maps(self.left_to_right@, self.right_to_left@)
    }

    /// Creates an empty matching.
    pub fn new() -> (res: Self)
        ensures
            res.wf(),
            res@ == Map::<usize, usize>::empty(),
    {
        Matching { left_to_right: HashMap::new(), right_to_left: HashMap::new() }
    }

    /// Gets the node matched with a node of the left tree
    pub fn get_from_left(&self, from: usize) -> (res: Option<usize>)
        ensures
            res == (if self@.contains_key(from) { Some(self@[from]) } else { None }),
    {
        match self.left_to_right.get(&from) {
            Some(r) => Some(*r),
            None => None,
        }
    }

    /// Gets the node matched with a node of the right tree
    pub fn get_from_right(&self, to: usize) -> (res: Option<usize>)
        requires
            self.wf(),
        ensures
            match res {
                Some(l) => self@.contains_key(l) && self@[l] == to,
                None => forall|l: usize| self@.contains_key(l) ==> self@[l] != to,
            },
    {
        match self.right_to_left.get(&to) {
            Some(l) => Some(*l),
            None => None,
        }
    }

    /// Does the matching contain this pair?
    pub fn are_matched(&self, from: usize, to: usize) -> (res: bool)
        ensures
            res == (self@.contains_key(from) && self@[from] == to),
    {
        match self.get_from_left(from) {
            Some(r) => r == to,
            None => false,
        }
    }

    /// Is it possible to add this pair while keeping the matching consistent?
    /// Both nodes must be of the same kind and still unmatched, and two leaves
    /// must have the same source.
    pub fn can_be_matched(&self, from: &NodeSummary, to: &NodeSummary) -> (res: bool)
        requires
            self.wf(),
        ensures
            res == (from.grammar_name@ == to.grammar_name@
                && !self@.contains_key(from.id)
                && !matched_on_right(self@, to.id)
                && (!from.is_leaf || !to.is_leaf || from.source@ == to.source@)),
    {
        str_eq(from.grammar_name.as_str(), to.grammar_name.as_str())
            && self.get_from_left(from.id).is_none()
            && self.get_from_right(to.id).is_none()
            && (!from.is_leaf || !to.is_leaf || str_eq(from.source.as_str(), to.source.as_str()))
    }

    /// Removes matches involving both elements (in both directions)
    pub fn remove(&mut self, from: usize, to: usize)
        requires
            old(self).wf(),
        ensures
            final(self).wf(),
            final(self)@ == without_pairs(old(self)@, from, to),
    {
        let mut l2r: HashMap<usize, usize> = HashMap::new();
        let mut r2l: HashMap<usize, usize> = HashMap::new();
        std::mem::swap(&mut l2r, &mut self.left_to_right);
        std::mem::swap(&mut r2l, &mut self.right_to_left);
        let ghost old_l2r = l2r@;
        let ghost old_r2l = r2l@;
        match l2r.get(&from) {
            Some(other_right) => {
                let other_right = *other_right;
                r2l.remove(&other_right);
                l2r.remove(&from);
            },
            None => {},
        }
        match r2l.get(&to) {
            Some(other_left) => {
                let other_left = *other_left;
                l2r.remove(&other_left);
                r2l.remove(&to);
            },
            None => {},
        }
        proof {
            assert(l2r@ =~= without_pairs(old_l2r, from, to));
            assert(inverse_maps(l2r@, r2l@));
        }
        *self = Matching { left_to_right: l2r, right_to_left: r2l };
    }

    /// Adds a match between two nodes (in both directions), removing the matches
    /// that either node had
    pub fn add(&mut self, from: usize, to: usize)
        requires
            old(self).wf(),
        ensures
            final(self).wf(),
            final(self)@ == without_pairs(old(self)@, from, to).insert(from, to),
    {
        self.remove(from, to);
        let mut l2r: HashMap<usize, usize> = HashMap::new();
        let mut r2l: HashMap<usize, usize> = HashMap::new();
        std::mem::swap(&mut l2r, &mut self.left_to_right);
        std::mem::swap(&mut r2l, &mut self.right_to_left);
        let ghost before_l2r = l2r@;
        let ghost before_r2l = r2l@;
        l2r.insert(from, to);
        r2l.insert(to, from);
        proof {
            assert(!before_l2r.contains_key(from));
            assert(!before_r2l.contains_key(to));
            assert(inverse_maps(l2r@, r2l@));
        }
        *self = Matching { left_to_right: l2r, right_to_left: r2l };
    }

    /// Number of matched nodes
    pub fn len(&self) -> (res: usize)
        ensures
            res == self@.len(),
    {
        self.left_to_right.len()
    }

    /// Reverse the direction of the matching
    pub fn into_reversed(self) -> (res: Self)
        requires
            self.wf(),
        ensures
            res.wf(),
            res@ == reversed(self@),
    {
        proof {
            assert(self.right_to_left@ =~= reversed(self@));
        }
        Matching { left_to_right: self.right_to_left, right_to_left: self.left_to_right }
    }
}


/// The pairs of a sequence of borrowed pairs
pub open spec fn unborrowed(s: Seq<(&usize, &usize)>) -> Seq<(usize, usize)> {
    s.map_values(|p: (&usize, &usize)| (*p.0, *p.1))
}

impl Matching {
    /// The matched pairs, from left to right, each once
    pub fn as_ids(&self) -> (res: Vec<(usize, usize)>)
        ensures
            res@.len() == self@.len(),
            forall|i: int| 0 <= i < res@.len() ==> self@.contains_key(#[trigger] res@[i].0) && self@[res@[i].0] == res@[i].1,
            forall|l: usize| #[trigger] self@.contains_key(l) ==> res@.contains((l, self@[l])),
    {
        let mut res: Vec<(usize, usize)> = Vec::new();
        let ghost pairs = vstd::std_specs::hash::spec_hash_map_iter(&self.left_to_right).remaining();
        for p in it: self.left_to_right.iter()
            invariant
                it.seq() == pairs,
                res@ == unborrowed(it.seq().take(it.index() as int)),
        {
            let (l, r) = p;
            res.push((*l, *r));
            assert(unborrowed(it.seq().take(it.index() + 1)) =~= unborrowed(it.seq().take(it.index() as int)).push((*l, *r)));
        }
        proof {
            let v = pairs;
            assert(v.take(v.len() as int) =~= v);
            assert forall|l: usize| #[trigger] self@.contains_key(l) implies res@.contains((l, self@[l])) by {
                assert(v.contains((&l, &self@[l])));
                let i = choose|i: int| 0 <= i < v.len() && v[i] == (&l, &self@[l]);
                assert(res@[i] == (l, self@[l]));
            }
        }
        res
    }

    /// The matched pairs, read from right to left
    pub fn iter_right_to_left(&self) -> (res: Vec<(usize, usize)>)
        ensures
            res@.len() == self@.len(),
            forall|i: int| 0 <= i < res@.len() ==> self@.contains_key(#[trigger] res@[i].1) && self@[res@[i].1] == res@[i].0,
            forall|l: usize| #[trigger] self@.contains_key(l) ==> res@.contains((self@[l], l)),
    {
        let pairs = self.as_ids();
        let mut res: Vec<(usize, usize)> = Vec::new();
        let mut i: usize = 0;
        while i < pairs.len()
            invariant
                0 <= i <= pairs@.len(),
                pairs@.len() == self@.len(),
                forall|j: int| 0 <= j < pairs@.len() ==> self@.contains_key(#[trigger] pairs@[j].0) && self@[pairs@[j].0] == pairs@[j].1,
                res@.len() == i,
                forall|j: int| 0 <= j < i ==> (#[trigger] res@[j]) == (pairs@[j].1, pairs@[j].0),
            decreases pairs@.len() - i,
        {
            let (l, r) = pairs[i];
            res.push((r, l));
            i = i + 1;
        }
        proof {
            assert forall|l: usize| #[trigger] self@.contains_key(l) implies res@.contains((self@[l], l)) by {
                assert(pairs@.contains((l, self@[l])));
                let j = choose|j: int| 0 <= j < pairs@.len() && pairs@[j] == (l, self@[l]);
                assert(res@[j] == (self@[l], l));
            }
        }
        res
    }
}


/// The composition of two matchings: the left nodes of the first one, matched with the nodes
/// the second one matches their counterparts with
pub open spec fn composed(first: Map<usize, usize>, second: Map<usize, usize>) -> Map<usize, usize> {
    Map::new(|l: usize| first.contains_key(l) && second.contains_key(first[l]), |l: usize| second[first[l]])
}

impl Matching {
    /// A copy of the matching
    pub fn clone_matching(&self) -> (res: Self)
        requires
            self.wf(),
        ensures
            res.wf(),
            res@ == self@,
    {
        Matching { left_to_right: self.left_to_right.clone(), right_to_left: self.right_to_left.clone() }
    }

    /// Compose two matchings together
    pub fn compose(&self, other: &Self) -> (res: Self)
        requires
            self.wf(),
            other.wf(),
        ensures
            res.wf(),
            res@ == composed(self@, other@),
    {
        let pairs = self.as_ids();
        let mut left_to_right: HashMap<usize, usize> = HashMap::new();
        let mut right_to_left: HashMap<usize, usize> = HashMap::new();
        let mut i: usize = 0;
        while i < pairs.len()
            invariant
                0 <= i <= pairs@.len(),
                self.wf(),
                other.wf(),
                forall|j: int| 0 <= j < pairs@.len() ==> self@.contains_key(#[trigger] pairs@[j].0) && self@[pairs@[j].0] == pairs@[j].1,
                inverse_maps(left_to_right@, right_to_left@),
                forall|l: usize| #[trigger] left_to_right@.contains_key(l) ==> self@.contains_key(l)
                    && other@.contains_key(self@[l]) && left_to_right@[l] == other@[self@[l]],
                forall|j: int| 0 <= j < i && other@.contains_key(#[trigger] pairs@[j].1) ==> left_to_right@.contains_key(pairs@[j].0),
            decreases pairs@.len() - i,
        {
            let (l, r) = pairs[i];
            match other.get_from_left(r) {
                Some(t) => {
                    proof {
                        if right_to_left@.contains_key(t) {
                            let l2 = right_to_left@[t];
                            assert(left_to_right@[l2] == t);
                            assert(other.right_to_left@[other@[self@[l2]]] == self@[l2]);
                            assert(self.right_to_left@[self@[l2]] == l2);
                            assert(l2 == l);
                        }
                        if left_to_right@.contains_key(l) {
                            assert(left_to_right@[l] == t);
                        }
                    }
                    left_to_right.insert(l, t);
                    right_to_left.insert(t, l);
                },
                None => {},
            }
            i = i + 1;
        }
        proof {
            assert forall|l: usize| #[trigger] composed(self@, other@).contains_key(l) implies left_to_right@.contains_key(l) by {
                assert(pairs@.contains((l, self@[l])));
                let j = choose|j: int| 0 <= j < pairs@.len() && pairs@[j] == (l, self@[l]);
                assert(other@.contains_key(pairs@[j].1));
            }
            assert(left_to_right@ =~= composed(self@, other@));
        }
        Matching { left_to_right, right_to_left }
    }

    /// Adds an entire other matching: its pairs replace the pairs they conflict with
    pub fn add_matching(&mut self, other: &Self)
        requires
            old(self).wf(),
            other.wf(),
        ensures
            final(self).wf(),
            final(self)@ == overlaid(old(self)@, other@),
    {
        let pairs = other.as_ids();
        let ghost start = self@;
        let mut i: usize = 0;
        while i < pairs.len()
            invariant
                0 <= i <= pairs@.len(),
                self.wf(),
                other.wf(),
                forall|j: int| 0 <= j < pairs@.len() ==> other@.contains_key(#[trigger] pairs@[j].0) && other@[pairs@[j].0] == pairs@[j].1,
                forall|j: int| 0 <= j < i ==> self@.contains_key(#[trigger] pairs@[j].0) && self@[pairs@[j].0] == pairs@[j].1,
                forall|l: usize| #[trigger] self@.contains_key(l) ==> other@.contains_key(l)
                    || (start.contains_key(l) && self@[l] == start[l]),
                forall|l: usize| #[trigger] start.contains_key(l) && !other@.contains_key(l) && !matched_on_right(other@, start[l])
                    ==> self@.contains_key(l) && self@[l] == start[l],
            decreases pairs@.len() - i,
        {
            let (l, r) = pairs[i];
            let ghost before = self@;
            self.add(l, r);
            proof {
                assert forall|k: usize| #[trigger] start.contains_key(k) && !other@.contains_key(k) && !matched_on_right(other@, start[k])
                    implies self@.contains_key(k) && self@[k] == start[k] by {
                    assert(other@.contains_key(l) && other@[l] == r);
                    assert(k != l);
                    assert(before[k] != r);
                }
                assert forall|j: int| 0 <= j < i + 1 implies self@.contains_key(#[trigger] pairs@[j].0) && self@[pairs@[j].0] == pairs@[j].1 by {
                    if j < i {
                        let lj = pairs@[j].0;
                        if lj != l {
                            assert(pairs@[j].1 != r) by {
                                assert(other.right_to_left@[other@[lj]] == lj);
                                assert(other.right_to_left@[other@[l]] == l);
                            }
                            assert(before.contains_key(lj) && before[lj] == pairs@[j].1);
                        }
                    }
                }
            }
            i = i + 1;
        }
        proof {
            assert forall|l: usize| #[trigger] other@.contains_key(l) implies self@.contains_key(l) && self@[l] == other@[l] by {
                assert(pairs@.contains((l, other@[l])));
                let j = choose|j: int| 0 <= j < pairs@.len() && pairs@[j] == (l, other@[l]);
                assert(self@.contains_key(pairs@[j].0));
            }
            assert forall|l: usize| #[trigger] self@.contains_key(l) && !other@.contains_key(l)
                implies !matched_on_right(other@, start[l]) by {
                if matched_on_right(other@, start[l]) {
                    let l2 = choose|l2: usize| other@.contains_key(l2) && other@[l2] == start[l];
                    assert(self@.contains_key(l2) && self@[l2] == start[l]);
                    assert(self.right_to_left@[self@[l2]] == l2);
                    assert(self.right_to_left@[self@[l]] == l);
                }
            }
            assert(self@ =~= overlaid(start, other@));
        }
    }

    /// The nodes of the left tree that are matched
    pub fn left_matched(&self) -> (res: HashSet<usize>)
        ensures
            res@ == self@.dom(),
    {
        let pairs = self.as_ids();
        let mut res: HashSet<usize> = HashSet::new();
        let mut i: usize = 0;
        while i < pairs.len()
            invariant
                0 <= i <= pairs@.len(),
                forall|j: int| 0 <= j < pairs@.len() ==> self@.contains_key(#[trigger] pairs@[j].0) && self@[pairs@[j].0] == pairs@[j].1,
                forall|x: usize| #[trigger] res@.contains(x) ==> self@.contains_key(x),
                forall|j: int| 0 <= j < i ==> res@.contains(#[trigger] pairs@[j].0),
            decreases pairs@.len() - i,
        {
            res.insert(pairs[i].0);
            i = i + 1;
        }
        proof {
            assert forall|l: usize| #[trigger] self@.contains_key(l) implies res@.contains(l) by {
                assert(pairs@.contains((l, self@[l])));
                let j = choose|j: int| 0 <= j < pairs@.len() && pairs@[j] == (l, self@[l]);
                assert(res@.contains(pairs@[j].0));
            }
            assert(res@ =~= self@.dom());
        }
        res
    }

    /// The nodes of the right tree that are matched
    pub fn right_matched(&self) -> (res: HashSet<usize>)
        ensures
            forall|r: usize| #[trigger] res@.contains(r) <==> exists|l: usize| self@.contains_key(l) && self@[l] == r,
    {
        let pairs = self.as_ids();
        let mut res: HashSet<usize> = HashSet::new();
        let mut i: usize = 0;
        while i < pairs.len()
            invariant
                0 <= i <= pairs@.len(),
                forall|j: int| 0 <= j < pairs@.len() ==> self@.contains_key(#[trigger] pairs@[j].0) && self@[pairs@[j].0] == pairs@[j].1,
                forall|x: usize| #[trigger] res@.contains(x) ==> exists|l: usize| self@.contains_key(l) && self@[l] == x,
                forall|j: int| 0 <= j < i ==> res@.contains(#[trigger] pairs@[j].1),
            decreases pairs@.len() - i,
        {
            let (l, r) = pairs[i];
            assert(self@.contains_key(l) && self@[l] == r);
            res.insert(r);
            i = i + 1;
        }
        proof {
            assert forall|r: usize| (exists|l: usize| self@.contains_key(l) && self@[l] == r) implies #[trigger] res@.contains(r) by {
                let l = choose|l: usize| self@.contains_key(l) && self@[l] == r;
                assert(pairs@.contains((l, self@[l])));
                let j = choose|j: int| 0 <= j < pairs@.len() && pairs@[j] == (l, self@[l]);
                assert(res@.contains(pairs@[j].1));
            }
        }
        res
    }
}

/// The identifiers of the nodes of a tree
pub open spec fn tree_ids<'a>(n: AstNode<'a>) -> Set<usize> {
    Set::new(|i: usize| exists|k: int| 0 <= k < dfs_of(n).len() && (#[trigger] dfs_of(n)[k]).id == i)
}

/// The pairs of a matching whose left node is among `left` and right node among `right`
pub open spec fn restricted(m: Map<usize, usize>, left: Set<usize>, right: Set<usize>) -> Map<usize, usize> {
    Map::new(|l: usize| m.contains_key(l) && left.contains(l) && right.contains(m[l]), |l: usize| m[l])
}

/// The identifiers of the nodes of a tree, as a set
fn ids_of_tree(n: &AstNode) -> (res: HashSet<usize>)
    ensures
        res@ == tree_ids(*n),
{
    let nodes = n.dfs();
    let mut res: HashSet<usize> = HashSet::new();
    let mut i: usize = 0;
    while i < nodes.len()
        invariant
            0 <= i <= nodes@.len(),
            derefs(nodes@) == dfs_of(*n),
            forall|x: usize| #[trigger] res@.contains(x) <==> exists|k: int| 0 <= k < i && (#[trigger] dfs_of(*n)[k]).id == x,
        decreases nodes@.len() - i,
    {
        assert(dfs_of(*n)[i as int] == *nodes@[i as int]);
        res.insert(nodes[i].id);
        i = i + 1;
    }
    assert(res@ =~= tree_ids(*n));
    res
}

impl Matching {
    /// The matching between two other trees that number their nodes as the matched ones do:
    /// the pairs whose nodes both have a counterpart in the new trees
    pub fn translate(&self, new_left: &AstNode, new_right: &AstNode) -> (res: Self)
        requires
            self.wf(),
        ensures
            res.wf(),
            res@ == restricted(self@, tree_ids(*new_left), tree_ids(*new_right)),
    {
        let left_ids = ids_of_tree(new_left);
        let right_ids = ids_of_tree(new_right);
        let ghost target = restricted(self@, tree_ids(*new_left), tree_ids(*new_right));
        let pairs = self.as_ids();
        let mut left_to_right: HashMap<usize, usize> = HashMap::new();
        let mut right_to_left: HashMap<usize, usize> = HashMap::new();
        let mut i: usize = 0;
        while i < pairs.len()
            invariant
                0 <= i <= pairs@.len(),
                self.wf(),
                left_ids@ == tree_ids(*new_left),
                right_ids@ == tree_ids(*new_right),
                target == restricted(self@, tree_ids(*new_left), tree_ids(*new_right)),
                forall|j: int| 0 <= j < pairs@.len() ==> self@.contains_key(#[trigger] pairs@[j].0) && self@[pairs@[j].0] == pairs@[j].1,
                inverse_maps(left_to_right@, right_to_left@),
                forall|l: usize| #[trigger] left_to_right@.contains_key(l) ==> target.contains_key(l) && left_to_right@[l] == target[l],
                forall|j: int| 0 <= j < i && #[trigger] target.contains_key(pairs@[j].0) ==> left_to_right@.contains_key(pairs@[j].0),
            decreases pairs@.len() - i,
        {
            let (l, r) = pairs[i];
            if left_ids.contains(&l) && right_ids.contains(&r) {
                proof {
                    if right_to_left@.contains_key(r) {
                        let l2 = right_to_left@[r];
                        assert(left_to_right@[l2] == r);
                        assert(self@[l2] == r);
                        assert(self.right_to_left@[self@[l2]] == l2);
                        assert(self.right_to_left@[self@[l]] == l);
                        assert(l2 == l);
                    }
                }
                left_to_right.insert(l, r);
                right_to_left.insert(r, l);
            }
            i = i + 1;
        }
        proof {
            assert forall|l: usize| #[trigger] target.contains_key(l) implies left_to_right@.contains_key(l) by {
                assert(pairs@.contains((l, self@[l])));
                let j = choose|j: int| 0 <= j < pairs@.len() && pairs@[j] == (l, self@[l]);
                assert(target.contains_key(pairs@[j].0));
            }
            assert(left_to_right@ =~= target);
        }
        Matching { left_to_right, right_to_left }
    }
}

/// After `add(from, to)`, `from` is matched with `to`, and no other node of the left
/// tree is matched with `to`.
pub proof fn law_add_matches_pair(m: Matching, from: usize, to: usize)
    requires
        m.wf(),
    ensures
        ({
            let n = without_pairs(m@, from, to).insert(from, to);
            &&& n.contains_key(from) && n[from] == to
            &&& forall|l: usize| n.contains_key(l) && n[l] == to ==> l == from
        }),
{
}

/// After `remove(from, to)`, neither `from` nor `to` is matched with anything, and the
/// other pairs are kept.
pub proof fn law_remove_unmatches_both(m: Matching, from: usize, to: usize)
    requires
        m.wf(),
    ensures
        ({
            let n = without_pairs(m@, from, to);
            &&& !n.contains_key(from)
            &&& !matched_on_right(n, to)
            &&& forall|l: usize| m@.contains_key(l) && l != from && m@[l] != to ==> n.contains_key(l) && n[l] == m@[l]
        }),
{
}

/// Reversing a matching twice gives it back.
pub proof fn law_reverse_twice(m: Matching)
    requires
        m.wf(),
    ensures
        reversed(reversed(m@)) == m@,
{
    let r = reversed(m@);
    assert forall|x: usize| #[trigger] r.contains_key(x) implies m.right_to_left@.contains_key(x) && r[x] == m.right_to_left@[x] by {
        let l = choose|l: usize| m@.contains_key(l) && m@[l] == x;
        assert(m.right_to_left@[m@[l]] == l);
    }
    assert forall|l: usize| #[trigger] m@.contains_key(l) implies matched_on_right(r, l) && reversed(r)[l] == m@[l] by {
        let x = m@[l];
        assert(m.right_to_left@[x] == l);
        assert(matched_on_right(m@, x));
        assert(r.contains_key(x) && r[x] == l);
        let y = choose|y: usize| r.contains_key(y) && r[y] == l;
        assert(m.left_to_right@[m.right_to_left@[y]] == y);
    }
    assert(reversed(r) =~= m@);
}

/// The pairs of identifiers of the nodes of two sequences at the same positions, as far as the
/// shorter one goes
pub open spec fn zipped_ids<'a>(ls: Seq<AstNode<'a>>, rs: Seq<AstNode<'a>>) -> Seq<(usize, usize)> {
    Seq::new(if ls.len() <= rs.len() { ls.len() } else { rs.len() }, |i: int| (ls[i].id, rs[i].id))
}

/// The matching after adding each pair, in order
pub open spec fn added_all(m: Map<usize, usize>, pairs: Seq<(usize, usize)>) -> Map<usize, usize>
    decreases pairs.len(),
{
    if pairs.len() == 0 {
        m
    } else {
        let p = pairs.last();
        without_pairs(added_all(m, pairs.drop_last()), p.0, p.1).insert(p.0, p.1)
    }
}

/// The pairs of descendants of matched nodes, for matches listed from right to left: the
/// nodes of the two subtrees in depth-first order, at the same positions
pub open spec fn submatch_pairs<'a>(order: Seq<(usize, usize)>, left: AstNode<'a>, right: AstNode<'a>) -> Seq<(usize, usize)>
    decreases order.len(),
{
    if order.len() == 0 {
        Seq::empty()
    } else {
        let (r, l) = order.last();
        submatch_pairs(order.drop_last(), left, right) + match (node_with_id(left, l), node_with_id(right, r)) {
            (Some(ln), Some(rn)) => zipped_ids(dfs_of(ln), dfs_of(rn)),
            _ => Seq::empty(),
        }
    }
}

/// Does the sequence list the pairs of the matching, read from right to left, each once?
pub open spec fn lists_right_to_left(order: Seq<(usize, usize)>, m: Map<usize, usize>) -> bool {
    &&& order.len() == m.len()
    &&& forall|i: int| 0 <= i < order.len() ==> m.contains_key(#[trigger] order[i].1) && m[order[i].1] == order[i].0
    &&& forall|l: usize| #[trigger] m.contains_key(l) ==> order.contains((m[l], l))
}

impl Matching {
    /// Assuming that the matches in this matching are only between isomorphic nodes,
    /// recursively match the descendants of all matched nodes (of the trees `left` and
    /// `right`): the matches are taken in some order, and for each the nodes of both subtrees
    /// are matched at the same positions in depth-first order.
    pub fn add_submatches(&self, left: &AstNode, right: &AstNode) -> (res: Self)
        requires
            self.wf(),
        ensures
            res.wf(),
            exists|order: Seq<(usize, usize)>| #[trigger] lists_right_to_left(order, self@)
                && res@ == added_all(Map::empty(), submatch_pairs(order, *left, *right)),
    {
        let order = self.iter_right_to_left();
        let mut result = Matching::new();
        let ghost mut done: Seq<(usize, usize)> = Seq::empty();
        let mut k: usize = 0;
        proof {
            assert(order@.take(0) =~= Seq::<(usize, usize)>::empty());
        }
        while k < order.len()
            invariant
                0 <= k <= order@.len(),
                result.wf(),
                done == submatch_pairs(order@.take(k as int), *left, *right),
                result@ == added_all(Map::empty(), done),
            decreases order@.len() - k,
        {
            let (r, l) = order[k];
            proof {
                assert(order@.take(k + 1).drop_last() =~= order@.take(k as int));
                assert(order@.take(k + 1).last() == (r, l));
            }
            let ghost before = done;
            match (find_node(left, l), find_node(right, r)) {
                (Some(ln), Some(rn)) => {
                    let ld = ln.dfs();
                    let rd = rn.dfs();
                    let ghost z = zipped_ids(dfs_of(*ln), dfs_of(*rn));
                    let n = if ld.len() <= rd.len() { ld.len() } else { rd.len() };
                    let mut i: usize = 0;
                    proof {
                        assert(before + z.take(0) =~= before);
                    }
                    while i < n
                        invariant
                            0 <= i <= n,
                            n == z.len(),
                            n <= ld@.len() && n <= rd@.len(),
                            derefs(ld@) == dfs_of(*ln),
                            derefs(rd@) == dfs_of(*rn),
                            z == zipped_ids(dfs_of(*ln), dfs_of(*rn)),
                            result.wf(),
                            done == before + z.take(i as int),
                            result@ == added_all(Map::empty(), done),
                        decreases n - i,
                    {
                        let a = ld[i].id;
                        let b = rd[i].id;
                        proof {
                            assert(derefs(ld@)[i as int] == *ld@[i as int]);
                            assert(derefs(rd@)[i as int] == *rd@[i as int]);
                            assert(z[i as int] == (a, b));
                        }
                        result.add(a, b);
                        proof {
                            let next = done.push((a, b));
                            assert(next.drop_last() =~= done);
                            done = next;
                            assert(done =~= before + z.take(i + 1));
                        }
                        i = i + 1;
                    }
                    proof {
                        assert(z.take(n as int) =~= z);
                    }
                },
                _ => {
                    proof {
                        assert(before + Seq::<(usize, usize)>::empty() =~= before);
                    }
                },
            }
            k = k + 1;
        }
        proof {
            assert(order@.take(order@.len() as int) =~= order@);
            assert(lists_right_to_left(order@, self@));
        }
        result
    }
}

} // verus!
