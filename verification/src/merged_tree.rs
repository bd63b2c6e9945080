//! Merged trees: a mixture of parts of the original trees, conflicts and line-based merges
use vstd::prelude::*;

pub mod print;

use crate::ast::{dfs_of, derefs, same_shape, AstNode};
use crate::class_mapping::{leader_or_self, ClassMapping, ClassMappingView, Leader, RevNode, RevisionNESet};
use crate::pcs::Revision;
use crate::text::{is_blank, str_eq, str_is_blank, trim, trimmed};

verus! {

/// The sides of a conflict which needs to be resolved manually by the user
pub struct Conflict<'b, 'a> {
    /// The list of nodes in the base revision
    pub base: Vec<&'b AstNode<'a>>,
    /// The list of nodes in the left revision
    pub left: Vec<&'b AstNode<'a>>,
    /// The list of nodes in the right revision
    pub right: Vec<&'b AstNode<'a>>,
}

/// A merged tree, which can contain a mixture of elements from the original trees,
/// conflict markers, or even new elements inserted by commutative merging to separate them.
pub enum MergedTree<'b, 'a> {
    /// A tree that exactly matches a part of an original file (possibly present in more than one revision).
    ExactTree {
        /// The subtree from the original revision, represented as a [Leader] of its cluster
        node: Leader,
        /// The set of revisions from which the source of the tree may be used to generate the merged output.
        revisions: RevisionNESet,
        /// A precomputed hash value to help with isomorphism detection.
        hash: u64,
    },
    /// A tree that contains a mixture of elements from various revisions.
    MixedTree {
        /// The root node of this tree, which corresponds to a node present in some of the original files
        node: Leader,
        /// The children of this root, which can be any sorts of merged trees themselves
        children: Vec<MergedTree<'b, 'a>>,
        /// A precomputed hash value to help with isomorphism detection.
        hash: u64,
    },
    /// A conflict which needs to be resolved manually by the user
    Conflict(Conflict<'b, 'a>),
    /// A part of the merged result which was obtained by running line-based merging on a part of the file.
    LineBasedMerge {
        /// The syntactic node which corresponds to this part of the file
        node: Leader,
        /// The merged contents, with conflicts where the line-based merge found some
        contents: String,
        /// The total size of the conflicts in the contents
        conflict_mass: usize,
    },
    /// A synthetic part of the merged output, not taken from any revision, added
    /// to separate merged children of a commutative parent.
    CommutativeChildSeparator { separator: &'b str },
}

/// The trees of the three revisions, in which the nodes named by a class mapping live
pub struct RevisionTrees<'b, 'a> {
    pub base: &'b AstNode<'a>,
    pub left: &'b AstNode<'a>,
    pub right: &'b AstNode<'a>,
}

impl<'b, 'a> RevisionTrees<'b, 'a> {
    /// The tree of a revision
    pub open spec fn at(self, rev: Revision) -> AstNode<'a> {
        match rev {
            Revision::Base => *self.base,
            Revision::Left => *self.left,
            Revision::Right => *self.right,
        }
    }

    pub(crate) fn tree(&self, rev: Revision) -> (res: &'b AstNode<'a>)
        ensures
            *res == self.at(rev),
    {
        match rev {
            Revision::Base => self.base,
            Revision::Left => self.left,
            Revision::Right => self.right,
        }
    }
}

/// The first node of the sequence with the given identifier
pub open spec fn first_with_id<'a>(s: Seq<AstNode<'a>>, id: usize) -> Option<AstNode<'a>>
    decreases s.len(),
{
    if s.len() == 0 {
        None
    } else if s[0].id == id {
        Some(s[0])
    } else {
        first_with_id(s.drop_first(), id)
    }
}

/// The node with the given identifier in a tree (the first one, in depth-first order)
pub open spec fn node_with_id<'a>(root: AstNode<'a>, id: usize) -> Option<AstNode<'a>> {
    first_with_id(dfs_of(root), id)
}

/// The identifier of the node of a class at a revision, as the class mapping gives it
pub open spec fn node_at_rev_spec(v: ClassMappingView, leader: Leader, rev: Revision) -> Option<usize> {
    if leader.0.rev == rev {
        Some(leader.0.node)
    } else if v.1.contains_key((leader, rev)) {
        Some(v.1[(leader, rev)].node)
    } else {
        None
    }
}

/// The node of a class at a revision
pub open spec fn node_of<'b, 'a>(v: ClassMappingView, trees: RevisionTrees<'b, 'a>, leader: Leader, rev: Revision) -> Option<AstNode<'a>> {
    match node_at_rev_spec(v, leader, rev) {
        Some(id) => node_with_id(trees.at(rev), id),
        None => None,
    }
}

/// The node that a leader stands for, in its own revision
pub open spec fn leader_node<'b, 'a>(trees: RevisionTrees<'b, 'a>, leader: Leader) -> Option<AstNode<'a>> {
    node_with_id(trees.at(leader.0.rev), leader.0.node)
}

/// The node from which an exact tree is printed: its class at the revision that `any` picks
pub open spec fn exact_node<'b, 'a>(v: ClassMappingView, trees: RevisionTrees<'b, 'a>, leader: Leader, revisions: RevisionNESet) -> Option<AstNode<'a>> {
    match revisions.set_view().any_spec() {
        Some(rev) => node_of(v, trees, leader, rev),
        None => None,
    }
}

/// Are two original nodes isomorphic: the same hash and the same shape?
pub open spec fn iso_nodes<'a>(a: AstNode<'a>, b: AstNode<'a>) -> bool {
    a.hash == b.hash && same_shape(a, b)
}

/// The nodes of the sequence whose source is not empty, in order
pub open spec fn with_source<'a>(s: Seq<AstNode<'a>>) -> Seq<AstNode<'a>>
    decreases s.len(),
{
    if s.len() == 0 {
        s
    } else {
        let p = with_source(s.drop_last());
        if s.last().source@.len() > 0 {
            p.push(s.last())
        } else {
            p
        }
    }
}

/// The nodes of the side of a conflict that belongs to a revision
pub open spec fn conflict_side<'b, 'a>(c: Conflict<'b, 'a>, rev: Revision) -> Seq<AstNode<'a>> {
    match rev {
        Revision::Base => derefs(c.base@),
        Revision::Left => derefs(c.left@),
        Revision::Right => derefs(c.right@),
    }
}

/// Is every class of an exact tree, and every root of a mixed tree, found in the trees?
pub open spec fn consistent<'b, 'a>(t: MergedTree<'b, 'a>, v: ClassMappingView, trees: RevisionTrees<'b, 'a>) -> bool
    decreases t, 1nat,
{
    match t {
        MergedTree::ExactTree { node, revisions, .. } => {
            &&& leader_node(trees, node) is Some
            &&& exact_node(v, trees, node, revisions) is Some
        },
        MergedTree::MixedTree { node, children, .. } => {
            &&& leader_node(trees, node) is Some
            &&& all_consistent(children@, 0, v, trees)
        },
        MergedTree::LineBasedMerge { node, .. } => leader_node(trees, node) is Some,
        _ => true,
    }
}

/// Are the trees of `s` from index `k` on consistent?
pub open spec fn all_consistent<'b, 'a>(s: Seq<MergedTree<'b, 'a>>, k: int, v: ClassMappingView, trees: RevisionTrees<'b, 'a>) -> bool
    decreases s, s.len() - k,
{
    if k < 0 || k >= s.len() {
        true
    } else {
        consistent(s[k], v, trees) && all_consistent(s, k + 1, v, trees)
    }
}

/// Each tree of `s` from index `k` on is consistent
pub proof fn lemma_all_consistent<'b, 'a>(s: Seq<MergedTree<'b, 'a>>, k: int, i: int, v: ClassMappingView, trees: RevisionTrees<'b, 'a>)
    requires
        0 <= k <= i < s.len(),
        all_consistent(s, k, v, trees),
    ensures
        consistent(s[i], v, trees),
    decreases i - k,
{
    if k < i {
        lemma_all_consistent(s, k + 1, i, v, trees);
    }
}

/// Does this child of a mixed tree stand for a node of a parsed tree (one with some source)?
pub open spec fn kept_child<'b, 'a>(t: MergedTree<'b, 'a>, v: ClassMappingView, trees: RevisionTrees<'b, 'a>) -> bool {
    match t {
        MergedTree::CommutativeChildSeparator { separator } => !is_blank(separator@),
        MergedTree::MixedTree { children, .. } => children@.len() > 0,
        MergedTree::ExactTree { node, revisions, .. } => match exact_node(v, trees, node, revisions) {
            Some(n) => n.source@.len() > 0,
            None => false,
        },
        _ => true,
    }
}

/// Is the merged tree, seen at a revision, isomorphic to a parsed tree?
pub open spec fn iso_to_source<'b, 'a>(t: MergedTree<'b, 'a>, other: AstNode<'a>, rev: Revision, v: ClassMappingView, trees: RevisionTrees<'b, 'a>) -> bool
    decreases t, 1nat,
{
    match t {
        MergedTree::ExactTree { node, revisions, .. } => match exact_node(v, trees, node, revisions) {
            Some(n) => iso_nodes(n, other),
            None => false,
        },
        MergedTree::MixedTree { node, children, .. } => match leader_node(trees, node) {
            Some(n) => {
                if n.grammar_name@ != other.grammar_name@ || n.lang_profile.name@ != other.lang_profile.name@ {
                    false
                } else if exists|i: int| 0 <= i < children@.len() && (#[trigger] children@[i]) is LineBasedMerge {
                    true
                } else {
                    children_match(children@, 0, with_source(other.children@), 0, rev, v, trees)
                }
            },
            None => false,
        },
        MergedTree::LineBasedMerge { .. } => true,
        MergedTree::Conflict(_) => false,
        MergedTree::CommutativeChildSeparator { separator } => trimmed(separator@) == trimmed(other.source@),
    }
}

/// Do the nodes `s` match, one by one, the parsed nodes `fo` from index `j` on?
pub open spec fn originals_match<'a>(s: Seq<AstNode<'a>>, fo: Seq<AstNode<'a>>, j: int) -> bool {
    &&& 0 <= j
    &&& j + s.len() <= fo.len()
    &&& forall|i: int| 0 <= i < s.len() ==> iso_nodes(#[trigger] s[i], fo[j + i])
}

/// Do the children `s` from index `k` on, with each conflict replaced by its side at the revision
/// and without those that a parse would not give, match the parsed nodes `fo` from index `j` on,
/// one by one and to the last?
pub open spec fn children_match<'b, 'a>(
    s: Seq<MergedTree<'b, 'a>>,
    k: int,
    fo: Seq<AstNode<'a>>,
    j: int,
    rev: Revision,
    v: ClassMappingView,
    trees: RevisionTrees<'b, 'a>,
) -> bool
    decreases s, s.len() - k,
{
    if k < 0 || k >= s.len() {
        j == fo.len()
    } else {
        match s[k] {
            MergedTree::Conflict(c) => {
                let side = with_source(conflict_side(c, rev));
                originals_match(side, fo, j) && children_match(s, k + 1, fo, j + side.len(), rev, v, trees)
            },
            _ => {
                if kept_child(s[k], v, trees) {
                    &&& 0 <= j < fo.len()
                    &&& iso_to_source(s[k], fo[j], rev, v, trees)
                    &&& children_match(s, k + 1, fo, j + 1, rev, v, trees)
                } else {
                    children_match(s, k + 1, fo, j, rev, v, trees)
                }
            },
        }
    }
}

proof fn lemma_first_with_id_skip<'a>(s: Seq<AstNode<'a>>, i: int, id: usize)
    requires
        0 <= i < s.len(),
        s[i].id != id,
    ensures
        first_with_id(s.skip(i), id) == first_with_id(s.skip(i + 1), id),
{
    assert(s.skip(i).drop_first() =~= s.skip(i + 1));
}

/// The node with the given identifier in a tree
pub(crate) fn find_node<'b, 'a>(root: &'b AstNode<'a>, id: usize) -> (res: Option<&'b AstNode<'a>>)
    ensures
        match res {
            Some(r) => node_with_id(*root, id) == Some(*r),
            None => node_with_id(*root, id) is None,
        },
{
    let all = root.dfs();
    let ghost s = dfs_of(*root);
    let mut i: usize = 0;
    proof {
        assert(s.skip(0) =~= s);
    }
    while i < all.len()
        invariant
            0 <= i <= all@.len(),
            derefs(all@) == s,
            s == dfs_of(*root),
            first_with_id(s.skip(i as int), id) == node_with_id(*root, id),
        decreases all@.len() - i,
    {
        assert(s[i as int] == *all@[i as int]);
        if all[i].id == id {
            proof {
                assert(s.skip(i as int)[0] == s[i as int]);
            }
            return Some(all[i]);
        }
        proof {
            lemma_first_with_id_skip(s, i as int, id);
        }
        i = i + 1;
    }
    proof {
        assert(s.skip(i as int).len() == 0);
    }
    None
}

/// The nodes with some source among `s`, in order
fn nodes_with_source<'b, 'a>(s: &Vec<&'b AstNode<'a>>) -> (res: Vec<&'b AstNode<'a>>)
    ensures
        derefs(res@) == with_source(derefs(s@)),
{
    let mut res: Vec<&'b AstNode<'a>> = Vec::new();
    let mut i: usize = 0;
    while i < s.len()
        invariant
            0 <= i <= s@.len(),
            derefs(res@) == with_source(derefs(s@).take(i as int)),
        decreases s@.len() - i,
    {
        proof {
            assert(derefs(s@).take(i as int + 1).drop_last() =~= derefs(s@).take(i as int));
        }
        if !s[i].source.as_str().is_empty() {
            let ghost prev = res@;
            res.push(s[i]);
            proof {
                assert(derefs(res@) =~= derefs(prev).push(*s@[i as int]));
            }
        }
        i = i + 1;
    }
    proof {
        assert(derefs(s@).take(s@.len() as int) =~= derefs(s@));
    }
    res
}

/// The node of a class at a revision
pub(crate) fn class_node<'b, 'a>(class_mapping: &ClassMapping, trees: &RevisionTrees<'b, 'a>, leader: &Leader, rev: Revision) -> (res: Option<&'b AstNode<'a>>)
    ensures
        match res {
            Some(r) => node_of(class_mapping@, *trees, *leader, rev) == Some(*r),
            None => node_of(class_mapping@, *trees, *leader, rev) is None,
        },
{
    match class_mapping.node_at_rev(leader, rev) {
        Some(id) => find_node(trees.tree(rev), id),
        None => None,
    }
}

/// Is there a line-based merge among the trees?
fn has_line_based_merge<'b, 'a>(children: &Vec<MergedTree<'b, 'a>>) -> (res: bool)
    ensures
        res == exists|i: int| 0 <= i < children@.len() && (#[trigger] children@[i]) is LineBasedMerge,
{
    let mut i: usize = 0;
    while i < children.len()
        invariant
            0 <= i <= children@.len(),
            forall|j: int| 0 <= j < i ==> !(#[trigger] children@[j] is LineBasedMerge),
        decreases children@.len() - i,
    {
        if let MergedTree::LineBasedMerge { .. } = &children[i] {
            return true;
        }
        i = i + 1;
    }
    false
}

impl<'b, 'a> MergedTree<'b, 'a> {
    /// Does the child of a mixed tree stand for a node of a parsed tree?
    fn is_kept(&self, class_mapping: &ClassMapping, trees: &RevisionTrees<'b, 'a>) -> (res: bool)
        requires
            !(*self is Conflict),
            consistent(*self, class_mapping@, *trees),
        ensures
            res == kept_child(*self, class_mapping@, *trees),
    {
        match self {
            MergedTree::CommutativeChildSeparator { separator } => !str_is_blank(separator),
            MergedTree::MixedTree { children, .. } => children.len() > 0,
            MergedTree::ExactTree { node, revisions, .. } => {
                match class_node(class_mapping, trees, node, revisions.any()) {
                    Some(n) => !n.source.as_str().is_empty(),
                    None => false,
                }
            },
            _ => true,
        }
    }

    /// Checks if the merged tree is isomorphic to a parsed source,
    /// when considered at a particular revision.
    /// This is used as a safety check to make sure that the rendered
    /// version of this merge (which is then re-parsed) is faithful to
    /// the intended merge structure, as a means of detecting invalid
    /// whitespace generation or merges that are syntactically invalid.
    pub fn isomorphic_to_source(
        &self,
        other_node: &AstNode<'a>,
        revision: Revision,
        class_mapping: &ClassMapping,
        trees: &RevisionTrees<'b, 'a>,
    ) -> (res: bool)
        requires
            consistent(*self, class_mapping@, *trees),
        ensures
            res == iso_to_source(*self, *other_node, revision, class_mapping@, *trees),
        decreases self, 1nat,
    {
        match self {
            MergedTree::ExactTree { node, revisions, .. } => {
                match class_node(class_mapping, trees, node, revisions.any()) {
                    Some(n) => n.isomorphic_to(other_node),
                    None => false,
                }
            },
            MergedTree::MixedTree { node, children, .. } => {
                let n = match find_node(trees.tree(node.0.rev), node.0.node) {
                    Some(n) => n,
                    None => {
                        return false;
                    },
                };
                if !str_eq(n.grammar_name.as_str(), other_node.grammar_name.as_str())
                    || !str_eq(n.lang_profile.name, other_node.lang_profile.name) {
                    return false;
                }
                // If one of the children is a line-based merge, the nodes are taken to be
                // isomorphic: the line-based merge might contain any number of actual children,
                // so the other children cannot be matched together.
                if has_line_based_merge(children) {
                    return true;
                }
                let others = nodes_with_source(&child_refs(&other_node.children));
                Self::children_match_source(children, &others, revision, class_mapping, trees)
            },
            MergedTree::LineBasedMerge { .. } => true,
            MergedTree::Conflict(_) => false,
            MergedTree::CommutativeChildSeparator { separator } => {
                let a = trim(separator);
                let b = trim(other_node.source.as_str());
                str_eq(a.as_str(), b.as_str())
            },
        }
    }

    /// Matches the children of a mixed tree, at a revision, with the children of a parsed node
    fn children_match_source(
        children: &Vec<MergedTree<'b, 'a>>,
        others: &Vec<&AstNode<'a>>,
        revision: Revision,
        class_mapping: &ClassMapping,
        trees: &RevisionTrees<'b, 'a>,
    ) -> (res: bool)
        requires
            all_consistent(children@, 0, class_mapping@, *trees),
        ensures
            res == children_match(children@, 0, derefs(others@), 0, revision, class_mapping@, *trees),
        decreases children@, children@.len() + 1,
    {
        let ghost fo = derefs(others@);
        let mut k: usize = 0;
        let mut j: usize = 0;
        while k < children.len()
            invariant
                0 <= k <= children@.len(),
                0 <= j <= fo.len(),
                fo == derefs(others@),
                all_consistent(children@, k as int, class_mapping@, *trees),
                children_match(children@, 0, fo, 0, revision, class_mapping@, *trees)
                    == children_match(children@, k as int, fo, j as int, revision, class_mapping@, *trees),
            decreases children@.len() - k,
        {
            let child = &children[k];
            match child {
                MergedTree::Conflict(c) => {
                    let side = match revision {
                        Revision::Base => &c.base,
                        Revision::Left => &c.left,
                        Revision::Right => &c.right,
                    };
                    let kept = nodes_with_source(side);
                    let olen = others.len();
                    if kept.len() > olen - j {
                        return false;
                    }
                    let mut i: usize = 0;
                    while i < kept.len()
                        invariant
                            0 <= i <= kept@.len(),
                            0 <= j <= others@.len(),
                            olen == others@.len(),
                            j + kept@.len() <= others@.len(),
                            fo == derefs(others@),
                            k < children@.len(),
                            children@[k as int] == MergedTree::Conflict(*c),
                            derefs(kept@) == with_source(conflict_side(*c, revision)),
                            children_match(children@, 0, fo, 0, revision, class_mapping@, *trees)
                                == children_match(children@, k as int, fo, j as int, revision, class_mapping@, *trees),
                            forall|l: int| 0 <= l < i ==> iso_nodes(#[trigger] derefs(kept@)[l], fo[j + l]),
                        decreases kept@.len() - i,
                    {
                        assert(j + i < others@.len());
                        let idx: usize = j + i;
                        if !kept[i].isomorphic_to(others[idx]) {
                            proof {
                                assert(!iso_nodes(derefs(kept@)[i as int], fo[j + i]));
                            }
                            return false;
                        }
                        i = i + 1;
                    }
                    j = j + kept.len();
                },
                _ => {
                    if child.is_kept(class_mapping, trees) {
                        if j >= others.len() {
                            return false;
                        }
                        if !child.isomorphic_to_source(others[j], revision, class_mapping, trees) {
                            return false;
                        }
                        j = j + 1;
                    }
                },
            }
            k = k + 1;
        }
        j == others.len()
    }
}

/// References to each node of the vector, in order
fn child_refs<'b, 'a>(v: &'b Vec<AstNode<'a>>) -> (res: Vec<&'b AstNode<'a>>)
    ensures
        derefs(res@) == v@,
{
    let mut res: Vec<&'b AstNode<'a>> = Vec::new();
    let mut i: usize = 0;
    while i < v.len()
        invariant
            0 <= i <= v@.len(),
            derefs(res@) == v@.take(i as int),
        decreases v@.len() - i,
    {
        let ghost prev = res@;
        res.push(&v[i]);
        proof {
            assert(derefs(res@) =~= derefs(prev).push(v@[i as int]));
            assert(v@.take(i as int + 1) =~= v@.take(i as int).push(v@[i as int]));
        }
        i = i + 1;
    }
    proof {
        assert(v@.take(v@.len() as int) =~= v@);
    }
    res
}

/// The leader of the class of a node of a revision
pub open spec fn class_of<'a>(v: ClassMappingView, rev: Revision, n: AstNode<'a>) -> Leader {
    Leader(leader_or_self(v.0, RevNode { rev, node: n.id }))
}

/// Are two lists of nodes isomorphic, node by node?
pub open spec fn sides_iso<'a>(a: Seq<AstNode<'a>>, b: Seq<AstNode<'a>>) -> bool {
    &&& a.len() == b.len()
    &&& forall|i: int| 0 <= i < a.len() ==> iso_nodes(#[trigger] a[i], b[i])
}

/// Can each node of the side be printed from the node of its class at the revision?
pub open spec fn extractable<'b, 'a>(v: ClassMappingView, trees: RevisionTrees<'b, 'a>, side: Seq<AstNode<'a>>, rev: Revision) -> bool {
    forall|i: int| 0 <= i < side.len() ==> {
        &&& leader_node(trees, #[trigger] class_of(v, rev, side[i])) is Some
        &&& node_of(v, trees, class_of(v, rev, side[i]), rev) is Some
    }
}

/// Are the trees the exact trees of the classes of the nodes of the side, taken from the
/// revisions `rev` and `other`?
pub open spec fn exact_trees_of<'b, 'a>(
    res: Seq<MergedTree<'b, 'a>>,
    v: ClassMappingView,
    trees: RevisionTrees<'b, 'a>,
    side: Seq<AstNode<'a>>,
    rev: Revision,
    other: Revision,
) -> bool {
    &&& res.len() == side.len()
    &&& forall|i: int| 0 <= i < res.len() ==> match #[trigger] res[i] {
        MergedTree::ExactTree { node, revisions, hash } => {
            &&& node == class_of(v, rev, side[i])
            &&& forall|r: Revision| #[trigger] revisions.set_view().has(r) == (r == rev || r == other)
            &&& node_of(v, trees, node, rev) matches Some(n) && n.hash == hash
        },
        _ => false,
    }
}

impl<'b, 'a> MergedTree<'b, 'a> {
    /// Creates a new exact tree, taking its hash from the node it is printed from
    pub fn new_exact(node: Leader, revisions: RevisionNESet, class_mapping: &ClassMapping, trees: &RevisionTrees<'b, 'a>) -> (res: Self)
        requires
            exact_node(class_mapping@, *trees, node, revisions) is Some,
        ensures
            res == (MergedTree::ExactTree { node, revisions, hash: exact_node(class_mapping@, *trees, node, revisions)->0.hash }),
    {
        let representative = class_node(class_mapping, trees, &node, revisions.any());
        match representative {
            Some(r) => MergedTree::ExactTree { node, revisions, hash: r.hash },
            None => MergedTree::ExactTree { node, revisions, hash: 0 },
        }
    }

    /// Creates a new mixed tree, computing its hash from the kind and language of its root
    /// and the hashes of its children
    pub fn new_mixed(node: Leader, children: Vec<Self>, trees: &RevisionTrees<'b, 'a>) -> (res: Self)
        requires
            leader_node(*trees, node) is Some,
        ensures
            res matches MergedTree::MixedTree { node: n, children: c, .. } && n == node && c@ == children@,
    {
        let root = find_node(trees.tree(node.0.rev), node.0.node);
        let mut child_hashes: Vec<u64> = Vec::new();
        let mut i: usize = 0;
        while i < children.len()
            invariant
                0 <= i <= children@.len(),
            decreases children@.len() - i,
        {
            let h: u64 = match &children[i] {
                MergedTree::ExactTree { hash, .. } => *hash,
                MergedTree::MixedTree { hash, .. } => *hash,
                MergedTree::Conflict(_) => 1,
                MergedTree::LineBasedMerge { .. } => 2,
                MergedTree::CommutativeChildSeparator { .. } => 3,
            };
            child_hashes.push(h);
            i = i + 1;
        }
        let hash = match root {
            Some(r) => crate::ast::hash_inner(r.grammar_name.as_str(), r.lang_profile.name, child_hashes.as_slice()),
            None => 0,
        };
        MergedTree::MixedTree { node, children, hash }
    }

    /// Creates a new conflict, or a list of exact nodes if the conflict is spurious: where two
    /// sides are isomorphic, the third one (or, where left and right agree, the left one) is
    /// taken as it is.
    pub fn new_conflict(
        base: Vec<&'b AstNode<'a>>,
        left: Vec<&'b AstNode<'a>>,
        right: Vec<&'b AstNode<'a>>,
        class_mapping: &ClassMapping,
        trees: &RevisionTrees<'b, 'a>,
    ) -> (res: Vec<Self>)
        requires
            sides_iso(derefs(left@), derefs(right@)) || sides_iso(derefs(base@), derefs(right@))
                ==> extractable(class_mapping@, *trees, derefs(left@), Revision::Left),
            sides_iso(derefs(base@), derefs(left@))
                ==> extractable(class_mapping@, *trees, derefs(right@), Revision::Right),
        ensures
            if sides_iso(derefs(left@), derefs(right@)) {
                exact_trees_of(res@, class_mapping@, *trees, derefs(left@), Revision::Left, Revision::Right)
            } else if sides_iso(derefs(base@), derefs(right@)) {
                exact_trees_of(res@, class_mapping@, *trees, derefs(left@), Revision::Left, Revision::Left)
            } else if sides_iso(derefs(base@), derefs(left@)) {
                exact_trees_of(res@, class_mapping@, *trees, derefs(right@), Revision::Right, Revision::Right)
            } else {
                res@.len() == 1 && (res@[0] matches MergedTree::Conflict(c)
                    && c.base@ == base@ && c.left@ == left@ && c.right@ == right@)
            },
    {
        if isomorphic_sides(&left, &right) {
            extract_rev(&left, Revision::Left, Revision::Right, class_mapping, trees)
        } else if isomorphic_sides(&base, &right) {
            extract_rev(&left, Revision::Left, Revision::Left, class_mapping, trees)
        } else if isomorphic_sides(&base, &left) {
            extract_rev(&right, Revision::Right, Revision::Right, class_mapping, trees)
        } else {
            let mut res: Vec<Self> = Vec::new();
            res.push(MergedTree::Conflict(Conflict { base, left, right }));
            res
        }
    }

    /// The kind of the underlying syntax node, if any
    pub fn kind(&self, trees: &RevisionTrees<'b, 'a>) -> (res: Option<&'b str>)
        requires
            match *self {
                MergedTree::ExactTree { node, .. } => leader_node(*trees, node) is Some,
                MergedTree::MixedTree { node, .. } => leader_node(*trees, node) is Some,
                MergedTree::LineBasedMerge { node, .. } => leader_node(*trees, node) is Some,
                _ => true,
            },
        ensures
            match *self {
                MergedTree::ExactTree { node, .. } => res matches Some(k) && k@ == leader_node(*trees, node)->0.grammar_name@,
                MergedTree::MixedTree { node, .. } => res matches Some(k) && k@ == leader_node(*trees, node)->0.grammar_name@,
                MergedTree::LineBasedMerge { node, .. } => res matches Some(k) && k@ == leader_node(*trees, node)->0.grammar_name@,
                _ => res is None,
            },
    {
        let node = match self {
            MergedTree::ExactTree { node, .. } => node,
            MergedTree::MixedTree { node, .. } => node,
            MergedTree::LineBasedMerge { node, .. } => node,
            _ => {
                return None;
            },
        };
        match find_node(trees.tree(node.0.rev), node.0.node) {
            Some(n) => Some(n.grammar_name.as_str()),
            None => None,
        }
    }

    /// The field of its parent with which the underlying syntax node is associated, if any
    pub fn field_name(&self, trees: &RevisionTrees<'b, 'a>) -> (res: Option<&'b str>)
        ensures
            match *self {
                MergedTree::ExactTree { node, .. } => opt_text(res) == field_of(*trees, node),
                MergedTree::MixedTree { node, .. } => opt_text(res) == field_of(*trees, node),
                MergedTree::LineBasedMerge { node, .. } => opt_text(res) == field_of(*trees, node),
                _ => res is None,
            },
    {
        let node = match self {
            MergedTree::ExactTree { node, .. } => node,
            MergedTree::MixedTree { node, .. } => node,
            MergedTree::LineBasedMerge { node, .. } => node,
            _ => {
                return None;
            },
        };
        match find_node(trees.tree(node.0.rev), node.0.node) {
            Some(n) => match &n.field_name {
                Some(f) => Some(f.as_str()),
                None => None,
            },
            None => None,
        }
    }
}

/// The field name of the node a leader stands for, if it is found and has one
pub open spec fn field_of<'b, 'a>(trees: RevisionTrees<'b, 'a>, leader: Leader) -> Option<Seq<char>> {
    match leader_node(trees, leader) {
        Some(n) => match n.field_name {
            Some(f) => Some(f@),
            None => None,
        },
        None => None,
    }
}

/// The text of an optional string
pub open spec fn opt_text(o: Option<&str>) -> Option<Seq<char>> {
    match o {
        Some(s) => Some(s@),
        None => None,
    }
}

/// Are two lists of nodes isomorphic, node by node?
fn isomorphic_sides<'b, 'a>(a: &Vec<&'b AstNode<'a>>, b: &Vec<&'b AstNode<'a>>) -> (res: bool)
    ensures
        res == sides_iso(derefs(a@), derefs(b@)),
{
    if a.len() != b.len() {
        return false;
    }
    let mut i: usize = 0;
    while i < a.len()
        invariant
            0 <= i <= a@.len(),
            a@.len() == b@.len(),
            forall|j: int| 0 <= j < i ==> iso_nodes(#[trigger] derefs(a@)[j], derefs(b@)[j]),
        decreases a@.len() - i,
    {
        if !a[i].isomorphic_to(b[i]) {
            proof {
                assert(!iso_nodes(derefs(a@)[i as int], derefs(b@)[i as int]));
            }
            return false;
        }
        i = i + 1;
    }
    true
}

/// The exact trees of the classes of the nodes of a side, taken from two revisions
fn extract_rev<'b, 'a>(
    side: &Vec<&'b AstNode<'a>>,
    rev: Revision,
    other: Revision,
    class_mapping: &ClassMapping,
    trees: &RevisionTrees<'b, 'a>,
) -> (res: Vec<MergedTree<'b, 'a>>)
    requires
        extractable(class_mapping@, *trees, derefs(side@), rev),
        rev == Revision::Left || rev == other,
    ensures
        exact_trees_of(res@, class_mapping@, *trees, derefs(side@), rev, other),
{
    let mut res: Vec<MergedTree<'b, 'a>> = Vec::new();
    let mut i: usize = 0;
    while i < side.len()
        invariant
            0 <= i <= side@.len(),
            res@.len() == i,
            rev == Revision::Left || rev == other,
            extractable(class_mapping@, *trees, derefs(side@), rev),
            forall|j: int| 0 <= j < i ==> match #[trigger] res@[j] {
                MergedTree::ExactTree { node, revisions, hash } => {
                    &&& node == class_of(class_mapping@, rev, derefs(side@)[j])
                    &&& forall|r: Revision| #[trigger] revisions.set_view().has(r) == (r == rev || r == other)
                    &&& node_of(class_mapping@, *trees, node, rev) matches Some(n) && n.hash == hash
                },
                _ => false,
            },
        decreases side@.len() - i,
    {
        let leader = class_mapping.map_to_leader(RevNode { rev, node: side[i].id });
        let revisions = RevisionNESet::singleton(rev).with(other);
        proof {
            assert(class_of(class_mapping@, rev, derefs(side@)[i as int]) == leader);
            assert(revisions.set_view().any_spec() == Some(rev));
        }
        let t = MergedTree::new_exact(leader, revisions, class_mapping, trees);
        res.push(t);
        i = i + 1;
    }
    res
}

/// Does the subtree of a node of a revision contain a node of the given class?
pub open spec fn subtree_contains<'a>(v: ClassMappingView, rev: Revision, n: AstNode<'a>, other: Leader) -> bool {
    exists|i: int| 0 <= i < dfs_of(n).len() && class_of(v, rev, #[trigger] dfs_of(n)[i]) == other
}

/// Does some node of the list, taken as nodes of the revision, contain a node of the class?
pub open spec fn side_contains<'a>(v: ClassMappingView, rev: Revision, s: Seq<AstNode<'a>>, other: Leader) -> bool {
    exists|i: int| 0 <= i < s.len() && subtree_contains(v, rev, #[trigger] s[i], other)
}

/// Does the merged tree contain a node of the class?
pub open spec fn tree_contains<'b, 'a>(t: MergedTree<'b, 'a>, leader: Leader, v: ClassMappingView, trees: RevisionTrees<'b, 'a>) -> bool
    decreases t, 1nat,
{
    match t {
        MergedTree::ExactTree { node, revisions, .. } => match exact_node(v, trees, node, revisions) {
            Some(n) => subtree_contains(v, revisions.set_view().any_spec()->0, n, leader),
            None => false,
        },
        MergedTree::MixedTree { node, children, .. } => node == leader || children_contain(children@, 0, leader, v, trees),
        MergedTree::Conflict(c) => side_contains(v, leader.0.rev, conflict_side(c, leader.0.rev), leader),
        MergedTree::LineBasedMerge { node, .. } => node == leader,
        MergedTree::CommutativeChildSeparator { .. } => false,
    }
}

/// Does one of the trees of `s` from index `k` on contain a node of the class?
pub open spec fn children_contain<'b, 'a>(s: Seq<MergedTree<'b, 'a>>, k: int, leader: Leader, v: ClassMappingView, trees: RevisionTrees<'b, 'a>) -> bool
    decreases s, s.len() - k,
{
    if k < 0 || k >= s.len() {
        false
    } else {
        tree_contains(s[k], leader, v, trees) || children_contain(s, k + 1, leader, v, trees)
    }
}

/// Whether the subtree rooted at a node of a revision contains a node of the class
fn rev_node_contains(class_mapping: &ClassMapping, rev: Revision, node: &AstNode, other: &Leader) -> (res: bool)
    ensures
        res == subtree_contains(class_mapping@, rev, *node, *other),
{
    let all = node.dfs();
    let ghost s = dfs_of(*node);
    let mut i: usize = 0;
    while i < all.len()
        invariant
            0 <= i <= all@.len(),
            derefs(all@) == s,
            s == dfs_of(*node),
            forall|j: int| 0 <= j < i ==> class_of(class_mapping@, rev, #[trigger] s[j]) != *other,
        decreases all@.len() - i,
    {
        assert(s[i as int] == *all@[i as int]);
        if class_mapping.map_to_leader(RevNode { rev, node: all[i].id }) == *other {
            return true;
        }
        i = i + 1;
    }
    false
}

impl<'b, 'a> MergedTree<'b, 'a> {
    /// Checks if a node of the given class is contained in the result tree
    pub fn contains(&self, leader: &Leader, class_mapping: &ClassMapping, trees: &RevisionTrees<'b, 'a>) -> (res: bool)
        requires
            consistent(*self, class_mapping@, *trees),
        ensures
            res == tree_contains(*self, *leader, class_mapping@, *trees),
        decreases self, 1nat,
    {
        match self {
            MergedTree::ExactTree { node, revisions, .. } => {
                let picked_revision = revisions.any();
                match class_node(class_mapping, trees, node, picked_revision) {
                    Some(n) => rev_node_contains(class_mapping, picked_revision, n, leader),
                    None => false,
                }
            },
            MergedTree::MixedTree { node, children, .. } => {
                if *node == *leader {
                    return true;
                }
                Self::children_contain_exec(children, leader, class_mapping, trees)
            },
            MergedTree::Conflict(c) => {
                let rev = leader.0.rev;
                let side = match rev {
                    Revision::Base => &c.base,
                    Revision::Left => &c.left,
                    Revision::Right => &c.right,
                };
                let mut i: usize = 0;
                while i < side.len()
                    invariant
                        0 <= i <= side@.len(),
                        *self == MergedTree::Conflict(*c),
                        rev == leader.0.rev,
                        derefs(side@) == conflict_side(*c, rev),
                        forall|j: int| 0 <= j < i ==> !subtree_contains(class_mapping@, rev, #[trigger] derefs(side@)[j], *leader),
                    decreases side@.len() - i,
                {
                    if rev_node_contains(class_mapping, rev, side[i], leader) {
                        proof {
                            assert(subtree_contains(class_mapping@, rev, derefs(side@)[i as int], *leader));
                            assert(side_contains(class_mapping@, rev, conflict_side(*c, rev), *leader));
                        }
                        return true;
                    }
                    i = i + 1;
                }
                false
            },
            MergedTree::LineBasedMerge { node, .. } => *node == *leader,
            MergedTree::CommutativeChildSeparator { .. } => false,
        }
    }

    fn children_contain_exec(children: &Vec<MergedTree<'b, 'a>>, leader: &Leader, class_mapping: &ClassMapping, trees: &RevisionTrees<'b, 'a>) -> (res: bool)
        requires
            all_consistent(children@, 0, class_mapping@, *trees),
        ensures
            res == children_contain(children@, 0, *leader, class_mapping@, *trees),
        decreases children@, children@.len() + 1,
    {
        let mut k: usize = 0;
        while k < children.len()
            invariant
                0 <= k <= children@.len(),
                all_consistent(children@, k as int, class_mapping@, *trees),
                children_contain(children@, 0, *leader, class_mapping@, *trees) == children_contain(children@, k as int, *leader, class_mapping@, *trees),
            decreases children@.len() - k,
        {
            if children[k].contains(leader, class_mapping, trees) {
                return true;
            }
            k = k + 1;
        }
        false
    }
}

} // verus!
