//! Printing merged trees back to text
use vstd::prelude::*;

use crate::ast::{
    ancestor_indentation_of, derefs, indentation_shift_of, inherited_indentation, lemma_all_nested,
    lemma_nested_siblings, lemma_node_at_nested, nested, newline_then, node_at, preceding_whitespace_of, replace_all,
    replaced, string_of_chars, AstNode,
};
use crate::class_mapping::{reps_of, ClassMapping, ClassMappingView, Leader, RevNode, RevisionNESet};
use crate::merged_text::{sections_of_chunks, sections_view, MergedText, SectionView};
use crate::merged_tree::{class_of, node_at_rev_spec, MergedTree, RevisionTrees};
use crate::parsed_merge::{or_empty, parse_spec};
use crate::pcs::Revision;
use crate::settings::DisplaySettings;
use crate::text::{is_blank, str_is_blank, string_of_range, to_chars};

verus! {

/// The path to the first node with the given identifier, in depth-first order
pub open spec fn path_to<'a>(n: AstNode<'a>, id: usize) -> Option<Seq<usize>>
    decreases n, 1nat,
{
    if n.id == id {
        Some(Seq::empty())
    } else {
        path_among(n.children@, 0, id)
    }
}

/// The path, from the list of trees `s`, to the first node with the given identifier in the
/// trees from index `k` on
pub open spec fn path_among<'a>(s: Seq<AstNode<'a>>, k: int, id: usize) -> Option<Seq<usize>>
    decreases s, s.len() - k,
{
    if k < 0 || k >= s.len() || k > usize::MAX {
        None
    } else {
        match path_to(s[k], id) {
            Some(p) => Some(seq![k as usize] + p),
            None => path_among(s, k + 1, id),
        }
    }
}

/// A path that is found leads to a node
pub proof fn lemma_path_to<'a>(n: AstNode<'a>, id: usize)
    ensures
        path_to(n, id) matches Some(p) ==> node_at(n, p) is Some,
    decreases n, 1nat,
{
    if n.id != id {
        lemma_path_among(n.children@, 0, id);
        if let Some(p) = path_among(n.children@, 0, id) {
            assert(p.skip(1) == p.skip(1));
        }
    }
}

proof fn lemma_path_among<'a>(s: Seq<AstNode<'a>>, k: int, id: usize)
    ensures
        path_among(s, k, id) matches Some(p) ==> p.len() > 0 && p[0] < s.len() && node_at(s[p[0] as int], p.skip(1)) is Some,
    decreases s, s.len() - k,
{
    if 0 <= k < s.len() && k <= usize::MAX {
        lemma_path_to(s[k], id);
        lemma_path_among(s, k + 1, id);
        if let Some(q) = path_to(s[k], id) {
            assert((seq![k as usize] + q).skip(1) =~= q);
        }
    }
}

/// The path to the first node with the given identifier, in depth-first order
pub fn find_path(n: &AstNode, id: usize) -> (res: Option<Vec<usize>>)
    ensures
        match res {
            Some(p) => path_to(*n, id) == Some(p@),
            None => path_to(*n, id) is None,
        },
    decreases n,
{
    if n.id == id {
        return Some(Vec::new());
    }
    let mut k: usize = 0;
    while k < n.children.len()
        invariant
            0 <= k <= n.children@.len(),
            n.id != id,
            path_to(*n, id) == path_among(n.children@, k as int, id),
        decreases n.children@.len() - k,
    {
        match find_path(&n.children[k], id) {
            Some(p) => {
                let mut r: Vec<usize> = Vec::new();
                r.push(k);
                let mut q = p;
                r.append(&mut q);
                proof {
                    assert(r@ =~= seq![k as usize] + p@);
                }
                return Some(r);
            },
            None => {},
        }
        k = k + 1;
    }
    None
}

/// The range of a node of a nested tree lies within the range of the tree
pub proof fn lemma_node_at_range<'a>(n: AstNode<'a>, path: Seq<usize>)
    requires
        nested(n),
        node_at(n, path) is Some,
    ensures
        n.byte_range.start <= node_at(n, path)->0.byte_range.start,
        node_at(n, path)->0.byte_range.start <= node_at(n, path)->0.byte_range.end,
        node_at(n, path)->0.byte_range.end <= n.byte_range.end,
    decreases path.len(),
{
    if path.len() > 0 {
        let c = n.children@[path[0] as int];
        lemma_all_nested(n.children@, n.children@.len() as int);
        assert(nested(c));
        lemma_node_at_range(c, path.skip(1));
    }
}

/// The sibling printed just before a tree, if it gives any information on whitespace
#[derive(Clone, Copy)]
pub enum PreviousSibling<'b> {
    RealNode(Leader),
    CommutativeSeparator(&'b str),
}

/// The path to the node of a class at a revision, in the tree of that revision
pub open spec fn located<'b, 'a>(v: ClassMappingView, trees: RevisionTrees<'b, 'a>, leader: Leader, rev: Revision) -> Option<Seq<usize>> {
    match node_at_rev_spec(v, leader, rev) {
        Some(id) => path_to(trees.at(rev), id),
        None => None,
    }
}

/// The path to a node of a revision, in the tree of that revision
pub open spec fn rev_node_path<'b, 'a>(trees: RevisionTrees<'b, 'a>, n: RevNode) -> Option<Seq<usize>> {
    path_to(trees.at(n.rev), n.node)
}

/// The whitespace between the node at `p` and its predecessor, if it has one
pub open spec fn whitespace_before<'a>(root: AstNode<'a>, p: Seq<usize>) -> Option<Seq<char>> {
    if p.len() == 0 {
        None
    } else {
        match node_at(root, p.drop_last()) {
            Some(parent) => preceding_whitespace_of(parent, p.last() as int),
            None => None,
        }
    }
}

/// The source of a node before its first child, if there is any
pub open spec fn leading_of<'a>(n: AstNode<'a>) -> Option<Seq<char>> {
    if n.children@.len() > 0 && n.children@[0].byte_range.start > n.byte_range.start {
        Some(n.source@.take(n.children@[0].byte_range.start - n.byte_range.start))
    } else {
        None
    }
}

/// The whitespace between the end of the last child of a node and its own end, if there is some
pub open spec fn trailing_of<'a>(n: AstNode<'a>) -> Option<Seq<char>> {
    if n.children@.len() > 0 {
        let rest = n.source@.skip(n.children@.last().byte_range.end - n.byte_range.start);
        if rest.len() > 0 && is_blank(rest) {
            Some(rest)
        } else {
            None
        }
    } else {
        None
    }
}

/// The last position at or before `i` where `pat` occurs in `s` (-1 if none)
pub open spec fn last_match(s: Seq<char>, pat: Seq<char>, i: int) -> int
    decreases i + 1,
{
    if i < 0 {
        -1
    } else if i + pat.len() <= s.len() && s.subrange(i, i + pat.len()) == pat {
        i
    } else {
        last_match(s, pat, i - 1)
    }
}

/// What follows the last line of `whitespace` that starts with the ancestor's indentation,
/// after that indentation: the indentation shift of the node the whitespace precedes
pub open spec fn shift_after(ancestor_indentation: Seq<char>, whitespace: Seq<char>) -> Seq<char> {
    let pat = seq!['\n'] + ancestor_indentation;
    let j = last_match(whitespace, pat, whitespace.len() - pat.len());
    if j >= 0 {
        whitespace.skip(j + pat.len())
    } else {
        Seq::empty()
    }
}

/// The whitespace between the nodes of two classes at a revision, reindented to
/// `indentation`, with the indentation shift of the second node: found where both classes
/// have a node at the revision, the first ending before the second starts with only
/// whitespace between them
pub open spec fn whitespace_at_rev<'b, 'a>(
    v: ClassMappingView,
    trees: RevisionTrees<'b, 'a>,
    rev: Revision,
    previous: Leader,
    current: Leader,
    indentation: Seq<char>,
) -> Option<(Seq<char>, Seq<char>)> {
    match (located(v, trees, previous, rev), located(v, trees, current, rev)) {
        (Some(pp), Some(cp)) => {
            let root = trees.at(rev);
            let previous_end = node_at(root, pp)->0.byte_range.end as int;
            let current_start = node_at(root, cp)->0.byte_range.start as int;
            if previous_end > current_start {
                None
            } else {
                let source = root.source@.subrange(previous_end - root.byte_range.start, current_start - root.byte_range.start);
                if !is_blank(source) {
                    None
                } else {
                    match ancestor_indentation_of(root, cp) {
                        Some(ai) => Some((replaced(source, seq!['\n'] + ai, seq!['\n'] + indentation), shift_after(ai, source))),
                        None => Some((source, shift_after(Seq::empty(), source))),
                    }
                }
            }
        },
        _ => None,
    }
}

/// The whitespace preceding the first representative (from index `k` on) that has some, with
/// its line breaks followed by `indentation` in place of the indentation of its ancestor, and
/// the indentation shift of that representative
pub open spec fn fallback_whitespace<'b, 'a>(trees: RevisionTrees<'b, 'a>, reps: Seq<RevNode>, k: int, indentation: Seq<char>) -> Option<(Seq<char>, Seq<char>)>
    decreases reps.len() - k,
{
    if k < 0 || k >= reps.len() {
        None
    } else {
        let root = trees.at(reps[k].rev);
        let found = match rev_node_path(trees, reps[k]) {
            Some(p) => match whitespace_before(root, p) {
                Some(ws) => Some((
                    replaced(ws, seq!['\n'] + or_empty(ancestor_indentation_of(root, p)), seq!['\n'] + indentation),
                    or_empty(indentation_shift_of(root, p)),
                )),
                None => None,
            },
            None => None,
        };
        match found {
            Some(x) => Some(x),
            None => fallback_whitespace(trees, reps, k + 1, indentation),
        }
    }
}

/// The whitespace preceding the first representative (from index `k` on) that has some
pub open spec fn first_whitespace<'b, 'a>(trees: RevisionTrees<'b, 'a>, reps: Seq<RevNode>, k: int) -> Option<Seq<char>>
    decreases reps.len() - k,
{
    if k < 0 || k >= reps.len() {
        None
    } else {
        let found = match rev_node_path(trees, reps[k]) {
            Some(p) => whitespace_before(trees.at(reps[k].rev), p),
            None => None,
        };
        match found {
            Some(x) => Some(x),
            None => first_whitespace(trees, reps, k + 1),
        }
    }
}

/// The leading source of the first representative (from index `k` on) that has some
pub open spec fn first_leading<'b, 'a>(trees: RevisionTrees<'b, 'a>, reps: Seq<RevNode>, k: int) -> Option<Seq<char>>
    decreases reps.len() - k,
{
    if k < 0 || k >= reps.len() {
        None
    } else {
        let found = match rev_node_path(trees, reps[k]) {
            Some(p) => leading_of(node_at(trees.at(reps[k].rev), p)->0),
            None => None,
        };
        match found {
            Some(x) => Some(x),
            None => first_leading(trees, reps, k + 1),
        }
    }
}

/// Does the class have a node at the revision?
pub open spec fn class_at(v: ClassMappingView, leader: Leader, rev: Revision) -> bool {
    rev == leader.0.rev || v.1.contains_key((leader, rev))
}

/// The whitespace found between the nodes of two classes at a revision, if both have one there
pub open spec fn common_whitespace<'b, 'a>(
    v: ClassMappingView,
    trees: RevisionTrees<'b, 'a>,
    rev: Revision,
    previous: Leader,
    current: Leader,
    indentation: Seq<char>,
) -> Option<(Seq<char>, Seq<char>)> {
    if class_at(v, previous, rev) && class_at(v, current, rev) {
        whitespace_at_rev(v, trees, rev, previous, current, indentation)
    } else {
        None
    }
}

/// The whitespace to print between a previous node and the current one, with the
/// indentation shift of the current one: the whitespace found in the revisions (where all
/// three give one, that of the right revision if base and left agree, else that of the left
/// one; else the first found, in the order left, right, base), else the whitespace preceding
/// a representative, else nothing
pub open spec fn chosen_whitespace<'b, 'a>(
    v: ClassMappingView,
    trees: RevisionTrees<'b, 'a>,
    previous: Leader,
    current: Leader,
    indentation: Seq<char>,
) -> (Seq<char>, Seq<char>) {
    let wl = common_whitespace(v, trees, Revision::Left, previous, current, indentation);
    let wr = common_whitespace(v, trees, Revision::Right, previous, current, indentation);
    let wb = common_whitespace(v, trees, Revision::Base, previous, current, indentation);
    if wl is Some && wr is Some && wb is Some {
        if wb->0 == wl->0 {
            wr->0
        } else {
            wl->0
        }
    } else if wl is Some {
        wl->0
    } else if wr is Some {
        wr->0
    } else if wb is Some {
        wb->0
    } else {
        match fallback_whitespace(trees, reps_of(v, current), 0, indentation) {
            Some(x) => x,
            None => (Seq::empty(), Seq::empty()),
        }
    }
}

/// The indentation shift of the node a leader stands for
pub open spec fn own_shift<'b, 'a>(trees: RevisionTrees<'b, 'a>, leader: Leader) -> Seq<char> {
    match rev_node_path(trees, leader.0) {
        Some(p) => or_empty(indentation_shift_of(trees.at(leader.0.rev), p)),
        None => Seq::empty(),
    }
}

/// The whitespace printed before the node of a class, and the indentation at which the node
/// is then printed
pub open spec fn preceding<'b, 'a>(
    v: ClassMappingView,
    trees: RevisionTrees<'b, 'a>,
    leader: Leader,
    previous: Option<PreviousSibling<'b>>,
    indentation: Seq<char>,
) -> (Seq<SectionView>, Seq<char>) {
    match previous {
        Some(PreviousSibling::RealNode(p)) => {
            let (ws, shift) = chosen_whitespace(v, trees, p, leader, indentation);
            (seq![SectionView::Merged(ws)], indentation + shift)
        },
        Some(PreviousSibling::CommutativeSeparator(sep)) => {
            if sep@.len() > 0 && sep@.last() == '\n' {
                let new_indentation = indentation + own_shift(trees, leader);
                (seq![SectionView::Merged(new_indentation)], new_indentation)
            } else {
                (Seq::empty(), indentation)
            }
        },
        None => (
            seq![
                SectionView::Merged(or_empty(first_whitespace(trees, reps_of(v, leader), 0))),
                SectionView::Merged(or_empty(first_leading(trees, reps_of(v, leader), 0))),
            ],
            indentation,
        ),
    }
}

/// The node of a class at a revision, if it is found
pub open spec fn node_of_class<'b, 'a>(v: ClassMappingView, trees: RevisionTrees<'b, 'a>, leader: Leader, rev: Revision) -> Option<AstNode<'a>> {
    match located(v, trees, leader, rev) {
        Some(p) => node_at(trees.at(rev), p),
        None => None,
    }
}

/// The trailing whitespace kept at the end of a mixed tree: where the class has a node in each
/// revision, that of the right one if base and left agree, else that of the left one;
/// otherwise that of its node in the first revision (in the order left, right, base) where
/// it has one
pub open spec fn trailing_whitespace_of<'b, 'a>(v: ClassMappingView, trees: RevisionTrees<'b, 'a>, leader: Leader) -> Option<Seq<char>> {
    let l = node_of_class(v, trees, leader, Revision::Left);
    let r = node_of_class(v, trees, leader, Revision::Right);
    let b = node_of_class(v, trees, leader, Revision::Base);
    if l is Some && r is Some && b is Some {
        if trailing_of(b->0) == trailing_of(l->0) {
            trailing_of(r->0)
        } else {
            trailing_of(l->0)
        }
    } else if l is Some {
        trailing_of(l->0)
    } else if r is Some {
        trailing_of(r->0)
    } else if b is Some {
        trailing_of(b->0)
    } else {
        None
    }
}

/// The whitespace that precedes a node of a revision (found by its identifier in the tree of
/// that revision), or nothing
pub open spec fn whitespace_of_node<'b, 'a>(trees: RevisionTrees<'b, 'a>, rev: Revision, n: AstNode<'a>) -> Seq<char> {
    match path_to(trees.at(rev), n.id) {
        Some(p) => or_empty(whitespace_before(trees.at(rev), p)),
        None => Seq::empty(),
    }
}

/// The sources of a list of nodes of a revision, each but the first preceded by its preceding
/// whitespace
pub open spec fn list_text<'b, 'a>(trees: RevisionTrees<'b, 'a>, rev: Revision, s: Seq<AstNode<'a>>) -> Seq<char>
    decreases s.len(),
{
    if s.len() == 0 {
        Seq::empty()
    } else if s.len() == 1 {
        s[0].source@
    } else {
        list_text(trees, rev, s.drop_last()) + whitespace_of_node(trees, rev, s.last()) + s.last().source@
    }
}

/// The source of the node at `p`, reindented from its own indentation to `indentation`
pub open spec fn reindented<'a>(root: AstNode<'a>, p: Seq<usize>, indentation: Seq<char>) -> Seq<char> {
    let own = or_empty(inherited_indentation(root, p));
    let source = node_at(root, p)->0.source@;
    if own == indentation {
        source
    } else {
        replaced(source, seq!['\n'] + own, seq!['\n'] + indentation)
    }
}

/// The leader of the class of the first node of a conflict, looked for in the left, right and
/// base sides, in that order
pub open spec fn first_conflict_leader<'b, 'a>(v: ClassMappingView, base: Seq<AstNode<'a>>, left: Seq<AstNode<'a>>, right: Seq<AstNode<'a>>) -> Leader {
    if left.len() > 0 {
        class_of(v, Revision::Left, left[0])
    } else if right.len() > 0 {
        class_of(v, Revision::Right, right[0])
    } else {
        class_of(v, Revision::Base, base[0])
    }
}

/// The sibling that a tree is for the tree printed after it
pub open spec fn sibling_after<'b, 'a>(t: MergedTree<'b, 'a>) -> Option<PreviousSibling<'b>> {
    match t {
        MergedTree::ExactTree { node, .. } => Some(PreviousSibling::RealNode(node)),
        MergedTree::MixedTree { node, .. } => Some(PreviousSibling::RealNode(node)),
        MergedTree::LineBasedMerge { node, .. } => Some(PreviousSibling::RealNode(node)),
        MergedTree::Conflict(_) => None,
        MergedTree::CommutativeChildSeparator { separator } => Some(PreviousSibling::CommutativeSeparator(separator)),
    }
}

/// The sections printed for a merged tree, after a previous sibling, at an indentation
pub open spec fn printed<'b, 'a>(
    t: MergedTree<'b, 'a>,
    previous: Option<PreviousSibling<'b>>,
    indentation: Seq<char>,
    v: ClassMappingView,
    trees: RevisionTrees<'b, 'a>,
    settings: DisplaySettings,
) -> Seq<SectionView>
    decreases t, 1nat,
{
    match t {
        MergedTree::ExactTree { node, revisions, .. } => {
            let (ws, new_indentation) = preceding(v, trees, node, previous, indentation);
            let rev = revisions.set_view().any_spec()->0;
            match located(v, trees, node, rev) {
                Some(p) => ws.push(SectionView::Merged(reindented(trees.at(rev), p, new_indentation))),
                None => ws,
            }
        },
        MergedTree::MixedTree { node, children, .. } => {
            let (ws, new_indentation) = preceding(v, trees, node, previous, indentation);
            ws + printed_children(children@, 0, None, new_indentation, v, trees, settings) + match trailing_whitespace_of(v, trees, node) {
                Some(tw) => seq![SectionView::Merged(tw)],
                None => Seq::empty(),
            }
        },
        MergedTree::Conflict(c) => {
            let (base, left, right) = (derefs(c.base@), derefs(c.left@), derefs(c.right@));
            if base.len() == 0 && left.len() == 0 && right.len() == 0 {
                Seq::empty()
            } else {
                let (ws, _) = preceding(v, trees, first_conflict_leader(v, base, left, right), previous, indentation);
                let b = list_text(trees, Revision::Base, base);
                let l = list_text(trees, Revision::Left, left);
                let r = list_text(trees, Revision::Right, right);
                ws.push(if l == r { SectionView::Merged(l) } else { SectionView::Conflict { base: b, left: l, right: r } })
            }
        },
        MergedTree::LineBasedMerge { node, contents, .. } => {
            if contents@.len() == 0 {
                Seq::empty()
            } else {
                let (ws, _) = preceding(v, trees, node, previous, indentation);
                ws + sections_of_chunks(
                    parse_spec(contents@, settings.marker_size() as int, 0)->0,
                    indentation + own_shift(trees, node),
                )
            }
        },
        MergedTree::CommutativeChildSeparator { separator } => seq![SectionView::Merged(separator@)],
    }
}

/// The sections printed for the trees of `s` from index `k` on, the first one after `previous`
pub open spec fn printed_children<'b, 'a>(
    s: Seq<MergedTree<'b, 'a>>,
    k: int,
    previous: Option<PreviousSibling<'b>>,
    indentation: Seq<char>,
    v: ClassMappingView,
    trees: RevisionTrees<'b, 'a>,
    settings: DisplaySettings,
) -> Seq<SectionView>
    decreases s, s.len() - k,
{
    if k < 0 || k >= s.len() {
        Seq::empty()
    } else {
        printed(s[k], previous, indentation, v, trees, settings)
            + printed_children(s, k + 1, sibling_after(s[k]), indentation, v, trees, settings)
    }
}

/// Can the tree be printed: is the node of each exact tree found, and does the text of each
/// line-based merge parse?
pub open spec fn printable<'b, 'a>(t: MergedTree<'b, 'a>, v: ClassMappingView, trees: RevisionTrees<'b, 'a>, settings: DisplaySettings) -> bool
    decreases t, 1nat,
{
    match t {
        MergedTree::ExactTree { node, revisions, .. } => located(v, trees, node, revisions.set_view().any_spec()->0) is Some,
        MergedTree::MixedTree { children, .. } => all_printable(children@, 0, v, trees, settings),
        MergedTree::LineBasedMerge { contents, .. } => parse_spec(contents@, settings.marker_size() as int, 0) is Some,
        _ => true,
    }
}

/// Can the trees of `s` from index `k` on be printed?
pub open spec fn all_printable<'b, 'a>(s: Seq<MergedTree<'b, 'a>>, k: int, v: ClassMappingView, trees: RevisionTrees<'b, 'a>, settings: DisplaySettings) -> bool
    decreases s, s.len() - k,
{
    if k < 0 || k >= s.len() {
        true
    } else {
        printable(s[k], v, trees, settings) && all_printable(s, k + 1, v, trees, settings)
    }
}

/// Are the trees of the revisions nested, and small enough for their indentation to be measured?
pub open spec fn trees_ok<'b, 'a>(trees: RevisionTrees<'b, 'a>) -> bool {
    &&& nested(*trees.base) && trees.base.source@.len() * 9 <= usize::MAX
    &&& nested(*trees.left) && trees.left.source@.len() * 9 <= usize::MAX
    &&& nested(*trees.right) && trees.right.source@.len() * 9 <= usize::MAX
}

/// The tree of each revision is nested and small enough
proof fn lemma_tree_ok<'b, 'a>(trees: RevisionTrees<'b, 'a>, r: Revision)
    requires
        trees_ok(trees),
    ensures
        nested(trees.at(r)),
        trees.at(r).source@.len() * 9 <= usize::MAX,
{
}

/// The text of an optional string
pub open spec fn opt_string(o: Option<String>) -> Option<Seq<char>> {
    match o {
        Some(s) => Some(s@),
        None => None,
    }
}

/// The node at a path that leads to one
fn node_at_path<'b, 'a>(root: &'b AstNode<'a>, path: &Vec<usize>) -> (res: &'b AstNode<'a>)
    requires
        node_at(*root, path@) is Some,
    ensures
        node_at(*root, path@) == Some(*res),
{
    proof {
        assert(path@.take(path@.len() as int) =~= path@);
    }
    match root.node_at_prefix(path.as_slice(), path.len()) {
        Some(n) => n,
        None => {
            assert(false);
            root
        },
    }
}

/// The whitespace between the node at `path` and its predecessor, if it has one
fn whitespace_before_path(root: &AstNode, path: &Vec<usize>) -> (res: Option<String>)
    requires
        nested(*root),
    ensures
        opt_string(res) == whitespace_before(*root, path@),
{
    if path.len() == 0 {
        return None;
    }
    let last = path.len() - 1;
    proof {
        assert(path@.take(last as int) =~= path@.drop_last());
    }
    match root.node_at_prefix(path.as_slice(), last) {
        Some(parent) => {
            proof {
                lemma_node_at_nested(*root, path@.drop_last());
                lemma_nested_siblings(*parent, path@[last as int] as int);
            }
            parent.preceding_whitespace(path[last])
        },
        None => None,
    }
}

/// The source of a node before its first child, if there is any
fn leading_source_of(n: &AstNode) -> (res: Option<String>)
    requires
        nested(*n),
    ensures
        opt_string(res) == leading_of(*n),
{
    proof {
        if n.children@.len() > 0 {
            lemma_all_nested(n.children@, n.children@.len() as int);
            assert(nested(n.children@[0]));
        }
    }
    n.leading_source()
}

/// The whitespace after the last child of a node, if there is some
fn trailing_whitespace_of_node(n: &AstNode) -> (res: Option<String>)
    requires
        nested(*n),
    ensures
        opt_string(res) == trailing_of(*n),
{
    proof {
        if n.children@.len() > 0 {
            lemma_all_nested(n.children@, n.children@.len() as int);
            assert(nested(n.children@[n.children@.len() - 1]));
        }
    }
    n.trailing_whitespace()
}

/// Does `pat` occur in `s` at position `i`?
fn matches_at(s: &Vec<char>, pat: &Vec<char>, i: usize) -> (res: bool)
    requires
        i + pat@.len() <= s@.len(),
    ensures
        res == (s@.subrange(i as int, i + pat@.len()) == pat@),
{
    let slen = s.len();
    let mut k: usize = 0;
    while k < pat.len()
        invariant
            0 <= k <= pat@.len(),
            slen == s@.len(),
            i + pat@.len() <= s@.len(),
            forall|j: int| 0 <= j < k ==> s@[i + j] == pat@[j],
        decreases pat@.len() - k,
    {
        if s[i + k] != pat[k] {
            proof {
                assert(s@.subrange(i as int, i + pat@.len())[k as int] != pat@[k as int]);
            }
            return false;
        }
        k = k + 1;
    }
    proof {
        assert(s@.subrange(i as int, i + pat@.len()) =~= pat@);
    }
    true
}

/// The indentation shift found in a whitespace, after the last line that starts with the
/// ancestor's indentation
fn extract_indentation_shift(ancestor_indentation: &str, whitespace: &Vec<char>) -> (res: Vec<char>)
    ensures
        res@ == shift_after(ancestor_indentation@, whitespace@),
{
    let pat = newline_then(ancestor_indentation);
    if pat.len() > whitespace.len() {
        return Vec::new();
    }
    let wlen = whitespace.len();
    let plen = pat.len();
    let mut i: usize = wlen - plen;
    loop
        invariant
            wlen == whitespace@.len(),
            plen == pat@.len(),
            i + pat@.len() <= whitespace@.len(),
            pat@ == seq!['\n'] + ancestor_indentation@,
            last_match(whitespace@, pat@, whitespace@.len() - pat@.len()) == last_match(whitespace@, pat@, i as int),
        decreases i,
    {
        if matches_at(whitespace, &pat, i) {
            let v = vec_of_range_from(whitespace, i + pat.len());
            return v;
        }
        if i == 0 {
            proof {
                assert(last_match(whitespace@, pat@, -1) == -1);
            }
            return Vec::new();
        }
        i = i - 1;
    }
}

/// The characters of `v` from position `from` on
fn vec_of_range_from(v: &Vec<char>, from: usize) -> (res: Vec<char>)
    requires
        from <= v@.len(),
    ensures
        res@ == v@.skip(from as int),
{
    let mut res: Vec<char> = Vec::new();
    let mut i: usize = from;
    while i < v.len()
        invariant
            from <= i <= v@.len(),
            res@ == v@.subrange(from as int, i as int),
        decreases v@.len() - i,
    {
        res.push(v[i]);
        i = i + 1;
        proof {
            assert(res@ =~= v@.subrange(from as int, i as int));
        }
    }
    proof {
        assert(v@.subrange(from as int, v@.len() as int) =~= v@.skip(from as int));
    }
    res
}

/// The path to the node of a class at a revision
fn locate(class_mapping: &ClassMapping, trees: &RevisionTrees, leader: &Leader, rev: Revision) -> (res: Option<Vec<usize>>)
    ensures
        match res {
            Some(p) => located(class_mapping@, *trees, *leader, rev) == Some(p@) && node_at(trees.at(rev), p@) is Some,
            None => located(class_mapping@, *trees, *leader, rev) is None,
        },
{
    match class_mapping.node_at_rev(leader, rev) {
        Some(id) => {
            proof {
                lemma_path_to(trees.at(rev), id);
            }
            find_path(trees.tree(rev), id)
        },
        None => None,
    }
}

/// The path to a node of a revision
fn locate_rev_node(trees: &RevisionTrees, n: RevNode) -> (res: Option<Vec<usize>>)
    ensures
        match res {
            Some(p) => rev_node_path(*trees, n) == Some(p@) && node_at(trees.at(n.rev), p@) is Some,
            None => rev_node_path(*trees, n) is None,
        },
{
    proof {
        lemma_path_to(trees.at(n.rev), n.node);
    }
    find_path(trees.tree(n.rev), n.node)
}

/// The text of an optional pair of strings
pub open spec fn opt_pair(o: Option<(String, String)>) -> Option<(Seq<char>, Seq<char>)> {
    match o {
        Some((a, b)) => Some((a@, b@)),
        None => None,
    }
}

/// Extracts the whitespace between the nodes of two classes at a revision, with the
/// indentation shift of the second one
fn whitespace_between(
    class_mapping: &ClassMapping,
    trees: &RevisionTrees,
    rev: Revision,
    previous: &Leader,
    current: &Leader,
    indentation: &str,
) -> (res: Option<(String, String)>)
    requires
        trees_ok(*trees),
    ensures
        opt_pair(res) == whitespace_at_rev(class_mapping@, *trees, rev, *previous, *current, indentation@),
{
    let root = trees.tree(rev);
    proof {
        lemma_tree_ok(*trees, rev);
    }
    let pp = match locate(class_mapping, trees, previous, rev) {
        Some(p) => p,
        None => {
            return None;
        },
    };
    let cp = match locate(class_mapping, trees, current, rev) {
        Some(p) => p,
        None => {
            return None;
        },
    };
    let pn = node_at_path(root, &pp);
    let cn = node_at_path(root, &cp);
    let previous_end = pn.byte_range.end;
    let current_start = cn.byte_range.start;
    if previous_end > current_start {
        return None;
    }
    proof {
        lemma_node_at_range(*root, pp@);
        lemma_node_at_range(*root, cp@);
    }
    let chars = to_chars(root.source.as_str());
    let from = previous_end - root.byte_range.start;
    let to = current_start - root.byte_range.start;
    let source = string_of_range(&chars, from, to);
    if !str_is_blank(source.as_str()) {
        return None;
    }
    let source_chars = to_chars(source.as_str());
    match root.ancestor_indentation(cp.as_slice()) {
        Some(ai) => {
            let pattern = newline_then(ai.as_str());
            let replacement = newline_then(indentation);
            let reindented = string_of_chars(&replace_all(&source_chars, &pattern, &replacement));
            let shift = string_of_chars(&extract_indentation_shift(ai.as_str(), &source_chars));
            Some((reindented, shift))
        },
        None => {
            let shift = string_of_chars(&extract_indentation_shift("", &source_chars));
            proof {
                reveal_strlit("");
                assert(""@ =~= Seq::<char>::empty());
            }
            Some((source, shift))
        },
    }
}

/// The whitespace preceding the first representative that has some, reindented, with its
/// indentation shift
fn representative_whitespace(trees: &RevisionTrees, reps: &Vec<RevNode>, indentation: &str) -> (res: Option<(String, String)>)
    requires
        trees_ok(*trees),
    ensures
        opt_pair(res) == fallback_whitespace(*trees, reps@, 0, indentation@),
{
    let mut k: usize = 0;
    while k < reps.len()
        invariant
            0 <= k <= reps@.len(),
            trees_ok(*trees),
            fallback_whitespace(*trees, reps@, 0, indentation@) == fallback_whitespace(*trees, reps@, k as int, indentation@),
        decreases reps@.len() - k,
    {
        let rn = reps[k];
        let root = trees.tree(rn.rev);
        proof {
            lemma_tree_ok(*trees, rn.rev);
        }
        match locate_rev_node(trees, rn) {
            Some(p) => match whitespace_before_path(root, &p) {
                Some(ws) => {
                    let ancestor = match root.ancestor_indentation(p.as_slice()) {
                        Some(a) => a,
                        None => String::new(),
                    };
                    let shift = match root.indentation_shift(p.as_slice()) {
                        Some(sh) => sh,
                        None => String::new(),
                    };
                    let pattern = newline_then(ancestor.as_str());
                    let replacement = newline_then(indentation);
                    let reindented = string_of_chars(&replace_all(&to_chars(ws.as_str()), &pattern, &replacement));
                    return Some((reindented, shift));
                },
                None => {},
            },
            None => {},
        }
        k = k + 1;
    }
    None
}

/// The whitespace preceding the first representative that has some
fn representative_preceding(trees: &RevisionTrees, reps: &Vec<RevNode>) -> (res: Option<String>)
    requires
        trees_ok(*trees),
    ensures
        opt_string(res) == first_whitespace(*trees, reps@, 0),
{
    let mut k: usize = 0;
    while k < reps.len()
        invariant
            0 <= k <= reps@.len(),
            trees_ok(*trees),
            first_whitespace(*trees, reps@, 0) == first_whitespace(*trees, reps@, k as int),
        decreases reps@.len() - k,
    {
        let rn = reps[k];
        proof {
            lemma_tree_ok(*trees, rn.rev);
        }
        match locate_rev_node(trees, rn) {
            Some(p) => match whitespace_before_path(trees.tree(rn.rev), &p) {
                Some(ws) => {
                    return Some(ws);
                },
                None => {},
            },
            None => {},
        }
        k = k + 1;
    }
    None
}

/// The leading source of the first representative that has some
fn representative_leading(trees: &RevisionTrees, reps: &Vec<RevNode>) -> (res: Option<String>)
    requires
        trees_ok(*trees),
    ensures
        opt_string(res) == first_leading(*trees, reps@, 0),
{
    let mut k: usize = 0;
    while k < reps.len()
        invariant
            0 <= k <= reps@.len(),
            trees_ok(*trees),
            first_leading(*trees, reps@, 0) == first_leading(*trees, reps@, k as int),
        decreases reps@.len() - k,
    {
        let rn = reps[k];
        proof {
            lemma_tree_ok(*trees, rn.rev);
        }
        match locate_rev_node(trees, rn) {
            Some(p) => {
                let n = node_at_path(trees.tree(rn.rev), &p);
                proof {
                    lemma_node_at_nested(trees.at(rn.rev), p@);
                }
                match leading_source_of(n) {
                    Some(ls) => {
                        return Some(ls);
                    },
                    None => {},
                }
            },
            None => {},
        }
        k = k + 1;
    }
    None
}

/// The whitespace between the nodes of two classes at a revision where both have one
fn common_whitespace_exec(
    class_mapping: &ClassMapping,
    trees: &RevisionTrees,
    rev: Revision,
    previous: &Leader,
    current: &Leader,
    previous_revisions: RevisionNESet,
    revisions: RevisionNESet,
    indentation: &str,
) -> (res: Option<(String, String)>)
    requires
        trees_ok(*trees),
        forall|r: Revision| previous_revisions.set_view().has(r) == class_at(class_mapping@, *previous, r),
        forall|r: Revision| revisions.set_view().has(r) == class_at(class_mapping@, *current, r),
    ensures
        opt_pair(res) == common_whitespace(class_mapping@, *trees, rev, *previous, *current, indentation@),
{
    let common = previous_revisions.set().intersection(revisions.set());
    if common.contains(rev) {
        whitespace_between(class_mapping, trees, rev, previous, current, indentation)
    } else {
        None
    }
}

/// The indentation shift of the node a leader stands for
fn own_shift_exec(trees: &RevisionTrees, leader: &Leader) -> (res: String)
    requires
        trees_ok(*trees),
    ensures
        res@ == own_shift(*trees, *leader),
{
    let root = trees.tree(leader.0.rev);
    proof {
        lemma_tree_ok(*trees, leader.0.rev);
    }
    match locate_rev_node(trees, leader.0) {
        Some(p) => match root.indentation_shift(p.as_slice()) {
            Some(sh) => sh,
            None => String::new(),
        },
        None => String::new(),
    }
}

/// Concatenates two texts
fn concat(a: &str, b: &str) -> (res: String)
    ensures
        res@ == a@ + b@,
{
    let mut r = String::new();
    crate::text::push_str(&mut r, a);
    crate::text::push_str(&mut r, b);
    proof {
        assert(Seq::<char>::empty() + a@ =~= a@);
    }
    r
}

/// Adds any preceding whitespace before pretty-printing a node, picked from the original
/// trees, and returns the indentation at which the node is then printed
fn add_preceding_whitespace<'b>(
    output: &mut MergedText,
    leader: &Leader,
    previous: Option<PreviousSibling<'b>>,
    indentation: &str,
    class_mapping: &ClassMapping,
    trees: &RevisionTrees,
) -> (res: String)
    requires
        trees_ok(*trees),
    ensures
        sections_view(final(output).sections@) == sections_view(old(output).sections@)
            + preceding(class_mapping@, *trees, *leader, previous, indentation@).0,
        res@ == preceding(class_mapping@, *trees, *leader, previous, indentation@).1,
{
    let ghost start = sections_view(output.sections@);
    let reps = class_mapping.representatives(leader);
    match previous {
        Some(PreviousSibling::RealNode(previous_node)) => {
            let previous_revisions = class_mapping.revision_set(&previous_node);
            let revisions = class_mapping.revision_set(leader);
            let wl = common_whitespace_exec(class_mapping, trees, Revision::Left, &previous_node, leader, previous_revisions, revisions, indentation);
            let wr = common_whitespace_exec(class_mapping, trees, Revision::Right, &previous_node, leader, previous_revisions, revisions, indentation);
            let wb = common_whitespace_exec(class_mapping, trees, Revision::Base, &previous_node, leader, previous_revisions, revisions, indentation);
            let (whitespace, shift) = match (wl, wr, wb) {
                (Some(l), Some(r), Some(b)) => {
                    if crate::text::str_eq(b.0.as_str(), l.0.as_str()) && crate::text::str_eq(b.1.as_str(), l.1.as_str()) {
                        r
                    } else {
                        l
                    }
                },
                (Some(l), _, _) => l,
                (None, Some(r), _) => r,
                (None, None, Some(b)) => b,
                (None, None, None) => match representative_whitespace(trees, &reps, indentation) {
                    Some(x) => x,
                    None => (String::new(), String::new()),
                },
            };
            output.push_merged(whitespace);
            proof {
                assert(sections_view(output.sections@) =~= start + preceding(class_mapping@, *trees, *leader, previous, indentation@).0);
            }
            concat(indentation, shift.as_str())
        },
        Some(PreviousSibling::CommutativeSeparator(separator)) => {
            if crate::text::str_ends_with_char(separator, '\n') {
                let shift = own_shift_exec(trees, leader);
                let new_indentation = concat(indentation, shift.as_str());
                output.push_merged(new_indentation.clone());
                proof {
                    assert(sections_view(output.sections@) =~= start + preceding(class_mapping@, *trees, *leader, previous, indentation@).0);
                }
                new_indentation
            } else {
                proof {
                    assert(start + Seq::<SectionView>::empty() =~= start);
                    reveal_strlit("");
                    assert(indentation@ + ""@ =~= indentation@);
                }
                concat(indentation, "")
            }
        },
        None => {
            let whitespace = match representative_preceding(trees, &reps) {
                Some(w) => w,
                None => String::new(),
            };
            output.push_merged(whitespace);
            let leading = match representative_leading(trees, &reps) {
                Some(l) => l,
                None => String::new(),
            };
            output.push_merged(leading);
            proof {
                assert(sections_view(output.sections@) =~= start + preceding(class_mapping@, *trees, *leader, previous, indentation@).0);
                reveal_strlit("");
                assert(indentation@ + ""@ =~= indentation@);
            }
            concat(indentation, "")
        },
    }
}

/// The node of a class at a revision
fn class_node_at<'b, 'a>(class_mapping: &ClassMapping, trees: &RevisionTrees<'b, 'a>, leader: &Leader, rev: Revision) -> (res: Option<&'b AstNode<'a>>)
    requires
        trees_ok(*trees),
    ensures
        match res {
            Some(n) => node_of_class(class_mapping@, *trees, *leader, rev) == Some(*n) && nested(*n),
            None => node_of_class(class_mapping@, *trees, *leader, rev) is None,
        },
{
    match locate(class_mapping, trees, leader, rev) {
        Some(p) => {
            proof {
                lemma_tree_ok(*trees, rev);
                lemma_node_at_nested(trees.at(rev), p@);
            }
            Some(node_at_path(trees.tree(rev), &p))
        },
        None => None,
    }
}

/// Computes the best trailing whitespace to keep at the end of a node
fn trailing_whitespace(leader: &Leader, class_mapping: &ClassMapping, trees: &RevisionTrees) -> (res: Option<String>)
    requires
        trees_ok(*trees),
    ensures
        opt_string(res) == trailing_whitespace_of(class_mapping@, *trees, *leader),
{
    let l = class_node_at(class_mapping, trees, leader, Revision::Left);
    let r = class_node_at(class_mapping, trees, leader, Revision::Right);
    let b = class_node_at(class_mapping, trees, leader, Revision::Base);
    match (l, r, b) {
        (Some(l), Some(r), Some(b)) => {
            let base_trailing = trailing_whitespace_of_node(b);
            let left_trailing = trailing_whitespace_of_node(l);
            let same = match (&base_trailing, &left_trailing) {
                (Some(x), Some(y)) => crate::text::str_eq(x.as_str(), y.as_str()),
                (None, None) => true,
                _ => false,
            };
            if same {
                trailing_whitespace_of_node(r)
            } else {
                left_trailing
            }
        },
        (Some(l), _, _) => trailing_whitespace_of_node(l),
        (None, Some(r), _) => trailing_whitespace_of_node(r),
        (None, None, Some(b)) => trailing_whitespace_of_node(b),
        (None, None, None) => None,
    }
}

/// The sources of a list of nodes of a revision, each but the first preceded by its
/// preceding whitespace
fn pretty_print_astnode_list(revision: Revision, list: &Vec<&AstNode>, trees: &RevisionTrees) -> (res: String)
    requires
        trees_ok(*trees),
    ensures
        res@ == list_text(*trees, revision, derefs(list@)),
{
    let ghost s = derefs(list@);
    let mut output = String::new();
    let mut i: usize = 0;
    proof {
        lemma_tree_ok(*trees, revision);
        assert(s.take(0) =~= Seq::<AstNode>::empty());
    }
    while i < list.len()
        invariant
            0 <= i <= list@.len(),
            s == derefs(list@),
            nested(trees.at(revision)),
            output@ == list_text(*trees, revision, s.take(i as int)),
        decreases list@.len() - i,
    {
        let n = list[i];
        proof {
            assert(s.take(i + 1).drop_last() =~= s.take(i as int));
            assert(s.take(i + 1).last() == *n);
        }
        if i == 0 {
            crate::text::push_str(&mut output, n.source.as_str());
            proof {
                assert(Seq::<char>::empty() + n.source@ =~= n.source@);
            }
        } else {
            let whitespace = match find_path(trees.tree(revision), n.id) {
                Some(p) => match whitespace_before_path(trees.tree(revision), &p) {
                    Some(w) => w,
                    None => String::new(),
                },
                None => String::new(),
            };
            crate::text::push_str(&mut output, whitespace.as_str());
            crate::text::push_str(&mut output, n.source.as_str());
        }
        i = i + 1;
    }
    proof {
        assert(s.take(list@.len() as int) =~= s);
    }
    output
}

/// The sibling that a tree is for the tree printed after it
fn sibling_after_exec<'b, 'a>(t: &MergedTree<'b, 'a>) -> (res: Option<PreviousSibling<'b>>)
    ensures
        res == sibling_after(*t),
{
    match t {
        MergedTree::ExactTree { node, .. } => Some(PreviousSibling::RealNode(*node)),
        MergedTree::MixedTree { node, .. } => Some(PreviousSibling::RealNode(*node)),
        MergedTree::LineBasedMerge { node, .. } => Some(PreviousSibling::RealNode(*node)),
        MergedTree::Conflict(_) => None,
        MergedTree::CommutativeChildSeparator { separator } => Some(PreviousSibling::CommutativeSeparator(*separator)),
    }
}

/// Each tree of `s` from index `k` on can be printed
proof fn lemma_all_printable<'b, 'a>(s: Seq<MergedTree<'b, 'a>>, k: int, i: int, v: ClassMappingView, trees: RevisionTrees<'b, 'a>, settings: DisplaySettings)
    requires
        0 <= k <= i < s.len(),
        all_printable(s, k, v, trees, settings),
    ensures
        printable(s[i], v, trees, settings),
    decreases i - k,
{
    if k < i {
        lemma_all_printable(s, k + 1, i, v, trees, settings);
    }
}

impl<'b, 'a> MergedTree<'b, 'a> {
    /// Renders the tree to a series of strings, with merged and conflicting sections
    pub fn to_merged_text(&self, class_mapping: &ClassMapping, trees: &RevisionTrees<'b, 'a>, settings: &DisplaySettings) -> (res: MergedText)
        requires
            trees_ok(*trees),
            printable(*self, class_mapping@, *trees, *settings),
        ensures
            sections_view(res.sections@) == printed(*self, None, Seq::empty(), class_mapping@, *trees, *settings),
    {
        let mut merged_text = MergedText::new();
        proof {
            reveal_strlit("");
            assert(sections_view(merged_text.sections@) =~= Seq::<SectionView>::empty());
        }
        self.pretty_print_recursively(&mut merged_text, class_mapping, trees, None, "", settings);
        proof {
            reveal_strlit("");
            assert(""@ =~= Seq::<char>::empty());
            assert(Seq::<SectionView>::empty() + printed(*self, None, ""@, class_mapping@, *trees, *settings)
                =~= printed(*self, None, Seq::empty(), class_mapping@, *trees, *settings));
        }
        merged_text
    }

    /// Pretty-prints the result tree into its final output
    pub fn pretty_print(&self, class_mapping: &ClassMapping, trees: &RevisionTrees<'b, 'a>, settings: &DisplaySettings) -> (res: String)
        requires
            trees_ok(*trees),
            printable(*self, class_mapping@, *trees, *settings),
        ensures
            res@ == crate::merged_text::render_text(printed(*self, None, Seq::empty(), class_mapping@, *trees, *settings), *settings),
    {
        self.to_merged_text(class_mapping, trees, settings).render(settings)
    }

    /// Recursively pretty-prints a sub part of the result tree.
    fn pretty_print_recursively(
        &self,
        output: &mut MergedText,
        class_mapping: &ClassMapping,
        trees: &RevisionTrees<'b, 'a>,
        previous_sibling: Option<PreviousSibling<'b>>,
        indentation: &str,
        settings: &DisplaySettings,
    )
        requires
            trees_ok(*trees),
            printable(*self, class_mapping@, *trees, *settings),
        ensures
            sections_view(final(output).sections@) == sections_view(old(output).sections@)
                + printed(*self, previous_sibling, indentation@, class_mapping@, *trees, *settings),
        decreases self, 1nat,
    {
        let ghost start = sections_view(output.sections@);
        match self {
            MergedTree::ExactTree { node, revisions, .. } => {
                let picked_revision = revisions.any();
                let new_indentation = add_preceding_whitespace(output, node, previous_sibling, indentation, class_mapping, trees);
                let ghost mid = sections_view(output.sections@);
                match locate(class_mapping, trees, node, picked_revision) {
                    Some(p) => {
                        proof {
                            lemma_tree_ok(*trees, picked_revision);
                        }
                        let source = trees.tree(picked_revision).reindented_source(p.as_slice(), new_indentation.as_str());
                        output.push_merged(source);
                        proof {
                            assert(sections_view(output.sections@) =~= mid.push(SectionView::Merged(reindented(trees.at(picked_revision), p@, new_indentation@))));
                        }
                    },
                    None => {},
                }
            },
            MergedTree::MixedTree { node, children, .. } => {
                let new_indentation = add_preceding_whitespace(output, node, previous_sibling, indentation, class_mapping, trees);
                let ghost mid = sections_view(output.sections@);
                Self::print_children(children, output, class_mapping, trees, new_indentation.as_str(), settings);
                let ghost after = sections_view(output.sections@);
                match trailing_whitespace(node, class_mapping, trees) {
                    Some(whitespace) => {
                        output.push_merged(whitespace);
                        proof {
                            assert(sections_view(output.sections@) =~= after.push(SectionView::Merged(whitespace@)));
                        }
                    },
                    None => {},
                }
                proof {
                    let tail = match trailing_whitespace_of(class_mapping@, *trees, *node) {
                        Some(tw) => seq![SectionView::Merged(tw)],
                        None => Seq::<SectionView>::empty(),
                    };
                    assert(sections_view(output.sections@) =~= after + tail);
                }
            },
            MergedTree::Conflict(c) => {
                if c.base.len() == 0 && c.left.len() == 0 && c.right.len() == 0 {
                    proof {
                        assert(start + Seq::<SectionView>::empty() =~= start);
                    }
                    return;
                }
                let first_leader = if c.left.len() > 0 {
                    class_mapping.map_to_leader(RevNode { rev: Revision::Left, node: c.left[0].id })
                } else if c.right.len() > 0 {
                    class_mapping.map_to_leader(RevNode { rev: Revision::Right, node: c.right[0].id })
                } else {
                    class_mapping.map_to_leader(RevNode { rev: Revision::Base, node: c.base[0].id })
                };
                let _ = add_preceding_whitespace(output, &first_leader, previous_sibling, indentation, class_mapping, trees);
                let ghost mid = sections_view(output.sections@);
                let base = pretty_print_astnode_list(Revision::Base, &c.base, trees);
                let left = pretty_print_astnode_list(Revision::Left, &c.left, trees);
                let right = pretty_print_astnode_list(Revision::Right, &c.right, trees);
                let ghost (b, l, r) = (base@, left@, right@);
                output.push_conflict(base, left, right);
                proof {
                    assert(sections_view(output.sections@) =~= mid.push(
                        if l == r { SectionView::Merged(l) } else { SectionView::Conflict { base: b, left: l, right: r } },
                    ));
                }
            },
            MergedTree::LineBasedMerge { node, contents, .. } => {
                if contents.as_str().is_empty() {
                    proof {
                        assert(start + Seq::<SectionView>::empty() =~= start);
                    }
                    return;
                }
                let _ = add_preceding_whitespace(output, node, previous_sibling, indentation, class_mapping, trees);
                let shift = own_shift_exec(trees, node);
                let full_indentation = concat(indentation, shift.as_str());
                output.push_line_based_merge(contents.as_str(), full_indentation.as_str(), settings);
            },
            MergedTree::CommutativeChildSeparator { separator } => {
                let mut text = String::new();
                crate::text::push_str(&mut text, separator);
                proof {
                    assert(Seq::<char>::empty() + separator@ =~= separator@);
                }
                output.push_merged(text);
                proof {
                    assert(sections_view(output.sections@) =~= start + seq![SectionView::Merged(separator@)]);
                }
            },
        }
    }

    /// Prints the children of a mixed tree, one after the other
    fn print_children(
        children: &Vec<MergedTree<'b, 'a>>,
        output: &mut MergedText,
        class_mapping: &ClassMapping,
        trees: &RevisionTrees<'b, 'a>,
        indentation: &str,
        settings: &DisplaySettings,
    )
        requires
            trees_ok(*trees),
            all_printable(children@, 0, class_mapping@, *trees, *settings),
        ensures
            sections_view(final(output).sections@) == sections_view(old(output).sections@)
                + printed_children(children@, 0, None, indentation@, class_mapping@, *trees, *settings),
        decreases children@, children@.len() + 1,
    {
        let ghost start = sections_view(output.sections@);
        let mut previous_sibling: Option<PreviousSibling<'b>> = None;
        let mut k: usize = 0;
        proof {
            assert(start + Seq::<SectionView>::empty() =~= start);
        }
        while k < children.len()
            invariant
                0 <= k <= children@.len(),
                trees_ok(*trees),
                all_printable(children@, 0, class_mapping@, *trees, *settings),
                sections_view(output.sections@) + printed_children(children@, k as int, previous_sibling, indentation@, class_mapping@, *trees, *settings)
                    == start + printed_children(children@, 0, None, indentation@, class_mapping@, *trees, *settings),
            decreases children@.len() - k,
        {
            let ghost before = sections_view(output.sections@);
            proof {
                lemma_all_printable(children@, 0, k as int, class_mapping@, *trees, *settings);
            }
            children[k].pretty_print_recursively(output, class_mapping, trees, previous_sibling, indentation, settings);
            let ghost p = printed(children@[k as int], previous_sibling, indentation@, class_mapping@, *trees, *settings);
            previous_sibling = sibling_after_exec(&children[k]);
            proof {
                let rest = printed_children(children@, k + 1, previous_sibling, indentation@, class_mapping@, *trees, *settings);
                assert(before + (p + rest) =~= (before + p) + rest);
            }
            k = k + 1;
        }
        proof {
            assert(sections_view(output.sections@) + Seq::<SectionView>::empty() =~= sections_view(output.sections@));
        }
    }
}

} // verus!
