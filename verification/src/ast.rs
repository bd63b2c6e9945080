//! Syntax trees, built from what a parser reports of a source text
use vstd::prelude::*;

use rustc_hash::FxHasher;
use std::hash::{Hash, Hasher};

use crate::lang_profile::{names_view, parent_has_kind, CommutativeParent, LangProfile};
use crate::paths::last_index_of;
use crate::text::{is_blank, str_is_blank, to_chars, vec_of_range};
use crate::text::{decimal, leading_ws_count, decimal_string, leading_ws, push_char, push_str, string_of_range, str_eq};

verus! {

/// A node of a syntax tree
pub struct AstNode<'a> {
    /// A hash value, computed from the kind of the node, its language and its contents
    pub hash: u64,
    /// The children of this node (empty if this is a leaf)
    pub children: Vec<AstNode<'a>>,
    /// The portion of the source code which corresponds to this node
    pub source: String,
    /// The type of node as returned by the parser
    pub grammar_name: String,
    /// The field name via which this node can be accessed from its parent
    pub field_name: Option<String>,
    /// The range of characters in the original source code that the source of this node spans
    pub byte_range: std::ops::Range<usize>,
    /// An internal node id, unique within the tree
    pub id: usize,
    /// The number of nodes of the subtree before any truncation
    pub descendant_count: usize,
    /// The commutative merging settings associated with this node
    pub commutative_parent: Option<&'a CommutativeParent>,
    /// The language this node was parsed from
    pub lang_profile: &'a LangProfile,
}

/// The height of a tree: 0 for a leaf
pub open spec fn height_of(n: AstNode) -> nat
    decreases n, 1nat,
{
    if n.children@.len() == 0 {
        0
    } else {
        1 + max_height(n.children@, n.children@.len() as int)
    }
}

/// The greatest height among the first `k` trees
pub open spec fn max_height(s: Seq<AstNode>, k: int) -> nat
    decreases s, k,
{
    if k <= 0 || k > s.len() {
        0
    } else {
        let h = height_of(s[k - 1]);
        let m = max_height(s, k - 1);
        if h > m { h } else { m }
    }
}

/// The sum of the sizes of the first `k` trees
pub open spec fn sum_sizes(s: Seq<AstNode>, k: int) -> int
    decreases k,
{
    if k <= 0 || k > s.len() {
        0
    } else {
        sum_sizes(s, k - 1) + s[k - 1].descendant_count
    }
}

/// The sizes of the nodes add up: a node counts itself and the nodes of its subtrees, and a
/// leaf counts at least itself (more if it stands for a subtree that was cut off)
pub open spec fn sizes_add_up(n: AstNode) -> bool
    decreases n, 1nat,
{
    &&& n.descendant_count >= 1
    &&& (n.children@.len() > 0 ==> n.descendant_count == 1 + sum_sizes(n.children@, n.children@.len() as int))
    &&& all_sizes_add_up(n.children@, n.children@.len() as int)
}

/// The sizes add up in each of the first `k` trees
pub open spec fn all_sizes_add_up(s: Seq<AstNode>, k: int) -> bool
    decreases s, k,
{
    if k <= 0 || k > s.len() {
        true
    } else {
        sizes_add_up(s[k - 1]) && all_sizes_add_up(s, k - 1)
    }
}

/// Does the size of each node count exactly the node and the nodes of its subtrees (as it
/// does in a tree that was not truncated)?
pub open spec fn exact_sizes(n: AstNode) -> bool
    decreases n, 1nat,
{
    &&& n.descendant_count == 1 + sum_sizes(n.children@, n.children@.len() as int)
    &&& all_exact_sizes(n.children@, n.children@.len() as int)
}

/// Are the sizes exact in each of the first `k` trees?
pub open spec fn all_exact_sizes(s: Seq<AstNode>, k: int) -> bool
    decreases s, k,
{
    if k <= 0 || k > s.len() {
        true
    } else {
        exact_sizes(s[k - 1]) && all_exact_sizes(s, k - 1)
    }
}

/// Do the identifiers of the nodes strictly increase along the sequence?
pub open spec fn increasing_ids(s: Seq<AstNode>) -> bool {
    forall|i: int, j: int| 0 <= i < j < s.len() ==> (#[trigger] s[i]).id < (#[trigger] s[j]).id
}

/// Do the identifiers of the nodes of the sequence lie in `lo..hi`?
pub open spec fn ids_between(s: Seq<AstNode>, lo: int, hi: int) -> bool {
    forall|i: int| 0 <= i < s.len() ==> lo <= (#[trigger] s[i]).id < hi
}

/// Do two trees have the same shape: the same kinds of nodes, with the same numbers of
/// children, and the same sources at the leaves?
pub open spec fn same_shape(a: AstNode, b: AstNode) -> bool
    decreases a, 1nat,
{
    &&& a.grammar_name@ == b.grammar_name@
    &&& a.children@.len() == b.children@.len()
    &&& (a.children@.len() == 0 ==> a.source@ == b.source@)
    &&& all_same_shape(a.children@, b.children@, a.children@.len() as int)
}

/// Do the first `k` trees of both sequences have the same shapes, pairwise?
pub open spec fn all_same_shape(s: Seq<AstNode>, t: Seq<AstNode>, k: int) -> bool
    decreases s, k,
{
    if k <= 0 || k > s.len() || k > t.len() {
        true
    } else {
        same_shape(s[k - 1], t[k - 1]) && all_same_shape(s, t, k - 1)
    }
}

impl<'a> AstNode<'a> {
    /// The height of the subtree under that node
    pub fn height(&self) -> (res: i32)
        requires
            height_of(*self) <= i32::MAX,
        ensures
            res == height_of(*self),
        decreases self,
    {
        let mut best: i32 = 0;
        let mut i: usize = 0;
        while i < self.children.len()
            invariant
                0 <= i <= self.children@.len(),
                height_of(*self) <= i32::MAX,
                self.children@.len() > 0 ==> height_of(*self) == 1 + max_height(self.children@, self.children@.len() as int),
                best == max_height(self.children@, i as int),
            decreases self.children@.len() - i,
        {
            proof {
                lemma_max_height_bound(self.children@, i as int + 1, self.children@.len() as int);
            }
            let h = self.children[i].height();
            if h > best {
                best = h;
            }
            i = i + 1;
        }
        if self.children.len() == 0 {
            0
        } else {
            best + 1
        }
    }

    /// The number of descendants of the node (including itself).
    /// If the tree was obtained by truncating some nodes, turning them into leaves,
    /// the size of each node is preserved (those leaves have a higher own weight)
    pub fn size(&self) -> (res: usize)
        ensures
            res == self.descendant_count,
    {
        self.descendant_count
    }

    /// The weight of this node independently of the contents of this subtree.
    /// This is one unless the tree was obtained by truncation from another tree,
    /// in which case the truncated leaves have a weight that is equal to the size
    /// of their former subtree.
    pub fn own_weight(&self) -> (res: usize)
        requires
            sizes_add_up(*self),
        ensures
            res == self.descendant_count - sum_sizes(self.children@, self.children@.len() as int),
    {
        let mut total: usize = 0;
        let mut i: usize = 0;
        while i < self.children.len()
            invariant
                0 <= i <= self.children@.len(),
                sizes_add_up(*self),
                total == sum_sizes(self.children@, i as int),
            decreases self.children@.len() - i,
        {
            proof {
                lemma_sum_sizes_monotonic(self.children@, i as int + 1, self.children@.len() as int);
            }
            total = total + self.children[i].descendant_count;
            i = i + 1;
        }
        self.descendant_count - total
    }

    /// The commutative merging settings associated with this node.
    pub fn commutative_parent_definition(&self) -> (res: Option<&'a CommutativeParent>)
        ensures
            res == self.commutative_parent,
    {
        self.commutative_parent
    }

    /// Convenience accessor for children
    pub fn child(&self, index: usize) -> (res: Option<&AstNode<'a>>)
        ensures
            index < self.children@.len() ==> res == Some(&self.children@[index as int]),
            index >= self.children@.len() ==> res is None,
    {
        if index < self.children.len() {
            Some(&self.children[index])
        } else {
            None
        }
    }

    /// Convenience function
    pub fn is_leaf(&self) -> (res: bool)
        ensures
            res == (self.children@.len() == 0),
    {
        self.children.len() == 0
    }

    /// Whether this node is isomorphic to another: the same hash, and the same shape.
    /// This doesn't take commutativity into account.
    pub fn isomorphic_to(&self, other: &AstNode) -> (res: bool)
        ensures
            res == (self.hash == other.hash && same_shape(*self, *other)),
    {
        self.hash == other.hash && self.same_shape_as(other)
    }

    fn same_shape_as(&self, other: &AstNode) -> (res: bool)
        ensures
            res == same_shape(*self, *other),
        decreases self,
    {
        if !crate::text::str_eq(self.grammar_name.as_str(), other.grammar_name.as_str())
            || self.children.len() != other.children.len() {
            return false;
        }
        if self.children.len() == 0 {
            return crate::text::str_eq(self.source.as_str(), other.source.as_str());
        }
        let mut i: usize = 0;
        while i < self.children.len()
            invariant
                0 <= i <= self.children@.len(),
                self.children@.len() == other.children@.len(),
                all_same_shape(self.children@, other.children@, i as int),
            decreases self.children@.len() - i,
        {
            if !self.children[i].same_shape_as(&other.children[i]) {
                proof {
                    lemma_all_same_shape_prefix(self.children@, other.children@, i as int, self.children@.len() as int);
                }
                return false;
            }
            i = i + 1;
        }
        true
    }
}

/// Having the same shape does not depend on the order of the two trees
pub proof fn lemma_same_shape_symmetric(a: AstNode, b: AstNode)
    ensures
        same_shape(a, b) == same_shape(b, a),
    decreases a, 1nat,
{
    if a.children@.len() == b.children@.len() {
        lemma_all_same_shape_symmetric(a.children@, b.children@, a.children@.len() as int);
    }
}

/// Having pairwise the same shapes does not depend on the order of the two sequences
pub proof fn lemma_all_same_shape_symmetric(s: Seq<AstNode>, t: Seq<AstNode>, k: int)
    requires
        s.len() == t.len(),
    ensures
        all_same_shape(s, t, k) == all_same_shape(t, s, k),
    decreases s, k,
{
    if 0 < k <= s.len() {
        lemma_same_shape_symmetric(s[k - 1], t[k - 1]);
        lemma_all_same_shape_symmetric(s, t, k - 1);
    }
}

/// The height of each of the first `m` trees is at most their greatest height
pub proof fn lemma_max_height_bound(s: Seq<AstNode>, k: int, m: int)
    requires
        0 <= k <= m <= s.len(),
    ensures
        max_height(s, k) <= max_height(s, m),
        k > 0 ==> height_of(s[k - 1]) <= max_height(s, m),
    decreases m - k,
{
    if k < m {
        lemma_max_height_bound(s, k, m - 1);
        if k > 0 {
            lemma_max_height_bound(s, k, m - 1);
        }
    }
}

proof fn lemma_sum_sizes_monotonic(s: Seq<AstNode>, k: int, m: int)
    requires
        0 <= k <= m <= s.len(),
        forall|j: int| 0 <= j < s.len() ==> (#[trigger] s[j]).descendant_count >= 0,
    ensures
        sum_sizes(s, k) <= sum_sizes(s, m),
    decreases m - k,
{
    if k < m {
        lemma_sum_sizes_monotonic(s, k, m - 1);
    }
}

proof fn lemma_all_same_shape_prefix(s: Seq<AstNode>, t: Seq<AstNode>, k: int, m: int)
    requires
        0 <= k < m <= s.len(),
        m <= t.len(),
        !same_shape(s[k], t[k]),
    ensures
        !all_same_shape(s, t, m),
    decreases m - k,
{
    if k + 1 < m {
        lemma_all_same_shape_prefix(s, t, k, m - 1);
    }
}

/// A node of a syntax tree as the parser reports it, with its position in the source text
/// (in characters)
pub struct ParsedNode {
    /// The type of node
    pub grammar_name: String,
    /// The field name via which this node can be accessed from its parent
    pub field_name: Option<String>,
    /// The range of characters that the node spans
    pub byte_range: std::ops::Range<usize>,
    /// The row and column where the node starts
    pub start_point: (usize, usize),
    /// The row and column where the node ends
    pub end_point: (usize, usize),
    /// Is this a syntax error?
    pub is_error: bool,
    /// The commutative parent (by its position in the language profile) that a query of the
    /// language profile found for this node
    pub query_commutative_parent: Option<usize>,
    /// The children of the node
    pub children: Vec<ParsedNode>,
}

/// The name given to the nodes that stand for the lines of a multi-line leaf
pub const VIRTUAL_LINE: &'static str = "@virtual_line@";

/// Do the ranges of all nodes lie within a text of length `len`, each child within its parent?
pub open spec fn parsed_within(p: ParsedNode, len: int) -> bool
    decreases p, 1nat,
{
    &&& p.byte_range.start <= p.byte_range.end <= len
    &&& forall|i: int| 0 <= i < p.children@.len() ==> p.byte_range.start <= (#[trigger] p.children@[i]).byte_range.start
        && p.children@[i].byte_range.end <= p.byte_range.end
    &&& all_parsed_within(p.children@, len, p.children@.len() as int)
}

/// Do the ranges of the first `k` trees lie within a text of length `len`?
pub open spec fn all_parsed_within(s: Seq<ParsedNode>, len: int, k: int) -> bool
    decreases s, k,
{
    if k <= 0 || k > s.len() {
        true
    } else {
        parsed_within(s[k - 1], len) && all_parsed_within(s, len, k - 1)
    }
}

/// Is the node of a type that the language treats as a leaf?
pub open spec fn is_atomic(lang: LangProfile, p: ParsedNode) -> bool {
    names_view(lang.atomic_nodes@).contains(p.grammar_name@)
}

/// Are the children of the node built into the tree?
pub open spec fn expanded(lang: LangProfile, p: ParsedNode) -> bool {
    !is_atomic(lang, p) && p.children@.len() > 0
}

/// The number of line breaks at the end of a text
pub open spec fn trailing_newlines(s: Seq<char>) -> nat
    decreases s.len(),
{
    if s.len() > 0 && s.last() == '\n' {
        1 + trailing_newlines(s.drop_last())
    } else {
        0
    }
}

/// The range of the node built from `p`: the range of the root if it is one (empty if the
/// root has no children), else its own range, without its trailing line breaks (but not
/// before the end of its last child)
pub open spec fn built_range(p: ParsedNode, src: Seq<char>, lang: LangProfile, root: Option<(int, int)>) -> (int, int)
    decreases p,
{
    let start = p.byte_range.start as int;
    let end = p.byte_range.end as int;
    let last_child_end = if expanded(lang, p) {
        built_range(p.children@[p.children@.len() - 1], src, lang, None).1
    } else {
        start
    };
    match root {
        Some(r) => if expanded(lang, p) { r } else { (r.0, r.0) },
        None => {
            let local = src.subrange(start, end);
            if local.len() > 0 && local.last() == '\n' {
                let trimmed_end = end - trailing_newlines(local);
                (start, if trimmed_end >= last_child_end { trimmed_end } else { last_child_end })
            } else {
                (start, end)
            }
        },
    }
}

/// The number of bytes of the UTF-8 encoding of a character
pub open spec fn utf8_len(c: char) -> nat {
    if (c as u32) < 0x80 {
        1
    } else if (c as u32) < 0x800 {
        2
    } else if (c as u32) < 0x10000 {
        3
    } else {
        4
    }
}

/// The number of characters of the shortest start of the text whose UTF-8 encoding has at
/// least `n` bytes (the whole text if there is none)
pub open spec fn utf8_prefix_len(s: Seq<char>, n: int) -> nat
    decreases s.len(),
{
    if n <= 0 || s.len() == 0 {
        0
    } else {
        1 + utf8_prefix_len(s.skip(1), n - utf8_len(s[0]))
    }
}

/// The message reporting a syntax error at node `p`, whose text is `local`
pub open spec fn error_message(p: ParsedNode, local: Seq<char>) -> Seq<char> {
    "parse error at "@ + decimal(p.start_point.0 as nat) + seq![':'] + decimal(p.start_point.1 as nat) + ".."@
        + decimal(p.end_point.0 as nat) + seq![':'] + decimal(p.end_point.1 as nat) + ", starting with: "@
        + local.take(utf8_prefix_len(local, 32) as int)
}

/// The first syntax error met while building the tree from `p`: in its children, from
/// left to right, then in the node itself
pub open spec fn first_error(p: ParsedNode, src: Seq<char>, lang: LangProfile, root: Option<(int, int)>) -> Option<Seq<char>>
    decreases p, 1nat,
{
    let from_children = if expanded(lang, p) {
        first_error_in(p.children@, src, lang, p.children@.len() as int)
    } else {
        None
    };
    match from_children {
        Some(e) => Some(e),
        None => if p.is_error {
            let r = built_range(p, src, lang, root);
            Some(error_message(p, src.subrange(r.0, r.1)))
        } else {
            None
        },
    }
}

/// The first syntax error met while building the first `k` trees, as children
pub open spec fn first_error_in(s: Seq<ParsedNode>, src: Seq<char>, lang: LangProfile, k: int) -> Option<Seq<char>>
    decreases s, k,
{
    if k <= 0 || k > s.len() {
        None
    } else {
        match first_error_in(s, src, lang, k - 1) {
            Some(e) => Some(e),
            None => first_error(s[k - 1], src, lang, None),
        }
    }
}

/// The lines of a text (as `str::lines` gives them), each without its leading whitespace,
/// together with its position: `offset` counts the length of each line (without its line
/// break) plus one
pub open spec fn line_pieces(local: Seq<char>, offset: int) -> Seq<(Seq<char>, int)>
    decreases local.len(),
{
    if local.len() == 0 {
        Seq::empty()
    } else {
        let nl = first_newline(local);
        proof {
            lemma_first_newline(local);
        }
        let line = local.take(nl);
        let stripped = if nl < local.len() && nl > 0 && line.last() == '\r' { line.drop_last() } else { line };
        let trimmed = stripped.skip(leading_ws(stripped) as int);
        let rest = if nl < local.len() { local.skip(nl + 1) } else { Seq::empty() };
        seq![(trimmed, offset + stripped.len() - trimmed.len())] + line_pieces(rest, offset + stripped.len() + 1)
    }
}

/// The position of the first line break in a text (its length if there is none)
pub open spec fn first_newline(s: Seq<char>) -> int
    decreases s.len(),
{
    if s.len() == 0 {
        0
    } else if s[0] == '\n' {
        0
    } else {
        1 + first_newline(s.skip(1))
    }
}

pub proof fn lemma_first_newline(s: Seq<char>)
    ensures
        0 <= first_newline(s) <= s.len(),
        first_newline(s) < s.len() ==> s[first_newline(s)] == '\n',
        forall|j: int| 0 <= j < first_newline(s) ==> s[j] != '\n',
    decreases s.len(),
{
    if s.len() > 0 && s[0] != '\n' {
        lemma_first_newline(s.skip(1));
        assert forall|j: int| 0 <= j < first_newline(s) implies s[j] != '\n' by {
            if j > 0 {
                assert(s[j] == s.skip(1)[j - 1]);
            }
        }
    }
}

/// Is `n` the node that stands for a line of a multi-line leaf?
pub open spec fn is_virtual_line<'a>(n: AstNode<'a>, piece: (Seq<char>, int), lang: &'a LangProfile) -> bool {
    &&& n.grammar_name@ == VIRTUAL_LINE@
    &&& n.source@ == piece.0
    &&& n.field_name is None
    &&& n.byte_range.start == piece.1
    &&& n.byte_range.end == piece.1 + piece.0.len()
    &&& n.children@.len() == 0
    &&& n.descendant_count == 1
    &&& n.commutative_parent is None
    &&& n.lang_profile == lang
}

/// The children of `bs`, where those of kind `kind` are replaced by their own children
pub open spec fn flattened<'a>(bs: Seq<AstNode<'a>>, kind: Seq<char>) -> Seq<AstNode<'a>>
    decreases bs.len(),
{
    if bs.len() == 0 {
        Seq::empty()
    } else {
        let rest = flattened(bs.drop_last(), kind);
        if bs.last().grammar_name@ == kind {
            rest + bs.last().children@
        } else {
            rest.push(bs.last())
        }
    }
}

/// Are the children built from those of `p` flattened, because `p` is of a kind that the
/// language flattens and one of them, of the same kind, has several children?
pub open spec fn flattens(lang: LangProfile, p: ParsedNode, bs: Seq<AstNode>) -> bool {
    &&& names_view(lang.flattened_nodes@).contains(p.grammar_name@)
    &&& exists|i: int| 0 <= i < bs.len() && (#[trigger] bs[i]).grammar_name@ == p.grammar_name@ && bs[i].children@.len() >= 2
}

/// The commutative parent of the node built from `p`: the first one defined for its kind,
/// else the one that a query found for it
pub open spec fn commutative_parent_of<'a>(lang: &'a LangProfile, p: ParsedNode, cp: Option<&'a CommutativeParent>) -> bool {
    let cps = lang.commutative_parents@;
    if exists|i: int| 0 <= i < cps.len() && parent_has_kind(#[trigger] cps[i], p.grammar_name@) {
        exists|i: int| 0 <= i < cps.len() && parent_has_kind(cps[i], p.grammar_name@)
            && (forall|j: int| 0 <= j < i ==> !parent_has_kind(#[trigger] cps[j], p.grammar_name@))
            && cp == Some(&cps[i])
    } else {
        match p.query_commutative_parent {
            Some(q) => if q < cps.len() { cp == Some(&cps[q as int]) } else { cp is None },
            None => cp is None,
        }
    }
}

/// Is `n` the node built from `p` (hashes and identifiers aside)?
pub open spec fn built_from<'a>(n: AstNode<'a>, p: ParsedNode, src: Seq<char>, lang: &'a LangProfile, root: Option<(int, int)>) -> bool
    decreases p,
{
    let r = built_range(p, src, *lang, root);
    &&& n.grammar_name@ == p.grammar_name@
    &&& n.field_name == p.field_name
    &&& n.byte_range.start == r.0
    &&& n.byte_range.end == r.1
    &&& n.source@ == src.subrange(r.0, r.1)
    &&& n.lang_profile == lang
    &&& commutative_parent_of(lang, p, n.commutative_parent)
    &&& n.descendant_count == 1 + sum_sizes(n.children@, n.children@.len() as int)
    &&& if expanded(*lang, p) {
        exists|bs: Seq<AstNode<'a>>| {
            &&& bs.len() == p.children@.len()
            &&& (forall|i: int| 0 <= i < bs.len() ==> built_from(#[trigger] bs[i], p.children@[i], src, lang, None))
            &&& n.children@ == if flattens(*lang, p, bs) { flattened(bs, p.grammar_name@) } else { bs }
        }
    } else if n.source@.contains('\n') {
        let pieces = line_pieces(n.source@, r.0);
        &&& n.children@.len() == pieces.len()
        &&& forall|i: int| 0 <= i < pieces.len() ==> is_virtual_line(#[trigger] n.children@[i], pieces[i], lang)
    } else {
        n.children@.len() == 0
    }
}

/// The number of line breaks at the end of the characters `start..end`
fn trailing_newline_count(src: &Vec<char>, start: usize, end: usize) -> (res: usize)
    requires
        start <= end <= src@.len(),
    ensures
        res == trailing_newlines(src@.subrange(start as int, end as int)),
        res <= end - start,
{
    let mut k: usize = 0;
    while k < end - start && src[end - 1 - k] == '\n'
        invariant
            start <= end <= src@.len(),
            0 <= k <= end - start,
            trailing_newlines(src@.subrange(start as int, end as int))
                == k + trailing_newlines(src@.subrange(start as int, end - k)),
        decreases end - start - k,
    {
        proof {
            let t = src@.subrange(start as int, end - k);
            assert(t.drop_last() =~= src@.subrange(start as int, end - k - 1));
        }
        k = k + 1;
    }
    proof {
        let t = src@.subrange(start as int, end - k);
        if t.len() > 0 {
            assert(t.last() == src@[end - 1 - k]);
        }
    }
    k
}

/// The number of bytes of the UTF-8 encoding of a character
fn char_utf8_len(c: char) -> (res: usize)
    ensures
        res == utf8_len(c),
{
    let code = c as u32;
    if code < 0x80 {
        1
    } else if code < 0x800 {
        2
    } else if code < 0x10000 {
        3
    } else {
        4
    }
}

/// The number of characters of the shortest start of `v` whose UTF-8 encoding has at least
/// `n` bytes (all of them if there is none)
fn utf8_prefix(v: &Vec<char>, n: usize) -> (res: usize)
    ensures
        res == utf8_prefix_len(v@, n as int),
        res <= v@.len(),
{
    let mut i: usize = 0;
    let mut remaining: usize = n;
    assert(v@.skip(0) =~= v@);
    while i < v.len() && remaining > 0
        invariant
            0 <= i <= v@.len(),
            remaining <= n,
            utf8_prefix_len(v@, n as int) == i + utf8_prefix_len(v@.skip(i as int), remaining as int),
        decreases v@.len() - i,
    {
        let w = char_utf8_len(v[i]);
        proof {
            let t = v@.skip(i as int);
            assert(t[0] == v@[i as int]);
            assert(t.skip(1) =~= v@.skip(i + 1));
            if remaining < w {
                lemma_utf8_prefix_nonpositive(v@.skip(i + 1), remaining - w);
                lemma_utf8_prefix_nonpositive(v@.skip(i + 1), 0);
            }
        }
        remaining = if remaining > w { remaining - w } else { 0 };
        i = i + 1;
    }
    proof {
        let t = v@.skip(i as int);
        assert(t.len() == 0 || remaining == 0);
    }
    i
}

proof fn lemma_utf8_prefix_nonpositive(s: Seq<char>, n: int)
    requires
        n <= 0,
    ensures
        utf8_prefix_len(s, n) == 0,
{
}

/// The message reporting a syntax error at `p`, whose text is `local`
fn error_message_of(p: &ParsedNode, local: &Vec<char>) -> (res: String)
    ensures
        res@ == error_message(*p, local@),
{
    let mut msg = String::new();
    push_str(&mut msg, "parse error at ");
    push_str(&mut msg, decimal_string(p.start_point.0).as_str());
    push_char(&mut msg, ':');
    push_str(&mut msg, decimal_string(p.start_point.1).as_str());
    push_str(&mut msg, "..");
    push_str(&mut msg, decimal_string(p.end_point.0).as_str());
    push_char(&mut msg, ':');
    push_str(&mut msg, decimal_string(p.end_point.1).as_str());
    push_str(&mut msg, ", starting with: ");
    let k = utf8_prefix(local, 32);
    push_str(&mut msg, string_of_range(local, 0, k).as_str());
    proof {
        reveal_strlit("parse error at ");
        reveal_strlit("..");
        reveal_strlit(", starting with: ");
        assert(local@.subrange(0, k as int) =~= local@.take(k as int));
    }
    assert(msg@ =~= error_message(*p, local@));
    msg
}

/// Pull in all the grandchildren whose parent is of the given grammar name as children,
/// to flatten binary operators which are associative.
pub fn flatten_children<'a>(children: Vec<AstNode<'a>>, grammar_name: &str) -> (res: Vec<AstNode<'a>>)
    ensures
        res@ == flattened(children@, grammar_name@),
{
    let mut children = children;
    let ghost all = children@;
    let mut rev: Vec<AstNode<'a>> = Vec::new();
    while children.len() > 0
        invariant
            all == children@ + rev@.reverse(),
        decreases children@.len(),
    {
        let c = children.pop().unwrap();
        proof {
            assert(rev@.push(c).reverse() =~= seq![c] + rev@.reverse());
        }
        rev.push(c);
    }
    let mut res: Vec<AstNode<'a>> = Vec::new();
    let ghost n = all.len();
    while rev.len() > 0
        invariant
            rev@.len() <= n,
            all.len() == n,
            all == all.take(n - rev@.len()) + rev@.reverse(),
            res@ == flattened(all.take(n - rev@.len()), grammar_name@),
        decreases rev@.len(),
    {
        let mut c = rev.pop().unwrap();
        let ghost k = n - rev@.len();
        proof {
            assert(all.take(k).drop_last() =~= all.take(k - 1));
            assert(all.take(k).last() == c) by {
                assert(all == all.take(k - 1) + (rev@.push(c)).reverse());
                assert((rev@.push(c)).reverse()[0] == c);
            }
            assert(all == all.take(k) + rev@.reverse()) by {
                assert(all =~= all.take(k) + rev@.reverse());
            }
        }
        if str_eq(c.grammar_name.as_str(), grammar_name) {
            let ghost before = res@;
            let mut grandchildren: Vec<AstNode<'a>> = Vec::new();
            std::mem::swap(&mut grandchildren, &mut c.children);
            res.append(&mut grandchildren);
            assert(res@ =~= before + all.take(k).last().children@);
        } else {
            res.push(c);
        }
    }
    assert(all.take(n as int) =~= all);
    res
}

/// Hashes a text with `rustc_hash::FxHasher`, through `str`'s `Hash`.
/// Nothing is stated of the value: it depends on the width of the machine's words.
#[verifier::external_body]
fn hash_text(text: &str) -> u64 {
    let mut hasher = FxHasher::default();
    text.hash(&mut hasher);
    hasher.finish()
}

/// Hashes the kind, language and source of a leaf with `rustc_hash::FxHasher`, through
/// `str`'s `Hash`. Nothing is stated of the value: it depends on the width of the machine's words.
#[verifier::external_body]
fn hash_leaf(grammar_name: &str, lang_name: &str, source: &str) -> u64 {
    let mut hasher = FxHasher::default();
    grammar_name.hash(&mut hasher);
    lang_name.hash(&mut hasher);
    source.hash(&mut hasher);
    hasher.finish()
}

/// Hashes the kind and language of a node and the hashes of its children with
/// `rustc_hash::FxHasher`, through the `Hash` of `str` and of `[u64]`.
/// Nothing is stated of the value: it depends on the width of the machine's words.
#[verifier::external_body]
pub(crate) fn hash_inner(grammar_name: &str, lang_name: &str, child_hashes: &[u64]) -> u64 {
    let mut hasher = FxHasher::default();
    grammar_name.hash(&mut hasher);
    lang_name.hash(&mut hasher);
    child_hashes.hash(&mut hasher);
    hasher.finish()
}

proof fn lemma_first_newline_is(s: Seq<char>, k: int)
    requires
        0 <= k <= s.len(),
        k < s.len() ==> s[k] == '\n',
        forall|j: int| 0 <= j < k ==> s[j] != '\n',
    ensures
        first_newline(s) == k,
    decreases s.len(),
{
    if s.len() > 0 && k > 0 {
        assert forall|j: int| 0 <= j < k - 1 implies s.skip(1)[j] != '\n' by {
            assert(s.skip(1)[j] == s[j + 1]);
        }
        lemma_first_newline_is(s.skip(1), k - 1);
    }
}

/// The nodes standing for the lines of the leaf whose text is `local`, starting at `offset`
fn virtual_lines<'a>(local: &Vec<char>, offset: usize, lang: &'a LangProfile, next_id: &mut usize) -> (res: Vec<AstNode<'a>>)
    requires
        offset + local@.len() + 1 <= usize::MAX,
        *old(next_id) + local@.len() <= usize::MAX,
    ensures
        res@.len() == line_pieces(local@, offset as int).len(),
        forall|i: int| 0 <= i < res@.len() ==> is_virtual_line(#[trigger] res@[i], line_pieces(local@, offset as int)[i], lang),
        *final(next_id) == *old(next_id) + res@.len(),
        res@.len() <= local@.len(),
        forall|i: int| 0 <= i < res@.len() ==> (#[trigger] res@[i]).id == *old(next_id) + i,
{
    let ghost all = line_pieces(local@, offset as int);
    let mut res: Vec<AstNode<'a>> = Vec::new();
    let len = local.len();
    let mut pos: usize = 0;
    let mut off: usize = offset;
    assert(local@.skip(0) =~= local@);
    while pos < len
        invariant
            len == local@.len(),
            0 <= pos <= len,
            pos < len ==> off <= offset + pos,
            off <= offset + len + 1,
            offset + local@.len() + 1 <= usize::MAX,
            res@.len() <= pos,
            *next_id == *old(next_id) + res@.len(),
            *old(next_id) + local@.len() <= usize::MAX,
            forall|i: int| 0 <= i < res@.len() ==> (#[trigger] res@[i]).id == *old(next_id) + i,
            all == res@.map_values(|n: AstNode<'a>| (n.source@, n.byte_range.start as int)) + line_pieces(local@.skip(pos as int), off as int),
            forall|i: int| 0 <= i < res@.len() ==> is_virtual_line(#[trigger] res@[i], all[i], lang),
        decreases len - pos,
    {
        let ghost rest = local@.skip(pos as int);
        let mut nl = pos;
        while nl < len && local[nl] != '\n'
            invariant
                pos <= nl <= len,
                len == local@.len(),
                forall|j: int| pos <= j < nl ==> local@[j] != '\n',
            decreases len - nl,
        {
            nl = nl + 1;
        }
        proof {
            assert forall|j: int| 0 <= j < nl - pos implies rest[j] != '\n' by {
                assert(rest[j] == local@[pos + j]);
            }
            if nl < len {
                assert(rest[nl - pos] == local@[nl as int]);
            }
            lemma_first_newline_is(rest, nl - pos);
        }
        let stripped_end = if nl < len && nl > pos && local[nl - 1] == '\r' { nl - 1 } else { nl };
        let lead = leading_ws_count(local, pos, stripped_end);
        let source = string_of_range(local, pos + lead, stripped_end);
        let start_position = off + lead;
        let node = AstNode {
            hash: hash_text(source.as_str()),
            children: Vec::new(),
            source,
            grammar_name: VIRTUAL_LINE.to_owned(),
            field_name: None,
            byte_range: std::ops::Range { start: start_position, end: start_position + (stripped_end - pos - lead) },
            id: *next_id,
            descendant_count: 1,
            commutative_parent: None,
            lang_profile: lang,
        };
        proof {
            let line = rest.take(nl - pos);
            let stripped = if (nl - pos) < rest.len() && nl - pos > 0 && line.last() == '\r' { line.drop_last() } else { line };
            assert(stripped =~= local@.subrange(pos as int, stripped_end as int));
            let trimmed = stripped.skip(leading_ws(stripped) as int);
            assert(trimmed =~= local@.subrange(pos + lead, stripped_end as int));
            let next_rest = if nl < len { rest.skip(nl - pos + 1) } else { Seq::<char>::empty() };
            if nl < len {
                assert(next_rest =~= local@.skip(nl + 1));
            } else {
                assert(local@.skip(len as int) =~= Seq::<char>::empty());
            }
            reveal_strlit("@virtual_line@");
        }
        *next_id = *next_id + 1;
        let ghost before = res@;
        res.push(node);
        proof {
            assert(res@.map_values(|n: AstNode<'a>| (n.source@, n.byte_range.start as int))
                =~= before.map_values(|n: AstNode<'a>| (n.source@, n.byte_range.start as int)).push((node.source@, node.byte_range.start as int)));
        }
        off = off + (stripped_end - pos) + 1;
        pos = if nl < len { nl + 1 } else { len };
        proof {
            assert(all == res@.map_values(|n: AstNode<'a>| (n.source@, n.byte_range.start as int)) + line_pieces(local@.skip(pos as int), off as int));
        }
    }
    proof {
        assert(local@.skip(len as int) =~= Seq::<char>::empty());
        assert(all =~= res@.map_values(|n: AstNode<'a>| (n.source@, n.byte_range.start as int)));
    }
    res
}

/// How many node identifiers building the tree from `p` may use at most, in a text of
/// length `len`
pub open spec fn id_budget(p: ParsedNode, len: nat) -> nat
    decreases p, 1nat,
{
    1 + len + budget_sum(p.children@, len, p.children@.len() as int)
}

/// The identifier budgets of the first `k` trees, added up
pub open spec fn budget_sum(s: Seq<ParsedNode>, len: nat, k: int) -> nat
    decreases s, k,
{
    if k <= 0 || k > s.len() {
        0
    } else {
        budget_sum(s, len, k - 1) + id_budget(s[k - 1], len)
    }
}

proof fn lemma_all_sizes(s: Seq<AstNode>, k: int)
    requires
        0 <= k <= s.len(),
    ensures
        all_sizes_add_up(s, k) <==> forall|i: int| 0 <= i < k ==> sizes_add_up(#[trigger] s[i]),
    decreases k,
{
    if k > 0 {
        lemma_all_sizes(s, k - 1);
    }
}

proof fn lemma_sum_sizes_prefix(s: Seq<AstNode>, t: Seq<AstNode>, k: int)
    requires
        0 <= k <= s.len(),
        k <= t.len(),
        forall|i: int| 0 <= i < k ==> s[i] == t[i],
    ensures
        sum_sizes(s, k) == sum_sizes(t, k),
    decreases k,
{
    if k > 0 {
        lemma_sum_sizes_prefix(s, t, k - 1);
    }
}

proof fn lemma_sum_sizes_append(a: Seq<AstNode>, b: Seq<AstNode>)
    ensures
        sum_sizes(a + b, (a.len() + b.len()) as int) == sum_sizes(a, a.len() as int) + sum_sizes(b, b.len() as int),
    decreases b.len(),
{
    if b.len() == 0 {
        assert(a + b =~= a);
    } else {
        let c = a + b;
        lemma_sum_sizes_append(a, b.drop_last());
        lemma_sum_sizes_prefix(c, a + b.drop_last(), a.len() + b.len() - 1);
        lemma_sum_sizes_prefix(b, b.drop_last(), b.len() - 1);
    }
}

proof fn lemma_flattened_sizes<'a>(bs: Seq<AstNode<'a>>, kind: Seq<char>)
    requires
        forall|i: int| 0 <= i < bs.len() ==> sizes_add_up(#[trigger] bs[i]),
    ensures
        sum_sizes(flattened(bs, kind), flattened(bs, kind).len() as int) <= sum_sizes(bs, bs.len() as int),
        forall|i: int| 0 <= i < flattened(bs, kind).len() ==> sizes_add_up(#[trigger] flattened(bs, kind)[i]),
    decreases bs.len(),
{
    if bs.len() > 0 {
        let init = bs.drop_last();
        let c = bs.last();
        lemma_flattened_sizes(init, kind);
        let rest = flattened(init, kind);
        lemma_sum_sizes_prefix(bs, init, bs.len() - 1);
        assert(sizes_add_up(c));
        if c.grammar_name@ == kind {
            lemma_sum_sizes_append(rest, c.children@);
            lemma_all_sizes(c.children@, c.children@.len() as int);
            let f = rest + c.children@;
            assert forall|i: int| 0 <= i < f.len() implies sizes_add_up(#[trigger] f[i]) by {
                if i >= rest.len() {
                    assert(f[i] == c.children@[i - rest.len()]);
                }
            }
            if c.children@.len() == 0 {
                assert(sum_sizes(c.children@, 0) == 0);
            }
        } else {
            lemma_sum_sizes_append(rest, seq![c]);
            assert(rest.push(c) =~= rest + seq![c]);
            assert(sum_sizes(seq![c], 1) == c.descendant_count) by {
                assert(sum_sizes(seq![c], 0) == 0);
            }
        }
    }
}

proof fn lemma_first_error_stays(s: Seq<ParsedNode>, src: Seq<char>, lang: LangProfile, k: int, m: int)
    requires
        0 <= k <= m <= s.len(),
        first_error_in(s, src, lang, k) is Some,
    ensures
        first_error_in(s, src, lang, m) == first_error_in(s, src, lang, k),
    decreases m - k,
{
    if k < m {
        lemma_first_error_stays(s, src, lang, k, m - 1);
    }
}

/// Is the kind among those that the language flattens?
fn is_flattened_kind(lang: &LangProfile, kind: &str) -> (res: bool)
    ensures
        res == names_view(lang.flattened_nodes@).contains(kind@),
{
    let names = lang.flattened_nodes;
    let mut i: usize = 0;
    while i < names.len()
        invariant
            0 <= i <= names@.len(),
            names@ == lang.flattened_nodes@,
            forall|j: int| 0 <= j < i ==> names@[j]@ != kind@,
        decreases names@.len() - i,
    {
        if str_eq(names[i], kind) {
            assert(names_view(names@)[i as int] == kind@);
            return true;
        }
        i = i + 1;
    }
    proof {
        if names_view(names@).contains(kind@) {
            let j = choose|j: int| 0 <= j < names_view(names@).len() && names_view(names@)[j] == kind@;
            assert(names@[j]@ == kind@);
        }
    }
    false
}

/// The commutative parent of the node built from `p`: the first one defined for its kind,
/// else the one that a query found for it
fn find_commutative_parent<'a>(lang: &'a LangProfile, p: &ParsedNode) -> (res: Option<&'a CommutativeParent>)
    ensures
        commutative_parent_of(lang, *p, res),
{
    match lang.get_commutative_parent_by_kind(p.grammar_name.as_str()) {
        Some(cp) => Some(cp),
        None => match p.query_commutative_parent {
            Some(q) => if q < lang.commutative_parents.len() {
                Some(&lang.commutative_parents[q])
            } else {
                None
            },
            None => None,
        },
    }
}

impl<'a> AstNode<'a> {
    /// Builds the node for `parsed` and its subtree: `root` is the range of the root if this
    /// is the root, and the identifiers are allocated from `next_id`, after those of the
    /// descendants
    #[verifier::rlimit(50)]
    #[verifier::spinoff_prover]
    fn internal_new(
        parsed: &ParsedNode,
        src: &Vec<char>,
        lang: &'a LangProfile,
        next_id: &mut usize,
        root: Option<(usize, usize)>,
    ) -> (res: Result<AstNode<'a>, String>)
        requires
            parsed_within(*parsed, src@.len() as int),
            src@.len() < usize::MAX,
            root matches Some(r) ==> r.0 <= r.1 <= src@.len(),
            *old(next_id) + id_budget(*parsed, src@.len()) <= usize::MAX,
        ensures
            ({
                let root_view = match root {
                    Some(r) => Some((r.0 as int, r.1 as int)),
                    None => None,
                };
                match res {
                    Ok(n) => {
                        &&& first_error(*parsed, src@, *lang, root_view) is None
                        &&& built_from(n, *parsed, src@, lang, root_view)
                        &&& sizes_add_up(n)
                        &&& exact_sizes(n)
                        &&& increasing_ids(postfix_of(n))
                        &&& ids_between(postfix_of(n), *old(next_id) as int, *final(next_id) as int)
                        &&& *old(next_id) < *final(next_id) <= *old(next_id) + id_budget(*parsed, src@.len())
                        &&& n.descendant_count <= *final(next_id) - *old(next_id)
                        &&& n.id == *final(next_id) - 1
                    },
                    Err(e) => first_error(*parsed, src@, *lang, root_view) == Some(e@),
                }
            }),
        decreases parsed,
    {
        let ghost root_view = match root {
            Some(r) => Some((r.0 as int, r.1 as int)),
            None => None,
        };
        let ghost start_id = *next_id;
        let ghost len = src@.len();
        let atomic = lang.is_atomic_node_type(parsed.grammar_name.as_str());
        let mut children: Vec<AstNode<'a>> = Vec::new();
        let mut last_child_end = parsed.byte_range.start;
        let mut flatten_candidate = false;
        if !atomic && parsed.children.len() > 0 {
            let mut i: usize = 0;
            while i < parsed.children.len()
                invariant
                    0 <= i <= parsed.children@.len(),
                    !is_atomic(*lang, *parsed),
                    parsed_within(*parsed, len as int),
                    len == src@.len(),
                    len < usize::MAX,
                    start_id + id_budget(*parsed, len) <= usize::MAX,
                    children@.len() == i,
                    forall|j: int| 0 <= j < i ==> built_from(#[trigger] children@[j], parsed.children@[j], src@, lang, None),
                    forall|j: int| 0 <= j < i ==> sizes_add_up(#[trigger] children@[j]),
                    forall|j: int| 0 <= j < i ==> exact_sizes(#[trigger] children@[j]),
                    increasing_ids(postfix_all(children@, i as int)),
                    ids_between(postfix_all(children@, i as int), start_id as int, *next_id as int),
                    start_id <= *next_id <= start_id + budget_sum(parsed.children@, len, i as int),
                    sum_sizes(children@, i as int) <= *next_id - start_id,
                    first_error_in(parsed.children@, src@, *lang, i as int) is None,
                    flatten_candidate == exists|j: int| 0 <= j < i
                        && (#[trigger] children@[j]).grammar_name@ == parsed.grammar_name@ && children@[j].children@.len() >= 2,
                    i > 0 ==> last_child_end == built_range(parsed.children@[i - 1], src@, *lang, None).1,
                    i == 0 ==> last_child_end == parsed.byte_range.start,
                    last_child_end <= parsed.byte_range.end,
                decreases parsed.children@.len() - i,
            {
                proof {
                    lemma_all_parsed_within(parsed.children@, len as int, parsed.children@.len() as int);
                    lemma_budget_sum_step(parsed.children@, len, i as int, parsed.children@.len() as int);
                    assert(decreases_to!(*parsed => parsed.children@[i as int]));
                }
                let ghost old_next_id_marker = *next_id;
                let child = match AstNode::internal_new(&parsed.children[i], src, lang, next_id, None) {
                    Ok(c) => c,
                    Err(e) => {
                        proof {
                            assert(first_error_in(parsed.children@, src@, *lang, i + 1) == Some(e@));
                            lemma_first_error_stays(parsed.children@, src@, *lang, i + 1, parsed.children@.len() as int);
                        }
                        return Err(e);
                    },
                };
                proof {
                    lemma_built_range_within(parsed.children@[i as int], src@, *lang);
                }
                let is_candidate = str_eq(child.grammar_name.as_str(), parsed.grammar_name.as_str()) && child.children.len() >= 2;
                let ghost was_candidate = flatten_candidate;
                if is_candidate {
                    flatten_candidate = true;
                }
                last_child_end = child.byte_range.end;
                let ghost before = children@;
                let ghost next_before_child = old_next_id_marker;
                children.push(child);
                proof {
                    lemma_sum_sizes_prefix(children@, before, i as int);
                    lemma_postfix_all_prefix(children@, before, i as int);
                    lemma_concat_ids(postfix_all(before, i as int), postfix_of(child), start_id as int, next_before_child as int, *next_id as int);
                    assert(children@[i as int] == child);
                    if is_candidate {
                        assert(children@[i as int].grammar_name@ == parsed.grammar_name@ && children@[i as int].children@.len() >= 2);
                    }
                    if flatten_candidate {
                        if !is_candidate {
                            assert(was_candidate);
                            let j = choose|j: int| 0 <= j < i
                                && (#[trigger] before[j]).grammar_name@ == parsed.grammar_name@ && before[j].children@.len() >= 2;
                            assert(children@[j] == before[j]);
                        }
                    } else {
                        assert forall|j: int| 0 <= j < i + 1 implies !((#[trigger] children@[j]).grammar_name@ == parsed.grammar_name@
                            && children@[j].children@.len() >= 2) by {
                            if j < i {
                                assert(children@[j] == before[j]);
                            }
                        }
                    }
                }
                i = i + 1;
            }
        }
        let ghost built = children@;
        let start = parsed.byte_range.start;
        let end = parsed.byte_range.end;
        let (s, e) = match root {
            Some((a, b)) => if children.len() == 0 { (a, a) } else { (a, b) },
            None => {
                if end > start && src[end - 1] == '\n' {
                    let k = trailing_newline_count(src, start, end);
                    let trimmed_end = end - k;
                    (start, if trimmed_end >= last_child_end { trimmed_end } else { last_child_end })
                } else {
                    (start, end)
                }
            },
        };
        proof {
            let local = src@.subrange(start as int, end as int);
            if local.len() > 0 {
                assert(local.last() == src@[end - 1]);
            }
            assert(expanded(*lang, *parsed) == (children@.len() > 0));
            assert((s as int, e as int) == built_range(*parsed, src@, *lang, root_view));
        }
        let local = crate::text::vec_of_range(src, s, e);
        if parsed.is_error {
            return Err(error_message_of(parsed, &local));
        }
        let source = string_of_range(src, s, e);
        if children.len() == 0 && crate::text::str_contains_char(source.as_str(), '\n') {
            children = virtual_lines(&local, s, lang, next_id);
        }
        let ghost before_flattening = children@;
        let do_flatten = flatten_candidate && is_flattened_kind(lang, parsed.grammar_name.as_str());
        if do_flatten {
            children = flatten_children(children, parsed.grammar_name.as_str());
        }
        proof {
            if expanded(*lang, *parsed) {
                if do_flatten {
                    lemma_postfix_flattened(built, parsed.grammar_name@);
                    let f = postfix_all(children@, children@.len() as int);
                    let b = postfix_all(built, built.len() as int);
                    assert forall|k: int| 0 <= k < f.len() implies start_id <= (#[trigger] f[k]).id < *next_id by {
                        let m = choose|m: int| 0 <= m < b.len() && b[m] == f[k];
                        assert(b[m].id < *next_id);
                    }
                }
            } else {
                lemma_leaves_postfix(children@, children@.len() as int);
            }
            assert(increasing_ids(postfix_all(children@, children@.len() as int)));
            assert(ids_between(postfix_all(children@, children@.len() as int), start_id as int, *next_id as int));
        }
        proof {
            if expanded(*lang, *parsed) {
                assert(flattens(*lang, *parsed, built) == do_flatten);
                if do_flatten {
                    lemma_flattened_sizes(built, parsed.grammar_name@);
                    lemma_flattened_exact(built, parsed.grammar_name@);
                }
            } else {
                assert forall|j: int| 0 <= j < children@.len() implies sizes_add_up(#[trigger] children@[j]) && exact_sizes(children@[j]) by {
                    assert(children@[j].children@.len() == 0);
                    assert(all_sizes_add_up(children@[j].children@, 0));
                    assert(all_exact_sizes(children@[j].children@, 0));
                    assert(sum_sizes(children@[j].children@, 0) == 0);
                }
                lemma_sum_sizes_ones(children@, children@.len() as int);
            }
            lemma_all_sizes(children@, children@.len() as int);
            lemma_all_exact(children@, children@.len() as int);
        }
        let mut total: usize = 0;
        let mut hashes: Vec<u64> = Vec::new();
        let mut j: usize = 0;
        while j < children.len()
            invariant
                0 <= j <= children@.len(),
                hashes@.len() == j,
                total == sum_sizes(children@, j as int),
                sum_sizes(children@, children@.len() as int) <= *next_id - start_id,
                *next_id <= usize::MAX,
            decreases children@.len() - j,
        {
            proof {
                lemma_sum_sizes_monotonic(children@, j as int + 1, children@.len() as int);
            }
            total = total + children[j].descendant_count;
            hashes.push(children[j].hash);
            j = j + 1;
        }
        let hash = if children.len() == 0 {
            hash_leaf(parsed.grammar_name.as_str(), lang.name, source.as_str())
        } else {
            hash_inner(parsed.grammar_name.as_str(), lang.name, hashes.as_slice())
        };
        proof {
            lemma_budget_sum_step(parsed.children@, len, parsed.children@.len() as int, parsed.children@.len() as int);
        }
        let id = *next_id;
        *next_id = *next_id + 1;
        let node = AstNode {
            hash,
            children,
            source,
            grammar_name: parsed.grammar_name.clone(),
            field_name: parsed.field_name.clone(),
            byte_range: std::ops::Range { start: s, end: e },
            id,
            descendant_count: total + 1,
            commutative_parent: find_commutative_parent(lang, parsed),
            lang_profile: lang,
        };
        proof {
            if expanded(*lang, *parsed) {
                assert(node.children@ == if flattens(*lang, *parsed, built) { flattened(built, parsed.grammar_name@) } else { built });
            }
            let p = postfix_all(node.children@, node.children@.len() as int);
            assert(postfix_of(node) == p.push(node));
            assert forall|a: int, b: int| 0 <= a < b < p.push(node).len() implies (#[trigger] p.push(node)[a]).id < (#[trigger] p.push(node)[b]).id by {
                if b == p.len() {
                    assert(p[a].id < id);
                } else {
                    assert(p.push(node)[a] == p[a] && p.push(node)[b] == p[b]);
                }
            }
            assert forall|a: int| 0 <= a < p.push(node).len() implies start_id <= (#[trigger] p.push(node)[a]).id < *next_id by {
                if a < p.len() {
                    assert(p.push(node)[a] == p[a]);
                }
            }
        }
        Ok(node)
    }
}

proof fn lemma_all_parsed_within(s: Seq<ParsedNode>, len: int, k: int)
    requires
        0 <= k <= s.len(),
        all_parsed_within(s, len, k),
    ensures
        forall|i: int| 0 <= i < k ==> parsed_within(#[trigger] s[i], len),
    decreases k,
{
    if k > 0 {
        lemma_all_parsed_within(s, len, k - 1);
    }
}

proof fn lemma_budget_sum_step(s: Seq<ParsedNode>, len: nat, k: int, m: int)
    requires
        0 <= k <= m <= s.len(),
    ensures
        budget_sum(s, len, k) <= budget_sum(s, len, m),
        k < m ==> budget_sum(s, len, k) + id_budget(s[k], len) <= budget_sum(s, len, m),
    decreases m - k,
{
    if k < m {
        lemma_budget_sum_step(s, len, k, m - 1);
    }
}

proof fn lemma_built_range_within(p: ParsedNode, src: Seq<char>, lang: LangProfile)
    requires
        parsed_within(p, src.len() as int),
    ensures
        p.byte_range.start <= built_range(p, src, lang, None).0 <= built_range(p, src, lang, None).1 <= p.byte_range.end,
    decreases p,
{
    if expanded(lang, p) {
        let last = p.children@[p.children@.len() - 1];
        lemma_all_parsed_within(p.children@, src.len() as int, p.children@.len() as int);
        lemma_built_range_within(last, src, lang);
    }
    let local = src.subrange(p.byte_range.start as int, p.byte_range.end as int);
    lemma_trailing_newlines_bound(local);
}

proof fn lemma_trailing_newlines_bound(s: Seq<char>)
    ensures
        trailing_newlines(s) <= s.len(),
    decreases s.len(),
{
    if s.len() > 0 && s.last() == '\n' {
        lemma_trailing_newlines_bound(s.drop_last());
    }
}

proof fn lemma_sum_sizes_ones(s: Seq<AstNode>, k: int)
    requires
        0 <= k <= s.len(),
        forall|i: int| 0 <= i < s.len() ==> (#[trigger] s[i]).descendant_count == 1,
    ensures
        sum_sizes(s, k) == k,
    decreases k,
{
    if k > 0 {
        lemma_sum_sizes_ones(s, k - 1);
    }
}

/// The nodes of a tree in depth-first order, each before its descendants
pub open spec fn dfs_of<'a>(n: AstNode<'a>) -> Seq<AstNode<'a>>
    decreases n, 1nat,
{
    seq![n] + dfs_all(n.children@, n.children@.len() as int)
}

/// The depth-first orders of the first `k` trees, one after the other
pub open spec fn dfs_all<'a>(s: Seq<AstNode<'a>>, k: int) -> Seq<AstNode<'a>>
    decreases s, k,
{
    if k <= 0 || k > s.len() {
        Seq::empty()
    } else {
        dfs_all(s, k - 1) + dfs_of(s[k - 1])
    }
}

/// The nodes of a tree in postfix order, each after its descendants
pub open spec fn postfix_of<'a>(n: AstNode<'a>) -> Seq<AstNode<'a>>
    decreases n, 1nat,
{
    postfix_all(n.children@, n.children@.len() as int).push(n)
}

/// The postfix orders of the first `k` trees, one after the other
pub open spec fn postfix_all<'a>(s: Seq<AstNode<'a>>, k: int) -> Seq<AstNode<'a>>
    decreases s, k,
{
    if k <= 0 || k > s.len() {
        Seq::empty()
    } else {
        postfix_all(s, k - 1) + postfix_of(s[k - 1])
    }
}

/// The nodes a sequence of references points to
pub open spec fn derefs<'a, 'b>(s: Seq<&'b AstNode<'a>>) -> Seq<AstNode<'a>> {
    s.map_values(|r: &'b AstNode<'a>| *r)
}

impl<'a> AstNode<'a> {
    /// The nodes of the tree in depth-first order, each before its descendants
    pub fn dfs<'b>(&'b self) -> (res: Vec<&'b AstNode<'a>>)
        ensures
            derefs(res@) == dfs_of(*self),
        decreases self,
    {
        let mut res: Vec<&'b AstNode<'a>> = Vec::new();
        res.push(self);
        let mut i: usize = 0;
        while i < self.children.len()
            invariant
                0 <= i <= self.children@.len(),
                derefs(res@) == seq![*self] + dfs_all(self.children@, i as int),
            decreases self.children@.len() - i,
        {
            let mut sub = self.children[i].dfs();
            let ghost before = res@;
            res.append(&mut sub);
            proof {
                assert(derefs(res@) =~= derefs(before) + dfs_of(self.children@[i as int]));
            }
            i = i + 1;
        }
        res
    }

    /// The nodes of the tree in postfix order, each after its descendants
    pub fn postfix<'b>(&'b self) -> (res: Vec<&'b AstNode<'a>>)
        ensures
            derefs(res@) == postfix_of(*self),
        decreases self,
    {
        let mut res: Vec<&'b AstNode<'a>> = Vec::new();
        let mut i: usize = 0;
        while i < self.children.len()
            invariant
                0 <= i <= self.children@.len(),
                derefs(res@) == postfix_all(self.children@, i as int),
            decreases self.children@.len() - i,
        {
            let mut sub = self.children[i].postfix();
            let ghost before = res@;
            res.append(&mut sub);
            proof {
                assert(derefs(res@) =~= derefs(before) + postfix_of(self.children@[i as int]));
            }
            i = i + 1;
        }
        let ghost before = res@;
        res.push(self);
        assert(derefs(res@) =~= derefs(before).push(*self));
        res
    }

    /// Get children by field name (children do not need to be associated to a field name,
    /// those are set in the grammar in particular rules)
    pub fn children_by_field_name<'b>(&'b self, field_name: &str) -> (res: Option<Vec<&'b AstNode<'a>>>)
        ensures
            match res {
                Some(v) => v@.len() > 0 && derefs(v@) == self.children@.filter(|c: AstNode<'a>| c.field_name matches Some(f) && f@ == field_name@),
                None => self.children@.filter(|c: AstNode<'a>| c.field_name matches Some(f) && f@ == field_name@).len() == 0,
            },
    {
        let ghost pred = |c: AstNode<'a>| c.field_name matches Some(f) && f@ == field_name@;
        let mut res: Vec<&'b AstNode<'a>> = Vec::new();
        let mut i: usize = 0;
        while i < self.children.len()
            invariant
                0 <= i <= self.children@.len(),
                pred == (|c: AstNode<'a>| c.field_name matches Some(f) && f@ == field_name@),
                derefs(res@) == self.children@.take(i as int).filter(pred),
            decreases self.children@.len() - i,
        {
            let c = &self.children[i];
            let matches = match &c.field_name {
                Some(f) => str_eq(f.as_str(), field_name),
                None => false,
            };
            proof {
                assert(self.children@.take(i + 1).drop_last() =~= self.children@.take(i as int));
                assert(self.children@.take(i + 1).last() == *c);
                reveal(Seq::filter);
                assert(pred(*c) == matches);
            }
            if matches {
                let ghost before = res@;
                res.push(c);
                assert(derefs(res@) =~= derefs(before).push(*c));
            }
            i = i + 1;
        }
        proof {
            assert(self.children@.take(self.children@.len() as int) =~= self.children@);
            assert(derefs(res@).len() == res@.len());
        }
        if res.len() == 0 {
            None
        } else {
            Some(res)
        }
    }
}

/// The whitespace between child `index - 1` and child `index` of `n`, if `index` is a child
/// with a predecessor
pub open spec fn preceding_whitespace_of<'a>(n: AstNode<'a>, index: int) -> Option<Seq<char>> {
    if 0 < index < n.children@.len() {
        let start = n.byte_range.start as int;
        Some(n.source@.subrange(n.children@[index - 1].byte_range.end - start, n.children@[index].byte_range.start - start))
    } else {
        None
    }
}

/// Do the children `index - 1` and `index` lie, one after the other, within the text of `n`?
pub open spec fn siblings_within<'a>(n: AstNode<'a>, index: int) -> bool {
    let start = n.byte_range.start as int;
    0 < index < n.children@.len() ==> start <= n.children@[index - 1].byte_range.end
        <= n.children@[index].byte_range.start <= start + n.source@.len()
}

impl<'a> AstNode<'a> {
    /// Builds the syntax tree of a source text from what the parser reported of it (its root
    /// node), numbering the nodes from 1
    pub fn parse(source: &str, parsed: &ParsedNode, lang_profile: &'a LangProfile) -> (res: Result<AstNode<'a>, String>)
        requires
            parsed_within(*parsed, source@.len() as int),
            source@.len() < usize::MAX,
            1 + id_budget(*parsed, source@.len()) <= usize::MAX,
        ensures
            match res {
                Ok(n) => {
                    &&& first_error(*parsed, source@, *lang_profile, Some((0, source@.len() as int))) is None
                    &&& built_from(n, *parsed, source@, lang_profile, Some((0, source@.len() as int)))
                    &&& sizes_add_up(n)
                    &&& exact_sizes(n)
                    &&& increasing_ids(postfix_of(n))
                },
                Err(e) => first_error(*parsed, source@, *lang_profile, Some((0, source@.len() as int))) == Some(e@),
            },
    {
        let src = to_chars(source);
        let mut next_id: usize = 1;
        AstNode::internal_new(parsed, &src, lang_profile, &mut next_id, Some((0, src.len())))
    }

    /// Any part of the source between the start of this node and
    /// the start of its first child (if any). There generally isn't any,
    /// but it can be present as leading whitespace at the root of a document
    /// for instance.
    pub fn leading_source(&self) -> (res: Option<String>)
        requires
            self.children@.len() > 0 ==> self.byte_range.start <= self.children@[0].byte_range.start
                <= self.byte_range.start + self.source@.len(),
        ensures
            match res {
                Some(r) => self.children@.len() > 0 && self.children@[0].byte_range.start > self.byte_range.start
                    && r@ == self.source@.take(self.children@[0].byte_range.start - self.byte_range.start),
                None => !(self.children@.len() > 0 && self.children@[0].byte_range.start > self.byte_range.start),
            },
    {
        if self.children.len() == 0 {
            return None;
        }
        let offset = self.children[0].byte_range.start - self.byte_range.start;
        if offset > 0 {
            let v = to_chars(self.source.as_str());
            let r = string_of_range(&v, 0, offset);
            assert(v@.subrange(0, offset as int) =~= self.source@.take(offset as int));
            Some(r)
        } else {
            None
        }
    }
}

/// The text of `n` between the end of child `index - 1` (or its own start, for the first
/// child) and the start of child `index + 1` (or its own end, for the last child)
pub open spec fn surrounded_source<'a>(n: AstNode<'a>, index: int) -> Seq<char> {
    let child = n.children@[index];
    let start = if index > 0 { n.children@[index - 1].byte_range.end as int } else { child.byte_range.start as int };
    let end = if index + 1 < n.children@.len() { n.children@[index + 1].byte_range.start as int } else { child.byte_range.end as int };
    n.source@.subrange(start - n.byte_range.start, end - n.byte_range.start)
}

/// A text where each tab stands for `w` spaces
pub open spec fn tabs_as_spaces(s: Seq<char>, w: nat) -> Seq<char>
    decreases s.len(),
{
    if s.len() == 0 {
        Seq::empty()
    } else {
        tabs_as_spaces(s.drop_last(), w) + if s.last() == '\t' { Seq::new(w, |i: int| ' ') } else { seq![s.last()] }
    }
}

/// Walking back from position `k` of `s` over characters worth `remaining` spaces (a tab
/// being worth `w`), where one stops
pub open spec fn walk_back(s: Seq<char>, k: int, remaining: int, w: nat) -> int
    decreases k,
{
    if remaining <= 0 || k <= 0 || k > s.len() {
        k
    } else {
        walk_back(s, k - 1, remaining - if s[k - 1] == '\t' { w as int } else { 1 }, w)
    }
}

/// The end of `own` that the indentation of `ancestor` leaves, comparing both with tabs
/// worth `w` spaces (`None` if `ancestor` is not a prefix of `own`, or leaves nothing)
pub open spec fn indentation_suffix(own: Seq<char>, ancestor: Seq<char>, w: nat) -> Option<Seq<char>> {
    let o = tabs_as_spaces(own, w);
    let a = tabs_as_spaces(ancestor, w);
    if a.len() <= o.len() && o.take(a.len() as int) == a {
        let idx = walk_back(own, own.len() as int, o.len() - a.len(), w);
        if idx < own.len() {
            Some(own.skip(idx))
        } else {
            None
        }
    } else {
        None
    }
}

/// The text with each tab replaced by `w` spaces
fn replace_tabs(v: &Vec<char>, w: usize) -> (res: Vec<char>)
    requires
        v@.len() * w + v@.len() <= usize::MAX,
    ensures
        res@ == tabs_as_spaces(v@, w as nat),
        res@.len() <= v@.len() * w + v@.len(),
{
    let mut res: Vec<char> = Vec::new();
    let mut i: usize = 0;
    while i < v.len()
        invariant
            0 <= i <= v@.len(),
            res@ == tabs_as_spaces(v@.take(i as int), w as nat),
            res@.len() <= i * w + i,
            v@.len() * w + v@.len() <= usize::MAX,
        decreases v@.len() - i,
    {
        let ghost before = res@;
        if v[i] == '\t' {
            let mut k: usize = 0;
            while k < w
                invariant
                    0 <= k <= w,
                    res@ == before + Seq::new(k as nat, |j: int| ' '),
                decreases w - k,
            {
                res.push(' ');
                k = k + 1;
                assert(res@ =~= before + Seq::new(k as nat, |j: int| ' '));
            }
        } else {
            res.push(v[i]);
        }
        proof {
            assert(v@.take(i + 1).drop_last() =~= v@.take(i as int));
            assert(v@.take(i + 1).last() == v@[i as int]);
            assert(res@ =~= tabs_as_spaces(v@.take(i + 1), w as nat));
            assert((i + 1) * w + (i + 1) <= v@.len() * w + v@.len()) by (nonlinear_arith)
                requires i + 1 <= v@.len();
            assert(i * w + i + w + 1 == (i + 1) * w + (i + 1)) by (nonlinear_arith);
        }
        i = i + 1;
    }
    assert(v@.take(v@.len() as int) =~= v@);
    res
}

impl<'a> AstNode<'a> {
    /// Any whitespace between the end of the last child of this node
    /// and the end of this node itself
    pub fn trailing_whitespace(&self) -> (res: Option<String>)
        requires
            self.children@.len() > 0 ==> self.byte_range.start <= self.children@.last().byte_range.end
                <= self.byte_range.start + self.source@.len(),
        ensures
            match res {
                Some(r) => self.children@.len() > 0 && r@ == self.source@.skip(self.children@.last().byte_range.end - self.byte_range.start)
                    && r@.len() > 0 && is_blank(r@),
                None => self.children@.len() == 0 || ({
                    let rest = self.source@.skip(self.children@.last().byte_range.end - self.byte_range.start);
                    rest.len() == 0 || !is_blank(rest)
                }),
            },
    {
        if self.children.len() == 0 {
            return None;
        }
        let v = to_chars(self.source.as_str());
        let from = self.children[self.children.len() - 1].byte_range.end - self.byte_range.start;
        let additional = string_of_range(&v, from, v.len());
        assert(v@.subrange(from as int, v@.len() as int) =~= self.source@.skip(from as int));
        if from < v.len() && str_is_blank(additional.as_str()) {
            Some(additional)
        } else {
            None
        }
    }

    /// Any whitespace that precedes child `index` of this node: `None` if that child has
    /// no predecessor, otherwise the whitespace between its predecessor and itself
    pub fn preceding_whitespace(&self, index: usize) -> (res: Option<String>)
        requires
            siblings_within(*self, index as int),
        ensures
            match res {
                Some(r) => preceding_whitespace_of(*self, index as int) == Some(r@),
                None => preceding_whitespace_of(*self, index as int) is None,
            },
    {
        if index == 0 || index >= self.children.len() {
            return None;
        }
        let v = to_chars(self.source.as_str());
        let start = self.children[index - 1].byte_range.end - self.byte_range.start;
        let end = self.children[index].byte_range.start - self.byte_range.start;
        Some(string_of_range(&v, start, end))
    }

    /// Raw indentation that precedes child `index` of this node: what follows the last line
    /// break of its preceding whitespace (`None` if there is no line break)
    pub fn preceding_indentation(&self, index: usize) -> (res: Option<String>)
        requires
            siblings_within(*self, index as int),
        ensures
            match res {
                Some(r) => preceding_whitespace_of(*self, index as int) matches Some(ws)
                    && last_index_of(ws, '\n') >= 0 && r@ == ws.skip(last_index_of(ws, '\n') + 1),
                None => !(preceding_whitespace_of(*self, index as int) matches Some(ws) && last_index_of(ws, '\n') >= 0),
            },
    {
        let whitespace = match self.preceding_whitespace(index) {
            Some(w) => w,
            None => {
                return None;
            },
        };
        let v = to_chars(whitespace.as_str());
        let after = crate::attempts::after_last(&v, '\n');
        if after == 0 {
            return None;
        }
        let r = string_of_range(&v, after, v.len());
        assert(v@.subrange(after as int, v@.len() as int) =~= v@.skip(after as int));
        Some(r)
    }

    /// Source of child `index` of this node, including any whitespace before and after,
    /// but only within the bounds of this node
    pub fn source_with_surrounding_whitespace(&self, index: usize) -> (res: String)
        requires
            index < self.children@.len(),
            siblings_within(*self, index as int),
            siblings_within(*self, index + 1),
            self.byte_range.start <= self.children@[index as int].byte_range.start
                <= self.children@[index as int].byte_range.end <= self.byte_range.start + self.source@.len(),
        ensures
            res@ == surrounded_source(*self, index as int),
    {
        let child = &self.children[index];
        let start = if index > 0 { self.children[index - 1].byte_range.end } else { child.byte_range.start };
        let end = if index < self.children.len() - 1 { self.children[index + 1].byte_range.start } else { child.byte_range.end };
        let v = to_chars(self.source.as_str());
        string_of_range(&v, start - self.byte_range.start, end - self.byte_range.start)
    }

    /// The part of `own_indentation` that goes beyond `ancestor_indentation`, comparing
    /// them with tabs worth `tab_width` spaces, if the latter is a prefix of the former
    /// and leaves something
    pub fn extract_indentation_suffix_from_mixed_spaces_and_tabs(
        own_indentation: &str,
        ancestor_indentation: &str,
        tab_width: usize,
    ) -> (res: Option<String>)
        requires
            own_indentation@.len() * tab_width + own_indentation@.len() <= usize::MAX,
            ancestor_indentation@.len() * tab_width + ancestor_indentation@.len() <= usize::MAX,
        ensures
            match res {
                Some(r) => indentation_suffix(own_indentation@, ancestor_indentation@, tab_width as nat) == Some(r@),
                None => indentation_suffix(own_indentation@, ancestor_indentation@, tab_width as nat) is None,
            },
    {
        let own = to_chars(own_indentation);
        let ancestor = to_chars(ancestor_indentation);
        let own_spaces = replace_tabs(&own, tab_width);
        let ancestor_spaces = replace_tabs(&ancestor, tab_width);
        if ancestor_spaces.len() > own_spaces.len() {
            return None;
        }
        let mut i: usize = 0;
        while i < ancestor_spaces.len()
            invariant
                0 <= i <= ancestor_spaces@.len() <= own_spaces@.len(),
                own_spaces@ == tabs_as_spaces(own_indentation@, tab_width as nat),
                ancestor_spaces@ == tabs_as_spaces(ancestor_indentation@, tab_width as nat),
                forall|j: int| 0 <= j < i ==> own_spaces@[j] == ancestor_spaces@[j],
            decreases ancestor_spaces@.len() - i,
        {
            if own_spaces[i] != ancestor_spaces[i] {
                proof {
                    assert(own_spaces@.take(ancestor_spaces@.len() as int)[i as int] != ancestor_spaces@[i as int]);
                }
                return None;
            }
            i = i + 1;
        }
        assert(own_spaces@.take(ancestor_spaces@.len() as int) =~= ancestor_spaces@);
        let mut idx: usize = own.len();
        let mut remaining: usize = own_spaces.len() - ancestor_spaces.len();
        while idx > 0 && remaining > 0
            invariant
                0 <= idx <= own@.len(),
                own@ == own_indentation@,
                walk_back(own@, own@.len() as int, own_spaces@.len() - ancestor_spaces@.len(), tab_width as nat)
                    == walk_back(own@, idx as int, remaining as int, tab_width as nat),
            decreases idx,
        {
            let width = if own[idx - 1] == '\t' { tab_width } else { 1 };
            proof {
                if remaining < width {
                    assert(walk_back(own@, idx - 1, remaining - width, tab_width as nat) == idx - 1);
                    assert(walk_back(own@, idx - 1, 0, tab_width as nat) == idx - 1);
                }
            }
            remaining = if remaining > width { remaining - width } else { 0 };
            idx = idx - 1;
        }
        if idx < own.len() {
            let r = string_of_range(&own, idx, own.len());
            assert(own@.subrange(idx as int, own@.len() as int) =~= own@.skip(idx as int));
            Some(r)
        } else {
            None
        }
    }
}

proof fn lemma_all_exact(s: Seq<AstNode>, k: int)
    requires
        0 <= k <= s.len(),
    ensures
        all_exact_sizes(s, k) <==> forall|i: int| 0 <= i < k ==> exact_sizes(#[trigger] s[i]),
    decreases k,
{
    if k > 0 {
        lemma_all_exact(s, k - 1);
    }
}

proof fn lemma_flattened_exact<'a>(bs: Seq<AstNode<'a>>, kind: Seq<char>)
    requires
        forall|i: int| 0 <= i < bs.len() ==> exact_sizes(#[trigger] bs[i]),
    ensures
        forall|i: int| 0 <= i < flattened(bs, kind).len() ==> exact_sizes(#[trigger] flattened(bs, kind)[i]),
    decreases bs.len(),
{
    if bs.len() > 0 {
        let init = bs.drop_last();
        let c = bs.last();
        lemma_flattened_exact(init, kind);
        let rest = flattened(init, kind);
        assert(exact_sizes(c));
        if c.grammar_name@ == kind {
            lemma_all_exact(c.children@, c.children@.len() as int);
            let f = rest + c.children@;
            assert forall|i: int| 0 <= i < f.len() implies exact_sizes(#[trigger] f[i]) by {
                if i >= rest.len() {
                    assert(f[i] == c.children@[i - rest.len()]);
                }
            }
        }
    }
}

proof fn lemma_traversal_lengths<'a>(s: Seq<AstNode<'a>>, k: int)
    requires
        0 <= k <= s.len(),
        all_exact_sizes(s, k),
    ensures
        dfs_all(s, k).len() == sum_sizes(s, k),
        postfix_all(s, k).len() == sum_sizes(s, k),
    decreases s, k,
{
    if k > 0 {
        lemma_traversal_lengths(s, k - 1);
        law_size_is_node_count(s[k - 1]);
    }
}

/// In a tree that was not truncated, the size of a node is the number of nodes that the
/// depth-first and the postfix traversals of its subtree visit.
pub proof fn law_size_is_node_count<'a>(n: AstNode<'a>)
    requires
        exact_sizes(n),
    ensures
        dfs_of(n).len() == n.descendant_count,
        postfix_of(n).len() == n.descendant_count,
    decreases n, 1nat,
{
    lemma_traversal_lengths(n.children@, n.children@.len() as int);
}

proof fn lemma_postfix_all_prefix<'a>(s: Seq<AstNode<'a>>, t: Seq<AstNode<'a>>, k: int)
    requires
        0 <= k <= s.len(),
        k <= t.len(),
        forall|i: int| 0 <= i < k ==> s[i] == t[i],
    ensures
        postfix_all(s, k) == postfix_all(t, k),
    decreases k,
{
    if k > 0 {
        lemma_postfix_all_prefix(s, t, k - 1);
    }
}

proof fn lemma_postfix_all_append<'a>(a: Seq<AstNode<'a>>, b: Seq<AstNode<'a>>)
    ensures
        postfix_all(a + b, (a.len() + b.len()) as int) == postfix_all(a, a.len() as int) + postfix_all(b, b.len() as int),
    decreases b.len(),
{
    if b.len() == 0 {
        assert(a + b =~= a);
    } else {
        lemma_postfix_all_append(a, b.drop_last());
        lemma_postfix_all_prefix(a + b, a + b.drop_last(), a.len() + b.len() - 1);
        lemma_postfix_all_prefix(b, b.drop_last(), b.len() - 1);
        assert((a + b)[a.len() + b.len() - 1] == b.last());
    }
}

proof fn lemma_concat_ids<'a>(a: Seq<AstNode<'a>>, b: Seq<AstNode<'a>>, lo: int, mid: int, hi: int)
    requires
        increasing_ids(a),
        increasing_ids(b),
        lo <= mid <= hi,
        ids_between(a, lo, mid),
        ids_between(b, mid, hi),
    ensures
        increasing_ids(a + b),
        ids_between(a + b, lo, hi),
{
    let c = a + b;
    assert forall|i: int, j: int| 0 <= i < j < c.len() implies (#[trigger] c[i]).id < (#[trigger] c[j]).id by {
        if j < a.len() {
            assert(c[i] == a[i] && c[j] == a[j]);
        } else if i >= a.len() {
            assert(c[i] == b[i - a.len()] && c[j] == b[j - a.len()]);
        } else {
            assert(c[i] == a[i] && c[j] == b[j - a.len()]);
        }
    }
    assert forall|i: int| 0 <= i < c.len() implies lo <= (#[trigger] c[i]).id < hi by {
        if i < a.len() {
            assert(c[i] == a[i]);
        } else {
            assert(c[i] == b[i - a.len()]);
        }
    }
}

proof fn lemma_leaves_postfix<'a>(s: Seq<AstNode<'a>>, k: int)
    requires
        0 <= k <= s.len(),
        forall|i: int| 0 <= i < s.len() ==> (#[trigger] s[i]).children@.len() == 0,
    ensures
        postfix_all(s, k) == s.take(k),
    decreases k,
{
    if k > 0 {
        lemma_leaves_postfix(s, k - 1);
        assert(postfix_all(s[k - 1].children@, 0) == Seq::<AstNode<'a>>::empty());
        assert(postfix_of(s[k - 1]) =~= seq![s[k - 1]]);
        assert(s.take(k) =~= s.take(k - 1).push(s[k - 1]));
        assert(postfix_all(s, k) =~= s.take(k - 1) + seq![s[k - 1]]);
    } else {
        assert(s.take(0) =~= Seq::<AstNode<'a>>::empty());
    }
}

proof fn lemma_postfix_flattened<'a>(bs: Seq<AstNode<'a>>, kind: Seq<char>)
    requires
        increasing_ids(postfix_all(bs, bs.len() as int)),
    ensures
        increasing_ids(postfix_all(flattened(bs, kind), flattened(bs, kind).len() as int)),
        forall|k: int| 0 <= k < postfix_all(flattened(bs, kind), flattened(bs, kind).len() as int).len()
            ==> postfix_all(bs, bs.len() as int).contains(#[trigger] postfix_all(flattened(bs, kind), flattened(bs, kind).len() as int)[k]),
    decreases bs.len(),
{
    if bs.len() > 0 {
        let init = bs.drop_last();
        let c = bs.last();
        let whole = postfix_all(bs, bs.len() as int);
        let pi = postfix_all(init, init.len() as int);
        lemma_postfix_all_prefix(bs, init, init.len() as int);
        assert(whole == pi + postfix_of(c));
        assert forall|i: int, j: int| 0 <= i < j < pi.len() implies (#[trigger] pi[i]).id < (#[trigger] pi[j]).id by {
            assert(whole[i] == pi[i] && whole[j] == pi[j]);
        }
        lemma_postfix_flattened(init, kind);
        let rest = flattened(init, kind);
        let pr = postfix_all(rest, rest.len() as int);
        let tail = if c.grammar_name@ == kind { c.children@ } else { seq![c] };
        assert(flattened(bs, kind) =~= rest + tail) by {
            if c.grammar_name@ != kind {
                assert(rest.push(c) =~= rest + seq![c]);
            }
        }
        lemma_postfix_all_append(rest, tail);
        let pt = postfix_all(tail, tail.len() as int);
        let pc = postfix_of(c);
        // the postfix order of the tail is a start of that of `c`
        assert(forall|k: int| 0 <= k < pt.len() ==> pt[k] == pc[k]) by {
            if c.grammar_name@ != kind {
                assert(postfix_all(seq![c], 0) == Seq::<AstNode<'a>>::empty());
                assert(pt =~= pc);
            }
        }
        assert(pt.len() <= pc.len()) by {
            if c.grammar_name@ != kind {
                assert(postfix_all(seq![c], 0) == Seq::<AstNode<'a>>::empty());
                assert(pt =~= pc);
            }
        }
        assert forall|k: int| 0 <= k < pt.len() implies whole.contains(#[trigger] pt[k]) by {
            assert(whole[pi.len() + k] == pc[k]);
        }
        let f = pr + pt;
        assert forall|k: int| 0 <= k < f.len() implies whole.contains(#[trigger] f[k]) by {
            if k < pr.len() {
                assert(f[k] == pr[k]);
                assert(pi.contains(pr[k]));
                let m = choose|m: int| 0 <= m < pi.len() && pi[m] == pr[k];
                assert(whole[m] == pi[m]);
            } else {
                assert(f[k] == pt[k - pr.len()]);
            }
        }
        assert forall|i: int, j: int| 0 <= i < j < f.len() implies (#[trigger] f[i]).id < (#[trigger] f[j]).id by {
            if j < pr.len() {
                assert(f[i] == pr[i] && f[j] == pr[j]);
            } else if i >= pr.len() {
                assert(f[i] == pt[i - pr.len()] && f[j] == pt[j - pr.len()]);
                assert(whole[pi.len() + i - pr.len()] == pc[i - pr.len()]);
                assert(whole[pi.len() + j - pr.len()] == pc[j - pr.len()]);
            } else {
                assert(f[i] == pr[i] && f[j] == pt[j - pr.len()]);
                let m = choose|m: int| 0 <= m < pi.len() && pi[m] == pr[i];
                assert(whole[m] == pi[m]);
                assert(whole[pi.len() + j - pr.len()] == pc[j - pr.len()]);
            }
        }
    }
}

/// The identifiers of the nodes of a tree built by [`AstNode::parse`], which increase in
/// postfix order, are distinct.
pub proof fn law_node_ids_are_unique<'a>(n: AstNode<'a>)
    requires
        increasing_ids(postfix_of(n)),
    ensures
        forall|i: int, j: int| 0 <= i < postfix_of(n).len() && 0 <= j < postfix_of(n).len() && i != j
            ==> (#[trigger] postfix_of(n)[i]).id != (#[trigger] postfix_of(n)[j]).id,
{
    assert forall|i: int, j: int| 0 <= i < postfix_of(n).len() && 0 <= j < postfix_of(n).len() && i != j
        implies (#[trigger] postfix_of(n)[i]).id != (#[trigger] postfix_of(n)[j]).id by {
        if i < j {
            assert(postfix_of(n)[i].id < postfix_of(n)[j].id);
        } else {
            assert(postfix_of(n)[j].id < postfix_of(n)[i].id);
        }
    }
}

proof fn lemma_same_shape_refl_sym<'a, 'b>(a: AstNode<'a>, b: AstNode<'b>)
    ensures
        same_shape(a, a),
        same_shape(a, b) ==> same_shape(b, a),
    decreases a, 1nat,
{
    lemma_all_same_shape_refl_sym(a.children@, b.children@, a.children@.len() as int);
}

proof fn lemma_all_same_shape_refl_sym<'a, 'b>(s: Seq<AstNode<'a>>, t: Seq<AstNode<'b>>, k: int)
    requires
        0 <= k <= s.len(),
    ensures
        all_same_shape(s, s, k),
        k <= t.len() ==> (all_same_shape(s, t, k) ==> all_same_shape(t, s, k)),
    decreases s, k,
{
    if k > 0 {
        lemma_all_same_shape_refl_sym(s, t, k - 1);
        if k <= t.len() {
            lemma_same_shape_refl_sym(s[k - 1], t[k - 1]);
        } else {
            lemma_same_shape_refl_sym(s[k - 1], s[k - 1]);
        }
    }
}

/// Every tree is isomorphic to itself, and isomorphism goes both ways.
pub proof fn law_isomorphism_reflexive_symmetric<'a, 'b>(a: AstNode<'a>, b: AstNode<'b>)
    ensures
        a.hash == a.hash && same_shape(a, a),
        (a.hash == b.hash && same_shape(a, b)) ==> (b.hash == a.hash && same_shape(b, a)),
{
    lemma_same_shape_refl_sym(a, b);
}

/// Is `t` the tree `n` where the nodes selected by `predicate` are made leaves (keeping their
/// sizes), each node being checked before its descendants?
pub open spec fn truncated_by<'a, F: Fn(&AstNode<'a>) -> bool>(t: AstNode<'a>, n: AstNode<'a>, predicate: F) -> bool
    decreases n, 1nat,
{
    &&& t.hash == n.hash
    &&& t.source == n.source
    &&& t.grammar_name == n.grammar_name
    &&& t.field_name == n.field_name
    &&& t.byte_range == n.byte_range
    &&& t.id == n.id
    &&& t.descendant_count == n.descendant_count
    &&& t.commutative_parent == n.commutative_parent
    &&& t.lang_profile == n.lang_profile
    &&& {
        ||| (predicate.ensures((&n,), true) && t.children@.len() == 0)
        ||| (predicate.ensures((&n,), false) && t.children@.len() == n.children@.len()
            && all_truncated_by(t.children@, n.children@, predicate, n.children@.len() as int))
    }
}

/// Is each of the first `k` trees of `ts` the matching tree of `ns`, truncated?
pub open spec fn all_truncated_by<'a, F: Fn(&AstNode<'a>) -> bool>(ts: Seq<AstNode<'a>>, ns: Seq<AstNode<'a>>, predicate: F, k: int) -> bool
    decreases ns, k,
{
    if k <= 0 || k > ns.len() || k > ts.len() {
        true
    } else {
        truncated_by(ts[k - 1], ns[k - 1], predicate) && all_truncated_by(ts, ns, predicate, k - 1)
    }
}

proof fn lemma_all_truncated_prefix<'a, F: Fn(&AstNode<'a>) -> bool>(ts: Seq<AstNode<'a>>, us: Seq<AstNode<'a>>, ns: Seq<AstNode<'a>>, predicate: F, k: int)
    requires
        0 <= k <= ts.len(),
        k <= us.len(),
        k <= ns.len(),
        forall|i: int| 0 <= i < k ==> ts[i] == us[i],
        all_truncated_by(ts, ns, predicate, k),
    ensures
        all_truncated_by(us, ns, predicate, k),
    decreases k,
{
    if k > 0 {
        lemma_all_truncated_prefix(ts, us, ns, predicate, k - 1);
    }
}

impl<'a> AstNode<'a> {
    /// Truncate a tree so that all nodes selected by the predicate are treated as leaves
    pub fn truncate<F: Fn(&AstNode<'a>) -> bool>(&self, predicate: &F) -> (res: AstNode<'a>)
        requires
            forall|n: AstNode<'a>| predicate.requires((&n,)),
        ensures
            truncated_by(res, *self, *predicate),
        decreases self,
    {
        let truncate = predicate(self);
        let mut children: Vec<AstNode<'a>> = Vec::new();
        if !truncate {
            let mut i: usize = 0;
            while i < self.children.len()
                invariant
                    0 <= i <= self.children@.len(),
                    children@.len() == i,
                    forall|n: AstNode<'a>| predicate.requires((&n,)),
                    all_truncated_by(children@, self.children@, *predicate, i as int),
                decreases self.children@.len() - i,
            {
                let c = self.children[i].truncate(predicate);
                let ghost before = children@;
                children.push(c);
                proof {
                    lemma_all_truncated_prefix(before, children@, self.children@, *predicate, i as int);
                }
                i = i + 1;
            }
        }
        let field_name = match &self.field_name {
            Some(f) => Some(f.clone()),
            None => None,
        };
        AstNode {
            hash: self.hash,
            children,
            source: self.source.clone(),
            grammar_name: self.grammar_name.clone(),
            field_name,
            byte_range: std::ops::Range { start: self.byte_range.start, end: self.byte_range.end },
            id: self.id,
            descendant_count: self.descendant_count,
            commutative_parent: self.commutative_parent,
            lang_profile: self.lang_profile,
        }
    }
}

proof fn lemma_all_truncated_sizes<'a, F: Fn(&AstNode<'a>) -> bool>(ts: Seq<AstNode<'a>>, ns: Seq<AstNode<'a>>, predicate: F, k: int)
    requires
        0 <= k <= ns.len(),
        k <= ts.len(),
        all_truncated_by(ts, ns, predicate, k),
        all_sizes_add_up(ns, k),
    ensures
        sum_sizes(ts, k) == sum_sizes(ns, k),
        all_sizes_add_up(ts, k),
    decreases ns, k,
{
    if k > 0 {
        lemma_all_truncated_sizes(ts, ns, predicate, k - 1);
        law_truncation_keeps_sizes(ts[k - 1], ns[k - 1], predicate);
    }
}

/// Truncating a tree keeps the size of each node: the leaves it makes count the nodes
/// they stood for.
pub proof fn law_truncation_keeps_sizes<'a, F: Fn(&AstNode<'a>) -> bool>(t: AstNode<'a>, n: AstNode<'a>, predicate: F)
    requires
        sizes_add_up(n),
        truncated_by(t, n, predicate),
    ensures
        sizes_add_up(t),
        t.descendant_count == n.descendant_count,
    decreases n, 1nat,
{
    if t.children@.len() > 0 {
        lemma_all_truncated_sizes(t.children@, n.children@, predicate, n.children@.len() as int);
    }
}

/// Does each node's text have the length of its range, and lie within its parent's, with
/// the children one after the other?
pub open spec fn nested<'a>(n: AstNode<'a>) -> bool
    decreases n, 1nat,
{
    &&& n.byte_range.start + n.source@.len() == n.byte_range.end
    &&& forall|i: int| 0 <= i < n.children@.len() ==> n.byte_range.start <= (#[trigger] n.children@[i]).byte_range.start
        && n.children@[i].byte_range.end <= n.byte_range.end
    &&& forall|i: int| 0 < i < n.children@.len() ==> (#[trigger] n.children@[i - 1]).byte_range.end <= n.children@[i].byte_range.start
    &&& all_nested(n.children@, n.children@.len() as int)
}

/// Are the first `k` trees nested?
pub open spec fn all_nested<'a>(s: Seq<AstNode<'a>>, k: int) -> bool
    decreases s, k,
{
    if k <= 0 || k > s.len() {
        true
    } else {
        nested(s[k - 1]) && all_nested(s, k - 1)
    }
}

/// The node reached from `n` by following the children at the positions of `path`
pub open spec fn node_at<'a>(n: AstNode<'a>, path: Seq<usize>) -> Option<AstNode<'a>>
    decreases path.len(),
{
    if path.len() == 0 {
        Some(n)
    } else if path[0] < n.children@.len() {
        node_at(n.children@[path[0] as int], path.skip(1))
    } else {
        None
    }
}

/// What follows the last line break of the whitespace preceding child `index` of `n`
pub open spec fn preceding_indentation_of<'a>(n: AstNode<'a>, index: int) -> Option<Seq<char>> {
    match preceding_whitespace_of(n, index) {
        Some(ws) => if last_index_of(ws, '\n') >= 0 { Some(ws.skip(last_index_of(ws, '\n') + 1)) } else { None },
        None => None,
    }
}

/// The preceding indentation of the first ancestor among those at depths `d`, `d - 1`, ...,
/// `1` along `path` that has some
pub open spec fn ancestor_indentation_from<'a>(root: AstNode<'a>, path: Seq<usize>, d: int) -> Option<Seq<char>>
    decreases d,
{
    if d <= 0 || d > path.len() {
        None
    } else {
        let found = match node_at(root, path.take(d - 1)) {
            Some(parent) => preceding_indentation_of(parent, path[d - 1] as int),
            None => None,
        };
        match found {
            Some(i) => Some(i),
            None => ancestor_indentation_from(root, path, d - 1),
        }
    }
}

/// The preceding indentation of the node at `path` (`None` for the root)
pub open spec fn own_indentation<'a>(root: AstNode<'a>, path: Seq<usize>) -> Option<Seq<char>> {
    if path.len() == 0 {
        None
    } else {
        match node_at(root, path.drop_last()) {
            Some(parent) => preceding_indentation_of(parent, path.last() as int),
            None => None,
        }
    }
}

/// The preceding indentation of the closest ancestor of the node at `path` that has some
pub open spec fn ancestor_indentation_of<'a>(root: AstNode<'a>, path: Seq<usize>) -> Option<Seq<char>> {
    ancestor_indentation_from(root, path, path.len() - 1)
}

/// The shortest of two optional texts (the first if they have the same length)
pub open spec fn shortest(a: Option<Seq<char>>, b: Option<Seq<char>>) -> Option<Seq<char>> {
    match (a, b) {
        (Some(x), Some(y)) => if y.len() < x.len() { Some(y) } else { Some(x) },
        (Some(x), None) => Some(x),
        (None, y) => y,
    }
}

/// The difference between the preceding indentation of the node at `path` and its ancestor
/// indentation
pub open spec fn indentation_shift_of<'a>(root: AstNode<'a>, path: Seq<usize>) -> Option<Seq<char>> {
    match own_indentation(root, path) {
        None => None,
        Some(own) => match ancestor_indentation_of(root, path) {
            None => Some(own),
            Some(anc) => if anc.len() <= own.len() && own.take(anc.len() as int) == anc {
                Some(own.skip(anc.len() as int))
            } else {
                shortest(indentation_suffix(own, anc, 8), indentation_suffix(own, anc, 4))
            },
        },
    }
}

/// The text where each occurrence of `from` (found from left to right, without overlaps)
/// is replaced by `to`
pub open spec fn replaced(s: Seq<char>, from: Seq<char>, to: Seq<char>) -> Seq<char>
    decreases s.len(),
{
    if s.len() == 0 || from.len() == 0 {
        s
    } else if from.len() <= s.len() && s.take(from.len() as int) == from {
        to + replaced(s.skip(from.len() as int), from, to)
    } else {
        seq![s[0]] + replaced(s.skip(1), from, to)
    }
}

/// The indentation that the source of the node at `path` inherits: its own, else that of
/// its closest indented ancestor
pub open spec fn inherited_indentation<'a>(root: AstNode<'a>, path: Seq<usize>) -> Option<Seq<char>> {
    match own_indentation(root, path) {
        Some(i) => Some(i),
        None => ancestor_indentation_of(root, path),
    }
}

pub(crate) proof fn lemma_all_nested<'a>(s: Seq<AstNode<'a>>, k: int)
    requires
        0 <= k <= s.len(),
    ensures
        all_nested(s, k) <==> forall|i: int| 0 <= i < k ==> nested(#[trigger] s[i]),
    decreases k,
{
    if k > 0 {
        lemma_all_nested(s, k - 1);
    }
}

proof fn lemma_node_at_push<'a>(n: AstNode<'a>, p: Seq<usize>, x: usize)
    ensures
        node_at(n, p.push(x)) == match node_at(n, p) {
            Some(m) => if x < m.children@.len() { Some(m.children@[x as int]) } else { None },
            None => None,
        },
    decreases p.len(),
{
    if p.len() == 0 {
        assert(p.push(x).skip(1) =~= Seq::<usize>::empty());
        assert(p.push(x)[0] == x);
        if x < n.children@.len() {
            assert(node_at(n.children@[x as int], Seq::<usize>::empty()) == Some(n.children@[x as int]));
        }
    } else {
        assert(p.push(x).skip(1) =~= p.skip(1).push(x));
        assert(p.push(x)[0] == p[0]);
        if p[0] < n.children@.len() {
            lemma_node_at_push(n.children@[p[0] as int], p.skip(1), x);
        }
    }
}

pub(crate) proof fn lemma_node_at_nested<'a>(n: AstNode<'a>, path: Seq<usize>)
    requires
        nested(n),
        node_at(n, path) is Some,
    ensures
        nested(node_at(n, path)->0),
        node_at(n, path)->0.source@.len() <= n.source@.len(),
    decreases path.len(),
{
    if path.len() > 0 {
        lemma_all_nested(n.children@, n.children@.len() as int);
        let c = n.children@[path[0] as int];
        lemma_node_at_nested(c, path.skip(1));
    }
}

pub(crate) proof fn lemma_nested_siblings<'a>(n: AstNode<'a>, index: int)
    requires
        nested(n),
    ensures
        siblings_within(n, index),
{
    if 0 < index < n.children@.len() {
        lemma_all_nested(n.children@, n.children@.len() as int);
        assert(nested(n.children@[index]));
        assert(n.children@[index - 1].byte_range.end <= n.children@[index].byte_range.start);
    }
}

/// The text where each occurrence of `from` is replaced by `to`
pub(crate) fn replace_all(s: &Vec<char>, from: &Vec<char>, to: &Vec<char>) -> (res: Vec<char>)
    requires
        from@.len() > 0,
    ensures
        res@ == replaced(s@, from@, to@),
{
    let mut res: Vec<char> = Vec::new();
    let mut i: usize = 0;
    assert(s@.skip(0) =~= s@);
    while i < s.len()
        invariant
            0 <= i <= s@.len(),
            from@.len() > 0,
            replaced(s@, from@, to@) == res@ + replaced(s@.skip(i as int), from@, to@),
        decreases s@.len() - i,
    {
        let ghost rest = s@.skip(i as int);
        let mut matches = from.len() <= s.len() - i;
        let mut k: usize = 0;
        while matches && k < from.len()
            invariant
                0 <= k <= from@.len(),
                i < s@.len(),
                matches ==> from@.len() <= s@.len() - i,
                from@.len() <= s@.len() - i ==> (matches ==> forall|j: int| 0 <= j < k ==> s@[i + j] == from@[j]),
                !(from@.len() <= s@.len() - i) ==> !matches,
                !matches ==> !(from@.len() <= s@.len() - i && s@.skip(i as int).take(from@.len() as int) == from@),
            decreases from@.len() - k,
        {
            assert(from@.len() <= s@.len() - i);
            assert(k < from@.len());
            assert(i + k < s@.len());
            assert(s@.len() == s.len());
            let idx: usize = i + k;
            if s[idx] != from[k] {
                proof {
                    assert(s@.skip(i as int).take(from@.len() as int)[k as int] == s@[i + k]);
                }
                matches = false;
            }
            k = k + 1;
        }
        if matches {
            proof {
                assert(rest.take(from@.len() as int) =~= from@);
                assert(rest.skip(from@.len() as int) =~= s@.skip(i + from@.len()));
            }
            let ghost before = res@;
            let mut j: usize = 0;
            while j < to.len()
                invariant
                    0 <= j <= to@.len(),
                    res@ == before + to@.take(j as int),
                decreases to@.len() - j,
            {
                res.push(to[j]);
                j = j + 1;
                assert(res@ =~= before + to@.take(j as int));
            }
            assert(to@.take(to@.len() as int) =~= to@);
            assert(res@ =~= before + to@);
            i = i + from.len();
        } else {
            proof {
                assert(rest.skip(1) =~= s@.skip(i + 1));
                assert(rest[0] == s@[i as int]);
            }
            let ghost before = res@;
            res.push(s[i]);
            assert(res@ =~= before + seq![s@[i as int]]);
            i = i + 1;
        }
    }
    assert(s@.skip(s@.len() as int) =~= Seq::<char>::empty());
    assert(res@ + Seq::<char>::empty() =~= res@);
    res
}

impl<'a> AstNode<'a> {
    /// The node reached by following the children at the first `len` positions of `path`
    pub fn node_at_prefix<'b>(&'b self, path: &[usize], len: usize) -> (res: Option<&'b AstNode<'a>>)
        requires
            len <= path@.len(),
        ensures
            match res {
                Some(n) => node_at(*self, path@.take(len as int)) == Some(*n),
                None => node_at(*self, path@.take(len as int)) is None,
            },
    {
        let mut cur: &'b AstNode<'a> = self;
        let mut i: usize = 0;
        assert(path@.take(0) =~= Seq::<usize>::empty());
        while i < len
            invariant
                0 <= i <= len <= path@.len(),
                node_at(*self, path@.take(i as int)) == Some(*cur),
            decreases len - i,
        {
            proof {
                lemma_node_at_push(*self, path@.take(i as int), path@[i as int]);
                assert(path@.take(i as int).push(path@[i as int]) =~= path@.take(i + 1));
            }
            if path[i] >= cur.children.len() {
                proof {
                    lemma_node_at_none_extends(*self, path@, i + 1, len as int);
                }
                return None;
            }
            cur = &cur.children[path[i]];
            i = i + 1;
        }
        Some(cur)
    }
}

proof fn lemma_node_at_none_extends<'a>(n: AstNode<'a>, path: Seq<usize>, k: int, m: int)
    requires
        0 <= k <= m <= path.len(),
        node_at(n, path.take(k)) is None,
    ensures
        node_at(n, path.take(m)) is None,
    decreases m - k,
{
    if k < m {
        lemma_node_at_push(n, path.take(k), path[k]);
        assert(path.take(k).push(path[k]) =~= path.take(k + 1));
        lemma_node_at_none_extends(n, path, k + 1, m);
    }
}

proof fn lemma_indentation_within<'a>(n: AstNode<'a>, index: int)
    requires
        nested(n),
    ensures
        preceding_indentation_of(n, index) matches Some(i) ==> i.len() <= n.source@.len(),
{
    lemma_nested_siblings(n, index);
    if let Some(ws) = preceding_whitespace_of(n, index) {
        lemma_last_index_bounds(ws, '\n');
    }
}

proof fn lemma_last_index_bounds(s: Seq<char>, c: char)
    ensures
        -1 <= last_index_of(s, c) < s.len(),
    decreases s.len(),
{
    if s.len() > 0 && s.last() != c {
        lemma_last_index_bounds(s.drop_last(), c);
    }
}

impl<'a> AstNode<'a> {
    /// The preceding indentation of child `index` of this node
    fn indentation_of_child(&self, index: usize) -> (res: Option<String>)
        requires
            nested(*self),
        ensures
            match res {
                Some(r) => preceding_indentation_of(*self, index as int) == Some(r@),
                None => preceding_indentation_of(*self, index as int) is None,
            },
    {
        proof {
            lemma_nested_siblings(*self, index as int);
        }
        self.preceding_indentation(index)
    }

    /// The preceding indentation of the closest ancestor of the node at `path` (from this
    /// node) that has some
    pub fn ancestor_indentation(&self, path: &[usize]) -> (res: Option<String>)
        requires
            nested(*self),
        ensures
            match res {
                Some(r) => ancestor_indentation_of(*self, path@) == Some(r@),
                None => ancestor_indentation_of(*self, path@) is None,
            },
            res matches Some(r) ==> r@.len() <= self.source@.len(),
    {
        if path.len() == 0 {
            return None;
        }
        let mut d: usize = path.len() - 1;
        while d > 0
            invariant
                0 <= d < path@.len(),
                nested(*self),
                ancestor_indentation_of(*self, path@) == ancestor_indentation_from(*self, path@, d as int),
            decreases d,
        {
            match self.node_at_prefix(path, d - 1) {
                Some(parent) => {
                    proof {
                        lemma_node_at_nested(*self, path@.take(d - 1));
                        lemma_indentation_within(*parent, path@[d - 1] as int);
                    }
                    match parent.indentation_of_child(path[d - 1]) {
                        Some(i) => {
                            return Some(i);
                        },
                        None => {},
                    }
                },
                None => {},
            }
            d = d - 1;
        }
        None
    }

    /// The preceding indentation of the node at `path` (from this node)
    fn own_indentation(&self, path: &[usize]) -> (res: Option<String>)
        requires
            nested(*self),
        ensures
            match res {
                Some(r) => own_indentation(*self, path@) == Some(r@),
                None => own_indentation(*self, path@) is None,
            },
            res matches Some(r) ==> r@.len() <= self.source@.len(),
    {
        if path.len() == 0 {
            return None;
        }
        let last = path.len() - 1;
        proof {
            assert(path@.take(last as int) =~= path@.drop_last());
        }
        match self.node_at_prefix(path, last) {
            Some(parent) => {
                proof {
                    lemma_node_at_nested(*self, path@.take(last as int));
                    lemma_indentation_within(*parent, path@[last as int] as int);
                }
                parent.indentation_of_child(path[last])
            },
            None => None,
        }
    }

    /// The difference between the preceding indentation of the node at `path` (from this
    /// node) and its ancestor indentation
    pub fn indentation_shift(&self, path: &[usize]) -> (res: Option<String>)
        requires
            nested(*self),
            self.source@.len() * 9 <= usize::MAX,
        ensures
            match res {
                Some(r) => indentation_shift_of(*self, path@) == Some(r@),
                None => indentation_shift_of(*self, path@) is None,
            },
    {
        let own = match self.own_indentation(path) {
            Some(o) => o,
            None => {
                return None;
            },
        };
        let ancestor = match self.ancestor_indentation(path) {
            Some(a) => a,
            None => {
                return Some(own);
            },
        };
        let o = to_chars(own.as_str());
        let a = to_chars(ancestor.as_str());
        if a.len() <= o.len() {
            let mut i: usize = 0;
            while i < a.len() && o[i] == a[i]
                invariant
                    0 <= i <= a@.len() <= o@.len(),
                    forall|j: int| 0 <= j < i ==> o@[j] == a@[j],
                decreases a@.len() - i,
            {
                i = i + 1;
            }
            if i == a.len() {
                assert(o@.take(a@.len() as int) =~= a@);
                let r = string_of_range(&o, a.len(), o.len());
                assert(o@.subrange(a@.len() as int, o@.len() as int) =~= o@.skip(a@.len() as int));
                return Some(r);
            }
            assert(o@.take(a@.len() as int)[i as int] != a@[i as int]);
        }
        let with_8 = AstNode::extract_indentation_suffix_from_mixed_spaces_and_tabs(own.as_str(), ancestor.as_str(), 8);
        let with_4 = AstNode::extract_indentation_suffix_from_mixed_spaces_and_tabs(own.as_str(), ancestor.as_str(), 4);
        match (with_8, with_4) {
            (Some(x), Some(y)) => {
                let xl = to_chars(x.as_str()).len();
                let yl = to_chars(y.as_str()).len();
                if yl < xl { Some(y) } else { Some(x) }
            },
            (Some(x), None) => Some(x),
            (None, y) => y,
        }
    }

    /// The source of the node at `path` (from this node), stripped from any indentation
    /// inherited by the node or its ancestors
    pub fn unindented_source(&self, path: &[usize]) -> (res: String)
        requires
            nested(*self),
            node_at(*self, path@) is Some,
        ensures
            res@ == match inherited_indentation(*self, path@) {
                Some(i) => replaced(node_at(*self, path@)->0.source@, seq!['\n'] + i, seq!['\n']),
                None => node_at(*self, path@)->0.source@,
            },
    {
        let node = match self.node_at_prefix(path, path.len()) {
            Some(n) => n,
            None => {
                assert(path@.take(path@.len() as int) =~= path@);
                assert(false);
                return String::new();
            },
        };
        assert(path@.take(path@.len() as int) =~= path@);
        let indentation = match self.own_indentation(path) {
            Some(i) => Some(i),
            None => self.ancestor_indentation(path),
        };
        match indentation {
            Some(i) => {
                let mut from: Vec<char> = Vec::new();
                from.push('\n');
                let ic = to_chars(i.as_str());
                let mut k: usize = 0;
                while k < ic.len()
                    invariant
                        0 <= k <= ic@.len(),
                        from@ == seq!['\n'] + ic@.take(k as int),
                    decreases ic@.len() - k,
                {
                    from.push(ic[k]);
                    k = k + 1;
                    assert(from@ =~= seq!['\n'] + ic@.take(k as int));
                }
                assert(ic@.take(ic@.len() as int) =~= ic@);
                let mut to: Vec<char> = Vec::new();
                to.push('\n');
                assert(to@ =~= seq!['\n']);
                let src = to_chars(node.source.as_str());
                let r = replace_all(&src, &from, &to);
                let mut res = String::new();
                let mut j: usize = 0;
                while j < r.len()
                    invariant
                        0 <= j <= r@.len(),
                        res@ == r@.take(j as int),
                    decreases r@.len() - j,
                {
                    crate::text::push_char(&mut res, r[j]);
                    j = j + 1;
                    assert(res@ =~= r@.take(j as int));
                }
                assert(r@.take(r@.len() as int) =~= r@);
                res
            },
            None => node.source.clone(),
        }
    }
}

/// A line break followed by the text
pub(crate) fn newline_then(s: &str) -> (res: Vec<char>)
    ensures
        res@ == seq!['\n'] + s@,
{
    let mut res: Vec<char> = Vec::new();
    res.push('\n');
    let c = to_chars(s);
    let mut k: usize = 0;
    while k < c.len()
        invariant
            0 <= k <= c@.len(),
            c@ == s@,
            res@ == seq!['\n'] + c@.take(k as int),
        decreases c@.len() - k,
    {
        res.push(c[k]);
        k = k + 1;
        assert(res@ =~= seq!['\n'] + c@.take(k as int));
    }
    assert(c@.take(c@.len() as int) =~= c@);
    res
}

/// The characters as a string
pub(crate) fn string_of_chars(v: &Vec<char>) -> (res: String)
    ensures
        res@ == v@,
{
    let r = string_of_range(v, 0, v.len());
    assert(v@.subrange(0, v@.len() as int) =~= v@);
    r
}

impl<'a> AstNode<'a> {
    /// The source of the node at `path` (from this node), stripped from any indentation
    /// inherited by the node or its ancestors and shifted to `new_indentation`
    pub fn reindented_source(&self, path: &[usize], new_indentation: &str) -> (res: String)
        requires
            nested(*self),
            node_at(*self, path@) is Some,
        ensures
            ({
                let indentation = match inherited_indentation(*self, path@) {
                    Some(i) => i,
                    None => Seq::<char>::empty(),
                };
                let source = node_at(*self, path@)->0.source@;
                res@ == if indentation == new_indentation@ {
                    source
                } else {
                    replaced(source, seq!['\n'] + indentation, seq!['\n'] + new_indentation@)
                }
            }),
    {
        let node = match self.node_at_prefix(path, path.len()) {
            Some(n) => n,
            None => {
                assert(path@.take(path@.len() as int) =~= path@);
                assert(false);
                return String::new();
            },
        };
        assert(path@.take(path@.len() as int) =~= path@);
        let indentation = match self.own_indentation(path) {
            Some(i) => i,
            None => match self.ancestor_indentation(path) {
                Some(i) => i,
                None => String::new(),
            },
        };
        if str_eq(indentation.as_str(), new_indentation) {
            return node.source.clone();
        }
        let from = newline_then(indentation.as_str());
        let to = newline_then(new_indentation);
        let src = to_chars(node.source.as_str());
        string_of_chars(&replace_all(&src, &from, &to))
    }
}

/// The nodes from the node at `path` up to the root: the node at each prefix of the path, the
/// longest first
pub open spec fn ancestors_of<'a>(root: AstNode<'a>, path: Seq<usize>) -> Seq<AstNode<'a>> {
    Seq::new(path.len() + 1, |i: int| node_at(root, path.take(path.len() - i))->0)
}

impl<'a> AstNode<'a> {
    /// The parent of the node at `path` (from this node, the root), if it has one
    pub fn parent<'b>(&'b self, path: &[usize]) -> (res: Option<&'b AstNode<'a>>)
        ensures
            match res {
                Some(p) => path@.len() > 0 && node_at(*self, path@.drop_last()) == Some(*p),
                None => path@.len() == 0 || node_at(*self, path@.drop_last()) is None,
            },
    {
        if path.len() == 0 {
            return None;
        }
        proof {
            assert(path@.take(path@.len() - 1) =~= path@.drop_last());
        }
        self.node_at_prefix(path, path.len() - 1)
    }

    /// The node at `path` and its ancestors, from the node up to the root (this node)
    pub fn ancestors<'b>(&'b self, path: &[usize]) -> (res: Vec<&'b AstNode<'a>>)
        requires
            node_at(*self, path@) is Some,
        ensures
            derefs(res@) == ancestors_of(*self, path@),
    {
        let mut res: Vec<&'b AstNode<'a>> = Vec::new();
        let len = path.len();
        let mut i: usize = 0;
        loop
            invariant_except_break
                i <= len,
                res@.len() == i,
            invariant
                len == path@.len(),
                node_at(*self, path@) is Some,
                forall|j: int| 0 <= j < res@.len() ==> *(#[trigger] res@[j]) == node_at(*self, path@.take(path@.len() - j))->0,
            ensures
                res@.len() == len + 1,
            decreases len - i,
        {
            let k = len - i;
            proof {
                lemma_node_at_prefix_some(*self, path@, k as int);
            }
            match self.node_at_prefix(path, k) {
                Some(n) => res.push(n),
                None => {
                    assert(false);
                },
            }
            if i == len {
                break;
            }
            i = i + 1;
        }
        proof {
            assert(derefs(res@) =~= ancestors_of(*self, path@));
        }
        res
    }

    /// The node that comes just before the node at `path` among the children of its parent
    pub fn predecessor<'b>(&'b self, path: &[usize]) -> (res: Option<&'b AstNode<'a>>)
        ensures
            match res {
                Some(p) => path@.len() > 0 && path@.last() > 0 && (node_at(*self, path@.drop_last()) matches Some(parent)
                    && path@.last() < parent.children@.len() && *p == parent.children@[path@.last() - 1]),
                None => !(path@.len() > 0 && path@.last() > 0 && (node_at(*self, path@.drop_last()) matches Some(parent)
                    && path@.last() < parent.children@.len())),
            },
    {
        match self.parent(path) {
            Some(parent) => {
                let index = path[path.len() - 1];
                if index > 0 && index < parent.children.len() {
                    Some(&parent.children[index - 1])
                } else {
                    None
                }
            },
            None => None,
        }
    }

    /// The node that comes just after the node at `path` among the children of its parent
    pub fn successor<'b>(&'b self, path: &[usize]) -> (res: Option<&'b AstNode<'a>>)
        ensures
            match res {
                Some(s) => path@.len() > 0 && (node_at(*self, path@.drop_last()) matches Some(parent)
                    && path@.last() + 1 < parent.children@.len() && *s == parent.children@[path@.last() + 1]),
                None => !(path@.len() > 0 && (node_at(*self, path@.drop_last()) matches Some(parent)
                    && path@.last() + 1 < parent.children@.len())),
            },
    {
        match self.parent(path) {
            Some(parent) => {
                let index = path[path.len() - 1];
                if index < parent.children.len() && index + 1 < parent.children.len() {
                    Some(&parent.children[index + 1])
                } else {
                    None
                }
            },
            None => None,
        }
    }
}

/// Where the node at a path is found, so is the node at each prefix of the path
proof fn lemma_node_at_prefix_some<'a>(n: AstNode<'a>, path: Seq<usize>, k: int)
    requires
        0 <= k <= path.len(),
        node_at(n, path) is Some,
    ensures
        node_at(n, path.take(k)) is Some,
    decreases path.len(),
{
    if k > 0 && path.len() > 0 {
        assert(path.take(k).skip(1) =~= path.skip(1).take(k - 1));
        lemma_node_at_prefix_some(n.children@[path[0] as int], path.skip(1), k - 1);
    } else if k == 0 {
        assert(path.take(0) =~= Seq::<usize>::empty());
    }
}

} // verus!
