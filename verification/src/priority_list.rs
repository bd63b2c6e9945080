use vstd::prelude::*;

use crate::ast::{height_of, lemma_max_height_bound, max_height, AstNode};
use crate::text::{lemma_lex_less_asymmetric, lex_less, str_less};

verus! {

/// A tree waiting in a priority list, with its height
pub struct Entry<'b, 'a> {
    /// The height of the tree
    pub height: i32,
    /// The root of the tree
    pub node: &'b AstNode<'a>,
}

/// A priority queue which indexes trees by their height.
/// This follows the "indexed priority list" of
/// [Fine-grained and accurate source code differencing](https://hal.science/hal-01054552), Falleri et al. 2014.
///
/// The entries are kept in the order in which they come out: highest first, and among
/// trees of the same height, the one with the greatest source first.
pub struct PriorityList<'b, 'a> {
    entries: Vec<Entry<'b, 'a>>,
}

/// An entry as a height and a tree
pub open spec fn entry_view<'b, 'a>(e: Entry<'b, 'a>) -> (int, AstNode<'a>) {
    (e.height as int, *e.node)
}

/// Does an entry come out no later than another: it is higher, or as high with a source that
/// does not come before the other's?
pub open spec fn comes_first<'a>(a: (int, AstNode<'a>), b: (int, AstNode<'a>)) -> bool {
    a.0 > b.0 || (a.0 == b.0 && !lex_less(a.1.source@, b.1.source@))
}

/// Is each entry of the sequence placed no later than the next one?
pub open spec fn in_order<'a>(s: Seq<(int, AstNode<'a>)>) -> bool {
    forall|i: int| 0 <= i < s.len() - 1 ==> comes_first(#[trigger] s[i], s[i + 1])
}

/// Where an entry is placed in an ordered sequence: before the first entry that it comes
/// first of, after those with the same height and source
pub open spec fn insertion_point<'a>(s: Seq<(int, AstNode<'a>)>, e: (int, AstNode<'a>)) -> int
    decreases s.len(),
{
    if s.len() == 0 || !comes_first(s[0], e) {
        0
    } else {
        1 + insertion_point(s.skip(1), e)
    }
}

/// The number of entries at the start of the sequence that have the given height
pub open spec fn run_length<'a>(s: Seq<(int, AstNode<'a>)>, h: int) -> int
    decreases s.len(),
{
    if s.len() == 0 || s[0].0 != h {
        0
    } else {
        1 + run_length(s.skip(1), h)
    }
}

/// The entries of the sequence after inserting the first `k` trees, one by one
pub open spec fn with_trees<'a>(s: Seq<(int, AstNode<'a>)>, trees: Seq<AstNode<'a>>, k: int) -> Seq<(int, AstNode<'a>)>
    decreases k,
{
    if k <= 0 || k > trees.len() {
        s
    } else {
        let before = with_trees(s, trees, k - 1);
        let e = (height_of(trees[k - 1]) as int, trees[k - 1]);
        before.insert(insertion_point(before, e), e)
    }
}

proof fn lemma_insertion_point(s: Seq<(int, AstNode)>, e: (int, AstNode), p: int)
    requires
        0 <= p <= s.len(),
        forall|i: int| 0 <= i < p ==> comes_first(#[trigger] s[i], e),
        p < s.len() ==> !comes_first(s[p], e),
    ensures
        insertion_point(s, e) == p,
    decreases p,
{
    if p > 0 {
        assert(comes_first(s[0], e));
        assert forall|i: int| 0 <= i < p - 1 implies comes_first(#[trigger] s.skip(1)[i], e) by {
            assert(s.skip(1)[i] == s[i + 1]);
        }
        if p < s.len() {
            assert(s.skip(1)[p - 1] == s[p]);
        }
        lemma_insertion_point(s.skip(1), e, p - 1);
    }
}

proof fn lemma_run_length(s: Seq<(int, AstNode)>, h: int, k: int)
    requires
        0 <= k <= s.len(),
        forall|i: int| 0 <= i < k ==> (#[trigger] s[i]).0 == h,
        k < s.len() ==> s[k].0 != h,
    ensures
        run_length(s, h) == k,
    decreases k,
{
    if k > 0 {
        assert(s[0].0 == h);
        assert forall|i: int| 0 <= i < k - 1 implies (#[trigger] s.skip(1)[i]).0 == h by {
            assert(s.skip(1)[i] == s[i + 1]);
        }
        if k < s.len() {
            assert(s.skip(1)[k - 1] == s[k]);
        }
        lemma_run_length(s.skip(1), h, k - 1);
    }
}

/// In an ordered sequence, heights never increase
proof fn lemma_heights_decrease(s: Seq<(int, AstNode)>, i: int, j: int)
    requires
        in_order(s),
        0 <= i <= j < s.len(),
    ensures
        s[j].0 <= s[i].0,
    decreases j - i,
{
    if i < j {
        assert(comes_first(s[j - 1], s[j]));
        lemma_heights_decrease(s, i, j - 1);
    }
}

/// Inserting an entry at its insertion point keeps the sequence ordered
proof fn lemma_insert_in_order(s: Seq<(int, AstNode)>, e: (int, AstNode), p: int)
    requires
        in_order(s),
        0 <= p <= s.len(),
        forall|i: int| 0 <= i < p ==> comes_first(#[trigger] s[i], e),
        p < s.len() ==> !comes_first(s[p], e),
    ensures
        in_order(s.insert(p, e)),
{
    let t = s.insert(p, e);
    if p < s.len() {
        lemma_lex_less_asymmetric(s[p].1.source@, e.1.source@);
        assert(comes_first(e, s[p]));
    }
    assert forall|i: int| 0 <= i < t.len() - 1 implies comes_first(#[trigger] t[i], t[i + 1]) by {
        if i + 1 < p {
            assert(t[i] == s[i] && t[i + 1] == s[i + 1]);
        } else if i + 1 == p {
            assert(t[i] == s[i] && t[i + 1] == e);
        } else if i == p {
            assert(t[i] == e && t[i + 1] == s[p]);
        } else {
            assert(t[i] == s[i - 1] && t[i + 1] == s[i]);
        }
    }
}

impl<'b, 'a> PriorityList<'b, 'a> {
    /// The entries, in the order in which they come out
    pub closed spec fn view(&self) -> Seq<(int, AstNode<'a>)> {
        self.entries@.map_values(|e: Entry<'b, 'a>| entry_view(e))
    }

    /// Are the entries in order, each with the height of its tree?
    pub closed spec fn wf(&self) -> bool {
        &&& in_order(self.view())
        &&& forall|i: int| 0 <= i < self.entries@.len() ==> (#[trigger] self.entries@[i]).height == height_of(*self.entries@[i].node)
    }

    /// Creates an empty priority list
    pub fn new() -> (res: Self)
        ensures
            res.wf(),
            res.view() == Seq::<(int, AstNode<'a>)>::empty(),
    {
        let res = PriorityList { entries: Vec::new() };
        assert(res.view() =~= Seq::<(int, AstNode<'a>)>::empty());
        res
    }

    /// Adds a new node to the priority list
    pub fn push(&mut self, node: &'b AstNode<'a>)
        requires
            old(self).wf(),
            height_of(*node) <= i32::MAX,
        ensures
            final(self).wf(),
            final(self).view() == old(self).view().insert(
                insertion_point(old(self).view(), (height_of(*node) as int, *node)),
                (height_of(*node) as int, *node),
            ),
    {
        let height = node.height();
        let entry = Entry { height, node };
        let ghost e = entry_view(entry);
        let ghost s = self.view();
        let mut p: usize = 0;
        let mut found = false;
        while p < self.entries.len() && !found
            invariant
                self.wf(),
                s == self.view(),
                e == entry_view(entry),
                e == (height as int, *node),
                s.len() == self.entries@.len(),
                0 <= p <= s.len(),
                forall|i: int| 0 <= i < p ==> comes_first(#[trigger] s[i], e),
                found ==> p < s.len() && !comes_first(s[p as int], e),
            decreases s.len() - p + (if found { 0int } else { 1int }),
        {
            let other = &self.entries[p];
            assert(s[p as int] == entry_view(*other));
            let first = other.height > height
                || (other.height == height && !str_less(other.node.source.as_str(), node.source.as_str()));
            assert(first == comes_first(s[p as int], e));
            if first {
                p = p + 1;
            } else {
                found = true;
            }
        }
        proof {
            lemma_insertion_point(s, e, p as int);
            lemma_insert_in_order(s, e, p as int);
        }
        self.entries.insert(p, entry);
        assert(self.view() =~= s.insert(p as int, e));
    }

    /// Returns the maximum height of the trees in the list
    pub fn peek_max(&self) -> (res: Option<i32>)
        requires
            self.wf(),
        ensures
            res == (if self.view().len() == 0 { None } else { Some(self.view()[0].0 as i32) }),
            res matches Some(m) ==> forall|i: int| 0 <= i < self.view().len() ==> #[trigger] self.view()[i].0 <= m,
    {
        if self.entries.len() == 0 {
            None
        } else {
            proof {
                assert forall|i: int| 0 <= i < self.view().len() implies #[trigger] self.view()[i].0 <= self.view()[0].0 by {
                    lemma_heights_decrease(self.view(), 0, i);
                }
            }
            Some(self.entries[0].height)
        }
    }

    /// Returns the list of all nodes with maximum height, removing them from the list:
    /// those with the greatest sources first
    pub fn pop(&mut self) -> (res: Vec<&'b AstNode<'a>>)
        requires
            old(self).wf(),
        ensures
            final(self).wf(),
            ({
                let s = old(self).view();
                let k = if s.len() == 0 { 0 } else { run_length(s, s[0].0) };
                &&& res@.len() == k
                &&& forall|i: int| 0 <= i < k ==> *(#[trigger] res@[i]) == s[i].1
                &&& final(self).view() == s.skip(k)
            }),
            forall|i: int| 0 <= i < res@.len() ==> height_of(*(#[trigger] res@[i])) == old(self).view()[0].0,
            forall|i: int| 0 <= i < final(self).view().len() ==> #[trigger] final(self).view()[i].0 < old(self).view()[0].0,
    {
        let ghost s = self.view();
        let mut results: Vec<&'b AstNode<'a>> = Vec::new();
        if self.entries.len() == 0 {
            assert(s.skip(0) =~= s);
            return results;
        }
        let top = self.entries[0].height;
        let mut k: usize = 0;
        while k < self.entries.len() && self.entries[k].height == top
            invariant
                self.wf(),
                s == self.view(),
                s.len() == self.entries@.len(),
                top == s[0].0,
                0 <= k <= s.len(),
                results@.len() == k,
                forall|i: int| 0 <= i < k ==> (#[trigger] s[i]).0 == top,
                forall|i: int| 0 <= i < k ==> *(#[trigger] results@[i]) == s[i].1,
                forall|i: int| 0 <= i < k ==> height_of(*(#[trigger] results@[i])) == top,
            decreases s.len() - k,
        {
            assert(s[k as int] == entry_view(self.entries@[k as int]));
            results.push(self.entries[k].node);
            k = k + 1;
        }
        proof {
            lemma_run_length(s, top as int, k as int);
        }
        let mut rest: Vec<Entry<'b, 'a>> = Vec::new();
        let mut i: usize = k;
        while i < self.entries.len()
            invariant
                self.wf(),
                s == self.view(),
                s.len() == self.entries@.len(),
                k <= i <= s.len(),
                rest@.len() == i - k,
                forall|j: int| 0 <= j < rest@.len() ==> entry_view(#[trigger] rest@[j]) == s[k + j],
                forall|j: int| 0 <= j < rest@.len() ==> (#[trigger] rest@[j]).height == height_of(*rest@[j].node),
            decreases s.len() - i,
        {
            let e = Entry { height: self.entries[i].height, node: self.entries[i].node };
            assert(entry_view(e) == s[i as int]);
            rest.push(e);
            i = i + 1;
        }
        proof {
            if k < s.len() {
                assert(s[k as int].0 != top);
                assert forall|j: int| 0 <= j < s.len() - k implies #[trigger] s.skip(k as int)[j].0 < top by {
                    lemma_heights_decrease(s, 0, k as int);
                    lemma_heights_decrease(s, k as int, j + k);
                }
            }
            assert forall|j: int| 0 <= j < s.len() - k - 1 implies comes_first(#[trigger] s.skip(k as int)[j], s.skip(k as int)[j + 1]) by {
                assert(s.skip(k as int)[j] == s[j + k]);
                assert(s.skip(k as int)[j + 1] == s[j + k + 1]);
            }
        }
        self.entries = rest;
        assert(self.view() =~= s.skip(k as int));
        results
    }

    /// Adds all of the direct children of a node into the queue
    pub fn open(&mut self, node: &'b AstNode<'a>)
        requires
            old(self).wf(),
            height_of(*node) <= i32::MAX,
        ensures
            final(self).wf(),
            final(self).view() == with_trees(old(self).view(), node.children@, node.children@.len() as int),
    {
        let ghost s = self.view();
        let mut i: usize = 0;
        while i < node.children.len()
            invariant
                self.wf(),
                0 <= i <= node.children@.len(),
                height_of(*node) <= i32::MAX,
                self.view() == with_trees(s, node.children@, i as int),
            decreases node.children@.len() - i,
        {
            proof {
                lemma_max_height_bound(node.children@, i + 1, node.children@.len() as int);
                assert(height_of(*node) == 1 + max_height(node.children@, node.children@.len() as int));
            }
            self.push(&node.children[i]);
            i = i + 1;
        }
    }
}

/// Pushing a tree higher than all those in a list, then popping, gives back that tree alone
/// and leaves the list as it was.
pub proof fn law_push_highest_then_pop<'a>(s: Seq<(int, AstNode<'a>)>, e: (int, AstNode<'a>))
    requires
        in_order(s),
        forall|i: int| 0 <= i < s.len() ==> (#[trigger] s[i]).0 < e.0,
    ensures
        insertion_point(s, e) == 0,
        run_length(s.insert(0, e), e.0) == 1,
        s.insert(0, e).skip(1) == s,
{
    lemma_insertion_point(s, e, 0);
    let t = s.insert(0, e);
    assert(t[0] == e);
    if s.len() > 0 {
        assert(t[1] == s[0]);
    }
    lemma_run_length(t, e.0, 1);
    assert(t.skip(1) =~= s);
}

} // verus!
