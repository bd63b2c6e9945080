use vstd::prelude::*;

use crate::matching::Matching;
use crate::pcs::Revision;
use crate::text::push_char;

verus! {

/// A set of [Revision]s
#[derive(Debug, PartialEq, Eq, Structural, Copy, Clone, Hash)]
pub struct RevisionSet {
    base: bool,
    left: bool,
    right: bool,
}

/// The revisions in the order in which they are preferred: Left, Right, Base
pub open spec fn preference_order() -> Seq<Revision> {
    seq![Revision::Left, Revision::Right, Revision::Base]
}

impl RevisionSet {
    /// Does this set contain the given revision?
    pub closed spec fn has(self, revision: Revision) -> bool {
        match revision {
            Revision::Base => self.base,
            Revision::Left => self.left,
            Revision::Right => self.right,
        }
    }

    /// No revision belongs to the set
    pub open spec fn spec_is_empty(self) -> bool {
        !self.has(Revision::Base) && !self.has(Revision::Left) && !self.has(Revision::Right)
    }

    /// The revisions of the set, by order of preference Left -> Right -> Base
    pub open spec fn ordered(self) -> Seq<Revision> {
        preference_order().filter(|r: Revision| self.has(r))
    }

    /// Two revision sets are equal exactly when they contain the same revisions
    pub proof fn lemma_extensional(self, other: Self)
        requires
            forall|r: Revision| self.has(r) == other.has(r),
        ensures
            self == other,
    {
        assert(self.has(Revision::Base) == other.has(Revision::Base));
        assert(self.has(Revision::Left) == other.has(Revision::Left));
        assert(self.has(Revision::Right) == other.has(Revision::Right));
    }

    /// A set containing no revision
    pub fn new() -> (res: Self)
        ensures
            forall|r: Revision| !res.has(r),
    {
        Self { base: false, left: false, right: false }
    }

    /// Adds a revision to the set by modifying it
    pub fn add(&mut self, revision: Revision)
        ensures
            forall|r: Revision| final(self).has(r) == (old(self).has(r) || r == revision),
    {
        self.set(revision, true);
    }

    /// Adds a revision to the set by taking ownership
    pub fn with(self, revision: Revision) -> (res: Self)
        ensures
            forall|r: Revision| res.has(r) == (self.has(r) || r == revision),
    {
        let mut s = self;
        s.add(revision);
        s
    }

    /// Removes a revision from this set
    pub fn remove(&mut self, revision: Revision)
        ensures
            forall|r: Revision| final(self).has(r) == (old(self).has(r) && r != revision),
    {
        self.set(revision, false);
    }

    /// Sets whether the revision belongs to the set
    pub fn set(&mut self, revision: Revision, presence: bool)
        ensures
            final(self).has(revision) == presence,
            forall|r: Revision| r != revision ==> final(self).has(r) == old(self).has(r),
    {
        match revision {
            Revision::Base => self.base = presence,
            Revision::Left => self.left = presence,
            Revision::Right => self.right = presence,
        }
    }

    /// Does this set of revisions contain the given revision?
    pub fn contains(self, revision: Revision) -> (res: bool)
        ensures
            res == self.has(revision),
    {
        match revision {
            Revision::Base => self.base,
            Revision::Left => self.left,
            Revision::Right => self.right,
        }
    }

    /// Set intersection
    pub fn intersection(self, other: Self) -> (res: Self)
        ensures
            forall|r: Revision| res.has(r) == (self.has(r) && other.has(r)),
    {
        Self {
            base: self.base && other.base,
            left: self.left && other.left,
            right: self.right && other.right,
        }
    }

    /// Returns any revision contained in the set,
    /// by order of preference Left -> Right -> Base
    pub fn any(self) -> (res: Option<Revision>)
        ensures
            res == (if self.has(Revision::Left) {
                Some(Revision::Left)
            } else if self.has(Revision::Right) {
                Some(Revision::Right)
            } else if self.has(Revision::Base) {
                Some(Revision::Base)
            } else {
                None::<Revision>
            }),
    {
        if self.left {
            Some(Revision::Left)
        } else if self.right {
            Some(Revision::Right)
        } else if self.base {
            Some(Revision::Base)
        } else {
            None
        }
    }

    /// Does this set contain no revision?
    pub fn is_empty(self) -> (res: bool)
        ensures
            res == self.spec_is_empty(),
    {
        !(self.base || self.left || self.right)
    }

    /// Checked version of `is_empty`
    pub fn as_nonempty(self) -> (res: Option<RevisionNESet>)
        ensures
            match res {
                Some(ne) => !self.spec_is_empty() && ne.set_view() == self,
                None => self.spec_is_empty(),
            },
    {
        if self.is_empty() {
            None
        } else {
            Some(RevisionNESet(self))
        }
    }

    /// Does this set contain all three revisions?
    pub fn is_full(self) -> (res: bool)
        ensures
            res == (self.has(Revision::Base) && self.has(Revision::Left) && self.has(
                Revision::Right,
            )),
    {
        self.base && self.left && self.right
    }

    /// The revisions contained in this set, in decreasing priority (Left, Right, Base)
    pub fn iter(self) -> (res: Vec<Revision>)
        ensures
            res@ == self.ordered(),
    {
        let mut res: Vec<Revision> = Vec::new();
        if self.left {
            res.push(Revision::Left);
        }
        if self.right {
            res.push(Revision::Right);
        }
        if self.base {
            res.push(Revision::Base);
        }
        proof {
            reveal_with_fuel(Seq::filter, 4);
            let p = preference_order();
            assert(p.drop_last().drop_last().drop_last() =~= Seq::<Revision>::empty());
            assert(p.drop_last().drop_last() =~= seq![Revision::Left]);
            assert(p.drop_last() =~= seq![Revision::Left, Revision::Right]);
        }
        res
    }

    /// A textual representation such as `/B.R/`, listing the base, left and right revisions
    pub fn display(self) -> (res: String)
        ensures
            res@ == seq!['/'] + seq![if self.has(Revision::Base) { 'B' } else { '.' }]
                + seq![if self.has(Revision::Left) { 'L' } else { '.' }]
                + seq![if self.has(Revision::Right) { 'R' } else { '.' }] + seq!['/'],
    {
        let mut res = String::new();
        push_char(&mut res, '/');
        push_char(&mut res, if self.base { 'B' } else { '.' });
        push_char(&mut res, if self.left { 'L' } else { '.' });
        push_char(&mut res, if self.right { 'R' } else { '.' });
        push_char(&mut res, '/');
        res
    }
}

impl Default for RevisionSet {
    fn default() -> (res: Self)
        ensures
            forall|r: Revision| !res.has(r),
    {
        Self::new()
    }
}

/// A non-empty [`RevisionSet`]
#[derive(Debug, Clone, Copy, Eq, PartialEq, Structural, Hash)]
pub struct RevisionNESet(RevisionSet);

impl RevisionNESet {
    #[verifier::type_invariant]
    spec fn non_empty(self) -> bool {
        !self.0.spec_is_empty()
    }

    /// The underlying revision set
    pub closed spec fn set_view(self) -> RevisionSet {
        self.0
    }

    /// Forget non-emptiness
    pub fn set(self) -> (res: RevisionSet)
        ensures
            res == self.set_view(),
            !res.spec_is_empty(),
    {
        proof {
            use_type_invariant(&self);
        }
        self.0
    }

    /// Does this set contain the given revision?
    pub fn contains(self, revision: Revision) -> (res: bool)
        ensures
            res == self.set_view().has(revision),
    {
        self.0.contains(revision)
    }

    /// A set containing a single revision
    pub fn singleton(revision: Revision) -> (res: Self)
        ensures
            forall|r: Revision| res.set_view().has(r) == (r == revision),
    {
        let mut revisions = RevisionSet::new();
        revisions.add(revision);
        Self(revisions)
    }

    /// Adds a revision to the set by modifying it
    pub fn add(&mut self, revision: Revision)
        ensures
            forall|r: Revision|
                final(self).set_view().has(r) == (old(self).set_view().has(r) || r == revision),
    {
        proof {
            use_type_invariant(&*self);
        }
        let mut s = self.0;
        s.add(revision);
        *self = Self(s);
    }

    /// Adds a revision to the set by taking ownership
    pub fn with(self, revision: Revision) -> (res: Self)
        ensures
            forall|r: Revision| res.set_view().has(r) == (self.set_view().has(r) || r == revision),
    {
        proof {
            use_type_invariant(&self);
        }
        Self(self.0.with(revision))
    }

    /// Returns any revision contained in the set,
    /// by order of preference Left -> Right -> Base
    pub fn any(self) -> (res: Revision)
        ensures
            self.set_view().any_spec() == Some(res),
    {
        proof {
            use_type_invariant(&self);
        }
        match self.0.any() {
            Some(r) => r,
            None => Revision::Base,
        }
    }

    /// A textual representation such as `/B.R/`
    pub fn display(self) -> (res: String)
        ensures
            res@ == self.set_view().display_spec(),
    {
        self.0.display()
    }
}

impl RevisionSet {
    /// The revision returned by `any`
    pub open spec fn any_spec(self) -> Option<Revision> {
        if self.has(Revision::Left) {
            Some(Revision::Left)
        } else if self.has(Revision::Right) {
            Some(Revision::Right)
        } else if self.has(Revision::Base) {
            Some(Revision::Base)
        } else {
            None
        }
    }

    /// The text produced by `display`
    pub open spec fn display_spec(self) -> Seq<char> {
        seq!['/'] + seq![if self.has(Revision::Base) { 'B' } else { '.' }]
            + seq![if self.has(Revision::Left) { 'L' } else { '.' }]
            + seq![if self.has(Revision::Right) { 'R' } else { '.' }] + seq!['/']
    }
}

/// A node of one of the revisions, by its identifier in the tree of that revision
#[derive(Debug, PartialEq, Eq, Structural, Copy, Clone, Hash)]
pub struct RevNode {
    pub rev: Revision,
    pub node: usize,
}

/// The representatives of a class, by revision (the leader itself if there is none)
pub open spec fn reps_of(v: ClassMappingView, leader: Leader) -> Seq<RevNode> {
    let present = seq![Revision::Base, Revision::Left, Revision::Right].filter(|r: Revision| v.1.contains_key((leader, r)));
    if present.len() == 0 {
        seq![leader.0]
    } else {
        present.map_values(|r: Revision| v.1[(leader, r)])
    }
}

/// The node that stands for its class of nodes across revisions
#[derive(Debug, PartialEq, Eq, Structural, Copy, Clone, Hash)]
pub struct Leader(pub RevNode);

impl Leader {
    /// The node that represents its class
    pub fn as_representative(&self) -> (res: RevNode)
        ensures
            res == self.0,
    {
        self.0
    }
}

/// The rank of a revision in the order Base, Left, Right
pub open spec fn rev_rank(r: Revision) -> int {
    match r {
        Revision::Base => 0,
        Revision::Left => 1,
        Revision::Right => 2,
    }
}

/// The map given by a list of entries, where later entries override earlier ones
pub open spec fn leader_map(s: Seq<(RevNode, Leader)>) -> Map<RevNode, Leader>
    decreases s.len(),
{
    if s.len() == 0 {
        Map::empty()
    } else {
        leader_map(s.drop_last()).insert(s.last().0, s.last().1)
    }
}

/// The representatives given by a list of entries, where later entries override earlier ones
pub open spec fn representative_map(s: Seq<(Leader, Revision, RevNode)>) -> Map<(Leader, Revision), RevNode>
    decreases s.len(),
{
    if s.len() == 0 {
        Map::empty()
    } else {
        representative_map(s.drop_last()).insert((s.last().0, s.last().1), s.last().2)
    }
}

/// The counts given by a list of entries, where later entries override earlier ones
pub open spec fn count_map(s: Seq<(Leader, i8)>) -> Map<Leader, int>
    decreases s.len(),
{
    if s.len() == 0 {
        Map::empty()
    } else {
        count_map(s.drop_last()).insert(s.last().0, s.last().1 as int)
    }
}

/// What a class mapping holds: the leader of each node that was matched, the representative
/// of each class at each revision, and for each class the number of exact matchings in it
pub type ClassMappingView = (Map<RevNode, Leader>, Map<(Leader, Revision), RevNode>, Map<Leader, int>);

/// The leader of the class of a node, or the node itself
pub open spec fn leader_or_self(m: Map<RevNode, Leader>, n: RevNode) -> RevNode {
    if m.contains_key(n) {
        m[n].0
    } else {
        n
    }
}

/// Would matching `left` with `right` join two nodes already matched to distinct base nodes?
pub open spec fn contradicts_base(m: Map<RevNode, Leader>, left: RevNode, right: RevNode) -> bool {
    &&& left.rev == Revision::Left
    &&& right.rev == Revision::Right
    &&& m.contains_key(left) && m[left].0.rev == Revision::Base
    &&& m.contains_key(right) && m[right].0.rev == Revision::Base
    &&& m[left].0.node != m[right].0.node
}

/// The class mapping after adding the match of node `l` of revision `from_rev` with node `r`
/// of revision `to_rev`: both join a class whose leader is that of the class of either, the
/// one of the earlier revision (or the class of `l` if they are of the same revision)
pub open spec fn added_pair(v: ClassMappingView, l: usize, r: usize, from_rev: Revision, to_rev: Revision, is_exact: bool) -> ClassMappingView {
    let left = RevNode { rev: from_rev, node: l };
    let right = RevNode { rev: to_rev, node: r };
    if contradicts_base(v.0, left, right) {
        v
    } else {
        let leader_left = leader_or_self(v.0, right);
        let leader_right = leader_or_self(v.0, left);
        let leader = Leader(if rev_rank(leader_left.rev) < rev_rank(leader_right.rev) { leader_left } else { leader_right });
        let exact = if is_exact && !v.1.contains_key((leader, to_rev)) {
            v.2.insert(leader, (if v.2.contains_key(leader) { v.2[leader] } else { 0 }) + 1)
        } else {
            v.2
        };
        (v.0.insert(left, leader).insert(right, leader), v.1.insert((leader, to_rev), right).insert((leader, from_rev), left), exact)
    }
}

/// The class mapping after adding the matches of `pairs`, in that order
pub open spec fn added_pairs(v: ClassMappingView, pairs: Seq<(usize, usize)>, from_rev: Revision, to_rev: Revision, is_exact: bool) -> ClassMappingView
    decreases pairs.len(),
{
    if pairs.len() == 0 {
        v
    } else {
        added_pair(added_pairs(v, pairs.drop_last(), from_rev, to_rev, is_exact), pairs.last().0, pairs.last().1, from_rev, to_rev, is_exact)
    }
}

/// Does the sequence list each pair of the matching once?
pub open spec fn lists_pairs(pairs: Seq<(usize, usize)>, m: Map<usize, usize>) -> bool {
    &&& pairs.len() == m.len()
    &&& forall|i: int| 0 <= i < pairs.len() ==> m.contains_key(#[trigger] pairs[i].0) && m[pairs[i].0] == pairs[i].1
    &&& forall|l: usize| #[trigger] m.contains_key(l) ==> pairs.contains((l, m[l]))
}

/// The number of revisions at which the class of `leader` has a representative
pub open spec fn represented_revisions(reps: Map<(Leader, Revision), RevNode>, leader: Leader) -> int {
    (if reps.contains_key((leader, Revision::Base)) { 1int } else { 0 })
        + (if reps.contains_key((leader, Revision::Left)) { 1int } else { 0 })
        + (if reps.contains_key((leader, Revision::Right)) { 1int } else { 0 })
}

/// Creates classes of nodes across multiple revisions so that
/// they can be equated when converting the corresponding trees
/// to PCS, following the 3DM-Merge algorithm from Spork
#[derive(Debug)]
pub struct ClassMapping {
    map: Vec<(RevNode, Leader)>,
    representatives: Vec<(Leader, Revision, RevNode)>,
    exact_matchings: Vec<(Leader, i8)>,
}

impl View for ClassMapping {
    type V = ClassMappingView;

    closed spec fn view(&self) -> ClassMappingView {
        (leader_map(self.map@), representative_map(self.representatives@), count_map(self.exact_matchings@))
    }
}

/// Is each count of exact matchings positive, and at most the number of revisions at which
/// the class has representatives?
pub open spec fn counts_bounded(v: ClassMappingView) -> bool {
    forall|l: Leader| #[trigger] v.2.contains_key(l) ==> 1 <= v.2[l] <= represented_revisions(v.1, l)
}

proof fn lemma_added_pair_bounded(v: ClassMappingView, l: usize, r: usize, from_rev: Revision, to_rev: Revision, is_exact: bool)
    requires
        counts_bounded(v),
    ensures
        counts_bounded(added_pair(v, l, r, from_rev, to_rev, is_exact)),
{
    let w = added_pair(v, l, r, from_rev, to_rev, is_exact);
    assert forall|k: Leader| #[trigger] w.2.contains_key(k) implies 1 <= w.2[k] <= represented_revisions(w.1, k) by {
        assert(forall|rev: Revision| v.1.contains_key((k, rev)) ==> w.1.contains_key((k, rev)));
        if v.2.contains_key(k) {
            assert(v.2[k] <= represented_revisions(v.1, k));
        }
    }
}

proof fn lemma_leader_map_lookup(s: Seq<(RevNode, Leader)>, k: RevNode, i: int)
    requires
        0 <= i <= s.len(),
        forall|j: int| i <= j < s.len() ==> s[j].0 != k,
    ensures
        leader_map(s).contains_key(k) == leader_map(s.take(i)).contains_key(k),
        leader_map(s).contains_key(k) ==> leader_map(s)[k] == leader_map(s.take(i))[k],
    decreases s.len() - i,
{
    if i < s.len() {
        assert(s.drop_last().take(i) =~= s.take(i));
        lemma_leader_map_lookup(s.drop_last(), k, i);
    } else {
        assert(s.take(i) =~= s);
    }
}

proof fn lemma_representative_map_lookup(s: Seq<(Leader, Revision, RevNode)>, k: (Leader, Revision), i: int)
    requires
        0 <= i <= s.len(),
        forall|j: int| i <= j < s.len() ==> (s[j].0, s[j].1) != k,
    ensures
        representative_map(s).contains_key(k) == representative_map(s.take(i)).contains_key(k),
        representative_map(s).contains_key(k) ==> representative_map(s)[k] == representative_map(s.take(i))[k],
    decreases s.len() - i,
{
    if i < s.len() {
        assert(s.drop_last().take(i) =~= s.take(i));
        lemma_representative_map_lookup(s.drop_last(), k, i);
    } else {
        assert(s.take(i) =~= s);
    }
}

proof fn lemma_count_map_lookup(s: Seq<(Leader, i8)>, k: Leader, i: int)
    requires
        0 <= i <= s.len(),
        forall|j: int| i <= j < s.len() ==> s[j].0 != k,
    ensures
        count_map(s).contains_key(k) == count_map(s.take(i)).contains_key(k),
        count_map(s).contains_key(k) ==> count_map(s)[k] == count_map(s.take(i))[k],
    decreases s.len() - i,
{
    if i < s.len() {
        assert(s.drop_last().take(i) =~= s.take(i));
        lemma_count_map_lookup(s.drop_last(), k, i);
    } else {
        assert(s.take(i) =~= s);
    }
}

impl ClassMapping {
    /// The invariant of the mapping
    pub closed spec fn wf(self) -> bool {
        counts_bounded(self@)
    }

    /// Creates an empty class mapping.
    pub fn new() -> (res: Self)
        ensures
            res.wf(),
            res@ == empty_class_mapping(),
    {
        ClassMapping { map: Vec::new(), representatives: Vec::new(), exact_matchings: Vec::new() }
    }

    /// The leader of the class of a node, if it was matched
    fn leader_of(&self, n: RevNode) -> (res: Option<Leader>)
        ensures
            res == (if self@.0.contains_key(n) { Some(self@.0[n]) } else { None }),
    {
        let mut i: usize = self.map.len();
        while i > 0
            invariant
                0 <= i <= self.map@.len(),
                forall|j: int| i <= j < self.map@.len() ==> self.map@[j].0 != n,
            decreases i,
        {
            if self.map[i - 1].0 == n {
                proof {
                    lemma_leader_map_lookup(self.map@, n, i as int);
                    assert(self.map@.take(i as int).drop_last() =~= self.map@.take(i - 1));
                }
                return Some(self.map[i - 1].1);
            }
            i = i - 1;
        }
        proof {
            lemma_leader_map_lookup(self.map@, n, 0);
        }
        None
    }

    /// The representative of the class of `leader` at a revision, if there is one
    fn representative(&self, leader: Leader, rev: Revision) -> (res: Option<RevNode>)
        ensures
            res == (if self@.1.contains_key((leader, rev)) { Some(self@.1[(leader, rev)]) } else { None }),
    {
        let mut i: usize = self.representatives.len();
        while i > 0
            invariant
                0 <= i <= self.representatives@.len(),
                forall|j: int| i <= j < self.representatives@.len() ==> (self.representatives@[j].0, self.representatives@[j].1) != (leader, rev),
            decreases i,
        {
            let e = self.representatives[i - 1];
            if e.0 == leader && e.1 == rev {
                proof {
                    lemma_representative_map_lookup(self.representatives@, (leader, rev), i as int);
                    assert(self.representatives@.take(i as int).drop_last() =~= self.representatives@.take(i - 1));
                }
                return Some(e.2);
            }
            i = i - 1;
        }
        proof {
            lemma_representative_map_lookup(self.representatives@, (leader, rev), 0);
        }
        None
    }

    /// The number of exact matchings in the class of `leader`, if there are some
    fn exact_count(&self, leader: Leader) -> (res: Option<i8>)
        ensures
            match res {
                Some(c) => self@.2.contains_key(leader) && self@.2[leader] == c as int,
                None => !self@.2.contains_key(leader),
            },
    {
        let mut i: usize = self.exact_matchings.len();
        while i > 0
            invariant
                0 <= i <= self.exact_matchings@.len(),
                forall|j: int| i <= j < self.exact_matchings@.len() ==> self.exact_matchings@[j].0 != leader,
            decreases i,
        {
            if self.exact_matchings[i - 1].0 == leader {
                proof {
                    lemma_count_map_lookup(self.exact_matchings@, leader, i as int);
                    assert(self.exact_matchings@.take(i as int).drop_last() =~= self.exact_matchings@.take(i - 1));
                }
                return Some(self.exact_matchings[i - 1].1);
            }
            i = i - 1;
        }
        proof {
            lemma_count_map_lookup(self.exact_matchings@, leader, 0);
        }
        None
    }
}

impl RevNode {
    /// The node with this identifier in the tree of that revision
    pub fn new(rev: Revision, node: usize) -> (res: Self)
        ensures
            res.rev == rev,
            res.node == node,
    {
        RevNode { rev, node }
    }
}

impl ClassMapping {
    /// Adds the match of node `l` of revision `from_rev` with node `r` of revision `to_rev`
    fn add_pair(&mut self, l: usize, r: usize, from_rev: Revision, to_rev: Revision, is_exact: bool)
        requires
            old(self).wf(),
        ensures
            final(self).wf(),
            final(self)@ == added_pair(old(self)@, l, r, from_rev, to_rev, is_exact),
    {
        let ghost v = self@;
        let left = RevNode { rev: from_rev, node: l };
        let right = RevNode { rev: to_rev, node: r };
        let left_leader = self.leader_of(left);
        let right_leader = self.leader_of(right);
        if from_rev == Revision::Left && to_rev == Revision::Right {
            match (left_leader, right_leader) {
                (Some(Leader(a)), Some(Leader(b))) => {
                    if a.rev == Revision::Base && b.rev == Revision::Base && a.node != b.node {
                        return;
                    }
                },
                _ => {},
            }
        }
        assert(!contradicts_base(v.0, left, right));
        let leader_left = match right_leader {
            Some(Leader(n)) => n,
            None => right,
        };
        let leader_right = match left_leader {
            Some(Leader(n)) => n,
            None => left,
        };
        let rank_left: u8 = match leader_left.rev {
            Revision::Base => 0,
            Revision::Left => 1,
            Revision::Right => 2,
        };
        let rank_right: u8 = match leader_right.rev {
            Revision::Base => 0,
            Revision::Left => 1,
            Revision::Right => 2,
        };
        let leader = Leader(if rank_left < rank_right { leader_left } else { leader_right });
        self.map.push((left, leader));
        self.map.push((right, leader));
        proof {
            assert(self.map@.drop_last().drop_last() == old(self).map@);
        }
        let ghost reps_before = self.representatives@;
        let ghost exact_before = self.exact_matchings@;
        assert(reps_before == old(self).representatives@);
        assert(exact_before == old(self).exact_matchings@);
        if is_exact {
            let known = self.representative(leader, to_rev);
            if known.is_none() {
                let count = self.exact_count(leader);
                let next: i8 = match count {
                    Some(c) => {
                        proof {
                            assert(v.2[leader] <= represented_revisions(v.1, leader));
                        }
                        c + 1
                    },
                    None => 1,
                };
                self.exact_matchings.push((leader, next));
                proof {
                    assert(self.exact_matchings@.drop_last() == exact_before);
                    assert(count_map(self.exact_matchings@) == count_map(exact_before).insert(leader, next as int));
                }
            }
        }
        self.representatives.push((leader, to_rev, right));
        self.representatives.push((leader, from_rev, left));
        proof {
            lemma_added_pair_bounded(v, l, r, from_rev, to_rev, is_exact);
            let w = added_pair(v, l, r, from_rev, to_rev, is_exact);
            assert(leader.0 == (if rev_rank(leader_left.rev) < rev_rank(leader_right.rev) { leader_left } else { leader_right }));
            let m1 = old(self).map@.push((left, leader));
            assert(self.map@.drop_last() == m1);
            assert(m1.drop_last() =~= old(self).map@);
            assert(leader_map(m1) == leader_map(old(self).map@).insert(left, leader));
            assert(self.map@.last() == (right, leader));
            assert(leader_map(self.map@) == leader_map(m1).insert(right, leader));
            assert(self@.0 =~= w.0);
            let r0 = reps_before;
            assert(self.representatives@ == reps_before.push((leader, to_rev, right)).push((leader, from_rev, left)));
            let r1 = self.representatives@.drop_last();
            assert(r1.drop_last() == r0);
            assert(r1.last() == (leader, to_rev, right));
            assert(self.representatives@.last() == (leader, from_rev, left));
            assert(representative_map(r1) == representative_map(r0).insert((leader, to_rev), right));
            assert(representative_map(self.representatives@) == representative_map(r1).insert((leader, from_rev), left));
            assert(self@.1 =~= w.1);
            assert(self@.2 =~= w.2);
        }
    }

    /// Adds a matching to the mapping. The `from_rev` indicates the revision that's on the left hand side of the mapping.
    /// The `to_rev` indicates the revision that's on the right hand side of the matching.
    /// If we are matching from left to right, then we disregard matchings which are inconsistent with the base matchings added so far.
    /// The `is_exact` parameters indicates if two nodes being matched indicates that they are isomorphic.
    /// The pairs are added in the order in which the matching lists them.
    pub fn add_matching(&mut self, matching: &Matching, from_rev: Revision, to_rev: Revision, is_exact: bool)
        requires
            old(self).wf(),
        ensures
            final(self).wf(),
            exists|pairs: Seq<(usize, usize)>| lists_pairs(pairs, matching@)
                && final(self)@ == added_pairs(old(self)@, pairs, from_rev, to_rev, is_exact),
    {
        let pairs = matching.as_ids();
        let ghost start = self@;
        let mut i: usize = 0;
        while i < pairs.len()
            invariant
                0 <= i <= pairs@.len(),
                self.wf(),
                self@ == added_pairs(start, pairs@.take(i as int), from_rev, to_rev, is_exact),
            decreases pairs@.len() - i,
        {
            let (l, r) = pairs[i];
            self.add_pair(l, r, from_rev, to_rev, is_exact);
            proof {
                assert(pairs@.take(i + 1).drop_last() =~= pairs@.take(i as int));
                assert(pairs@.take(i + 1).last() == (l, r));
            }
            i = i + 1;
        }
        proof {
            assert(pairs@.take(pairs@.len() as int) =~= pairs@);
            assert(lists_pairs(pairs@, matching@));
        }
    }

    /// Are the representatives of this leader all isomorphic?
    /// In this case, it's not worth trying to merge their contents.
    pub fn is_isomorphic_in_all_revisions(&self, leader: &Leader) -> (res: bool)
        ensures
            res == (self@.2.contains_key(*leader) && self@.2[*leader] >= 2),
    {
        match self.exact_count(*leader) {
            Some(n) => n >= 2,
            None => false,
        }
    }

    /// Maps a node from some revision to its class representative
    pub fn map_to_leader(&self, rev_node: RevNode) -> (res: Leader)
        ensures
            res.0 == leader_or_self(self@.0, rev_node),
    {
        match self.leader_of(rev_node) {
            Some(l) => l,
            None => Leader(rev_node),
        }
    }

    /// The set of revisions for which we have a representative for this leader
    pub fn revision_set(&self, leader: &Leader) -> (res: RevisionNESet)
        ensures
            forall|r: Revision| res.set_view().has(r) == (r == leader.0.rev || self@.1.contains_key((*leader, r))),
    {
        let mut set = RevisionNESet::singleton(leader.0.rev);
        if self.representative(*leader, Revision::Base).is_some() {
            set.add(Revision::Base);
        }
        if self.representative(*leader, Revision::Left).is_some() {
            set.add(Revision::Left);
        }
        if self.representative(*leader, Revision::Right).is_some() {
            set.add(Revision::Right);
        }
        proof {
            assert forall|r: Revision| set.set_view().has(r) == (r == leader.0.rev || self@.1.contains_key((*leader, r))) by {
                match r {
                    Revision::Base => {},
                    Revision::Left => {},
                    Revision::Right => {},
                }
            }
        }
        set
    }

    /// The set of representatives for this leader, by revision (the leader itself if the
    /// class has no other)
    pub fn representatives(&self, leader: &Leader) -> (res: Vec<RevNode>)
        ensures
            res@ == reps_of(self@, *leader),
    {
        let mut res: Vec<RevNode> = Vec::new();
        let base = self.representative(*leader, Revision::Base);
        let left = self.representative(*leader, Revision::Left);
        let right = self.representative(*leader, Revision::Right);
        match base {
            Some(n) => res.push(n),
            None => {},
        }
        match left {
            Some(n) => res.push(n),
            None => {},
        }
        match right {
            Some(n) => res.push(n),
            None => {},
        }
        proof {
            let all = seq![Revision::Base, Revision::Left, Revision::Right];
            let pred = |r: Revision| self@.1.contains_key((*leader, r));
            reveal_with_fuel(Seq::filter, 4);
            assert(all.drop_last().drop_last().drop_last() =~= Seq::<Revision>::empty());
            assert(all.drop_last().drop_last() =~= seq![Revision::Base]);
            assert(all.drop_last() =~= seq![Revision::Base, Revision::Left]);
            let present = all.filter(pred);
            assert(res@ =~= present.map_values(|r: Revision| self@.1[(*leader, r)]));
        }
        if res.len() == 0 {
            res.push(leader.0);
        }
        res
    }

    /// The node corresponding to this leader at a given revision
    pub fn node_at_rev(&self, leader: &Leader, picked_revision: Revision) -> (res: Option<usize>)
        ensures
            res == if leader.0.rev == picked_revision {
                Some(leader.0.node)
            } else if self@.1.contains_key((*leader, picked_revision)) {
                Some(self@.1[(*leader, picked_revision)].node)
            } else {
                None
            },
    {
        if leader.0.rev == picked_revision {
            Some(leader.0.node)
        } else {
            match self.representative(*leader, picked_revision) {
                Some(n) => Some(n.node),
                None => None,
            }
        }
    }
}

/// After a match is added that does not contradict the base, both nodes are in the same class.
pub proof fn law_matched_nodes_share_a_leader(v: ClassMappingView, l: usize, r: usize, from_rev: Revision, to_rev: Revision, is_exact: bool)
    requires
        !contradicts_base(v.0, RevNode { rev: from_rev, node: l }, RevNode { rev: to_rev, node: r }),
    ensures
        ({
            let w = added_pair(v, l, r, from_rev, to_rev, is_exact).0;
            &&& w.contains_key(RevNode { rev: from_rev, node: l })
            &&& w.contains_key(RevNode { rev: to_rev, node: r })
            &&& w[RevNode { rev: from_rev, node: l }] == w[RevNode { rev: to_rev, node: r }]
        }),
{
}

/// A match that would join two nodes already matched to distinct base nodes changes nothing.
pub proof fn law_contradicting_match_is_ignored(v: ClassMappingView, l: usize, r: usize, is_exact: bool)
    requires
        contradicts_base(v.0, RevNode { rev: Revision::Left, node: l }, RevNode { rev: Revision::Right, node: r }),
    ensures
        added_pair(v, l, r, Revision::Left, Revision::Right, is_exact) == v,
{
}

/// The set of revisions with exactly the given members
pub closed spec fn ne_set_of(base: bool, left: bool, right: bool) -> RevisionNESet {
    RevisionNESet(RevisionSet { base, left, right })
}

/// What the members of [`ne_set_of`] are
pub proof fn lemma_ne_set_of(base: bool, left: bool, right: bool)
    ensures
        ne_set_of(base, left, right).set_view().has(Revision::Base) == base,
        ne_set_of(base, left, right).set_view().has(Revision::Left) == left,
        ne_set_of(base, left, right).set_view().has(Revision::Right) == right,
{
}

/// Two non-empty sets of revisions with the same members are equal
pub proof fn lemma_ne_extensional(a: RevisionNESet, b: RevisionNESet)
    requires
        forall|r: Revision| a.set_view().has(r) == b.set_view().has(r),
    ensures
        a == b,
{
    a.set_view().lemma_extensional(b.set_view());
}

/// The class mapping where nothing is matched
pub open spec fn empty_class_mapping() -> ClassMappingView {
    (Map::empty(), Map::empty(), Map::empty())
}

/// The revisions of the class of `leader`, together with `rev`
pub open spec fn class_revisions(v: ClassMappingView, leader: Leader, rev: Revision) -> RevisionNESet {
    let has = |r: Revision| r == leader.0.rev || v.1.contains_key((leader, r)) || r == rev;
    ne_set_of(has(Revision::Base), has(Revision::Left), has(Revision::Right))
}

} // verus!
