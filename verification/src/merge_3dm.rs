//! Steps of the 3DM merge algorithm: clustering matched nodes into classes, encoding the
//! three trees as PCS triples, and removing the base triples that the other revisions contradict
use vstd::prelude::*;

use crate::ast::AstNode;
use crate::changeset::{other_roots_of, tree_triples, with_triples, ChangeSet};
use crate::class_mapping::{added_pairs, empty_class_mapping, lists_pairs, ClassMapping, ClassMappingView};
use crate::matching::Matching;
use crate::pcs::{Revision, PCS};

verus! {

/// The matchings between two revisions: the pairs of isomorphic subtrees, and all pairs
pub struct DetailedMatching {
    /// Pairs of nodes whose subtrees are isomorphic
    pub exact: Matching,
    /// All matched pairs of nodes
    pub full: Matching,
}

/// The class mapping built from the three pairs of matchings, adding first the exact ones
/// (base-left, base-right, left-right), then all of them in the same order, each listed
/// by one of `lists`
pub open spec fn mapping_from(
    empty: ClassMappingView,
    lists: Seq<Seq<(usize, usize)>>,
) -> ClassMappingView {
    let v1 = added_pairs(empty, lists[0], Revision::Base, Revision::Left, true);
    let v2 = added_pairs(v1, lists[1], Revision::Base, Revision::Right, true);
    let v3 = added_pairs(v2, lists[2], Revision::Left, Revision::Right, true);
    let v4 = added_pairs(v3, lists[3], Revision::Base, Revision::Left, false);
    let v5 = added_pairs(v4, lists[4], Revision::Base, Revision::Right, false);
    added_pairs(v5, lists[5], Revision::Left, Revision::Right, false)
}

/// Creates the class mapping from the matchings between the three pairs of revisions
pub fn create_class_mapping(
    base_left_matching: &DetailedMatching,
    base_right_matching: &DetailedMatching,
    left_right_matching: &DetailedMatching,
) -> (res: ClassMapping)
    ensures
        res.wf(),
        exists|lists: Seq<Seq<(usize, usize)>>| {
            &&& lists.len() == 6
            &&& lists_pairs(lists[0], base_left_matching.exact@)
            &&& lists_pairs(lists[1], base_right_matching.exact@)
            &&& lists_pairs(lists[2], left_right_matching.exact@)
            &&& lists_pairs(lists[3], base_left_matching.full@)
            &&& lists_pairs(lists[4], base_right_matching.full@)
            &&& lists_pairs(lists[5], left_right_matching.full@)
            &&& res@ == mapping_from(empty_class_mapping(), lists)
        },
{
    let mut class_mapping = ClassMapping::new();
    let ghost v0 = class_mapping@;
    class_mapping.add_matching(&base_left_matching.exact, Revision::Base, Revision::Left, true);
    let ghost v1 = class_mapping@;
    class_mapping.add_matching(&base_right_matching.exact, Revision::Base, Revision::Right, true);
    let ghost v2 = class_mapping@;
    class_mapping.add_matching(&left_right_matching.exact, Revision::Left, Revision::Right, true);
    let ghost v3 = class_mapping@;
    class_mapping.add_matching(&base_left_matching.full, Revision::Base, Revision::Left, false);
    let ghost v4 = class_mapping@;
    class_mapping.add_matching(&base_right_matching.full, Revision::Base, Revision::Right, false);
    let ghost v5 = class_mapping@;
    class_mapping.add_matching(&left_right_matching.full, Revision::Left, Revision::Right, false);
    proof {
        let l0 = choose|p: Seq<(usize, usize)>| lists_pairs(p, base_left_matching.exact@)
            && v1 == added_pairs(v0, p, Revision::Base, Revision::Left, true);
        let l1 = choose|p: Seq<(usize, usize)>| lists_pairs(p, base_right_matching.exact@)
            && v2 == added_pairs(v1, p, Revision::Base, Revision::Right, true);
        let l2 = choose|p: Seq<(usize, usize)>| lists_pairs(p, left_right_matching.exact@)
            && v3 == added_pairs(v2, p, Revision::Left, Revision::Right, true);
        let l3 = choose|p: Seq<(usize, usize)>| lists_pairs(p, base_left_matching.full@)
            && v4 == added_pairs(v3, p, Revision::Base, Revision::Left, false);
        let l4 = choose|p: Seq<(usize, usize)>| lists_pairs(p, base_right_matching.full@)
            && v5 == added_pairs(v4, p, Revision::Base, Revision::Right, false);
        let l5 = choose|p: Seq<(usize, usize)>| lists_pairs(p, left_right_matching.full@)
            && class_mapping@ == added_pairs(v5, p, Revision::Left, Revision::Right, false);
        let lists = seq![l0, l1, l2, l3, l4, l5];
        assert(lists[0] == l0 && lists[1] == l1 && lists[2] == l2 && lists[3] == l3 && lists[4] == l4 && lists[5] == l5);
        assert(lists.len() == 6);
        assert(v0 == empty_class_mapping());
        assert(lists_pairs(lists[0], base_left_matching.exact@));
        assert(lists_pairs(lists[1], base_right_matching.exact@));
        assert(lists_pairs(lists[2], left_right_matching.exact@));
        assert(lists_pairs(lists[3], base_left_matching.full@));
        assert(lists_pairs(lists[4], base_right_matching.full@));
        assert(lists_pairs(lists[5], left_right_matching.full@));
        assert(class_mapping@ == mapping_from(empty_class_mapping(), lists));
    }
    class_mapping
}

/// The triples of the three trees, added in the order base, left, right
pub open spec fn all_triples<'a>(base: AstNode<'a>, left: AstNode<'a>, right: AstNode<'a>, v: ClassMappingView) -> Seq<PCS> {
    with_triples(
        with_triples(with_triples(Seq::empty(), tree_triples(base, Revision::Base, v)), tree_triples(left, Revision::Left, v)),
        tree_triples(right, Revision::Right, v),
    )
}

/// Converts the three trees to PCS triples, together and for the base alone
pub fn generate_pcs_triples(base: &AstNode, left: &AstNode, right: &AstNode, class_mapping: &ClassMapping) -> (res: (ChangeSet, ChangeSet))
    ensures
        res.0@ == all_triples(*base, *left, *right, class_mapping@),
        res.1@ == with_triples(Seq::empty(), tree_triples(*base, Revision::Base, class_mapping@)),
{
    let mut changeset = ChangeSet::new();
    changeset.add_tree(base, Revision::Base, class_mapping);
    changeset.add_tree(left, Revision::Left, class_mapping);
    changeset.add_tree(right, Revision::Right, class_mapping);
    let mut base_changeset = ChangeSet::new();
    base_changeset.add_tree(base, Revision::Base, class_mapping);
    (changeset, base_changeset)
}

/// The triples that a triple is inconsistent with (see [`ChangeSet::inconsistent_triples`])
pub open spec fn inconsistent_with(set: Seq<PCS>, pcs: PCS) -> Seq<PCS> {
    set.filter(|t: PCS| t.parent == pcs.parent && ((t.predecessor == pcs.predecessor) != (t.successor == pcs.successor)))
        + other_roots_of(set, pcs)
}

/// Is the triple one of the base that a triple of another revision is inconsistent with?
pub open spec fn eliminated(set: Seq<PCS>, pcs: PCS) -> bool {
    pcs.revision == Revision::Base && exists|i: int| 0 <= i < inconsistent_with(set, pcs).len()
        && (#[trigger] inconsistent_with(set, pcs)[i]).revision != Revision::Base
}

/// The triples that are kept, in order, out of the first `k` ones
pub open spec fn kept_triples(set: Seq<PCS>, k: int) -> Seq<PCS>
    decreases k,
{
    if k <= 0 || k > set.len() {
        Seq::empty()
    } else if eliminated(set, set[k - 1]) {
        kept_triples(set, k - 1)
    } else {
        kept_triples(set, k - 1).push(set[k - 1])
    }
}

/// Removes the triples of the base that triples of the other revisions are inconsistent with
pub fn fix_pcs_inconsistencies(changeset: &ChangeSet) -> (res: ChangeSet)
    ensures
        res@ == with_triples(Seq::empty(), kept_triples(changeset@, changeset@.len() as int)),
{
    let triples = changeset.iter();
    let mut cleaned_changeset = ChangeSet::new();
    let mut i: usize = 0;
    while i < triples.len()
        invariant
            0 <= i <= triples@.len(),
            triples@ == changeset@,
            cleaned_changeset@ == with_triples(Seq::empty(), kept_triples(changeset@, i as int)),
        decreases triples@.len() - i,
    {
        let pcs = triples[i];
        let mut conflict_found = false;
        if pcs.revision == Revision::Base {
            let conflicting = changeset.inconsistent_triples(pcs);
            let mut j: usize = 0;
            while j < conflicting.len() && !conflict_found
                invariant
                    0 <= j <= conflicting@.len(),
                    forall|k: int| 0 <= k < j ==> (#[trigger] conflicting@[k]).revision == Revision::Base,
                    conflict_found ==> j < conflicting@.len() && conflicting@[j as int].revision != Revision::Base,
                decreases conflicting@.len() - j, if conflict_found { 0int } else { 1int },
            {
                if conflicting[j].revision != Revision::Base {
                    conflict_found = true;
                } else {
                    j = j + 1;
                }
            }
            proof {
                assert(conflicting@ == inconsistent_with(changeset@, pcs));
                if !conflict_found {
                    assert(!eliminated(changeset@, pcs));
                }
            }
        }
        proof {
            assert(conflict_found == eliminated(changeset@, pcs));
        }
        if !conflict_found {
            let ghost before = cleaned_changeset@;
            cleaned_changeset.add(pcs);
            proof {
                let prefix = kept_triples(changeset@, i as int);
                assert(prefix.push(pcs).drop_last() =~= prefix);
                assert(prefix.push(pcs).last() == pcs);
            }
        }
        i = i + 1;
    }
    cleaned_changeset
}

/// The triples kept out of the first `k` are those among them that are not eliminated
proof fn lemma_kept_triples_members(set: Seq<PCS>, k: int, t: PCS)
    requires
        0 <= k <= set.len(),
    ensures
        kept_triples(set, k).contains(t) <==> (set.take(k).contains(t) && !eliminated(set, t)),
    decreases k,
{
    if k > 0 {
        lemma_kept_triples_members(set, k - 1, t);
        assert(set.take(k) =~= set.take(k - 1).push(set[k - 1]));
        let prev = kept_triples(set, k - 1);
        if !eliminated(set, set[k - 1]) {
            assert(prev.push(set[k - 1]).contains(t) <==> (prev.contains(t) || t == set[k - 1])) by {
                if t == set[k - 1] {
                    assert(prev.push(set[k - 1])[prev.len() as int] == t);
                }
                if prev.push(set[k - 1]).contains(t) && t != set[k - 1] {
                    let pp = prev.push(set[k - 1]);
                    let i = choose|i: int| 0 <= i < pp.len() && #[trigger] pp[i] == t;
                    assert(prev[i] == t);
                }
                if prev.contains(t) {
                    let i = choose|i: int| 0 <= i < prev.len() && #[trigger] prev[i] == t;
                    assert(prev.push(set[k - 1])[i] == t);
                }
            }
        }
        assert(set.take(k).contains(t) <==> (set.take(k - 1).contains(t) || t == set[k - 1])) by {
            if t == set[k - 1] {
                assert(set.take(k)[k - 1] == t);
            }
            if set.take(k).contains(t) && t != set[k - 1] {
                let i = choose|i: int| 0 <= i < k && #[trigger] set.take(k)[i] == t;
                assert(set.take(k - 1)[i] == t);
            }
            if set.take(k - 1).contains(t) {
                let i = choose|i: int| 0 <= i < k - 1 && #[trigger] set.take(k - 1)[i] == t;
                assert(set.take(k)[i] == t);
            }
        }
    } else {
        assert(set.take(0) =~= Seq::<PCS>::empty());
    }
}

/// The triples of a set built from a list come from the set or from the list
proof fn lemma_with_triples_members(set: Seq<PCS>, ts: Seq<PCS>, x: PCS)
    requires
        with_triples(set, ts).contains(x),
    ensures
        set.contains(x) || ts.contains(x),
    decreases ts.len(),
{
    if ts.len() > 0 {
        let before = with_triples(set, ts.drop_last());
        if before.contains(x) {
            lemma_with_triples_members(set, ts.drop_last(), x);
            if ts.drop_last().contains(x) {
                let i = choose|i: int| 0 <= i < ts.drop_last().len() && #[trigger] ts.drop_last()[i] == x;
                assert(ts[i] == x);
            }
        } else {
            let i = choose|i: int| 0 <= i < with_triples(set, ts).len() && #[trigger] with_triples(set, ts)[i] == x;
            assert(i == before.len());
            assert(ts[ts.len() - 1] == x);
        }
    }
}

/// `fix_pcs_inconsistencies` keeps a triple of the changeset exactly when it is not a triple
/// of the base revision that some triple of the left or of the right revision is
/// inconsistent with: a change made on either side removes the base structure it contradicts.
pub proof fn law_contradicted_base_triples_are_removed(set: Seq<PCS>, t: PCS)
    ensures
        kept_triples(set, set.len() as int).contains(t) <==> (set.contains(t) && !(t.revision == Revision::Base
            && exists|u: PCS| #[trigger] inconsistent_with(set, t).contains(u)
                && (u.revision == Revision::Left || u.revision == Revision::Right))),
{
    lemma_kept_triples_members(set, set.len() as int, t);
    assert(set.take(set.len() as int) =~= set);
    let inc = inconsistent_with(set, t);
    if eliminated(set, t) {
        let i = choose|i: int| 0 <= i < inc.len() && (#[trigger] inc[i]).revision != Revision::Base;
        assert(inc.contains(inc[i]));
    }
    if exists|u: PCS| #[trigger] inc.contains(u) && (u.revision == Revision::Left || u.revision == Revision::Right) {
        let u = choose|u: PCS| #[trigger] inc.contains(u) && (u.revision == Revision::Left || u.revision == Revision::Right);
        let i = choose|i: int| 0 <= i < inc.len() && #[trigger] inc[i] == u;
        assert(inc[i].revision != Revision::Base);
    }
}

/// No base triple left by `fix_pcs_inconsistencies` has a triple of the changeset from another
/// revision inconsistent with it.
pub proof fn law_fixed_changeset_keeps_no_contradicted_base_triple(set: Seq<PCS>, t: PCS, u: PCS)
    requires
        with_triples(Seq::empty(), kept_triples(set, set.len() as int)).contains(t),
        t.revision == Revision::Base,
        inconsistent_with(set, t).contains(u),
    ensures
        u.revision == Revision::Base,
{
    lemma_with_triples_members(Seq::empty(), kept_triples(set, set.len() as int), t);
    law_contradicted_base_triples_are_removed(set, t);
    if u.revision != Revision::Base {
        assert(u.revision == Revision::Left || u.revision == Revision::Right);
    }
}

} // verus!
