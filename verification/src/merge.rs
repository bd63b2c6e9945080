use vstd::prelude::*;

use crate::line_based::LINE_BASED_METHOD;
use crate::merge_result::MergeResult;
use crate::text::str_eq;

verus! {

/// Which merge results are considered
#[derive(Debug, Clone, Copy, PartialEq, Eq, Structural)]
pub enum Criterion {
    /// All of them
    Any,
    /// Those without additional issues
    NoIssues,
    /// Those made by the line-based method
    LineBased,
}

/// Does the merge result meet the criterion?
pub open spec fn meets(r: MergeResult, c: Criterion) -> bool {
    match c {
        Criterion::Any => true,
        Criterion::NoIssues => !r.has_additional_issues,
        Criterion::LineBased => r.method@ == LINE_BASED_METHOD@,
    }
}

/// Does the `i`-th result come before the `j`-th one when sorting stably by conflict mass?
pub open spec fn ranks_before(rs: Seq<MergeResult>, i: int, j: int) -> bool {
    rs[i].conflict_mass < rs[j].conflict_mass || (rs[i].conflict_mass == rs[j].conflict_mass && i < j)
}

/// Is the `i`-th result the first of those meeting the criterion, once sorted stably by conflict mass?
pub open spec fn first_by_mass(rs: Seq<MergeResult>, i: int, c: Criterion) -> bool {
    &&& 0 <= i < rs.len()
    &&& meets(rs[i], c)
    &&& forall|j: int| 0 <= j < rs.len() && j != i && meets(#[trigger] rs[j], c) ==> ranks_before(rs, i, j)
}

/// Is the `i`-th result the best one: the first without additional issues once sorted by
/// conflict mass, or the first of all if they all have additional issues?
pub open spec fn is_best(rs: Seq<MergeResult>, i: int) -> bool {
    if exists|j: int| 0 <= j < rs.len() && meets(#[trigger] rs[j], Criterion::NoIssues) {
        first_by_mass(rs, i, Criterion::NoIssues)
    } else {
        first_by_mass(rs, i, Criterion::Any)
    }
}

fn meets_criterion(r: &MergeResult, c: Criterion) -> (res: bool)
    ensures
        res == meets(*r, c),
{
    match c {
        Criterion::Any => true,
        Criterion::NoIssues => !r.has_additional_issues,
        Criterion::LineBased => str_eq(r.method, LINE_BASED_METHOD),
    }
}

/// The position of the first result meeting the criterion, once sorted stably by conflict mass
pub fn position_by_mass(rs: &Vec<MergeResult>, c: Criterion) -> (res: Option<usize>)
    ensures
        match res {
            Some(i) => first_by_mass(rs@, i as int, c),
            None => forall|j: int| 0 <= j < rs@.len() ==> !meets(#[trigger] rs@[j], c),
        },
{
    let mut best: Option<usize> = None;
    let mut i: usize = 0;
    while i < rs.len()
        invariant
            0 <= i <= rs@.len(),
            match best {
                Some(b) => b < i && meets(rs@[b as int], c) && forall|j: int| 0 <= j < i && j != b && meets(#[trigger] rs@[j], c)
                    ==> ranks_before(rs@, b as int, j),
                None => forall|j: int| 0 <= j < i ==> !meets(#[trigger] rs@[j], c),
            },
        decreases rs@.len() - i,
    {
        if meets_criterion(&rs[i], c) {
            match best {
                Some(b) => {
                    if rs[i].conflict_mass < rs[b].conflict_mass {
                        best = Some(i);
                    }
                },
                None => {
                    best = Some(i);
                },
            }
        }
        i = i + 1;
    }
    best
}

/// The position of the best result (see [`is_best`])
pub fn best_position(rs: &Vec<MergeResult>) -> (res: usize)
    requires
        rs@.len() > 0,
    ensures
        is_best(rs@, res as int),
{
    match position_by_mass(rs, Criterion::NoIssues) {
        Some(i) => i,
        None => {
            match position_by_mass(rs, Criterion::Any) {
                Some(i) => i,
                None => {
                    assert(meets(rs@[0], Criterion::Any));
                    0
                },
            }
        },
    }
}

/// The line-based merge and the best merge, which may be the same
#[derive(Debug)]
pub enum LineBasedAndBestAre {
    TheSame(MergeResult),
    NotTheSame { line_based: MergeResult, best: MergeResult },
}

/// Takes merge results among which one is line-based, and picks both the line-based one
/// (the first by conflict mass) and the best one (see [`is_best`]).
/// These may happen to coincide, so returns either one or two merges.
pub fn select_best_merge(merges: Vec<MergeResult>) -> (res: LineBasedAndBestAre)
    requires
        exists|j: int| 0 <= j < merges@.len() && meets(#[trigger] merges@[j], Criterion::LineBased),
    ensures
        exists|b: int, l: int| {
            &&& is_best(merges@, b)
            &&& first_by_mass(merges@, l, Criterion::LineBased)
            &&& match res {
                LineBasedAndBestAre::TheSame(m) => b == l && m == merges@[b],
                LineBasedAndBestAre::NotTheSame { line_based, best } => b != l && best == merges@[b]
                    && line_based == merges@[l],
            }
        },
{
    let mut merges = merges;
    let ghost all = merges@;
    let best_pos = best_position(&merges);
    let line_based_pos = match position_by_mass(&merges, Criterion::LineBased) {
        Some(i) => i,
        None => {
            assert(false);
            0
        },
    };
    if best_pos == line_based_pos {
        let best = merges.remove(best_pos);
        LineBasedAndBestAre::TheSame(best)
    } else if best_pos < line_based_pos {
        // the merge that comes later in the list is removed first
        // in order to keep the position of the other one
        let line_based = merges.remove(line_based_pos);
        let best = merges.remove(best_pos);
        LineBasedAndBestAre::NotTheSame { line_based, best }
    } else {
        let best = merges.remove(best_pos);
        let line_based = merges.remove(line_based_pos);
        LineBasedAndBestAre::NotTheSame { line_based, best }
    }
}

} // verus!
