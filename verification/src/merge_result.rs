use vstd::prelude::*;

use crate::attempts::{joined, Attempt, attempt_id, BEST_MERGE_FILENAME};
use crate::text::{decimal, decimal_string, push_str};

verus! {

/// A merged output (represented as a string) together with statistics
/// about the conflicts it contains.
#[derive(Debug, Clone, PartialEq, Eq)]
pub struct MergeResult {
    /// The output of the merge (the file contents possibly with conflicts)
    pub contents: String,
    /// The number of conflicts
    pub conflict_count: usize,
    /// The sum of the sizes of conflicts
    pub conflict_mass: usize,
    /// A name for the merge, identifying with which technique it was produced
    pub method: &'static str,
    /// Indicates that there are known conflicts which haven't been marked as such (such as duplicate signatures)
    pub has_additional_issues: bool,
}

/// A file to write in the directory of an attempt
#[derive(Debug, Clone, PartialEq, Eq)]
pub struct AttemptFile {
    pub path: String,
    pub contents: String,
}

/// The message that invites the user to review a merge that solved conflicts
pub open spec fn review_message(solved: nat, id: Seq<char>) -> Seq<char> {
    if solved == 1 {
        "Mergiraf: Solved 1 conflict. Review with: mergiraf review "@ + id
    } else {
        "Mergiraf: Solved "@ + decimal(solved) + " conflicts. Review with: mergiraf review "@ + id
    }
}

impl MergeResult {
    /// The file that stores this merge result in an attempt: named after its method
    pub fn store_in_attempt(&self, attempt: &Attempt) -> (res: AttemptFile)
        ensures
            res.path@ == joined(attempt.dir@, self.method@ + seq!['.'] + attempt.extension@),
            res.contents@ == self.contents@,
    {
        AttemptFile { path: attempt.path(self.method), contents: self.contents.clone() }
    }

    /// The file that marks this merge result as the best one of an attempt (holding its
    /// method), and, if it solved the conflicts of the line-based merge, the message that
    /// invites the user to review it
    pub fn mark_as_best_merge_in_attempt(&self, attempt: &Attempt, line_based_conflicts: usize) -> (res: (AttemptFile, Option<String>))
        ensures
            res.0.path@ == joined(attempt.dir@, BEST_MERGE_FILENAME@),
            res.0.contents@ == self.method@,
            match res.1 {
                Some(m) => self.conflict_count == 0 && line_based_conflicts > 0
                    && m@ == review_message(line_based_conflicts as nat, attempt_id(attempt.file_name@, attempt.uid@)),
                None => !(self.conflict_count == 0 && line_based_conflicts > 0),
            },
    {
        let file = AttemptFile { path: attempt.best_merge_path(), contents: self.method.to_owned() };
        if self.conflict_count == 0 && line_based_conflicts > 0 {
            let mut message = String::new();
            if line_based_conflicts == 1 {
                push_str(&mut message, "Mergiraf: Solved 1 conflict. Review with: mergiraf review ");
            } else {
                push_str(&mut message, "Mergiraf: Solved ");
                push_str(&mut message, decimal_string(line_based_conflicts).as_str());
                push_str(&mut message, " conflicts. Review with: mergiraf review ");
            }
            push_str(&mut message, attempt.id().as_str());
            (file, Some(message))
        } else {
            (file, None)
        }
    }
}

} // verus!
