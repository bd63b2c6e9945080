use vstd::prelude::*;

use crate::parsed_merge::{MergedChunk, ParsedMerge};
use crate::text::{push_char, push_str, repeat_char};

verus! {

/// The number of characters of conflict markers, unless configured otherwise
pub const DEFAULT_CONFLICT_MARKER_SIZE: usize = 7;

/// Parameters controlling how the merged tree should be output.
#[derive(Clone, Debug, PartialEq, Eq)]
pub struct DisplaySettings {
    /// Whether to show the base revision in the conflicts (true by default)
    pub diff3: bool,
    /// Whether to show compact conflicts or to expand them to fill an entire line
    pub compact: Option<bool>,
    /// The number of characters for conflict markers (7 by default)
    pub conflict_marker_size: Option<usize>,
    /// The string that identifies the left revision in conflict markers
    pub left_revision_name: Option<String>,
    /// The string that identifies the base revision in conflict markers
    pub base_revision_name: Option<String>,
    /// The string that identifies the right revision in conflict markers
    pub right_revision_name: Option<String>,
}

/// The view of an optional string
pub open spec fn opt_view(s: Option<String>) -> Option<Seq<char>> {
    match s {
        Some(s) => Some(s@),
        None => None,
    }
}

/// A marker made of `n` copies of a character
pub open spec fn marker_chars(c: char, n: nat) -> Seq<char> {
    Seq::new(n, |i: int| c)
}

impl DisplaySettings {
    /// The marker size in use
    pub open spec fn marker_size(self) -> nat {
        match self.conflict_marker_size {
            Some(n) => n as nat,
            None => DEFAULT_CONFLICT_MARKER_SIZE as nat,
        }
    }

    /// The name of the left revision in use
    pub open spec fn left_name(self) -> Seq<char> {
        match self.left_revision_name {
            Some(s) => s@,
            None => "LEFT"@,
        }
    }

    /// The name of the base revision in use
    pub open spec fn base_name(self) -> Seq<char> {
        match self.base_revision_name {
            Some(s) => s@,
            None => "BASE"@,
        }
    }

    /// The name of the right revision in use
    pub open spec fn right_name(self) -> Seq<char> {
        match self.right_revision_name {
            Some(s) => s@,
            None => "RIGHT"@,
        }
    }

    /// The text of the left marker line, without its line break
    pub open spec fn left_marker(self) -> Seq<char> {
        marker_chars('<', self.marker_size()) + seq![' '] + self.left_name()
    }

    /// The text of the base marker line, without its line break
    pub open spec fn base_marker(self) -> Seq<char> {
        marker_chars('|', self.marker_size()) + seq![' '] + self.base_name()
    }

    /// The text of the middle marker line, without its line break
    pub open spec fn middle_marker(self) -> Seq<char> {
        marker_chars('=', self.marker_size())
    }

    /// The text of the right marker line, without its line break
    pub open spec fn right_marker(self) -> Seq<char> {
        marker_chars('>', self.marker_size()) + seq![' '] + self.right_name()
    }

    pub fn new(
        compact: Option<bool>,
        conflict_marker_size: Option<usize>,
        base_revision_name: Option<String>,
        left_revision_name: Option<String>,
        right_revision_name: Option<String>,
    ) -> (res: Self)
        ensures
            res.compact == compact,
            res.conflict_marker_size == conflict_marker_size,
            res.base_revision_name == base_revision_name,
            res.left_revision_name == left_revision_name,
            res.right_revision_name == right_revision_name,
            res.diff3,
    {
        Self {
            compact,
            conflict_marker_size,
            base_revision_name,
            left_revision_name,
            right_revision_name,
            diff3: true,
        }
    }

    /// The value of `compact` if set, the default value otherwise
    pub fn compact_or_default(&self) -> (res: bool)
        ensures
            res == match self.compact {
                Some(b) => b,
                None => false,
            },
    {
        match self.compact {
            Some(b) => b,
            None => false,
        }
    }

    /// The value of `conflict_marker_size` if set, the default value otherwise
    pub fn conflict_marker_size_or_default(&self) -> (res: usize)
        ensures
            res == self.marker_size(),
    {
        match self.conflict_marker_size {
            Some(n) => n,
            None => DEFAULT_CONFLICT_MARKER_SIZE,
        }
    }

    /// Sets the size of the conflict markers
    pub fn set_conflict_marker_size(&mut self, new_size: usize)
        ensures
            *final(self) == (DisplaySettings { conflict_marker_size: Some(new_size), ..*old(self) }),
    {
        self.conflict_marker_size = Some(new_size);
    }

    /// The value of `left_revision_name` if set, the default value otherwise
    pub fn left_revision_name_or_default(&self) -> (res: &str)
        ensures
            res@ == self.left_name(),
    {
        match &self.left_revision_name {
            Some(s) => s.as_str(),
            None => "LEFT",
        }
    }

    /// The value of `base_revision_name` if set, the default value otherwise
    pub fn base_revision_name_or_default(&self) -> (res: &str)
        ensures
            res@ == self.base_name(),
    {
        match &self.base_revision_name {
            Some(s) => s.as_str(),
            None => "BASE",
        }
    }

    /// The value of `right_revision_name` if set, the default value otherwise
    pub fn right_revision_name_or_default(&self) -> (res: &str)
        ensures
            res@ == self.right_name(),
    {
        match &self.right_revision_name {
            Some(s) => s.as_str(),
            None => "RIGHT",
        }
    }

    /// The marker at the beginning of the "left" (first) part of a conflict.
    /// It does not contain any newline character.
    pub fn left_marker_or_default(&self) -> (res: String)
        ensures
            res@ == self.left_marker(),
    {
        let mut res = repeat_char('<', self.conflict_marker_size_or_default());
        push_char(&mut res, ' ');
        push_str(&mut res, self.left_revision_name_or_default());
        res
    }

    /// The marker at the beginning of the "base" part of a conflict.
    /// It does not contain any newline character.
    pub fn base_marker_or_default(&self) -> (res: String)
        ensures
            res@ == self.base_marker(),
    {
        let mut res = repeat_char('|', self.conflict_marker_size_or_default());
        push_char(&mut res, ' ');
        push_str(&mut res, self.base_revision_name_or_default());
        res
    }

    /// The marker at the end of the "right" (last) part of a conflict.
    /// It does not contain any newline character.
    pub fn right_marker_or_default(&self) -> (res: String)
        ensures
            res@ == self.right_marker(),
    {
        let mut res = repeat_char('>', self.conflict_marker_size_or_default());
        push_char(&mut res, ' ');
        push_str(&mut res, self.right_revision_name_or_default());
        res
    }

    /// The marker before the beginning of "right" (last) part of a conflict.
    /// It does not contain any newline character.
    pub fn middle_marker_or_default(&self) -> (res: String)
        ensures
            res@ == self.middle_marker(),
    {
        repeat_char('=', self.conflict_marker_size_or_default())
    }

    /// Settings with compact conflicts
    pub fn default_compact() -> (res: Self)
        ensures
            res.compact == Some(true),
            res.conflict_marker_size is None,
            res.base_revision_name is None,
            res.left_revision_name is None,
            res.right_revision_name is None,
            res.diff3,
    {
        Self::new(Some(true), None, None, None, None)
    }

    /// Update display settings by taking revision names from merge (if there are any conflicts)
    pub fn add_revision_names(&mut self, parsed_merge: &ParsedMerge)
        ensures
            match first_conflict_names(parsed_merge.chunks@) {
                Some((l, b, r)) => final(self).diff3 == old(self).diff3 && final(self).compact
                    == old(self).compact && final(self).conflict_marker_size == old(
                    self,
                ).conflict_marker_size && opt_view(final(self).left_revision_name) == l
                    && opt_view(final(self).base_revision_name) == b && opt_view(
                    final(self).right_revision_name,
                ) == r,
                None => *final(self) == *old(self),
            },
    {
        let mut i: usize = 0;
        assert(parsed_merge.chunks@.skip(0) =~= parsed_merge.chunks@);
        while i < parsed_merge.chunks.len()
            invariant
                0 <= i <= parsed_merge.chunks@.len(),
                *self == *old(self),
                first_conflict_names(parsed_merge.chunks@) == first_conflict_names(
                    parsed_merge.chunks@.skip(i as int),
                ),
            decreases parsed_merge.chunks@.len() - i,
        {
            proof {
                assert(parsed_merge.chunks@.skip(i as int).skip(1) =~= parsed_merge.chunks@.skip(
                    i + 1,
                ));
            }
            match &parsed_merge.chunks[i] {
                MergedChunk::Conflict { left_name, base_name, right_name, .. } => {
                    self.left_revision_name = left_name.clone();
                    self.base_revision_name = base_name.clone();
                    self.right_revision_name = right_name.clone();
                    return;
                },
                MergedChunk::Resolved { .. } => {},
            }
            i = i + 1;
        }
    }
}

/// The revision names found in the first conflict of a list of chunks, if any
pub open spec fn first_conflict_names(chunks: Seq<MergedChunk>) -> Option<
    (Option<Seq<char>>, Option<Seq<char>>, Option<Seq<char>>),
>
    decreases chunks.len(),
{
    if chunks.len() == 0 {
        None
    } else {
        match chunks[0] {
            MergedChunk::Conflict { left_name, base_name, right_name, .. } => Some(
                (opt_view(left_name), opt_view(base_name), opt_view(right_name)),
            ),
            MergedChunk::Resolved { .. } => first_conflict_names(chunks.skip(1)),
        }
    }
}

impl Default for DisplaySettings {
    fn default() -> (res: Self)
        ensures
            res.compact == Some(false),
            res.conflict_marker_size is None,
            res.base_revision_name is None,
            res.left_revision_name is None,
            res.right_revision_name is None,
            res.diff3,
    {
        Self::new(Some(false), None, None, None, None)
    }
}

} // verus!
