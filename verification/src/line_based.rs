use vstd::prelude::*;

use diffy_imara::{Algorithm, ConflictStyle, MergeOptions};

use crate::merge_result::MergeResult;
use crate::text::byte_len;
use crate::parsed_merge::{chunks_view, conflict_mass_spec, conflicts_have_sides, count_conflicts, parse_spec, rendered, ParsedMerge};
use crate::settings::DisplaySettings;

verus! {

/// The name of the merge method that merges files line by line
pub const LINE_BASED_METHOD: &'static str = "line_based";

/// The text that `diffy_imara` gives for the three-way merge of `base`, `left` and `right`
/// (`MergeOptions::merge` with the histogram algorithm, conflict markers of the given length,
/// and the base revision shown in conflicts if `diff3`), whether it has conflicts or not
pub uninterp spec fn diffy_imara_merge(base: Seq<char>, left: Seq<char>, right: Seq<char>, marker_length: nat, diff3: bool) -> Seq<char>;

/// Merges three revisions line by line with `diffy_imara::MergeOptions::merge`.
/// The contract only names the text it returns: it is a function of the arguments alone.
#[verifier::external_body]
fn merge_lines(base: &str, left: &str, right: &str, marker_length: usize, diff3: bool) -> (res: String)
    ensures
        res@ == diffy_imara_merge(base@, left@, right@, marker_length as nat, diff3),
{
    let style = if diff3 { ConflictStyle::Diff3 } else { ConflictStyle::Merge };
    match MergeOptions::new()
        .set_conflict_marker_length(marker_length)
        .set_conflict_style(style)
        .set_algorithm(Algorithm::Histogram)
        .merge(base, left, right)
    {
        Ok(contents) | Err(contents) => contents,
    }
}

/// Can the text of a line-based merge be parsed and rendered back?
pub open spec fn renderable_merge(merged: Seq<char>, settings: DisplaySettings) -> bool {
    &&& parse_spec(merged, settings.marker_size() as int, 0) is Some
    &&& conflicts_have_sides(parse_spec(merged, settings.marker_size() as int, 0)->0)
}

/// Parses the text of a line-based merge, if it can be parsed and rendered back
pub fn parse_line_based_merge(merged: &str, settings: &DisplaySettings) -> (res: Option<ParsedMerge>)
    ensures
        match res {
            Some(p) => renderable_merge(merged@, *settings)
                && parse_spec(merged@, settings.marker_size() as int, 0) == Some(chunks_view(p.chunks@))
                && conflict_mass_spec(chunks_view(p.chunks@)) <= byte_len(merged@) && byte_len(merged@) <= usize::MAX,
            None => !renderable_merge(merged@, *settings),
        },
{
    // the text is held in memory, so its number of bytes fits in a `usize`
    let _bytes = crate::text::str_byte_len(merged);
    match ParsedMerge::parse(merged, settings) {
        Ok(p) => if p.all_conflicts_have_sides() {
            Some(p)
        } else {
            None
        },
        Err(_) => None,
    }
}

/// Perform a textual merge with the diff3 algorithm, and parse its conflicts
/// (`None` if they cannot be parsed and rendered back)
pub fn line_based_merge_parsed(
    contents_base: &str,
    contents_left: &str,
    contents_right: &str,
    settings: &DisplaySettings,
) -> (res: Option<ParsedMerge>)
    ensures
        ({
            let merged = diffy_imara_merge(contents_base@, contents_left@, contents_right@, settings.marker_size(), settings.diff3);
            match res {
                Some(p) => renderable_merge(merged, *settings)
                    && parse_spec(merged, settings.marker_size() as int, 0) == Some(chunks_view(p.chunks@))
                    && conflict_mass_spec(chunks_view(p.chunks@)) <= byte_len(merged) && byte_len(merged) <= usize::MAX,
                None => !renderable_merge(merged, *settings),
            }
        }),
{
    let merged = merge_lines(
        contents_base,
        contents_left,
        contents_right,
        settings.conflict_marker_size_or_default(),
        settings.diff3,
    );
    parse_line_based_merge(merged.as_str(), settings)
}

/// The merge result of the text of a line-based merge, if it can be parsed and rendered back
pub fn merge_result_of_line_based_merge(merged: &str, settings: &DisplaySettings) -> (res: Option<MergeResult>)
    ensures
        match res {
            Some(r) => renderable_merge(merged@, *settings) && ({
                let chunks = parse_spec(merged@, settings.marker_size() as int, 0)->0;
                &&& r.contents@ == rendered(chunks, *settings)
                &&& r.conflict_count == count_conflicts(chunks)
                &&& r.conflict_mass == conflict_mass_spec(chunks)
                &&& r.method@ == LINE_BASED_METHOD@
                &&& !r.has_additional_issues
            }),
            None => !renderable_merge(merged@, *settings),
        },
{
    let length = crate::text::to_chars(merged).len();
    assert(merged@.len() == length);
    match parse_line_based_merge(merged, settings) {
        Some(p) => Some(p.into_merge_result(settings)),
        None => None,
    }
}

/// Perform a textual merge with the diff3 algorithm
/// (`None` if its conflicts cannot be parsed and rendered back).
pub fn line_based_merge(
    contents_base: &str,
    contents_left: &str,
    contents_right: &str,
    settings: &DisplaySettings,
) -> (res: Option<MergeResult>)
    ensures
        ({
            let merged = diffy_imara_merge(contents_base@, contents_left@, contents_right@, settings.marker_size(), settings.diff3);
            match res {
                Some(r) => renderable_merge(merged, *settings) && ({
                    let chunks = parse_spec(merged, settings.marker_size() as int, 0)->0;
                    &&& r.contents@ == rendered(chunks, *settings)
                    &&& r.conflict_count == count_conflicts(chunks)
                    &&& r.conflict_mass == conflict_mass_spec(chunks)
                    &&& r.method@ == LINE_BASED_METHOD@
                    &&& !r.has_additional_issues
                }),
                None => !renderable_merge(merged, *settings),
            }
        }),
{
    let merged = merge_lines(
        contents_base,
        contents_left,
        contents_right,
        settings.conflict_marker_size_or_default(),
        settings.diff3,
    );
    merge_result_of_line_based_merge(merged.as_str(), settings)
}

} // verus!
