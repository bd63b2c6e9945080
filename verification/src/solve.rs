use vstd::prelude::*;

use crate::git::GitAttrsForSolve;
use crate::lang_profile::{find_error, LangProfile};
use crate::merge::{best_position, is_best};
use crate::merge_result::MergeResult;
use crate::newline::{imitate_newline_style, imitated, infer_newline_style, inferred_style, lf_normalized, normalize_to_lf};
use crate::parsed_merge::{chunks_view, conflicts_have_sides, count_conflicts, parse_spec, rendered, ChunkView, ParsedMerge};
use crate::settings::{first_conflict_names, opt_view, DisplaySettings, DEFAULT_CONFLICT_MARKER_SIZE};
use crate::text::str_eq;

verus! {

/// The method of the merge rendered back from the conflicts the user supplied
pub const FROM_PARSED_ORIGINAL: &'static str = "from_parsed_original";

/// The message when no solution could be found
pub const NO_SOLUTION: &'static str = "Could not generate any solution";

/// Some options can be both:
/// - provided to `mergiraf solve` on the CLI
/// - specified using Git attributes
///
/// This struct stores the former values
#[derive(Debug, Clone, Default, PartialEq, Eq)]
pub struct CliOpts {
    pub compact: Option<bool>,
    pub conflict_marker_size: Option<usize>,
    pub language: Option<String>,
    pub allow_parse_errors: Option<bool>,
}

/// The first value if there is one, else the second one
pub open spec fn or_else<T>(a: Option<T>, b: Option<T>) -> Option<T> {
    match a {
        Some(x) => Some(x),
        None => b,
    }
}

/// The view of an optional string
pub open spec fn opt_str(o: Option<String>) -> Option<Seq<char>> {
    match o {
        Some(s) => Some(s@),
        None => None,
    }
}

/// The language attribute among the attributes of a file, if any
pub open spec fn attribute_language(git_attrs: Option<GitAttrsForSolve>) -> Option<Seq<char>> {
    match git_attrs {
        Some(a) => opt_str(a.language),
        None => None,
    }
}

/// Why no language is found for the file of a solve, given the options and the attributes of
/// the file: the message, or none when one is found
pub open spec fn language_error(conflict_path: Seq<char>, cli_opts: CliOpts, git_attrs: Option<GitAttrsForSolve>) -> Option<Seq<char>> {
    find_error(conflict_path, opt_str(cli_opts.language), attribute_language(git_attrs))
}

/// The size of the conflict markers of a solve: that of the options, else that of the
/// attributes of the file, else the default one
pub open spec fn solve_marker_size(cli_opts: CliOpts, git_attrs: Option<GitAttrsForSolve>) -> int {
    let size_git = match git_attrs {
        Some(a) => a.conflict_marker_size,
        None => None,
    };
    match or_else(cli_opts.conflict_marker_size, size_git) {
        Some(n) => n as int,
        None => DEFAULT_CONFLICT_MARKER_SIZE as int,
    }
}

/// The names of the revisions given in the first conflict of the chunks, if there is one
pub open spec fn first_names(cs: Seq<ChunkView>) -> Option<(Option<Seq<char>>, Option<Seq<char>>, Option<Seq<char>>)>
    decreases cs.len(),
{
    if cs.len() == 0 {
        None
    } else {
        match cs[0] {
            ChunkView::Conflict { left_name, base_name, right_name, .. } => Some((left_name, base_name, right_name)),
            ChunkView::Resolved { .. } => first_names(cs.skip(1)),
        }
    }
}

/// Are these the display settings a solve renders the parsed chunks with: the base side
/// shown, compactness as the options say, the marker size of the options or attributes, and
/// the revision names of the first conflict (none if there is no conflict)?
pub open spec fn solve_settings(settings: DisplaySettings, cli_opts: CliOpts, git_attrs: Option<GitAttrsForSolve>, cs: Seq<ChunkView>) -> bool {
    &&& settings.diff3
    &&& settings.compact == cli_opts.compact
    &&& settings.marker_size() == solve_marker_size(cli_opts, git_attrs)
    &&& match first_names(cs) {
        Some((l, b, r)) => opt_view(settings.left_revision_name) == l && opt_view(settings.base_revision_name) == b
            && opt_view(settings.right_revision_name) == r,
        None => settings.left_revision_name is None && settings.base_revision_name is None
            && settings.right_revision_name is None,
    }
}

/// The rendering a solve gives does not depend on which settings of a solve are chosen:
/// all of them render the chunks alike.
pub proof fn law_solve_rendering_is_determined(
    s1: DisplaySettings,
    s2: DisplaySettings,
    cli_opts: CliOpts,
    git_attrs: Option<GitAttrsForSolve>,
    cs: Seq<ChunkView>,
)
    requires
        solve_settings(s1, cli_opts, git_attrs, cs),
        solve_settings(s2, cli_opts, git_attrs, cs),
    ensures
        rendered(cs, s1) == rendered(cs, s2),
{
    assert(s1.left_name() == s2.left_name());
    assert(s1.base_name() == s2.base_name());
    assert(s1.right_name() == s2.right_name());
    lemma_rendered_same(cs, s1, s2);
}

proof fn lemma_rendered_same(cs: Seq<ChunkView>, s1: DisplaySettings, s2: DisplaySettings)
    requires
        s1.diff3 == s2.diff3,
        s1.marker_size() == s2.marker_size(),
        s1.left_name() == s2.left_name(),
        s1.base_name() == s2.base_name(),
        s1.right_name() == s2.right_name(),
    ensures
        rendered(cs, s1) == rendered(cs, s2),
    decreases cs.len(),
{
    if cs.len() > 0 {
        lemma_rendered_same(cs.skip(1), s1, s2);
    }
}

proof fn lemma_first_names(chunks: Seq<crate::parsed_merge::MergedChunk>)
    ensures
        first_conflict_names(chunks) == first_names(chunks_view(chunks)),
    decreases chunks.len(),
{
    if chunks.len() > 0 {
        assert(chunks_view(chunks)[0] == chunks[0].view_chunk());
        assert(chunks_view(chunks.skip(1)) =~= chunks_view(chunks).skip(1));
        lemma_first_names(chunks.skip(1));
    }
}

/// Takes the merge results produced by the resolution attempts and picks the best one
/// (see [`is_best`]), unless it is the one rendered back from the supplied conflicts
pub fn select_best_solve(solves: Vec<MergeResult>) -> (res: Result<MergeResult, String>)
    ensures
        solves@.len() == 0 ==> (res matches Err(e) && e@ == NO_SOLUTION@),
        solves@.len() > 0 ==> exists|b: int| #![auto] is_best(solves@, b) && if solves@[b].method@ == FROM_PARSED_ORIGINAL@ {
            (res matches Err(e) && e@ == NO_SOLUTION@)
        } else {
            res == Ok::<MergeResult, String>(solves@[b])
        },
{
    if solves.len() == 0 {
        return Err(NO_SOLUTION.to_owned());
    }
    let mut solves = solves;
    let ghost all = solves@;
    let best_pos = best_position(&solves);
    let best_solve = solves.remove(best_pos);
    if str_eq(best_solve.method, FROM_PARSED_ORIGINAL) {
        // the best solve we've got is the line-based one
        Err(NO_SOLUTION.to_owned())
    } else {
        Ok(best_solve)
    }
}

/// Combine the options provided on the CLI with those extracted from `.gitattributes`
/// to create the display settings and language profile to be used during the solve,
/// together with whether parse errors are allowed (if either says so).
pub fn create_settings(conflict_path: &str, cli_opts: &CliOpts, git_attrs: Option<GitAttrsForSolve>) -> (res: Result<
    (DisplaySettings, LangProfile, Option<bool>),
    String,
>)
    ensures
        match res {
            Ok(_) => language_error(conflict_path@, *cli_opts, git_attrs) is None,
            Err(e) => language_error(conflict_path@, *cli_opts, git_attrs) == Some(e@),
        },
        ({
            let size_git = match git_attrs {
                Some(a) => a.conflict_marker_size,
                None => None,
            };
            let allow_git = match git_attrs {
                Some(a) => a.allow_parse_errors,
                None => None,
            };
            let language_git = match git_attrs {
                Some(a) => opt_str(a.language),
                None => None,
            };
            match res {
                Ok((settings, _, allow)) => settings.compact == cli_opts.compact
                    && settings.conflict_marker_size == or_else(cli_opts.conflict_marker_size, size_git)
                    && settings.left_revision_name is None && settings.base_revision_name is None
                    && settings.right_revision_name is None && settings.diff3
                    && allow == or_else(cli_opts.allow_parse_errors, allow_git),
                Err(e) => match cli_opts.language {
                    Some(n) => e@ == "Specified language '"@ + n@ + "' could not be found"@,
                    None => match language_git {
                        Some(a) => e@ == "Attribute-specified language '"@ + a + "' could not be found"@,
                        None => e@ == "Could not find a supported language for "@ + conflict_path@,
                    },
                },
            }
        }),
{
    let (conflict_marker_size_git, allow_parse_errors_git, language_git) = match git_attrs {
        Some(attrs) => (attrs.conflict_marker_size, attrs.allow_parse_errors, attrs.language),
        None => (None, None, None),
    };
    let conflict_marker_size = match cli_opts.conflict_marker_size {
        Some(s) => Some(s),
        None => conflict_marker_size_git,
    };
    let allow_parse_errors = match cli_opts.allow_parse_errors {
        Some(a) => Some(a),
        None => allow_parse_errors_git,
    };
    // the revision names are taken from the conflicts later on, if possible
    let settings = DisplaySettings::new(cli_opts.compact, conflict_marker_size, None, None, None);
    let language = match &cli_opts.language {
        Some(l) => Some(l.as_str()),
        None => None,
    };
    let attribute_language = match &language_git {
        Some(l) => Some(l.as_str()),
        None => None,
    };
    match LangProfile::find(conflict_path, language, attribute_language) {
        Ok(lang_profile) => Ok((settings, lang_profile, allow_parse_errors)),
        Err(e) => Err(e),
    }
}

/// Solves the conflicts of a file textually: the conflicts are parsed (with the revision names
/// they carry) and rendered back as the merge result, in the newline style of the file.
/// The structured resolution of the conflicts is not part of this library.
pub fn solve(
    conflict_path: &str,
    original_conflict_contents: &str,
    cli_opts: &CliOpts,
    git_attrs: Option<GitAttrsForSolve>,
) -> (res: Result<MergeResult, String>)
    ensures
        ({
            let parsed = parse_spec(lf_normalized(original_conflict_contents@), solve_marker_size(*cli_opts, git_attrs), 0);
            &&& res is Ok <==> (language_error(conflict_path@, *cli_opts, git_attrs) is None && parsed is Some
                && conflicts_have_sides(parsed->0))
            &&& res matches Err(e) ==> match language_error(conflict_path@, *cli_opts, git_attrs) {
                Some(m) => e@ == m,
                None => e@ == NO_SOLUTION@,
            }
        }),
        ({
            let chunks = parse_spec(lf_normalized(original_conflict_contents@), solve_marker_size(*cli_opts, git_attrs), 0)->0;
            res matches Ok(r) ==> {
                &&& r.conflict_count == count_conflicts(chunks)
                &&& !r.has_additional_issues
                &&& exists|settings: DisplaySettings| #[trigger] solve_settings(settings, *cli_opts, git_attrs, chunks)
                    && r.contents@ == imitated(rendered(chunks, settings), inferred_style(original_conflict_contents@))
            }
        }),
{
    let original_newline_style = infer_newline_style(original_conflict_contents);
    let conflict_contents = normalize_to_lf(original_conflict_contents);
    let (mut settings, _lang_profile, _allow_parse_errors) = match create_settings(conflict_path, cli_opts, git_attrs) {
        Ok(s) => s,
        Err(e) => {
            return Err(e);
        },
    };
    assert(settings.marker_size() == solve_marker_size(*cli_opts, git_attrs));
    // the text is held in memory, so its number of bytes fits in a `usize`
    let _bytes = crate::text::str_byte_len(conflict_contents.as_str());
    let parsed = match ParsedMerge::parse(conflict_contents.as_str(), &settings) {
        Ok(p) => p,
        Err(_) => {
            return select_best_solve(Vec::new());
        },
    };
    if !parsed.all_conflicts_have_sides() {
        return select_best_solve(Vec::new());
    }
    let ghost marker_size = settings.marker_size();
    settings.add_revision_names(&parsed);
    assert(settings.marker_size() == marker_size);
    proof {
        lemma_first_names(parsed.chunks@);
        assert(solve_settings(settings, *cli_opts, git_attrs, chunks_view(parsed.chunks@)));
    }
    let mut rendered_from_parsed = parsed.into_merge_result(&settings);
    // the original merge with conflicts is assumed to be free of syntax errors
    // and duplicate signatures, so that it has priority over any other merge
    rendered_from_parsed.has_additional_issues = false;
    let mut solves: Vec<MergeResult> = Vec::new();
    solves.push(rendered_from_parsed);
    let ghost sv = solves@;
    proof {
        reveal_strlit("line_based");
        reveal_strlit("from_parsed_original");
        assert(crate::line_based::LINE_BASED_METHOD@ == "line_based"@);
        assert(FROM_PARSED_ORIGINAL@ == "from_parsed_original"@);
        assert("line_based"@.len() != "from_parsed_original"@.len());
        assert(crate::line_based::LINE_BASED_METHOD@ != FROM_PARSED_ORIGINAL@);
    }
    match select_best_solve(solves) {
        Ok(mut merged) => {
            proof {
                assert(sv.len() == 1);
                let b = choose|b: int| #![auto] is_best(sv, b) && if sv[b].method@ == FROM_PARSED_ORIGINAL@ {
                    false
                } else {
                    Ok::<MergeResult, String>(merged) == Ok::<MergeResult, String>(sv[b])
                };
                assert(b == 0);
            }
            merged.contents = imitate_newline_style(merged.contents.as_str(), original_newline_style);
            assert(rendered(parse_spec(lf_normalized(original_conflict_contents@), settings.marker_size() as int, 0)->0, settings) == rendered(chunks_view(parsed.chunks@), settings));
            Ok(merged)
        },
        Err(e) => Err(e),
    }
}

} // verus!
