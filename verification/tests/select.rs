use mergiraf::line_based::{line_based_merge, LINE_BASED_METHOD};
use mergiraf::merge::{select_best_merge, LineBasedAndBestAre};
use mergiraf::merge_result::MergeResult;
use mergiraf::settings::DisplaySettings;
use mergiraf::solve::{create_settings, select_best_solve, solve, CliOpts, FROM_PARSED_ORIGINAL};
use mergiraf::git::GitAttrsForSolve;
use mergiraf::std_ext::StrExt;

fn result(method: &'static str, mass: usize, issues: bool) -> MergeResult {
    MergeResult {
        contents: method.to_string(),
        conflict_count: if mass > 0 { 1 } else { 0 },
        conflict_mass: mass,
        method,
        has_additional_issues: issues,
    }
}

#[test]
fn best_merge_skips_results_with_issues() {
    let merges = vec![
        result(LINE_BASED_METHOD, 10, false),
        result("structured", 0, true),
        result("resolved", 5, false),
        result("other", 5, false),
    ];
    match select_best_merge(merges) {
        LineBasedAndBestAre::NotTheSame { line_based, best } => {
            assert_eq!(line_based.method, LINE_BASED_METHOD);
            assert_eq!(best.method, "resolved");
        }
        LineBasedAndBestAre::TheSame(_) => panic!("the best merge is not the line-based one"),
    }
}

#[test]
fn best_merge_can_be_line_based() {
    let merges = vec![result("structured", 3, true), result(LINE_BASED_METHOD, 1, false)];
    assert!(matches!(select_best_merge(merges), LineBasedAndBestAre::TheSame(m) if m.method == LINE_BASED_METHOD));
    // all with issues: the smallest conflict mass wins
    let merges = vec![result("structured", 3, true), result(LINE_BASED_METHOD, 4, true)];
    assert!(matches!(select_best_merge(merges), LineBasedAndBestAre::NotTheSame { best, .. } if best.method == "structured"));
}

#[test]
fn best_solve() {
    assert_eq!(select_best_solve(vec![]).unwrap_err(), "Could not generate any solution");
    let solves = vec![result("a", 7, false), result("b", 2, true), result("c", 7, false)];
    assert_eq!(select_best_solve(solves).unwrap().method, "a");
    let solves = vec![result(FROM_PARSED_ORIGINAL, 1, false), result("c", 7, false)];
    assert_eq!(select_best_solve(solves).unwrap_err(), "Could not generate any solution");
}

#[test]
fn line_based_merge_without_conflicts() {
    let merged = line_based_merge("a\nb\nc\nd\ne\n", "A\nb\nc\nd\ne\n", "a\nb\nc\nd\nE\n", &DisplaySettings::default()).unwrap();
    assert_eq!(merged.contents, "A\nb\nc\nd\nE\n");
    assert_eq!(merged.conflict_count, 0);
    assert_eq!(merged.method, LINE_BASED_METHOD);
}

#[test]
fn line_based_merge_with_conflicts() {
    let contents_base = "import \"github.com/go-redis/redis/v8\"\n\nfunc foo(){}";
    let contents_left = "import \"github.com/redis/go-redis/v9\"\n\nfunc foo(){}";
    let contents_right = "import (\n\t\"fmt\"\n\t\"net\"\n\t\"net/url\"\n\n\t\"github.com/redis/go-redis/v9\"\n)\n\n// a comment to split hunks\nfunc foo(){}";
    let contents_expected = "<<<<<<< LEFT\nimport \"github.com/redis/go-redis/v9\"\n||||||| BASE\nimport \"github.com/go-redis/redis/v8\"\n=======\nimport (\n\t\"fmt\"\n\t\"net\"\n\t\"net/url\"\n>>>>>>> RIGHT\n\n\t\"github.com/redis/go-redis/v9\"\n)\n\n// a comment to split hunks\nfunc foo(){}";
    let merge = line_based_merge(contents_base, contents_left, contents_right, &DisplaySettings::default()).unwrap();
    assert_eq!(&merge.contents, contents_expected);
    assert_eq!(merge.conflict_count, 1);
    assert!(!merge.has_additional_issues);
}

#[test]
fn settings_combine_cli_and_attributes() {
    let attrs = GitAttrsForSolve { conflict_marker_size: Some(9), language: Some("python".to_string()), allow_parse_errors: Some(true) };
    let cli = CliOpts { compact: Some(true), conflict_marker_size: None, language: None, allow_parse_errors: Some(false) };
    let (settings, lang, allow) = create_settings("file.java", &cli, Some(attrs)).unwrap();
    assert_eq!(settings.conflict_marker_size, Some(9));
    assert_eq!(settings.compact, Some(true));
    assert_eq!(lang.name, "Python");
    assert_eq!(allow, Some(false));
    assert_eq!(
        create_settings("file.unknown", &CliOpts::default(), None).unwrap_err(),
        "Could not find a supported language for file.unknown"
    );
}

#[test]
fn solve_renders_parsed_conflicts() {
    let contents = "a\r\n<<<<<<< ours\r\nb\r\n||||||| base\r\nc\r\n=======\r\nd\r\n>>>>>>> theirs\r\n";
    let solved = solve("file.rs", contents, &CliOpts::default(), None).unwrap();
    assert_eq!(solved.contents, contents);
    assert_eq!(solved.conflict_count, 1);
    assert!(solve("file.unknown", contents, &CliOpts::default(), None).is_err());
}

#[test]
fn solve_fails_without_a_language_or_conflict_sides() {
    let contents = "a\n<<<<<<< ours\nb\n||||||| base\nc\n=======\nd\n>>>>>>> theirs\n";
    assert_eq!(
        solve("file.unknown", contents, &CliOpts::default(), None).unwrap_err(),
        "Could not find a supported language for file.unknown"
    );
    let opts = CliOpts { language: Some("klingon".to_string()), ..CliOpts::default() };
    assert_eq!(solve("file.rs", contents, &opts, None).unwrap_err(), "Specified language 'klingon' could not be found");
    // a diff2 conflict has no base side
    let diff2 = "a\n<<<<<<< ours\nb\n=======\nd\n>>>>>>> theirs\n";
    assert_eq!(solve("file.rs", diff2, &CliOpts::default(), None).unwrap_err(), "Could not generate any solution");
    assert!(solve("file.rs", "no conflict\n", &CliOpts::default(), None).is_ok());
}

#[test]
fn ceil_char_boundary() {
    let s = "aé€b";
    assert_eq!(s.ceil_char_boundary(0), 0);
    assert_eq!(s.ceil_char_boundary(2), 3);
    assert_eq!(s.ceil_char_boundary(4), 6);
    assert_eq!(s.ceil_char_boundary(7), 7);
    assert_eq!(s.ceil_char_boundary(100), 7);
}
