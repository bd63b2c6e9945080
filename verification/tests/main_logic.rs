use mergiraf::attempts::AttemptsCache;
use mergiraf::cli::{
    git_merge_file_args, git_merge_file_outcome, has_jj_conflict_marker, merge_timeout_millis,
    revision_name, CliError,
};
use mergiraf::merge_result::MergeResult;
use mergiraf::merged_text::MergedText;
use mergiraf::settings::DisplaySettings;
use mergiraf::text::decimal_string;

#[test]
fn cli_error_messages() {
    assert_eq!(
        CliError::GitMergeFile { exit_code: 129 }.message(),
        "`git merge-file` returned exit code 129"
    );
    assert_eq!(
        CliError::GitMergeFile { exit_code: -3 }.message(),
        "`git merge-file` returned exit code -3"
    );
    assert_eq!(CliError::Io("disk full".to_string()).message(), "IO error: disk full");
    assert_eq!(CliError::Other("oops".to_string()).message(), "oops");
}

#[test]
fn git_merge_file_exit_codes() {
    assert_eq!(git_merge_file_outcome(0), Ok(false));
    assert_eq!(git_merge_file_outcome(2), Ok(true));
    assert_eq!(git_merge_file_outcome(128), Err(CliError::GitMergeFile { exit_code: 128 }));
}

#[test]
fn git_merge_file_arguments() {
    let settings = DisplaySettings::new(None, Some(9), Some("B".to_string()), Some("L".to_string()), None);
    assert_eq!(
        git_merge_file_args(false, &settings),
        vec!["merge-file", "--diff-algorithm=histogram", "-p", "-L", "L", "-L", "B", "--marker-size", "9"]
    );
    assert_eq!(
        git_merge_file_args(true, &DisplaySettings::default()),
        vec!["merge-file", "--diff-algorithm=histogram", "--marker-size", "7"]
    );
}

#[test]
fn revision_names_from_arguments() {
    assert_eq!(revision_name(Some("%S".to_string()), "%S", "base.txt"), None);
    assert_eq!(revision_name(Some("main".to_string()), "%S", "base.txt"), Some("main".to_string()));
    assert_eq!(revision_name(None, "%S", "base.txt"), Some("base.txt".to_string()));
}

#[test]
fn timeouts() {
    assert_eq!(merge_timeout_millis(Some(3), true), 3);
    assert_eq!(merge_timeout_millis(None, true), 5000);
    assert_eq!(merge_timeout_millis(None, false), 10000);
}

#[test]
fn jj_conflict_markers() {
    assert!(has_jj_conflict_marker("a\n%%%%%%% diff\nb"));
    assert!(has_jj_conflict_marker("%%%%%%% at start"));
    assert!(!has_jj_conflict_marker("a %%%%%%% in a line"));
    assert!(!has_jj_conflict_marker("%%%%%%%"));
}

#[test]
fn decimal_numbers() {
    assert_eq!(decimal_string(0), "0");
    assert_eq!(decimal_string(7), "7");
    assert_eq!(decimal_string(1234567890), "1234567890");
}

#[test]
fn maybe_add_newline() {
    let mut s = String::new();
    MergedText::maybe_add_newline(&mut s);
    assert_eq!(s, "");
    let mut s = "a".to_string();
    MergedText::maybe_add_newline(&mut s);
    assert_eq!(s, "a\n");
    MergedText::maybe_add_newline(&mut s);
    assert_eq!(s, "a\n");
}

fn result(conflicts: usize) -> MergeResult {
    MergeResult {
        contents: "merged".to_string(),
        conflict_count: conflicts,
        conflict_mass: 0,
        method: "structured",
        has_additional_issues: false,
    }
}

#[test]
fn attempt_files_of_merge_results() {
    let cache = AttemptsCache::new(Some("/c"), None, None).unwrap();
    let attempt = cache.attempt_named("x/y.rs", "UID".to_string());
    let stored = result(0).store_in_attempt(&attempt);
    assert_eq!(stored.path, "/c/y.rs_UID/structured.rs");
    assert_eq!(stored.contents, "merged");
    let (best, message) = result(0).mark_as_best_merge_in_attempt(&attempt, 3);
    assert_eq!(best.path, "/c/y.rs_UID/best_merge.txt");
    assert_eq!(best.contents, "structured");
    assert_eq!(
        message.as_deref(),
        Some("Mergiraf: Solved 3 conflicts. Review with: mergiraf review y.rs_UID")
    );
    let (_, message) = result(0).mark_as_best_merge_in_attempt(&attempt, 1);
    assert_eq!(
        message.as_deref(),
        Some("Mergiraf: Solved 1 conflict. Review with: mergiraf review y.rs_UID")
    );
    assert!(result(1).mark_as_best_merge_in_attempt(&attempt, 3).1.is_none());
    assert!(result(0).mark_as_best_merge_in_attempt(&attempt, 0).1.is_none());
}
