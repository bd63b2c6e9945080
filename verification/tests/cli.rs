use mergiraf::cli::{CliArgs, CliCommand, CliOption, CliParseError, MergeOrSolveArgs};

fn parse_from(args: &[&str]) -> CliArgs {
    CliArgs::try_parse_from(args).expect("the arguments should be accepted")
}

#[test]
fn main_compact_flag() {
    // works on `merge`:

    // `true` when passed without value
    // (and doesn't try to parse `foo.c` as value because of `require_equals`)
    let CliCommand::Merge {
        merge_or_solve: MergeOrSolveArgs { compact, .. },
        ..
    } = parse_from(&["mergiraf", "merge", "--compact", "foo.c", "bar.c", "baz.c"]).command
    else {
        unreachable!("`mergiraf merge` should invoke the `Merge` subcommand")
    };
    assert_eq!(compact, Some(true));

    // works on `solve`:

    // `true` when passed without value
    // (and doesn't try to parse `foo.c` as value because of `require_equals`)
    let CliCommand::Solve {
        merge_or_solve: MergeOrSolveArgs { compact, .. },
        ..
    } = parse_from(&["mergiraf", "solve", "--compact", "foo.c"]).command
    else {
        unreachable!("`mergiraf solve` should invoke the `Solve` subcommand")
    };
    assert_eq!(compact, Some(true));
}

#[test]
fn mergiraf_compact_flag() {
    // works on `merge`:

    // `true` when passed without value
    // (and doesn't try to parse `foo.c` as value because of `require_equals`)
    let CliCommand::Merge { merge_or_solve, .. } =
        parse_from(&["mergiraf", "merge", "--compact", "foo.c", "bar.c", "baz.c"]).command
    else {
        unreachable!("`mergiraf merge` should invoke the `Merge` subcommand")
    };
    assert_eq!(merge_or_solve.compact, Some(true));

    // works on `solve`:

    // `true` when passed without value
    // (and doesn't try to parse `foo.c` as value because of `require_equals`)
    let CliCommand::Solve { merge_or_solve, .. } =
        parse_from(&["mergiraf", "solve", "--compact", "foo.c"]).command
    else {
        unreachable!("`mergiraf solve` should invoke the `Solve` subcommand")
    };
    assert_eq!(merge_or_solve.compact, Some(true));
}

#[test]
fn allow_parse_errors_flag() {
    // works on `merge`:

    // `true` when passed without value
    // (and doesn't try to parse `foo.c` as value because of `require_equals`)
    let CliCommand::Merge {
        merge_or_solve: MergeOrSolveArgs {
            allow_parse_errors, ..
        },
        ..
    } = parse_from(&[
        "mergiraf",
        "merge",
        "--allow-parse-errors",
        "foo.c",
        "bar.c",
        "baz.c",
    ])
    .command
    else {
        unreachable!("`mergiraf merge` should invoke the `Merge` subcommand")
    };
    assert_eq!(allow_parse_errors, Some(true));

    // works on `solve`:

    // `true` when passed without value
    // (and doesn't try to parse `foo.c` as value because of `require_equals`)
    let CliCommand::Solve {
        merge_or_solve: MergeOrSolveArgs {
            allow_parse_errors, ..
        },
        ..
    } = parse_from(&["mergiraf", "solve", "--allow-parse-errors", "foo.c"]).command
    else {
        unreachable!("`mergiraf solve` should invoke the `Solve` subcommand")
    };
    assert_eq!(allow_parse_errors, Some(true));
}

fn check_keep_backup_flag() {
    // `true` when nothing passed
    let CliCommand::Solve { keep_backup, .. } = parse_from(&["mergiraf", "solve", "foo.c"]).command
    else {
        unreachable!("`mergiraf solve` should invoke the `Solve` subcommand")
    };
    assert!(keep_backup);

    // `true` when passed without value
    // (and doesn't try to parse `foo.c` as value because of `require_equals`)
    let CliCommand::Solve { keep_backup, .. } =
        parse_from(&["mergiraf", "solve", "--keep-backup", "foo.c"]).command
    else {
        unreachable!("`mergiraf solve` should invoke the `Solve` subcommand")
    };
    assert!(keep_backup);

    // `true` when passed with explicit `=true`
    let CliCommand::Solve { keep_backup, .. } =
        parse_from(&["mergiraf", "solve", "--keep-backup=true", "foo.c"]).command
    else {
        unreachable!("`mergiraf solve` should invoke the `Solve` subcommand")
    };
    assert!(keep_backup);

    // `false` when passed with explicit `=false`
    let CliCommand::Solve { keep_backup, .. } =
        parse_from(&["mergiraf", "solve", "--keep-backup=false", "foo.c"]).command
    else {
        unreachable!("`mergiraf solve` should invoke the `Solve` subcommand")
    };
    assert!(!keep_backup);
}

#[test]
fn main_keep_backup_flag() {
    check_keep_backup_flag();
}

#[test]
fn mergiraf_keep_backup_flag() {
    check_keep_backup_flag();
}

#[test]
fn merge_with_all_options() {
    let args = parse_from(&[
        "mergiraf", "-v", "merge", "base.rs", "left.rs", "right.rs", "--fast", "-o", "out.rs",
        "--path-name=src/lib.rs", "-s", "BASE", "-xLEFT", "-y=RIGHT", "-t", "+250", "-d", "dbg",
        "--compact=false", "-l", "9", "-L", "rust", "--allow-parse-errors=true",
    ]);
    assert_eq!(
        args,
        CliArgs {
            verbose: true,
            command: CliCommand::Merge {
                base: "base.rs".to_string(),
                left: "left.rs".to_string(),
                right: "right.rs".to_string(),
                fast: true,
                merge_or_solve: MergeOrSolveArgs {
                    debug_dir: Some("dbg".to_string()),
                    compact: Some(false),
                    conflict_marker_size: Some(9),
                    language: Some("rust".to_string()),
                    allow_parse_errors: Some(true),
                },
                git: false,
                output: Some("out.rs".to_string()),
                path_name: Some("src/lib.rs".to_string()),
                base_name: Some("BASE".to_string()),
                left_name: Some("LEFT".to_string()),
                right_name: Some("RIGHT".to_string()),
                timeout: Some(250),
            },
        }
    );
}

#[test]
fn solve_short_options() {
    let args = parse_from(&["mergiraf", "solve", "-pv", "file.c"]);
    let args_keep = parse_from(&["mergiraf", "solve", "file.c", "--keep"]);
    assert!(args.verbose);
    let CliCommand::Solve { conflicts, stdout, keep_backup, .. } = args.command else {
        unreachable!("`mergiraf solve` should invoke the `Solve` subcommand")
    };
    assert_eq!(conflicts, "file.c");
    assert!(stdout);
    assert!(keep_backup);
    assert!(matches!(args_keep.command, CliCommand::Solve { stdout: true, .. }));
}

#[test]
fn other_subcommands() {
    assert_eq!(
        parse_from(&["mergiraf", "review", "abc_123"]).command,
        CliCommand::Review { merge_id: "abc_123".to_string() }
    );
    assert_eq!(
        parse_from(&["mergiraf", "report", "file.rs"]).command,
        CliCommand::Report { merge_id_or_file: "file.rs".to_string() }
    );
    assert_eq!(
        parse_from(&["mergiraf", "languages", "--gitattributes"]).command,
        CliCommand::Languages { gitattributes: true }
    );
    assert_eq!(
        parse_from(&["mergiraf", "languages"]).command,
        CliCommand::Languages { gitattributes: false }
    );
    assert_eq!(
        parse_from(&["mergiraf", "review", "--", "-weird-id"]).command,
        CliCommand::Review { merge_id: "-weird-id".to_string() }
    );
}

#[test]
fn cli_errors() {
    let err = |args: &[&str]| CliArgs::try_parse_from(args).unwrap_err();
    assert_eq!(err(&["mergiraf"]), CliParseError::MissingSubcommand);
    assert_eq!(err(&["mergiraf", "frobnicate"]), CliParseError::UnknownSubcommand("frobnicate".to_string()));
    assert_eq!(err(&["mergiraf", "merge", "a", "b"]), CliParseError::MissingPositional);
    assert_eq!(err(&["mergiraf", "review", "a", "b"]), CliParseError::UnexpectedPositional("b".to_string()));
    assert_eq!(err(&["mergiraf", "merge", "a", "b", "c", "--bogus"]), CliParseError::UnknownArgument("--bogus".to_string()));
    assert_eq!(err(&["mergiraf", "solve", "a", "--fast"]), CliParseError::UnknownArgument("--fast".to_string()));
    assert_eq!(err(&["mergiraf", "merge", "a", "b", "c", "-o"]), CliParseError::MissingValue(CliOption::Output));
    assert_eq!(err(&["mergiraf", "merge", "a", "b", "c", "-o", "-g"]), CliParseError::MissingValue(CliOption::Output));
    assert_eq!(err(&["mergiraf", "merge", "a", "b", "c", "--fast=yes"]), CliParseError::UnexpectedValue(CliOption::Fast));
    assert_eq!(err(&["mergiraf", "merge", "a", "b", "c", "--fast", "--fast"]), CliParseError::UsedMultipleTimes(CliOption::Fast));
    assert_eq!(
        err(&["mergiraf", "merge", "a", "b", "c", "-g", "-o", "x"]),
        CliParseError::ConflictingArguments(CliOption::Output, CliOption::Git)
    );
    assert_eq!(
        err(&["mergiraf", "solve", "a", "-p", "--keep-backup"]),
        CliParseError::ConflictingArguments(CliOption::KeepBackup, CliOption::Stdout)
    );
    assert_eq!(
        err(&["mergiraf", "solve", "a", "--compact=yes"]),
        CliParseError::InvalidValue(CliOption::Compact, "yes".to_string())
    );
    assert_eq!(
        err(&["mergiraf", "merge", "a", "b", "c", "-l", "x7"]),
        CliParseError::InvalidValue(CliOption::ConflictMarkerSize, "x7".to_string())
    );
    assert_eq!(
        err(&["mergiraf", "merge", "a", "b", "c", "--timeout=99999999999999999999"]),
        CliParseError::InvalidValue(CliOption::Timeout, "99999999999999999999".to_string())
    );
    assert_eq!(err(&["mergiraf", "--help"]), CliParseError::DisplayHelp);
    assert_eq!(err(&["mergiraf", "help"]), CliParseError::DisplayHelp);
    assert_eq!(err(&["mergiraf", "merge", "-V"]), CliParseError::DisplayVersion);
}
