use vstd::prelude::*;

use crate::settings::DisplaySettings;
use crate::text::{decimal, decimal_string, push_char, push_str, str_eq, string_of_range, to_chars};

verus! {

// The command line of `mergiraf`: its grammar, and a parser for it.
//
// The arguments are read one by one, left to right, into a `ParseState` that
// records where in the arguments each option and positional argument was
// found; `ArgRef` points at the text of a value, which is always a suffix of
// one argument (`--output=x`, `-ox`, or the whole argument after `-o`).
// Once all arguments are read, the state is checked and turned into `CliArgs`.

/// The subcommands of `mergiraf`
#[derive(Debug, Clone, Copy, PartialEq, Eq, Structural)]
pub enum Subcommand {
    /// Do a three-way merge
    Merge,
    /// Solve the conflicts in a merged file
    Solve,
    /// Review the resolution of a merge by showing the differences with a line-based merge
    Review,
    /// Create a bug report for a bad merge
    Report,
    /// Show the supported languages
    Languages,
}

/// The options of the command line
#[derive(Debug, Clone, Copy, PartialEq, Eq, Structural)]
pub enum CliOption {
    /// `-v`, `--verbose`
    Verbose,
    /// `-h`, `--help`
    Help,
    /// `-V`, `--version`
    Version,
    /// `--fast`
    Fast,
    /// `-g`, `--git`
    Git,
    /// `-o`, `--output`
    Output,
    /// `-p`, `--path-name` (of `merge`)
    PathName,
    /// `-s`, `--base-name`
    BaseName,
    /// `-x`, `--left-name`
    LeftName,
    /// `-y`, `--right-name`
    RightName,
    /// `-t`, `--timeout`
    Timeout,
    /// `-d`, `--debug`
    Debug,
    /// `-c`, `--compact`
    Compact,
    /// `-l`, `--conflict-marker-size`
    ConflictMarkerSize,
    /// `-L`, `--language`
    Language,
    /// `--allow-parse-errors`
    AllowParseErrors,
    /// `-p`, `--stdout`, `--keep` (of `solve`)
    Stdout,
    /// `--keep-backup`
    KeepBackup,
    /// `--gitattributes`
    Gitattributes,
}

/// How an option takes a value
#[derive(Debug, Clone, Copy, PartialEq, Eq, Structural)]
pub enum Arity {
    /// No value
    Flag,
    /// A value, attached (`--opt=v`, `-ov`) or in the next argument
    Value,
    /// An optional value, only attached with `=`
    OptionalValue,
    /// Shows information (help or version) instead of running
    Info,
}

/// The text of a value: the argument `token` from its character `start` on
#[derive(Debug, Clone, Copy, PartialEq, Eq, Structural)]
pub struct ArgRef {
    pub token: usize,
    pub start: usize,
}

/// How often and how an option was given so far
#[derive(Debug, Clone, Copy, PartialEq, Eq, Structural)]
pub enum Given {
    /// Not given
    Absent,
    /// Given without a value
    Bare,
    /// Given with a value
    WithValue(ArgRef),
}

/// What went wrong while reading the arguments
#[derive(Debug, Clone, Copy, PartialEq, Eq, Structural)]
pub enum ErrorKind {
    /// The argument at that position is not a known option
    UnknownArgument(usize),
    /// The argument at that position is not a subcommand
    UnknownSubcommand(usize),
    /// No subcommand was given
    MissingSubcommand,
    /// The option needs a value that was not given
    MissingValue(CliOption),
    /// The option takes no value but was given one
    UnexpectedValue(CliOption),
    /// The option was given more than once
    UsedMultipleTimes(CliOption),
    /// The argument at that position is one positional argument too many
    UnexpectedPositional(usize),
    /// A positional argument of the subcommand is missing
    MissingPositional,
    /// Two options that exclude each other were both given
    ConflictingArguments(CliOption, CliOption),
    /// The value of the option cannot be read
    InvalidValue(CliOption, ArgRef),
    /// Help was asked for
    DisplayHelp,
    /// The version was asked for
    DisplayVersion,
}

/// The state of the reading of the arguments
#[derive(Debug, Clone, Copy, PartialEq, Eq, Structural)]
pub struct ParseState {
    pub command: Option<Subcommand>,
    /// the positions of the positional arguments of the subcommand, in order
    pub pos0: usize,
    pub pos1: usize,
    pub pos2: usize,
    /// how many positional arguments of the subcommand were read
    pub npos: usize,
    pub verbose: Given,
    pub fast: Given,
    pub git: Given,
    pub output: Given,
    pub path_name: Given,
    pub base_name: Given,
    pub left_name: Given,
    pub right_name: Given,
    pub timeout: Given,
    pub debug: Given,
    pub compact: Given,
    pub conflict_marker_size: Given,
    pub language: Given,
    pub allow_parse_errors: Given,
    pub stdout: Given,
    pub keep_backup: Given,
    pub gitattributes: Given,
    /// an option read last that waits for its value in the next argument
    pub pending: Option<CliOption>,
    /// whether `--` was read, after which all arguments are positional
    pub only_positionals: bool,
    /// the first error met, after which the arguments are not read further
    pub error: Option<ErrorKind>,
}

/// The state before any argument is read
pub open spec fn initial_state() -> ParseState {
    ParseState {
        command: None,
        pos0: 0,
        pos1: 0,
        pos2: 0,
        npos: 0,
        verbose: Given::Absent,
        fast: Given::Absent,
        git: Given::Absent,
        output: Given::Absent,
        path_name: Given::Absent,
        base_name: Given::Absent,
        left_name: Given::Absent,
        right_name: Given::Absent,
        timeout: Given::Absent,
        debug: Given::Absent,
        compact: Given::Absent,
        conflict_marker_size: Given::Absent,
        language: Given::Absent,
        allow_parse_errors: Given::Absent,
        stdout: Given::Absent,
        keep_backup: Given::Absent,
        gitattributes: Given::Absent,
        pending: None,
        only_positionals: false,
        error: None,
    }
}

/// How an option takes its value
pub open spec fn arity(opt: CliOption) -> Arity {
    match opt {
        CliOption::Help | CliOption::Version => Arity::Info,
        CliOption::Verbose | CliOption::Fast | CliOption::Git | CliOption::Stdout | CliOption::Gitattributes => Arity::Flag,
        CliOption::Compact | CliOption::AllowParseErrors | CliOption::KeepBackup => Arity::OptionalValue,
        _ => Arity::Value,
    }
}

/// Is the option accepted before the subcommand (`None`) or after the given subcommand?
pub open spec fn allowed(cmd: Option<Subcommand>, opt: CliOption) -> bool {
    match opt {
        CliOption::Verbose | CliOption::Help | CliOption::Version => true,
        CliOption::Fast | CliOption::Git | CliOption::Output | CliOption::PathName | CliOption::BaseName
        | CliOption::LeftName | CliOption::RightName | CliOption::Timeout => cmd == Some(Subcommand::Merge),
        CliOption::Debug | CliOption::Compact | CliOption::ConflictMarkerSize | CliOption::Language
        | CliOption::AllowParseErrors => cmd == Some(Subcommand::Merge) || cmd == Some(Subcommand::Solve),
        CliOption::Stdout | CliOption::KeepBackup => cmd == Some(Subcommand::Solve),
        CliOption::Gitattributes => cmd == Some(Subcommand::Languages),
    }
}

/// The option of a long name (without its leading `--`), whatever the subcommand
pub open spec fn long_name_option(name: Seq<char>) -> Option<CliOption> {
    if name == "verbose"@ {
        Some(CliOption::Verbose)
    } else if name == "help"@ {
        Some(CliOption::Help)
    } else if name == "version"@ {
        Some(CliOption::Version)
    } else if name == "fast"@ {
        Some(CliOption::Fast)
    } else if name == "git"@ {
        Some(CliOption::Git)
    } else if name == "output"@ {
        Some(CliOption::Output)
    } else if name == "path-name"@ {
        Some(CliOption::PathName)
    } else if name == "base-name"@ {
        Some(CliOption::BaseName)
    } else if name == "left-name"@ {
        Some(CliOption::LeftName)
    } else if name == "right-name"@ {
        Some(CliOption::RightName)
    } else if name == "timeout"@ {
        Some(CliOption::Timeout)
    } else if name == "debug"@ {
        Some(CliOption::Debug)
    } else if name == "compact"@ {
        Some(CliOption::Compact)
    } else if name == "conflict-marker-size"@ {
        Some(CliOption::ConflictMarkerSize)
    } else if name == "language"@ {
        Some(CliOption::Language)
    } else if name == "allow-parse-errors"@ {
        Some(CliOption::AllowParseErrors)
    } else if name == "stdout"@ || name == "keep"@ {
        Some(CliOption::Stdout)
    } else if name == "keep-backup"@ {
        Some(CliOption::KeepBackup)
    } else if name == "gitattributes"@ {
        Some(CliOption::Gitattributes)
    } else {
        None
    }
}

/// The documented long name of each option (`--` followed by it on the command line)
pub open spec fn option_long_name(o: CliOption) -> Seq<char> {
    match o {
        CliOption::Verbose => "verbose"@,
        CliOption::Help => "help"@,
        CliOption::Version => "version"@,
        CliOption::Fast => "fast"@,
        CliOption::Git => "git"@,
        CliOption::Output => "output"@,
        CliOption::PathName => "path-name"@,
        CliOption::BaseName => "base-name"@,
        CliOption::LeftName => "left-name"@,
        CliOption::RightName => "right-name"@,
        CliOption::Timeout => "timeout"@,
        CliOption::Debug => "debug"@,
        CliOption::Compact => "compact"@,
        CliOption::ConflictMarkerSize => "conflict-marker-size"@,
        CliOption::Language => "language"@,
        CliOption::AllowParseErrors => "allow-parse-errors"@,
        CliOption::Stdout => "stdout"@,
        CliOption::KeepBackup => "keep-backup"@,
        CliOption::Gitattributes => "gitattributes"@,
    }
}

/// Every option is recognised under its documented long name, whatever it also has as short name.
pub proof fn law_long_names_are_recognised(o: CliOption)
    ensures
        long_name_option(option_long_name(o)) == Some(o),
{
    reveal_strlit("verbose");
    reveal_strlit("help");
    reveal_strlit("version");
    reveal_strlit("fast");
    reveal_strlit("git");
    reveal_strlit("output");
    reveal_strlit("path-name");
    reveal_strlit("base-name");
    reveal_strlit("left-name");
    reveal_strlit("right-name");
    reveal_strlit("timeout");
    reveal_strlit("debug");
    reveal_strlit("compact");
    reveal_strlit("conflict-marker-size");
    reveal_strlit("language");
    reveal_strlit("allow-parse-errors");
    reveal_strlit("stdout");
    reveal_strlit("keep-backup");
    reveal_strlit("gitattributes");
    reveal_strlit("keep");
    match o {
        CliOption::Verbose => {
            assert(option_long_name(o) =~= "verbose"@);
            assert(long_name_option("verbose"@) == Some(CliOption::Verbose));
        },
        CliOption::Help => {
            assert(option_long_name(o) =~= "help"@);
            assert(long_name_option("help"@) == Some(CliOption::Help));
        },
        CliOption::Version => {
            assert(option_long_name(o) =~= "version"@);
            assert("version"@[3] != "verbose"@[3]);
            assert(long_name_option("version"@) == Some(CliOption::Version));
        },
        CliOption::Fast => {
            assert(option_long_name(o) =~= "fast"@);
            assert("fast"@[0] != "help"@[0]);
            assert(long_name_option("fast"@) == Some(CliOption::Fast));
        },
        CliOption::Git => {
            assert(option_long_name(o) =~= "git"@);
            assert(long_name_option("git"@) == Some(CliOption::Git));
        },
        CliOption::Output => {
            assert(option_long_name(o) =~= "output"@);
            assert(long_name_option("output"@) == Some(CliOption::Output));
        },
        CliOption::PathName => {
            assert(option_long_name(o) =~= "path-name"@);
            assert(long_name_option("path-name"@) == Some(CliOption::PathName));
        },
        CliOption::BaseName => {
            assert(option_long_name(o) =~= "base-name"@);
            assert("base-name"@[0] != "path-name"@[0]);
            assert(long_name_option("base-name"@) == Some(CliOption::BaseName));
        },
        CliOption::LeftName => {
            assert(option_long_name(o) =~= "left-name"@);
            assert("left-name"@[0] != "path-name"@[0]);
            assert("left-name"@[0] != "base-name"@[0]);
            assert(long_name_option("left-name"@) == Some(CliOption::LeftName));
        },
        CliOption::RightName => {
            assert(option_long_name(o) =~= "right-name"@);
            assert(long_name_option("right-name"@) == Some(CliOption::RightName));
        },
        CliOption::Timeout => {
            assert(option_long_name(o) =~= "timeout"@);
            assert("timeout"@[0] != "verbose"@[0]);
            assert("timeout"@[0] != "version"@[0]);
            assert(long_name_option("timeout"@) == Some(CliOption::Timeout));
        },
        CliOption::Debug => {
            assert(option_long_name(o) =~= "debug"@);
            assert(long_name_option("debug"@) == Some(CliOption::Debug));
        },
        CliOption::Compact => {
            assert(option_long_name(o) =~= "compact"@);
            assert("compact"@[0] != "verbose"@[0]);
            assert("compact"@[0] != "version"@[0]);
            assert("compact"@[0] != "timeout"@[0]);
            assert(long_name_option("compact"@) == Some(CliOption::Compact));
        },
        CliOption::ConflictMarkerSize => {
            assert(option_long_name(o) =~= "conflict-marker-size"@);
            assert(long_name_option("conflict-marker-size"@) == Some(CliOption::ConflictMarkerSize));
        },
        CliOption::Language => {
            assert(option_long_name(o) =~= "language"@);
            assert(long_name_option("language"@) == Some(CliOption::Language));
        },
        CliOption::AllowParseErrors => {
            assert(option_long_name(o) =~= "allow-parse-errors"@);
            assert(long_name_option("allow-parse-errors"@) == Some(CliOption::AllowParseErrors));
        },
        CliOption::Stdout => {
            assert(option_long_name(o) =~= "stdout"@);
            assert("stdout"@[0] != "output"@[0]);
            assert(long_name_option("stdout"@) == Some(CliOption::Stdout));
        },
        CliOption::KeepBackup => {
            assert(option_long_name(o) =~= "keep-backup"@);
            assert(long_name_option("keep-backup"@) == Some(CliOption::KeepBackup));
        },
        CliOption::Gitattributes => {
            assert(option_long_name(o) =~= "gitattributes"@);
            assert(long_name_option("gitattributes"@) == Some(CliOption::Gitattributes));
        },
    }
}

/// A long name is recognised only as the option it documents (`--keep` being another name of
/// `--stdout`).
pub proof fn law_recognised_long_names_are_documented(name: Seq<char>, o: CliOption)
    requires
        long_name_option(name) == Some(o),
    ensures
        name == option_long_name(o) || (o == CliOption::Stdout && name == "keep"@),
{
}

/// The option of a short name, after the given subcommand (`-p` differs between `merge` and `solve`)
pub open spec fn short_name_option(cmd: Option<Subcommand>, c: char) -> Option<CliOption> {
    if c == 'v' {
        Some(CliOption::Verbose)
    } else if c == 'h' {
        Some(CliOption::Help)
    } else if c == 'V' {
        Some(CliOption::Version)
    } else if c == 'g' {
        Some(CliOption::Git)
    } else if c == 'o' {
        Some(CliOption::Output)
    } else if c == 'p' {
        if cmd == Some(Subcommand::Solve) {
            Some(CliOption::Stdout)
        } else {
            Some(CliOption::PathName)
        }
    } else if c == 's' {
        Some(CliOption::BaseName)
    } else if c == 'x' {
        Some(CliOption::LeftName)
    } else if c == 'y' {
        Some(CliOption::RightName)
    } else if c == 't' {
        Some(CliOption::Timeout)
    } else if c == 'd' {
        Some(CliOption::Debug)
    } else if c == 'c' {
        Some(CliOption::Compact)
    } else if c == 'l' {
        Some(CliOption::ConflictMarkerSize)
    } else if c == 'L' {
        Some(CliOption::Language)
    } else {
        None
    }
}

/// An option known under that name and accepted at this point
pub open spec fn accepted(cmd: Option<Subcommand>, opt: Option<CliOption>) -> Option<CliOption> {
    match opt {
        Some(o) => if allowed(cmd, o) { Some(o) } else { None },
        None => None,
    }
}

/// The subcommand of a name
pub open spec fn subcommand_named(name: Seq<char>) -> Option<Subcommand> {
    if name == "merge"@ {
        Some(Subcommand::Merge)
    } else if name == "solve"@ {
        Some(Subcommand::Solve)
    } else if name == "review"@ {
        Some(Subcommand::Review)
    } else if name == "report"@ {
        Some(Subcommand::Report)
    } else if name == "languages"@ {
        Some(Subcommand::Languages)
    } else {
        None
    }
}

/// The number of positional arguments of a subcommand
pub open spec fn positional_count(cmd: Subcommand) -> nat {
    match cmd {
        Subcommand::Merge => 3,
        Subcommand::Solve | Subcommand::Review | Subcommand::Report => 1,
        Subcommand::Languages => 0,
    }
}

/// How the option was given so far
pub open spec fn given(st: ParseState, opt: CliOption) -> Given {
    match opt {
        CliOption::Verbose => st.verbose,
        CliOption::Fast => st.fast,
        CliOption::Git => st.git,
        CliOption::Output => st.output,
        CliOption::PathName => st.path_name,
        CliOption::BaseName => st.base_name,
        CliOption::LeftName => st.left_name,
        CliOption::RightName => st.right_name,
        CliOption::Timeout => st.timeout,
        CliOption::Debug => st.debug,
        CliOption::Compact => st.compact,
        CliOption::ConflictMarkerSize => st.conflict_marker_size,
        CliOption::Language => st.language,
        CliOption::AllowParseErrors => st.allow_parse_errors,
        CliOption::Stdout => st.stdout,
        CliOption::KeepBackup => st.keep_backup,
        CliOption::Gitattributes => st.gitattributes,
        CliOption::Help | CliOption::Version => Given::Absent,
    }
}

/// The state with the option given as `g`
pub open spec fn with_given(st: ParseState, opt: CliOption, g: Given) -> ParseState {
    match opt {
        CliOption::Verbose => ParseState { verbose: g, ..st },
        CliOption::Fast => ParseState { fast: g, ..st },
        CliOption::Git => ParseState { git: g, ..st },
        CliOption::Output => ParseState { output: g, ..st },
        CliOption::PathName => ParseState { path_name: g, ..st },
        CliOption::BaseName => ParseState { base_name: g, ..st },
        CliOption::LeftName => ParseState { left_name: g, ..st },
        CliOption::RightName => ParseState { right_name: g, ..st },
        CliOption::Timeout => ParseState { timeout: g, ..st },
        CliOption::Debug => ParseState { debug: g, ..st },
        CliOption::Compact => ParseState { compact: g, ..st },
        CliOption::ConflictMarkerSize => ParseState { conflict_marker_size: g, ..st },
        CliOption::Language => ParseState { language: g, ..st },
        CliOption::AllowParseErrors => ParseState { allow_parse_errors: g, ..st },
        CliOption::Stdout => ParseState { stdout: g, ..st },
        CliOption::KeepBackup => ParseState { keep_backup: g, ..st },
        CliOption::Gitattributes => ParseState { gitattributes: g, ..st },
        CliOption::Help | CliOption::Version => st,
    }
}

/// The state with an error recorded
pub open spec fn failed(st: ParseState, e: ErrorKind) -> ParseState {
    ParseState { error: Some(e), ..st }
}

/// The state once the option is recorded as given (an error if it already was)
pub open spec fn record(st: ParseState, opt: CliOption, g: Given) -> ParseState {
    if arity(opt) == Arity::Info {
        failed(st, if opt == CliOption::Help { ErrorKind::DisplayHelp } else { ErrorKind::DisplayVersion })
    } else if given(st, opt) != Given::Absent {
        failed(st, ErrorKind::UsedMultipleTimes(opt))
    } else {
        with_given(st, opt, g)
    }
}

/// The state once an option is met, with the value attached to it if any
pub open spec fn apply_option(st: ParseState, opt: CliOption, attached: Option<ArgRef>) -> ParseState {
    match arity(opt) {
        Arity::Info => record(st, opt, Given::Bare),
        Arity::Flag => match attached {
            Some(_) => failed(st, ErrorKind::UnexpectedValue(opt)),
            None => record(st, opt, Given::Bare),
        },
        Arity::Value => match attached {
            Some(v) => record(st, opt, Given::WithValue(v)),
            None => ParseState { pending: Some(opt), ..st },
        },
        Arity::OptionalValue => match attached {
            Some(v) => record(st, opt, Given::WithValue(v)),
            None => record(st, opt, Given::Bare),
        },
    }
}

/// The index of the first occurrence of a character, or -1
pub open spec fn first_index_of(s: Seq<char>, c: char) -> int
    decreases s.len(),
{
    if s.len() == 0 {
        -1
    } else if s[0] == c {
        0
    } else {
        let rest = first_index_of(s.skip(1), c);
        if rest < 0 { -1 } else { rest + 1 }
    }
}

/// The state once the long option `args[i]` (starting with `--`) is read
pub open spec fn read_long(args: Seq<Seq<char>>, st: ParseState, i: int) -> ParseState {
    let t = args[i];
    let body = t.subrange(2, t.len() as int);
    let eq = first_index_of(body, '=');
    let name = if eq >= 0 { body.take(eq) } else { body };
    let attached = if eq >= 0 { Some(ArgRef { token: i as usize, start: (eq + 3) as usize }) } else { None };
    match accepted(st.command, long_name_option(name)) {
        Some(opt) => apply_option(st, opt, attached),
        None => failed(st, ErrorKind::UnknownArgument(i as usize)),
    }
}

/// The state once the short options of `args[i]` from its character `k` on are read
pub open spec fn read_short(args: Seq<Seq<char>>, st: ParseState, i: int, k: int) -> ParseState
    decreases args[i].len() - k,
{
    let t = args[i];
    if st.error is Some || k < 1 || k >= t.len() {
        st
    } else {
        match accepted(st.command, short_name_option(st.command, t[k])) {
            None => failed(st, ErrorKind::UnknownArgument(i as usize)),
            Some(opt) => match arity(opt) {
                Arity::Info => record(st, opt, Given::Bare),
                Arity::Flag => read_short(args, record(st, opt, Given::Bare), i, k + 1),
                Arity::Value => if k + 1 < t.len() {
                    let start = if t[k + 1] == '=' { k + 2 } else { k + 1 };
                    record(st, opt, Given::WithValue(ArgRef { token: i as usize, start: start as usize }))
                } else {
                    ParseState { pending: Some(opt), ..st }
                },
                Arity::OptionalValue => if k + 1 < t.len() && t[k + 1] == '=' {
                    record(st, opt, Given::WithValue(ArgRef { token: i as usize, start: (k + 2) as usize }))
                } else {
                    read_short(args, record(st, opt, Given::Bare), i, k + 1)
                },
            },
        }
    }
}

/// The state once the positional argument `args[i]` is read
pub open spec fn read_positional(args: Seq<Seq<char>>, st: ParseState, i: int) -> ParseState {
    match st.command {
        None => match subcommand_named(args[i]) {
            Some(c) => ParseState { command: Some(c), ..st },
            None => if args[i] == "help"@ {
                failed(st, ErrorKind::DisplayHelp)
            } else {
                failed(st, ErrorKind::UnknownSubcommand(i as usize))
            },
        },
        Some(c) => if st.npos < positional_count(c) {
            if st.npos == 0 {
                ParseState { pos0: i as usize, npos: 1, ..st }
            } else if st.npos == 1 {
                ParseState { pos1: i as usize, npos: 2, ..st }
            } else {
                ParseState { pos2: i as usize, npos: 3, ..st }
            }
        } else {
            failed(st, ErrorKind::UnexpectedPositional(i as usize))
        },
    }
}

/// Does the argument look like an option (a `-` followed by something)?
pub open spec fn looks_like_option(t: Seq<char>) -> bool {
    t.len() >= 2 && t[0] == '-'
}

/// The state once the argument `args[i]` is read
pub open spec fn read_arg(args: Seq<Seq<char>>, st: ParseState, i: int) -> ParseState {
    let t = args[i];
    if st.error is Some {
        st
    } else {
        match st.pending {
            Some(opt) => if looks_like_option(t) {
                failed(st, ErrorKind::MissingValue(opt))
            } else {
                record(ParseState { pending: None, ..st }, opt, Given::WithValue(ArgRef { token: i as usize, start: 0 }))
            },
            None => if st.only_positionals {
                read_positional(args, st, i)
            } else if t == "--"@ {
                ParseState { only_positionals: true, ..st }
            } else if t.len() >= 2 && t[0] == '-' && t[1] == '-' {
                read_long(args, st, i)
            } else if looks_like_option(t) {
                read_short(args, st, i, 1)
            } else {
                read_positional(args, st, i)
            },
        }
    }
}

/// The state once the arguments `args[1..n]` are read (`args[0]` names the program)
pub open spec fn read_args(args: Seq<Seq<char>>, n: int) -> ParseState
    decreases n,
{
    if n <= 1 {
        initial_state()
    } else {
        read_arg(args, read_args(args, n - 1), n - 1)
    }
}


/// The texts of the arguments
pub open spec fn texts_of(toks: Seq<Vec<char>>) -> Seq<Seq<char>> {
    toks.map_values(|v: Vec<char>| v@)
}

/// Are the characters `v[from..to]` those of the literal?
fn range_is(v: &Vec<char>, from: usize, to: usize, lit: &str) -> (res: bool)
    requires
        from <= to <= v@.len(),
    ensures
        res == (v@.subrange(from as int, to as int) == lit@),
{
    let l = to_chars(lit);
    if to - from != l.len() {
        return false;
    }
    let mut i: usize = 0;
    while i < l.len()
        invariant
            l@ == lit@,
            from <= to <= v@.len(),
            to - from == l@.len(),
            0 <= i <= l@.len(),
            forall|j: int| 0 <= j < i ==> v@[from + j] == l@[j],
        decreases l@.len() - i,
    {
        if v[from + i] != l[i] {
            return false;
        }
        i = i + 1;
    }
    assert(v@.subrange(from as int, to as int) =~= l@);
    true
}

fn arity_of(opt: CliOption) -> (res: Arity)
    ensures
        res == arity(opt),
{
    match opt {
        CliOption::Help | CliOption::Version => Arity::Info,
        CliOption::Verbose | CliOption::Fast | CliOption::Git | CliOption::Stdout | CliOption::Gitattributes => Arity::Flag,
        CliOption::Compact | CliOption::AllowParseErrors | CliOption::KeepBackup => Arity::OptionalValue,
        _ => Arity::Value,
    }
}

fn is_allowed(cmd: Option<Subcommand>, opt: CliOption) -> (res: bool)
    ensures
        res == allowed(cmd, opt),
{
    let merge = match cmd {
        Some(Subcommand::Merge) => true,
        _ => false,
    };
    let solve = match cmd {
        Some(Subcommand::Solve) => true,
        _ => false,
    };
    let languages = match cmd {
        Some(Subcommand::Languages) => true,
        _ => false,
    };
    match opt {
        CliOption::Verbose | CliOption::Help | CliOption::Version => true,
        CliOption::Fast | CliOption::Git | CliOption::Output | CliOption::PathName | CliOption::BaseName
        | CliOption::LeftName | CliOption::RightName | CliOption::Timeout => merge,
        CliOption::Debug | CliOption::Compact | CliOption::ConflictMarkerSize | CliOption::Language
        | CliOption::AllowParseErrors => merge || solve,
        CliOption::Stdout | CliOption::KeepBackup => solve,
        CliOption::Gitattributes => languages,
    }
}

/// The option named by `t[from..to]`
fn long_option(t: &Vec<char>, from: usize, to: usize) -> (res: Option<CliOption>)
    requires
        from <= to <= t@.len(),
    ensures
        res == long_name_option(t@.subrange(from as int, to as int)),
{
    if range_is(t, from, to, "verbose") {
        Some(CliOption::Verbose)
    } else if range_is(t, from, to, "help") {
        Some(CliOption::Help)
    } else if range_is(t, from, to, "version") {
        Some(CliOption::Version)
    } else if range_is(t, from, to, "fast") {
        Some(CliOption::Fast)
    } else if range_is(t, from, to, "git") {
        Some(CliOption::Git)
    } else if range_is(t, from, to, "output") {
        Some(CliOption::Output)
    } else if range_is(t, from, to, "path-name") {
        Some(CliOption::PathName)
    } else if range_is(t, from, to, "base-name") {
        Some(CliOption::BaseName)
    } else if range_is(t, from, to, "left-name") {
        Some(CliOption::LeftName)
    } else if range_is(t, from, to, "right-name") {
        Some(CliOption::RightName)
    } else if range_is(t, from, to, "timeout") {
        Some(CliOption::Timeout)
    } else if range_is(t, from, to, "debug") {
        Some(CliOption::Debug)
    } else if range_is(t, from, to, "compact") {
        Some(CliOption::Compact)
    } else if range_is(t, from, to, "conflict-marker-size") {
        Some(CliOption::ConflictMarkerSize)
    } else if range_is(t, from, to, "language") {
        Some(CliOption::Language)
    } else if range_is(t, from, to, "allow-parse-errors") {
        Some(CliOption::AllowParseErrors)
    } else if range_is(t, from, to, "stdout") || range_is(t, from, to, "keep") {
        Some(CliOption::Stdout)
    } else if range_is(t, from, to, "keep-backup") {
        Some(CliOption::KeepBackup)
    } else if range_is(t, from, to, "gitattributes") {
        Some(CliOption::Gitattributes)
    } else {
        None
    }
}

fn short_option(cmd: Option<Subcommand>, c: char) -> (res: Option<CliOption>)
    ensures
        res == short_name_option(cmd, c),
{
    if c == 'v' {
        Some(CliOption::Verbose)
    } else if c == 'h' {
        Some(CliOption::Help)
    } else if c == 'V' {
        Some(CliOption::Version)
    } else if c == 'g' {
        Some(CliOption::Git)
    } else if c == 'o' {
        Some(CliOption::Output)
    } else if c == 'p' {
        match cmd {
            Some(Subcommand::Solve) => Some(CliOption::Stdout),
            _ => Some(CliOption::PathName),
        }
    } else if c == 's' {
        Some(CliOption::BaseName)
    } else if c == 'x' {
        Some(CliOption::LeftName)
    } else if c == 'y' {
        Some(CliOption::RightName)
    } else if c == 't' {
        Some(CliOption::Timeout)
    } else if c == 'd' {
        Some(CliOption::Debug)
    } else if c == 'c' {
        Some(CliOption::Compact)
    } else if c == 'l' {
        Some(CliOption::ConflictMarkerSize)
    } else if c == 'L' {
        Some(CliOption::Language)
    } else {
        None
    }
}

fn accept(cmd: Option<Subcommand>, opt: Option<CliOption>) -> (res: Option<CliOption>)
    ensures
        res == accepted(cmd, opt),
{
    match opt {
        Some(o) => if is_allowed(cmd, o) { Some(o) } else { None },
        None => None,
    }
}

fn get_given(st: &ParseState, opt: CliOption) -> (res: Given)
    ensures
        res == given(*st, opt),
{
    match opt {
        CliOption::Verbose => st.verbose,
        CliOption::Fast => st.fast,
        CliOption::Git => st.git,
        CliOption::Output => st.output,
        CliOption::PathName => st.path_name,
        CliOption::BaseName => st.base_name,
        CliOption::LeftName => st.left_name,
        CliOption::RightName => st.right_name,
        CliOption::Timeout => st.timeout,
        CliOption::Debug => st.debug,
        CliOption::Compact => st.compact,
        CliOption::ConflictMarkerSize => st.conflict_marker_size,
        CliOption::Language => st.language,
        CliOption::AllowParseErrors => st.allow_parse_errors,
        CliOption::Stdout => st.stdout,
        CliOption::KeepBackup => st.keep_backup,
        CliOption::Gitattributes => st.gitattributes,
        CliOption::Help | CliOption::Version => Given::Absent,
    }
}

fn set_given(st: ParseState, opt: CliOption, g: Given) -> (res: ParseState)
    ensures
        res == with_given(st, opt, g),
{
    match opt {
        CliOption::Verbose => ParseState { verbose: g, ..st },
        CliOption::Fast => ParseState { fast: g, ..st },
        CliOption::Git => ParseState { git: g, ..st },
        CliOption::Output => ParseState { output: g, ..st },
        CliOption::PathName => ParseState { path_name: g, ..st },
        CliOption::BaseName => ParseState { base_name: g, ..st },
        CliOption::LeftName => ParseState { left_name: g, ..st },
        CliOption::RightName => ParseState { right_name: g, ..st },
        CliOption::Timeout => ParseState { timeout: g, ..st },
        CliOption::Debug => ParseState { debug: g, ..st },
        CliOption::Compact => ParseState { compact: g, ..st },
        CliOption::ConflictMarkerSize => ParseState { conflict_marker_size: g, ..st },
        CliOption::Language => ParseState { language: g, ..st },
        CliOption::AllowParseErrors => ParseState { allow_parse_errors: g, ..st },
        CliOption::Stdout => ParseState { stdout: g, ..st },
        CliOption::KeepBackup => ParseState { keep_backup: g, ..st },
        CliOption::Gitattributes => ParseState { gitattributes: g, ..st },
        CliOption::Help | CliOption::Version => st,
    }
}

fn fail(st: ParseState, e: ErrorKind) -> (res: ParseState)
    ensures
        res == failed(st, e),
{
    ParseState { error: Some(e), ..st }
}

fn record_option(st: ParseState, opt: CliOption, g: Given) -> (res: ParseState)
    ensures
        res == record(st, opt, g),
{
    match arity_of(opt) {
        Arity::Info => {
            let e = match opt {
                CliOption::Help => ErrorKind::DisplayHelp,
                _ => ErrorKind::DisplayVersion,
            };
            fail(st, e)
        },
        _ => match get_given(&st, opt) {
            Given::Absent => set_given(st, opt, g),
            _ => fail(st, ErrorKind::UsedMultipleTimes(opt)),
        },
    }
}

fn apply(st: ParseState, opt: CliOption, attached: Option<ArgRef>) -> (res: ParseState)
    ensures
        res == apply_option(st, opt, attached),
{
    match arity_of(opt) {
        Arity::Info => record_option(st, opt, Given::Bare),
        Arity::Flag => match attached {
            Some(_) => fail(st, ErrorKind::UnexpectedValue(opt)),
            None => record_option(st, opt, Given::Bare),
        },
        Arity::Value => match attached {
            Some(v) => record_option(st, opt, Given::WithValue(v)),
            None => ParseState { pending: Some(opt), ..st },
        },
        Arity::OptionalValue => match attached {
            Some(v) => record_option(st, opt, Given::WithValue(v)),
            None => record_option(st, opt, Given::Bare),
        },
    }
}

pub proof fn lemma_first_index_of(s: Seq<char>, c: char, k: int)
    requires
        0 <= k <= s.len(),
        forall|j: int| 0 <= j < k ==> s[j] != c,
    ensures
        k < s.len() && s[k] == c ==> first_index_of(s, c) == k,
        k == s.len() ==> first_index_of(s, c) == -1,
    decreases k,
{
    if k > 0 {
        lemma_first_index_of(s.skip(1), c, k - 1);
    } else if s.len() > 0 {
    }
}

fn read_long_arg(toks: &Vec<Vec<char>>, st: ParseState, i: usize) -> (res: ParseState)
    requires
        i < toks@.len(),
        toks@[i as int]@.len() >= 2,
    ensures
        res == read_long(texts_of(toks@), st, i as int),
{
    let t = &toks[i];
    let ghost body = t@.subrange(2, t@.len() as int);
    let mut k: usize = 2;
    while k < t.len() && t[k] != '='
        invariant
            2 <= k <= t@.len(),
            body == t@.subrange(2, t@.len() as int),
            forall|j: int| 0 <= j < k - 2 ==> body[j] != '=',
        decreases t@.len() - k,
    {
        k = k + 1;
    }
    proof {
        lemma_first_index_of(body, '=', k - 2);
        assert(texts_of(toks@)[i as int] == t@);
    }
    let attached = if k < t.len() { Some(ArgRef { token: i, start: k + 1 }) } else { None };
    proof {
        if k < t@.len() {
            assert(body.take(k - 2) =~= t@.subrange(2, k as int));
        } else {
            assert(body =~= t@.subrange(2, k as int));
        }
    }
    match accept(st.command, long_option(t, 2, k)) {
        Some(opt) => apply(st, opt, attached),
        None => fail(st, ErrorKind::UnknownArgument(i)),
    }
}

fn read_short_arg(toks: &Vec<Vec<char>>, st: ParseState, i: usize) -> (res: ParseState)
    requires
        i < toks@.len(),
    ensures
        res == read_short(texts_of(toks@), st, i as int, 1),
{
    let t = &toks[i];
    let ghost args = texts_of(toks@);
    assert(args[i as int] == t@);
    let mut cur = st;
    let mut k: usize = 1;
    loop
        invariant
            1 <= k,
            args == texts_of(toks@),
            args[i as int] == t@,
            i < toks@.len(),
            read_short(args, cur, i as int, k as int) == read_short(args, st, i as int, 1),
        decreases t@.len() - k,
    {
        if cur.error.is_some() || k >= t.len() {
            return cur;
        }
        match accept(cur.command, short_option(cur.command, t[k])) {
            None => {
                return fail(cur, ErrorKind::UnknownArgument(i));
            },
            Some(opt) => match arity_of(opt) {
                Arity::Info => {
                    return record_option(cur, opt, Given::Bare);
                },
                Arity::Flag => {
                    cur = record_option(cur, opt, Given::Bare);
                    k = k + 1;
                },
                Arity::Value => {
                    if k + 1 < t.len() {
                        let start = if t[k + 1] == '=' { k + 2 } else { k + 1 };
                        return record_option(cur, opt, Given::WithValue(ArgRef { token: i, start }));
                    } else {
                        return ParseState { pending: Some(opt), ..cur };
                    }
                },
                Arity::OptionalValue => {
                    if k + 1 < t.len() && t[k + 1] == '=' {
                        return record_option(cur, opt, Given::WithValue(ArgRef { token: i, start: k + 2 }));
                    } else {
                        cur = record_option(cur, opt, Given::Bare);
                        k = k + 1;
                    }
                },
            },
        }
    }
}


fn subcommand_of(t: &Vec<char>) -> (res: Option<Subcommand>)
    ensures
        res == subcommand_named(t@),
{
    assert(t@.subrange(0, t@.len() as int) =~= t@);
    if range_is(t, 0, t.len(), "merge") {
        Some(Subcommand::Merge)
    } else if range_is(t, 0, t.len(), "solve") {
        Some(Subcommand::Solve)
    } else if range_is(t, 0, t.len(), "review") {
        Some(Subcommand::Review)
    } else if range_is(t, 0, t.len(), "report") {
        Some(Subcommand::Report)
    } else if range_is(t, 0, t.len(), "languages") {
        Some(Subcommand::Languages)
    } else {
        None
    }
}

fn positional_count_of(cmd: Subcommand) -> (res: usize)
    ensures
        res == positional_count(cmd),
{
    match cmd {
        Subcommand::Merge => 3,
        Subcommand::Solve | Subcommand::Review | Subcommand::Report => 1,
        Subcommand::Languages => 0,
    }
}

fn read_positional_arg(toks: &Vec<Vec<char>>, st: ParseState, i: usize) -> (res: ParseState)
    requires
        i < toks@.len(),
    ensures
        res == read_positional(texts_of(toks@), st, i as int),
{
    let t = &toks[i];
    assert(texts_of(toks@)[i as int] == t@);
    match st.command {
        None => match subcommand_of(t) {
            Some(c) => ParseState { command: Some(c), ..st },
            None => {
                assert(t@.subrange(0, t@.len() as int) =~= t@);
                if range_is(t, 0, t.len(), "help") {
                    fail(st, ErrorKind::DisplayHelp)
                } else {
                    fail(st, ErrorKind::UnknownSubcommand(i))
                }
            },
        },
        Some(c) => if st.npos < positional_count_of(c) {
            if st.npos == 0 {
                ParseState { pos0: i, npos: 1, ..st }
            } else if st.npos == 1 {
                ParseState { pos1: i, npos: 2, ..st }
            } else {
                ParseState { pos2: i, npos: 3, ..st }
            }
        } else {
            fail(st, ErrorKind::UnexpectedPositional(i))
        },
    }
}

fn read_one_arg(toks: &Vec<Vec<char>>, st: ParseState, i: usize) -> (res: ParseState)
    requires
        i < toks@.len(),
    ensures
        res == read_arg(texts_of(toks@), st, i as int),
{
    let t = &toks[i];
    assert(texts_of(toks@)[i as int] == t@);
    if st.error.is_some() {
        return st;
    }
    match st.pending {
        Some(opt) => {
            if t.len() >= 2 && t[0] == '-' {
                fail(st, ErrorKind::MissingValue(opt))
            } else {
                record_option(ParseState { pending: None, ..st }, opt, Given::WithValue(ArgRef { token: i, start: 0 }))
            }
        },
        None => {
            assert(t@.subrange(0, t@.len() as int) =~= t@);
            if st.only_positionals {
                read_positional_arg(toks, st, i)
            } else if range_is(t, 0, t.len(), "--") {
                ParseState { only_positionals: true, ..st }
            } else if t.len() >= 2 && t[0] == '-' && t[1] == '-' {
                read_long_arg(toks, st, i)
            } else if t.len() >= 2 && t[0] == '-' {
                read_short_arg(toks, st, i)
            } else {
                read_positional_arg(toks, st, i)
            }
        },
    }
}

/// Reads all the arguments but the first one, which names the program
pub fn read_all_args(toks: &Vec<Vec<char>>) -> (res: ParseState)
    ensures
        res == read_args(texts_of(toks@), toks@.len() as int),
{
    let mut st = ParseState {
        command: None,
        pos0: 0,
        pos1: 0,
        pos2: 0,
        npos: 0,
        verbose: Given::Absent,
        fast: Given::Absent,
        git: Given::Absent,
        output: Given::Absent,
        path_name: Given::Absent,
        base_name: Given::Absent,
        left_name: Given::Absent,
        right_name: Given::Absent,
        timeout: Given::Absent,
        debug: Given::Absent,
        compact: Given::Absent,
        conflict_marker_size: Given::Absent,
        language: Given::Absent,
        allow_parse_errors: Given::Absent,
        stdout: Given::Absent,
        keep_backup: Given::Absent,
        gitattributes: Given::Absent,
        pending: None,
        only_positionals: false,
        error: None,
    };
    if toks.len() <= 1 {
        return st;
    }
    let mut i: usize = 1;
    while i < toks.len()
        invariant
            1 <= i <= toks@.len(),
            st == read_args(texts_of(toks@), i as int),
        decreases toks@.len() - i,
    {
        st = read_one_arg(toks, st, i);
        i = i + 1;
    }
    st
}


/// The value of a non-empty string of decimal digits
pub open spec fn digits_value(s: Seq<char>) -> int
    decreases s.len(),
{
    if s.len() == 0 {
        0
    } else {
        digits_value(s.drop_last()) * 10 + (s.last() as int - '0' as int)
    }
}

/// Is the text a non-empty string of decimal digits?
pub open spec fn is_digits(s: Seq<char>) -> bool {
    s.len() > 0 && forall|i: int| 0 <= i < s.len() ==> '0' <= #[trigger] s[i] <= '9'
}

/// The unsigned integer written in the text, in decimal with an optional leading `+`
pub open spec fn unsigned_value(s: Seq<char>) -> Option<int> {
    let d = if s.len() > 0 && s[0] == '+' { s.skip(1) } else { s };
    if is_digits(d) { Some(digits_value(d)) } else { None }
}

/// The unsigned integer written in the text, if it is at most `max`
pub open spec fn bounded_value(s: Seq<char>, max: int) -> Option<int> {
    match unsigned_value(s) {
        Some(v) => if v <= max { Some(v) } else { None },
        None => None,
    }
}

/// The boolean written in the text (`true` or `false`)
pub open spec fn bool_value(s: Seq<char>) -> Option<bool> {
    if s == "true"@ {
        Some(true)
    } else if s == "false"@ {
        Some(false)
    } else {
        None
    }
}

/// The text that a value refers to (empty if it refers to no argument)
pub open spec fn value_text(args: Seq<Seq<char>>, r: ArgRef) -> Seq<char> {
    if r.token < args.len() && r.start <= args[r.token as int].len() {
        args[r.token as int].subrange(r.start as int, args[r.token as int].len() as int)
    } else {
        Seq::empty()
    }
}

/// The argument at that position (empty if there is none)
pub open spec fn arg_text(args: Seq<Seq<char>>, i: usize) -> Seq<char> {
    if i < args.len() {
        args[i as int]
    } else {
        Seq::empty()
    }
}

proof fn lemma_digits_value_nonneg(s: Seq<char>)
    requires
        forall|i: int| 0 <= i < s.len() ==> '0' <= #[trigger] s[i] <= '9',
    ensures
        digits_value(s) >= 0,
    decreases s.len(),
{
    if s.len() > 0 {
        lemma_digits_value_nonneg(s.drop_last());
    }
}

proof fn lemma_digits_value_grows(s: Seq<char>, k: int)
    requires
        forall|i: int| 0 <= i < s.len() ==> '0' <= #[trigger] s[i] <= '9',
        0 <= k <= s.len(),
    ensures
        digits_value(s.take(k)) <= digits_value(s),
    decreases s.len() - k,
{
    if k == s.len() {
        assert(s.take(k) =~= s);
    } else {
        lemma_digits_value_grows(s, k + 1);
        assert(s.take(k + 1).drop_last() =~= s.take(k));
        lemma_digits_value_nonneg(s.take(k));
    }
}

/// The unsigned integer written in `t[from..]`, if it is at most `max`
fn parse_unsigned(t: &Vec<char>, from: usize, max: u64) -> (res: Option<u64>)
    requires
        from <= t@.len(),
    ensures
        match bounded_value(t@.subrange(from as int, t@.len() as int), max as int) {
            Some(v) => res == Some(v as u64) && 0 <= v <= max,
            None => res is None,
        },
{
    let ghost s = t@.subrange(from as int, t@.len() as int);
    let mut start = from;
    if start < t.len() && t[start] == '+' {
        start = start + 1;
    }
    let ghost d = t@.subrange(start as int, t@.len() as int);
    assert(d =~= (if s.len() > 0 && s[0] == '+' { s.skip(1) } else { s }));
    if start == t.len() {
        return None;
    }
    let mut value: u64 = 0;
    let mut k: usize = start;
    while k < t.len()
        invariant
            from <= start <= k <= t@.len(),
            start < t@.len(),
            d == t@.subrange(start as int, t@.len() as int),
            s == t@.subrange(from as int, t@.len() as int),
            d == (if s.len() > 0 && s[0] == '+' { s.skip(1) } else { s }),
            forall|i: int| 0 <= i < k - start ==> '0' <= #[trigger] d[i] <= '9',
            value == digits_value(d.take(k - start)),
            value <= max,
        decreases t@.len() - k,
    {
        let c = t[k];
        if c < '0' || c > '9' {
            assert(d[k - start] == c);
            return None;
        }
        let digit = (c as u32 - '0' as u32) as u64;
        assert(d.take(k + 1 - start).drop_last() =~= d.take(k - start));
        assert(d.take(k + 1 - start).last() == c);
        let next = match value.checked_mul(10) {
            Some(m) => m.checked_add(digit),
            None => None,
        };
        match next {
            Some(n) if n <= max => {
                value = n;
            },
            _ => {
                proof {
                    if is_digits(d) {
                        lemma_digits_value_grows(d, k + 1 - start);
                    }
                }
                return None;
            },
        }
        k = k + 1;
    }
    assert(d.take(k - start) =~= d);
    Some(value)
}

/// The `usize` written in the text, in decimal with an optional leading `+` (`usize::from_str`)
pub fn parse_usize(s: &str) -> (res: Option<usize>)
    ensures
        match bounded_value(s@, usize::MAX as int) {
            Some(v) => res == Some(v as usize) && 0 <= v <= usize::MAX,
            None => res is None,
        },
{
    let t = to_chars(s);
    assert(t@.subrange(0, t@.len() as int) =~= t@);
    match parse_unsigned(&t, 0, usize_max()) {
        Some(v) => {
            assert(v <= usize::MAX);
            Some(v as usize)
        },
        None => None,
    }
}

/// The boolean written in `t[from..]`
fn parse_bool(t: &Vec<char>, from: usize) -> (res: Option<bool>)
    requires
        from <= t@.len(),
    ensures
        res == bool_value(t@.subrange(from as int, t@.len() as int)),
{
    if range_is(t, from, t.len(), "true") {
        Some(true)
    } else if range_is(t, from, t.len(), "false") {
        Some(false)
    } else {
        None
    }
}


/// `mergiraf merge` and `mergiraf solve` share a lot of flags which other subcommands don't
#[derive(Debug, Clone, PartialEq, Eq)]
pub struct MergeOrSolveArgs {
    /// Write debug files to a particular directory to analyze
    /// the internal aspects of the merge
    pub debug_dir: Option<String>,
    /// Display compact conflicts, breaking down lines
    pub compact: Option<bool>,
    /// Length of conflict markers
    pub conflict_marker_size: Option<usize>,
    /// Override automatic language detection.
    pub language: Option<String>,
    /// Enable syntax-aware merging despite the presence of syntax errors
    pub allow_parse_errors: Option<bool>,
}

/// A subcommand with its arguments
#[derive(Debug, Clone, PartialEq, Eq)]
pub enum CliCommand {
    /// Do a three-way merge
    Merge {
        /// Path to the file containing the base revision
        base: String,
        /// Path to the file containing the left revision
        left: String,
        /// Path to the file containing the right revision
        right: String,
        /// Only attempt to merge the files by solving textual conflicts,
        /// without doing a full structured merge from the ground up.
        fast: bool,
        /// The options shared with `solve`
        merge_or_solve: MergeOrSolveArgs,
        /// Behave as a git merge driver: overwrite the left revision
        git: bool,
        /// The path to the file to write the merge result to
        output: Option<String>,
        /// Final path in which the merged result will be stored.
        /// It is used to detect the language of the files using the file extension.
        path_name: Option<String>,
        /// Name to use for the base revision in conflict markers
        base_name: Option<String>,
        /// Name to use for the left revision in conflict markers
        left_name: Option<String>,
        /// Name to use for the right revision in conflict markers
        right_name: Option<String>,
        /// Maximum number of milliseconds to try doing the merging for
        timeout: Option<u64>,
    },
    /// Solve the conflicts in a merged file
    Solve {
        /// Path to the file containing merge conflicts
        conflicts: String,
        /// The options shared with `merge`
        merge_or_solve: MergeOrSolveArgs,
        /// Keep file untouched and show the results of resolution on standard output instead
        stdout: bool,
        /// Create a copy of the original file by adding the `.orig` suffix to it
        keep_backup: bool,
    },
    /// Review the resolution of a merge by showing the differences with a line-based merge
    Review {
        /// Identifier of the merge case
        merge_id: String,
    },
    /// Create a bug report for a bad merge
    Report {
        /// Identifier of the merge case (if it did not return conflicts) or path to file with merge conflicts
        merge_id_or_file: String,
    },
    /// Show the supported languages
    Languages {
        /// Print the list in a format suitable for inclusion in gitattributes
        gitattributes: bool,
    },
}

/// The arguments of `mergiraf`
#[derive(Debug, Clone, PartialEq, Eq)]
pub struct CliArgs {
    /// Verbosity
    pub verbose: bool,
    /// The subcommand
    pub command: CliCommand,
}

/// Why the arguments could not be read
#[derive(Debug, Clone, PartialEq, Eq)]
pub enum CliParseError {
    /// This argument is not a known option
    UnknownArgument(String),
    /// This argument is not a subcommand
    UnknownSubcommand(String),
    /// No subcommand was given
    MissingSubcommand,
    /// The option needs a value that was not given
    MissingValue(CliOption),
    /// The option takes no value but was given one
    UnexpectedValue(CliOption),
    /// The option was given more than once
    UsedMultipleTimes(CliOption),
    /// This argument is one positional argument too many
    UnexpectedPositional(String),
    /// A positional argument of the subcommand is missing
    MissingPositional,
    /// Two options that exclude each other were both given
    ConflictingArguments(CliOption, CliOption),
    /// The value of the option cannot be read
    InvalidValue(CliOption, String),
    /// Help was asked for
    DisplayHelp,
    /// The version was asked for
    DisplayVersion,
}

/// The value of a boolean option: absent, given bare (`true`), or given with a value
pub open spec fn bool_option(args: Seq<Seq<char>>, g: Given) -> Option<Option<bool>> {
    match g {
        Given::Absent => Some(None),
        Given::Bare => Some(Some(true)),
        Given::WithValue(r) => match bool_value(value_text(args, r)) {
            Some(b) => Some(Some(b)),
            None => None,
        },
    }
}

/// The value of an unsigned option bounded by `max`: absent, or given with a value
pub open spec fn unsigned_option(args: Seq<Seq<char>>, g: Given, max: int) -> Option<Option<int>> {
    match g {
        Given::WithValue(r) => match bounded_value(value_text(args, r), max) {
            Some(v) => Some(Some(v)),
            None => None,
        },
        _ => Some(None),
    }
}

/// The error of an option whose value cannot be read, if any
pub open spec fn value_error(args: Seq<Seq<char>>, st: ParseState) -> Option<ErrorKind> {
    if bool_option(args, st.compact) is None {
        Some(ErrorKind::InvalidValue(CliOption::Compact, st.compact->WithValue_0))
    } else if bool_option(args, st.allow_parse_errors) is None {
        Some(ErrorKind::InvalidValue(CliOption::AllowParseErrors, st.allow_parse_errors->WithValue_0))
    } else if bool_option(args, st.keep_backup) is None {
        Some(ErrorKind::InvalidValue(CliOption::KeepBackup, st.keep_backup->WithValue_0))
    } else if unsigned_option(args, st.conflict_marker_size, usize::MAX as int) is None {
        Some(ErrorKind::InvalidValue(CliOption::ConflictMarkerSize, st.conflict_marker_size->WithValue_0))
    } else if unsigned_option(args, st.timeout, u64::MAX as int) is None {
        Some(ErrorKind::InvalidValue(CliOption::Timeout, st.timeout->WithValue_0))
    } else {
        None
    }
}

/// The error with which the reading of the arguments ends, if any
pub open spec fn final_error(args: Seq<Seq<char>>, st: ParseState) -> Option<ErrorKind> {
    if st.error is Some {
        st.error
    } else if st.pending is Some {
        Some(ErrorKind::MissingValue(st.pending->0))
    } else if st.command is None {
        Some(ErrorKind::MissingSubcommand)
    } else if st.npos < positional_count(st.command->0) {
        Some(ErrorKind::MissingPositional)
    } else if st.output != Given::Absent && st.git != Given::Absent {
        Some(ErrorKind::ConflictingArguments(CliOption::Output, CliOption::Git))
    } else if st.keep_backup != Given::Absent && st.stdout != Given::Absent {
        Some(ErrorKind::ConflictingArguments(CliOption::KeepBackup, CliOption::Stdout))
    } else {
        value_error(args, st)
    }
}

/// The text of an option given with a value, or nothing
pub open spec fn text_option(args: Seq<Seq<char>>, g: Given) -> Option<Seq<char>> {
    match g {
        Given::WithValue(r) => Some(value_text(args, r)),
        _ => None,
    }
}

/// The view of an optional string
pub open spec fn string_option(o: Option<String>) -> Option<Seq<char>> {
    match o {
        Some(s) => Some(s@),
        None => None,
    }
}

/// The view of an optional number
pub open spec fn u64_option(o: Option<u64>) -> Option<int> {
    match o {
        Some(v) => Some(v as int),
        None => None,
    }
}

/// The view of an optional number
pub open spec fn usize_option(o: Option<usize>) -> Option<int> {
    match o {
        Some(v) => Some(v as int),
        None => None,
    }
}

impl MergeOrSolveArgs {
    /// Are these the shared options that the state records?
    pub open spec fn read_from(self, args: Seq<Seq<char>>, st: ParseState) -> bool {
        &&& string_option(self.debug_dir) == text_option(args, st.debug)
        &&& Some(self.compact) == bool_option(args, st.compact)
        &&& Some(usize_option(self.conflict_marker_size)) == unsigned_option(args, st.conflict_marker_size, usize::MAX as int)
        &&& string_option(self.language) == text_option(args, st.language)
        &&& Some(self.allow_parse_errors) == bool_option(args, st.allow_parse_errors)
    }
}

impl CliArgs {
    /// Are these the arguments that the state records?
    pub open spec fn read_from(self, args: Seq<Seq<char>>, st: ParseState) -> bool {
        &&& self.verbose == (st.verbose != Given::Absent)
        &&& match self.command {
            CliCommand::Merge {
                base, left, right, fast, merge_or_solve, git, output, path_name, base_name, left_name,
                right_name, timeout,
            } => {
                &&& st.command == Some(Subcommand::Merge)
                &&& base@ == arg_text(args, st.pos0)
                &&& left@ == arg_text(args, st.pos1)
                &&& right@ == arg_text(args, st.pos2)
                &&& fast == (st.fast != Given::Absent)
                &&& merge_or_solve.read_from(args, st)
                &&& git == (st.git != Given::Absent)
                &&& string_option(output) == text_option(args, st.output)
                &&& string_option(path_name) == text_option(args, st.path_name)
                &&& string_option(base_name) == text_option(args, st.base_name)
                &&& string_option(left_name) == text_option(args, st.left_name)
                &&& string_option(right_name) == text_option(args, st.right_name)
                &&& Some(u64_option(timeout)) == unsigned_option(args, st.timeout, u64::MAX as int)
            },
            CliCommand::Solve { conflicts, merge_or_solve, stdout, keep_backup } => {
                &&& st.command == Some(Subcommand::Solve)
                &&& conflicts@ == arg_text(args, st.pos0)
                &&& merge_or_solve.read_from(args, st)
                &&& stdout == (st.stdout != Given::Absent)
                &&& keep_backup == (match bool_option(args, st.keep_backup) {
                    Some(Some(b)) => b,
                    _ => true,
                })
            },
            CliCommand::Review { merge_id } => {
                &&& st.command == Some(Subcommand::Review)
                &&& merge_id@ == arg_text(args, st.pos0)
            },
            CliCommand::Report { merge_id_or_file } => {
                &&& st.command == Some(Subcommand::Report)
                &&& merge_id_or_file@ == arg_text(args, st.pos0)
            },
            CliCommand::Languages { gitattributes } => {
                &&& st.command == Some(Subcommand::Languages)
                &&& gitattributes == (st.gitattributes != Given::Absent)
            },
        }
    }
}

impl CliParseError {
    /// Does this error report the given kind of error, with the texts of the arguments it names?
    pub open spec fn reports(self, args: Seq<Seq<char>>, k: ErrorKind) -> bool {
        match k {
            ErrorKind::UnknownArgument(i) => self matches CliParseError::UnknownArgument(t) && t@ == arg_text(args, i),
            ErrorKind::UnknownSubcommand(i) => self matches CliParseError::UnknownSubcommand(t) && t@ == arg_text(args, i),
            ErrorKind::UnexpectedPositional(i) => self matches CliParseError::UnexpectedPositional(t) && t@ == arg_text(args, i),
            ErrorKind::InvalidValue(opt, r) => self matches CliParseError::InvalidValue(o, t) && o == opt
                && t@ == value_text(args, r),
            ErrorKind::MissingSubcommand => self is MissingSubcommand,
            ErrorKind::MissingValue(opt) => self matches CliParseError::MissingValue(o) && o == opt,
            ErrorKind::UnexpectedValue(opt) => self matches CliParseError::UnexpectedValue(o) && o == opt,
            ErrorKind::UsedMultipleTimes(opt) => self matches CliParseError::UsedMultipleTimes(o) && o == opt,
            ErrorKind::MissingPositional => self is MissingPositional,
            ErrorKind::ConflictingArguments(a, b) => self matches CliParseError::ConflictingArguments(x, y) && x == a && y == b,
            ErrorKind::DisplayHelp => self is DisplayHelp,
            ErrorKind::DisplayVersion => self is DisplayVersion,
        }
    }
}


/// The text that a value refers to
fn value_string(toks: &Vec<Vec<char>>, r: ArgRef) -> (res: String)
    ensures
        res@ == value_text(texts_of(toks@), r),
{
    if r.token < toks.len() && r.start <= toks[r.token].len() {
        assert(texts_of(toks@)[r.token as int] == toks@[r.token as int]@);
        string_of_range(&toks[r.token], r.start, toks[r.token].len())
    } else {
        String::new()
    }
}

/// The argument at that position
fn arg_string(toks: &Vec<Vec<char>>, i: usize) -> (res: String)
    ensures
        res@ == arg_text(texts_of(toks@), i),
{
    if i < toks.len() {
        assert(texts_of(toks@)[i as int] == toks@[i as int]@);
        assert(toks@[i as int]@.subrange(0, toks@[i as int]@.len() as int) =~= toks@[i as int]@);
        string_of_range(&toks[i], 0, toks[i].len())
    } else {
        String::new()
    }
}

/// The text of an option given with a value
fn text_of(toks: &Vec<Vec<char>>, g: Given) -> (res: Option<String>)
    ensures
        string_option(res) == text_option(texts_of(toks@), g),
{
    match g {
        Given::WithValue(r) => Some(value_string(toks, r)),
        _ => None,
    }
}

/// The value of a boolean option (`None` if it cannot be read)
fn bool_of(toks: &Vec<Vec<char>>, g: Given) -> (res: Option<Option<bool>>)
    ensures
        res == bool_option(texts_of(toks@), g),
{
    match g {
        Given::Absent => Some(None),
        Given::Bare => Some(Some(true)),
        Given::WithValue(r) => {
            let ghost args = texts_of(toks@);
            if r.token < toks.len() && r.start <= toks[r.token].len() {
                assert(args[r.token as int] == toks@[r.token as int]@);
                match parse_bool(&toks[r.token], r.start) {
                    Some(b) => Some(Some(b)),
                    None => None,
                }
            } else {
                assert(value_text(args, r) =~= Seq::<char>::empty());
                proof {
                    reveal_strlit("true");
                    reveal_strlit("false");
                }
                None
            }
        },
    }
}

/// The value of an unsigned option bounded by `max` (`None` if it cannot be read)
fn unsigned_of(toks: &Vec<Vec<char>>, g: Given, max: u64) -> (res: Option<Option<u64>>)
    ensures
        match unsigned_option(texts_of(toks@), g, max as int) {
            Some(Some(v)) => res == Some(Some(v as u64)) && 0 <= v <= max,
            Some(None) => res == Some(None::<u64>),
            None => res is None,
        },
{
    match g {
        Given::WithValue(r) => {
            let ghost args = texts_of(toks@);
            if r.token < toks.len() && r.start <= toks[r.token].len() {
                assert(args[r.token as int] == toks@[r.token as int]@);
                match parse_unsigned(&toks[r.token], r.start, max) {
                    Some(v) => Some(Some(v)),
                    None => None,
                }
            } else {
                assert(value_text(args, r) =~= Seq::<char>::empty());
                None
            }
        },
        _ => Some(None),
    }
}

/// The error to report for a kind of error
fn error_for(toks: &Vec<Vec<char>>, k: ErrorKind) -> (res: CliParseError)
    ensures
        res.reports(texts_of(toks@), k),
{
    match k {
        ErrorKind::UnknownArgument(i) => CliParseError::UnknownArgument(arg_string(toks, i)),
        ErrorKind::UnknownSubcommand(i) => CliParseError::UnknownSubcommand(arg_string(toks, i)),
        ErrorKind::UnexpectedPositional(i) => CliParseError::UnexpectedPositional(arg_string(toks, i)),
        ErrorKind::InvalidValue(opt, r) => CliParseError::InvalidValue(opt, value_string(toks, r)),
        ErrorKind::MissingSubcommand => CliParseError::MissingSubcommand,
        ErrorKind::MissingValue(opt) => CliParseError::MissingValue(opt),
        ErrorKind::UnexpectedValue(opt) => CliParseError::UnexpectedValue(opt),
        ErrorKind::UsedMultipleTimes(opt) => CliParseError::UsedMultipleTimes(opt),
        ErrorKind::MissingPositional => CliParseError::MissingPositional,
        ErrorKind::ConflictingArguments(a, b) => CliParseError::ConflictingArguments(a, b),
        ErrorKind::DisplayHelp => CliParseError::DisplayHelp,
        ErrorKind::DisplayVersion => CliParseError::DisplayVersion,
    }
}

/// The largest `usize`, as a `u64`
fn usize_max() -> (res: u64)
    ensures
        res as int == usize::MAX,
{
    assert(usize::MAX <= u64::MAX) by {
        assert(usize::BITS == 32 || usize::BITS == 64);
    }
    usize::MAX as u64
}

/// The value of an option given with a value
fn ref_of(g: Given) -> (res: ArgRef)
    requires
        g is WithValue,
    ensures
        res == g->WithValue_0,
{
    match g {
        Given::WithValue(r) => r,
        _ => ArgRef { token: 0, start: 0 },
    }
}

fn is_given(g: Given) -> (res: bool)
    ensures
        res == (g != Given::Absent),
{
    match g {
        Given::Absent => false,
        _ => true,
    }
}

/// Checks the state once all arguments are read, and gives the arguments it records
pub fn finish(toks: &Vec<Vec<char>>, st: ParseState) -> (res: Result<CliArgs, CliParseError>)
    ensures
        match final_error(texts_of(toks@), st) {
            Some(k) => res matches Err(e) && e.reports(texts_of(toks@), k),
            None => res matches Ok(a) && a.read_from(texts_of(toks@), st),
        },
{
    let ghost args = texts_of(toks@);
    if let Some(k) = st.error {
        return Err(error_for(toks, k));
    }
    if let Some(opt) = st.pending {
        return Err(CliParseError::MissingValue(opt));
    }
    let cmd = match st.command {
        Some(c) => c,
        None => {
            return Err(CliParseError::MissingSubcommand);
        },
    };
    if st.npos < positional_count_of(cmd) {
        return Err(CliParseError::MissingPositional);
    }
    if is_given(st.output) && is_given(st.git) {
        return Err(CliParseError::ConflictingArguments(CliOption::Output, CliOption::Git));
    }
    if is_given(st.keep_backup) && is_given(st.stdout) {
        return Err(CliParseError::ConflictingArguments(CliOption::KeepBackup, CliOption::Stdout));
    }
    let compact = match bool_of(toks, st.compact) {
        Some(v) => v,
        None => {
            return Err(error_for(toks, ErrorKind::InvalidValue(CliOption::Compact, ref_of(st.compact))));
        },
    };
    let allow_parse_errors = match bool_of(toks, st.allow_parse_errors) {
        Some(v) => v,
        None => {
            return Err(error_for(toks, ErrorKind::InvalidValue(CliOption::AllowParseErrors, ref_of(st.allow_parse_errors))));
        },
    };
    let keep_backup = match bool_of(toks, st.keep_backup) {
        Some(v) => v,
        None => {
            return Err(error_for(toks, ErrorKind::InvalidValue(CliOption::KeepBackup, ref_of(st.keep_backup))));
        },
    };
    let conflict_marker_size = match unsigned_of(toks, st.conflict_marker_size, usize_max()) {
        Some(Some(v)) => {
            assert(v <= usize::MAX);
            Some(v as usize)
        },
        Some(None) => None,
        None => {
            return Err(error_for(toks, ErrorKind::InvalidValue(CliOption::ConflictMarkerSize, ref_of(st.conflict_marker_size))));
        },
    };
    let timeout = match unsigned_of(toks, st.timeout, u64::MAX) {
        Some(v) => v,
        None => {
            return Err(error_for(toks, ErrorKind::InvalidValue(CliOption::Timeout, ref_of(st.timeout))));
        },
    };
    let verbose = is_given(st.verbose);
    let command = match cmd {
        Subcommand::Merge => CliCommand::Merge {
            base: arg_string(toks, st.pos0),
            left: arg_string(toks, st.pos1),
            right: arg_string(toks, st.pos2),
            fast: is_given(st.fast),
            merge_or_solve: MergeOrSolveArgs {
                debug_dir: text_of(toks, st.debug),
                compact,
                conflict_marker_size,
                language: text_of(toks, st.language),
                allow_parse_errors,
            },
            git: is_given(st.git),
            output: text_of(toks, st.output),
            path_name: text_of(toks, st.path_name),
            base_name: text_of(toks, st.base_name),
            left_name: text_of(toks, st.left_name),
            right_name: text_of(toks, st.right_name),
            timeout,
        },
        Subcommand::Solve => CliCommand::Solve {
            conflicts: arg_string(toks, st.pos0),
            merge_or_solve: MergeOrSolveArgs {
                debug_dir: text_of(toks, st.debug),
                compact,
                conflict_marker_size,
                language: text_of(toks, st.language),
                allow_parse_errors,
            },
            stdout: is_given(st.stdout),
            keep_backup: match keep_backup {
                Some(b) => b,
                None => true,
            },
        },
        Subcommand::Review => CliCommand::Review { merge_id: arg_string(toks, st.pos0) },
        Subcommand::Report => CliCommand::Report { merge_id_or_file: arg_string(toks, st.pos0) },
        Subcommand::Languages => CliCommand::Languages { gitattributes: is_given(st.gitattributes) },
    };
    Ok(CliArgs { verbose, command })
}

/// The characters of each argument
fn chars_of_args(args: &[&str]) -> (res: Vec<Vec<char>>)
    ensures
        texts_of(res@) == args@.map_values(|a: &str| a@),
{
    let mut res: Vec<Vec<char>> = Vec::new();
    let mut i: usize = 0;
    while i < args.len()
        invariant
            0 <= i <= args@.len(),
            texts_of(res@) == args@.take(i as int).map_values(|a: &str| a@),
        decreases args@.len() - i,
    {
        let ghost before = res@;
        res.push(to_chars(args[i]));
        assert(texts_of(res@) =~= texts_of(before).push(args@[i as int]@));
        assert(args@.take(i + 1).map_values(|a: &str| a@) =~= args@.take(i as int).map_values(|a: &str| a@).push(args@[i as int]@));
        i = i + 1;
    }
    assert(args@.take(i as int) =~= args@);
    res
}

/// The texts of the arguments
pub open spec fn arg_texts(args: Seq<&str>) -> Seq<Seq<char>> {
    args.map_values(|a: &str| a@)
}

impl CliArgs {
    /// Reads the command line, whose first argument names the program.
    pub fn try_parse_from(args: &[&str]) -> (res: Result<CliArgs, CliParseError>)
        ensures
            match final_error(arg_texts(args@), read_args(arg_texts(args@), args@.len() as int)) {
                Some(k) => res matches Err(e) && e.reports(arg_texts(args@), k),
                None => res matches Ok(a) && a.read_from(arg_texts(args@), read_args(arg_texts(args@), args@.len() as int)),
            },
    {
        let toks = chars_of_args(args);
        let st = read_all_args(&toks);
        finish(&toks, st)
    }
}


/// What went wrong in `mergiraf`
#[derive(Debug, Clone, PartialEq, Eq)]
pub enum CliError {
    /// `git merge-file` failed internally, with that exit code
    GitMergeFile { exit_code: i32 },
    /// An input or output failed, for that reason
    Io(String),
    /// Any other error
    Other(String),
}

/// The decimal representation of a signed number
pub open spec fn signed_decimal(n: int) -> Seq<char> {
    if n < 0 { seq!['-'] + decimal((-n) as nat) } else { decimal(n as nat) }
}

impl CliError {
    /// The message describing the error
    pub fn message(&self) -> (res: String)
        ensures
            res@ == match self {
                CliError::GitMergeFile { exit_code } => "`git merge-file` returned exit code "@ + signed_decimal(*exit_code as int),
                CliError::Io(e) => "IO error: "@ + e@,
                CliError::Other(e) => e@,
            },
    {
        let mut res = String::new();
        match self {
            CliError::GitMergeFile { exit_code } => {
                push_str(&mut res, "`git merge-file` returned exit code ");
                if *exit_code < 0 {
                    push_char(&mut res, '-');
                    let magnitude = (0 - (*exit_code as i64)) as usize;
                    push_str(&mut res, decimal_string(magnitude).as_str());
                } else {
                    push_str(&mut res, decimal_string(*exit_code as usize).as_str());
                }
            },
            CliError::Io(e) => {
                push_str(&mut res, "IO error: ");
                push_str(&mut res, e.as_str());
            },
            CliError::Other(e) => {
                push_str(&mut res, e.as_str());
            },
        }
        res
    }
}

/// What `git merge-file` exiting with that code means: an internal error from 128 on,
/// and otherwise whether the merge has conflicts (any code but 0)
pub fn git_merge_file_outcome(code: i32) -> (res: Result<bool, CliError>)
    ensures
        code >= 128 ==> res == Err::<bool, CliError>(CliError::GitMergeFile { exit_code: code }),
        code < 128 ==> res == Ok::<bool, CliError>(code != 0),
{
    if code >= 128 {
        Err(CliError::GitMergeFile { exit_code: code })
    } else {
        Ok(code != 0)
    }
}

/// The texts of a list of strings
pub open spec fn strings_view(v: Seq<String>) -> Seq<Seq<char>> {
    v.map_values(|s: String| s@)
}

/// The arguments of `git merge-file`, before the paths of the left, base and right revisions:
/// the histogram algorithm, output to standard output unless acting as a git merge driver,
/// the revision names (left, then base, then right, as long as they are set in that order),
/// and the conflict marker size
pub open spec fn git_merge_file_args_spec(git: bool, settings: DisplaySettings) -> Seq<Seq<char>> {
    let start = seq!["merge-file"@, "--diff-algorithm=histogram"@];
    let output = if git { start } else { start.push("-p"@) };
    let names = match settings.left_revision_name {
        Some(l) => match settings.base_revision_name {
            Some(b) => match settings.right_revision_name {
                Some(r) => seq!["-L"@, l@, "-L"@, b@, "-L"@, r@],
                None => seq!["-L"@, l@, "-L"@, b@],
            },
            None => seq!["-L"@, l@],
        },
        None => Seq::empty(),
    };
    output + names + seq!["--marker-size"@, decimal(settings.marker_size())]
}

/// The arguments of `git merge-file` (see [`git_merge_file_args_spec`])
pub fn git_merge_file_args(git: bool, settings: &DisplaySettings) -> (res: Vec<String>)
    ensures
        strings_view(res@) == git_merge_file_args_spec(git, *settings),
{
    let mut args: Vec<String> = Vec::new();
    args.push("merge-file".to_owned());
    args.push("--diff-algorithm=histogram".to_owned());
    if !git {
        args.push("-p".to_owned());
    }
    match &settings.left_revision_name {
        Some(l) => {
            args.push("-L".to_owned());
            args.push(l.clone());
            match &settings.base_revision_name {
                Some(b) => {
                    args.push("-L".to_owned());
                    args.push(b.clone());
                    match &settings.right_revision_name {
                        Some(r) => {
                            args.push("-L".to_owned());
                            args.push(r.clone());
                        },
                        None => {},
                    }
                },
                None => {},
            }
        },
        None => {},
    }
    args.push("--marker-size".to_owned());
    args.push(decimal_string(settings.conflict_marker_size_or_default()));
    assert(strings_view(args@) =~= git_merge_file_args_spec(git, *settings));
    args
}

/// The name of a revision in conflict markers, from the command line: none for the placeholder
/// that old versions of git pass (such as `%S`), the given name, or else the path of the file
pub fn revision_name(arg: Option<String>, placeholder: &str, path: &str) -> (res: Option<String>)
    ensures
        match arg {
            Some(name) => if name@ == placeholder@ { res is None } else { res == Some(name) },
            None => res matches Some(p) && p@ == path@,
        },
{
    match arg {
        Some(name) => if str_eq(name.as_str(), placeholder) {
            None
        } else {
            Some(name)
        },
        None => Some(path.to_owned()),
    }
}

/// The time given to a merge before falling back on git, in milliseconds:
/// as asked for, or else 5 seconds for a fast merge and 10 seconds otherwise
pub fn merge_timeout_millis(timeout: Option<u64>, fast: bool) -> (res: u64)
    ensures
        res == match timeout {
            Some(t) => t,
            None => if fast { 5000u64 } else { 10000u64 },
        },
{
    match timeout {
        Some(t) => t,
        None => if fast { 5000 } else { 10000 },
    }
}

/// Does a line of the text start with the marker of Jujutsu-style conflicts, `%%%%%%% `?
pub open spec fn has_jj_marker_line(s: Seq<char>) -> bool {
    exists|i: int| 0 <= i && i + 8 <= s.len() && (i == 0 || s[i - 1] == '\n')
        && #[trigger] s.subrange(i, i + 8) == "%%%%%%% "@
}

/// Does a line of the text start with the marker of Jujutsu-style conflicts, `%%%%%%% `?
pub fn has_jj_conflict_marker(contents: &str) -> (res: bool)
    ensures
        res == has_jj_marker_line(contents@),
{
    let c = to_chars(contents);
    let mut i: usize = 0;
    while i < c.len()
        invariant
            0 <= i <= c@.len(),
            c@ == contents@,
            forall|j: int| 0 <= j < i && j + 8 <= c@.len() && (j == 0 || c@[j - 1] == '\n')
                ==> #[trigger] c@.subrange(j, j + 8) != "%%%%%%% "@,
        decreases c@.len() - i,
    {
        if (i == 0 || c[i - 1] == '\n') && c.len() - i >= 8 && range_is(&c, i, i + 8, "%%%%%%% ") {
            return true;
        }
        i = i + 1;
    }
    false
}

} // verus!
