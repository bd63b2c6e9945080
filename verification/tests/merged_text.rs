use mergiraf::merged_text::{MergeSection, MergedText};
use mergiraf::settings::DisplaySettings;

fn merged(contents: &str) -> MergeSection {
    MergeSection::Merged(contents.to_string())
}

fn conflict(base: &str, left: &str, right: &str) -> MergeSection {
    MergeSection::Conflict {
        base: base.to_string(),
        left: left.to_string(),
        right: right.to_string(),
    }
}

#[test]
fn compact_mode() {
    let merged_text = MergedText {
        sections: vec![
            merged("hello"),
            merged(" world\nhi "),
            conflict("ho base", "ho left", "ho right"),
            merged("  test\n"),
        ],
    };

    let expected_compact = "\
hello world
hi
<<<<<<< LEFT
 ho left
||||||| BASE
 ho base
=======
 ho right
>>>>>>> RIGHT
  test
";
    assert_eq!(
        merged_text.render(&DisplaySettings::default_compact()),
        expected_compact
    );

    let expected_full_line = "\
hello world
<<<<<<< LEFT
hi ho left  test
||||||| BASE
hi ho base  test
=======
hi ho right  test
>>>>>>> RIGHT
";
    assert_eq!(
        merged_text.render(&DisplaySettings::default()),
        expected_full_line
    );
}

#[test]
fn multiple_conflicts_on_same_line() {
    let merged_text = MergedText {
        sections: vec![
            merged("let's start "),
            conflict("ho", "hi", "ha"),
            merged(" to "),
            conflict("you", "everyone", "me"),
            merged("!"),
        ],
    };
    let expected_full_line = "\
<<<<<<< LEFT
let's start hi to everyone!
||||||| BASE
let's start ho to you!
=======
let's start ha to me!
>>>>>>> RIGHT
";
    assert_eq!(
        merged_text.render(&DisplaySettings::default()),
        expected_full_line
    );
}

#[test]
fn spurious_conflict() {
    let mut merged_text = MergedText::new();
    merged_text.push_merged("let's start ".to_string());
    merged_text.push_conflict("tomorrow".to_string(), "now".to_string(), "now".to_string());
    merged_text.push_merged(", as it seems we all agree".to_string());
    let expected_full_line = "let's start now, as it seems we all agree";

    assert_eq!(
        merged_text.render(&DisplaySettings::default()),
        expected_full_line
    );
}

#[test]
fn space_after_conflict_base_empty() {
    // the space shouldn't be pulled into the conflict
    let merged_text = MergedText {
        sections: vec![conflict("", "here", "there"), merged(" "), merged("we go")],
    };

    let expected = "\
<<<<<<< LEFT
here we go
||||||| BASE
we go
=======
there we go
>>>>>>> RIGHT
";

    assert_eq!(merged_text.render(&DisplaySettings::default()), expected);
}

#[test]
fn space_after_conflict_base_empty_next_incorrect() {
    // whitespace normally comes separately from the actual elements,
    // so the result here is as expected for such an input
    let merged_text = MergedText {
        sections: vec![conflict("", "here", "there"), merged(" we go")],
    };

    let expected_wrong = "\
<<<<<<< LEFT
here we go
||||||| BASE
 we go
=======
there we go
>>>>>>> RIGHT
";

    assert_eq!(
        merged_text.render(&DisplaySettings::default()),
        expected_wrong
    );
}

#[test]
fn space_after_conflict_base_empty_all_indented() {
    // the sides may be indented
    let merged_text = MergedText {
        sections: vec![
            merged("    "),
            conflict("", "here", "there"),
            merged(" "),
            merged("we go"),
        ],
    };

    let expected = "\
<<<<<<< LEFT
    here we go
||||||| BASE
    we go
=======
    there we go
>>>>>>> RIGHT
";

    assert_eq!(merged_text.render(&DisplaySettings::default()), expected);
}

#[test]
fn space_after_conflict_left_empty() {
    // left or right revision may be empty as well
    let merged_text = MergedText {
        sections: vec![conflict("here", "", "there"), merged(" "), merged("we go")],
    };

    let expected = "\
<<<<<<< LEFT
we go
||||||| BASE
here we go
=======
there we go
>>>>>>> RIGHT
";

    assert_eq!(merged_text.render(&DisplaySettings::default()), expected);
}

#[test]
fn space_after_conflict_left_empty_all_indented() {
    // left or right revision may be empty as well
    let merged_text = MergedText {
        sections: vec![
            merged("    "),
            conflict("here", "", "there"),
            merged(" "),
            merged("we go"),
        ],
    };

    let expected = "\
<<<<<<< LEFT
    we go
||||||| BASE
    here we go
=======
    there we go
>>>>>>> RIGHT
";

    assert_eq!(merged_text.render(&DisplaySettings::default()), expected);
}

#[test]
fn all_merged_sections_are_concatenated() {
    let merged_text = MergedText {
        sections: vec![merged("a\n"), merged("b"), merged("")],
    };
    assert_eq!(merged_text.render(&DisplaySettings::default()), "a\nb");
    assert_eq!(merged_text.render(&DisplaySettings::default_compact()), "a\nb");
}

#[test]
fn conflict_at_the_end_is_closed() {
    let merged_text = MergedText {
        sections: vec![merged("x\n"), conflict("b", "l", "r")],
    };
    assert_eq!(
        merged_text.render(&DisplaySettings::default()),
        "x\n<<<<<<< LEFT\nl\n||||||| BASE\nb\n=======\nr\n>>>>>>> RIGHT\n"
    );
}

#[test]
fn reindent_line_based_merge_cases() {
    assert_eq!(MergedText::reindent_line_based_merge("a\nb\n\nc", "  ", false, false), "a\n  b\n\n  c");
    assert_eq!(MergedText::reindent_line_based_merge("a\nb\n", "  ", true, true), "  a\n  b\n  ");
    assert_eq!(MergedText::reindent_line_based_merge("a\nb\n", "  ", true, false), "  a\n  b\n");
    assert_eq!(MergedText::reindent_line_based_merge("", "  ", true, true), "");
}

#[test]
fn push_line_based_merge_reindents() {
    let mut merged_text = MergedText::new();
    merged_text.push_merged("fn f() {\n".to_string());
    merged_text.push_line_based_merge(
        "a();\n<<<<<<< LEFT\nb();\n||||||| BASE\n=======\nc();\n>>>>>>> RIGHT\nd();\n",
        "    ",
        &DisplaySettings::default(),
    );
    assert_eq!(
        merged_text.sections,
        vec![
            merged("fn f() {\n"),
            merged("a();\n    "),
            conflict("", "b();\n", "c();\n"),
            merged("    d();\n    "),
        ]
    );
}
