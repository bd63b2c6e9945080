use std::ops::Range;

use mergiraf::parsed_merge::{MergedChunk, ParsedMerge, PARSED_MERGE_DIFF2_DETECTED};
use mergiraf::pcs::Revision;
use mergiraf::settings::DisplaySettings;

fn s(x: &str) -> Option<String> {
    Some(x.to_string())
}

fn resolved(offset: usize, contents: &str) -> MergedChunk {
    MergedChunk::Resolved { offset, contents: contents.to_string() }
}

fn settings_with_size(size: usize) -> DisplaySettings {
    DisplaySettings { conflict_marker_size: Some(size), ..Default::default() }
}

#[test]
fn parse() {
    let source = "\nwe reached a junction.\n<<<<<<< left\nlet's go to the left!\n||||||| base\nwhere should we go?\n=======\nturn right please!\n>>>>>>>\nrest of file\n";
    let parsed = ParsedMerge::parse(source, &Default::default()).expect("unexpected parse error");

    let expected_parse = ParsedMerge::new(vec![
        resolved(0, "\nwe reached a junction.\n"),
        MergedChunk::Conflict {
            left: s("let's go to the left!\n"),
            base: s("where should we go?\n"),
            right: s("turn right please!\n"),
            left_name: s("left"),
            base_name: s("base"),
            right_name: None,
        },
        resolved(127, "rest of file\n"),
    ]);

    assert_eq!(parsed, expected_parse);
    assert_eq!(
        parsed.reconstruct_revision(Revision::Base),
        "\nwe reached a junction.\nwhere should we go?\nrest of file\n"
    );
    assert_eq!(
        parsed.reconstruct_revision(Revision::Left),
        "\nwe reached a junction.\nlet's go to the left!\nrest of file\n"
    );
    assert_eq!(
        parsed.reconstruct_revision(Revision::Right),
        "\nwe reached a junction.\nturn right please!\nrest of file\n"
    );

    for rev in [Revision::Base, Revision::Left, Revision::Right] {
        assert_eq!(
            parsed.rev_range_to_merged_range(&Range { start: 1, end: 11 }, rev),
            Some(Range { start: 1, end: 11 })
        );
        assert_eq!(parsed.rev_range_to_merged_range(&Range { start: 11, end: 41 }, rev), None);
        assert_eq!(parsed.rev_range_to_merged_range(&Range { start: 25, end: 28 }, rev), None);
    }
    assert_eq!(
        parsed.rev_range_to_merged_range(&Range { start: 45, end: 49 }, Revision::Base),
        Some(Range { start: 128, end: 132 })
    );
    assert_eq!(
        parsed.rev_range_to_merged_range(&Range { start: 47, end: 49 }, Revision::Left),
        Some(Range { start: 128, end: 130 })
    );
    assert_eq!(
        parsed.rev_range_to_merged_range(&Range { start: 45, end: 48 }, Revision::Right),
        Some(Range { start: 129, end: 132 })
    );
    assert_eq!(parsed.rev_range_to_merged_range(&Range { start: 180, end: 183 }, Revision::Base), None);
    assert_eq!(parsed.rev_range_to_merged_range(&Range { start: 190, end: 193 }, Revision::Left), None);
    assert_eq!(parsed.rev_range_to_merged_range(&Range { start: 200, end: 203 }, Revision::Right), None);
}

#[test]
fn parse_start_with_conflict() {
    let source = "<<<<<<< left\nlet's go to the left!\n||||||| base\nwhere should we go?\n=======\nturn right please!\n>>>>>>>\nrest of file\n";
    let parsed = ParsedMerge::parse(source, &Default::default()).expect("unexpected parse error");

    let expected_parse = ParsedMerge::new(vec![
        MergedChunk::Conflict {
            left: s("let's go to the left!\n"),
            base: s("where should we go?\n"),
            right: s("turn right please!\n"),
            left_name: s("left"),
            base_name: s("base"),
            right_name: None,
        },
        resolved(103, "rest of file\n"),
    ]);

    assert_eq!(parsed, expected_parse);
    assert_eq!(parsed.reconstruct_revision(Revision::Base), "where should we go?\nrest of file\n");
    assert_eq!(parsed.reconstruct_revision(Revision::Left), "let's go to the left!\nrest of file\n");
    assert_eq!(parsed.reconstruct_revision(Revision::Right), "turn right please!\nrest of file\n");
}

#[test]
fn parse_end_with_conflict() {
    let source = "\nwe reached a junction.\n<<<<<<< left\nlet's go to the left!\n||||||| base\nwhere should we go?\n=======\nturn right please!\n>>>>>>>\n";
    let parsed = ParsedMerge::parse(source, &Default::default()).expect("unexpected parse error");

    let expected_parse = ParsedMerge::new(vec![
        resolved(0, "\nwe reached a junction.\n"),
        MergedChunk::Conflict {
            left: s("let's go to the left!\n"),
            base: s("where should we go?\n"),
            right: s("turn right please!\n"),
            left_name: s("left"),
            base_name: s("base"),
            right_name: None,
        },
    ]);

    assert_eq!(parsed, expected_parse);
    assert_eq!(parsed.reconstruct_revision(Revision::Base), "\nwe reached a junction.\nwhere should we go?\n");
    assert_eq!(parsed.reconstruct_revision(Revision::Left), "\nwe reached a junction.\nlet's go to the left!\n");
    assert_eq!(parsed.reconstruct_revision(Revision::Right), "\nwe reached a junction.\nturn right please!\n");
}

#[test]
fn parse_diffy_imara() {
    let source = "my_struct_t instance = {\n<<<<<<< LEFT\n    .foo = 3,\n    .bar = 2,\n||||||| BASE\n    .foo = 3,\n=======\n>>>>>>> RIGHT\n};\n";

    let parsed = ParsedMerge::parse(source, &Default::default()).expect("could not parse!");

    let expected_parse = ParsedMerge::new(vec![
        resolved(0, "my_struct_t instance = {\n"),
        MergedChunk::Conflict {
            left: s("    .foo = 3,\n    .bar = 2,\n"),
            base: s("    .foo = 3,\n"),
            right: None,
            left_name: s("LEFT"),
            base_name: s("BASE"),
            right_name: s("RIGHT"),
        },
        resolved(115, "};\n"),
    ]);

    assert_eq!(parsed, expected_parse);
    assert_eq!(parsed.conflict_count(), 1);
    assert_eq!(parsed.conflict_mass(), 42);

    let rendered = parsed.render(&DisplaySettings::default());
    assert_eq!(rendered, source);
}

#[test]
fn parse_diff2() {
    let source = "my_struct_t instance = {\n<<<<<<< LEFT\n    .foo = 3,\n    .bar = 2,\n=======\n>>>>>>> RIGHT\n};\n";

    let parse_err = ParsedMerge::parse(source, &Default::default())
        .expect_err("expected a parse failure for diff2 conflicts");

    assert_eq!(parse_err, PARSED_MERGE_DIFF2_DETECTED);
}

#[test]
fn parse_non_standard_conflict_marker_size() {
    let parsed_expected = ParsedMerge::new(vec![
        resolved(0, "resolved line\n"),
        MergedChunk::Conflict {
            left: s("left line\n"),
            base: s("base line\n"),
            right: s("right line\n"),
            left_name: s("LEFT"),
            base_name: s("BASE"),
            right_name: s("RIGHT"),
        },
    ]);

    let conflict_with_4 = "resolved line\n<<<< LEFT\nleft line\n|||| BASE\nbase line\n====\nright line\n>>>> RIGHT\n";
    let parsed_with_4 = ParsedMerge::parse(conflict_with_4, &settings_with_size(4))
        .expect("could not parse a conflict with `conflict_marker_size=4`");
    assert_eq!(parsed_with_4, parsed_expected);

    let conflict_with_9 = "resolved line\n<<<<<<<<< LEFT\nleft line\n||||||||| BASE\nbase line\n=========\nright line\n>>>>>>>>> RIGHT\n";
    let parsed_with_9 = ParsedMerge::parse(conflict_with_9, &settings_with_size(9))
        .expect("could not parse a conflict with `conflict_marker_size=9`");
    assert_eq!(parsed_with_9, parsed_expected);
}

#[test]
fn parse_left_marker_not_at_line_start() {
    let source = "my_struct_t instance = {\n <<<<<<< LIAR LEFT\n    .foo = 3,\n    .bar = 2,\n||||||| BASE\n    .foo = 3,\n=======\n>>>>>>> RIGHT\n};\n";
    let parsed = ParsedMerge::parse(source, &Default::default())
        .expect("should just not see this conflict at all");

    let expected_parse = ParsedMerge::new(vec![resolved(0, source)]);

    assert_eq!(parsed, expected_parse);
}

#[test]
fn parse_base_marker_not_at_line_start() {
    let source = "my_struct_t instance = {\n<<<<<<< LEFT\n    .foo = 3,\n    .bar = 2,\n ||||||| LIAR BASE\n    .foo = 3,\n=======\n>>>>>>> RIGHT\n};\n";
    let parse_err = ParsedMerge::parse(source, &Default::default())
        .expect_err("because of the missing base marker, this should like a diff2-style conflict");

    assert_eq!(parse_err, PARSED_MERGE_DIFF2_DETECTED);
}

#[test]
fn parse_middle_marker_not_at_line_start() {
    let source = "my_struct_t instance = {\n<<<<<<< LEFT\n    .foo = 3,\n    .bar = 2,\n||||||| BASE\n    .foo = 3,\n =======\n>>>>>>> RIGHT\n};\n";
    let parsed = ParsedMerge::parse(source, &Default::default())
        .expect("should ignore the malformed conflict");

    let expected = ParsedMerge::new(vec![resolved(0, source)]);

    assert_eq!(parsed, expected);
}

#[test]
fn parse_right_marker_not_at_line_start() {
    let source = "my_struct_t instance = {\n<<<<<<< LEFT\n    .foo = 3,\n    .bar = 2,\n||||||| BASE\n    .foo = 3,\n=======\n >>>>>>> LIAR RIGHT\n};\n";
    let parsed = ParsedMerge::parse(source, &Default::default())
        .expect("should ignore the malformed conflict");

    let expected = ParsedMerge::new(vec![resolved(0, source)]);

    assert_eq!(parsed, expected);
}

#[test]
fn parse_diff3_then_diff3_is_lazy() {
    let source = "<<<<<<< LEFT\n// a comment\n||||||| BASE\n=======\n// hi\n>>>>>>> RIGHT\n<<<<<<< LEFT\nuse bytes;\n||||||| BASE\nuse io;\n=======\nuse os;\n>>>>>>> RIGHT\n";

    let parsed = ParsedMerge::parse(source, &Default::default()).expect("could not parse!");

    let unwanted_non_lazy = ParsedMerge::new(vec![MergedChunk::Conflict {
        left_name: s("LEFT"),
        left: s("// a comment\n"),
        base_name: s("BASE"),
        base: s("=======\n// hi\n>>>>>>> RIGHT\n<<<<<<< LEFT\nuse bytes;\n||||||| BASE\nuse io;\n"),
        right: s("use os;\n"),
        right_name: s("RIGHT"),
    }]);

    assert_ne!(
        parsed, unwanted_non_lazy,
        "the regex is greedy -- it should've stopped after the first 'RIGHT'!"
    );

    let expected = ParsedMerge::new(vec![
        MergedChunk::Conflict {
            left_name: s("LEFT"),
            left: s("// a comment\n"),
            base_name: s("BASE"),
            base: None,
            right: s("// hi\n"),
            right_name: s("RIGHT"),
        },
        MergedChunk::Conflict {
            left_name: s("LEFT"),
            left: s("use bytes;\n"),
            base_name: s("BASE"),
            base: s("use io;\n"),
            right: s("use os;\n"),
            right_name: s("RIGHT"),
        },
    ]);

    assert_eq!(parsed, expected);
}

#[test]
fn parse_diff3_then_diff3_wo_newline() {
    let source = "<<<<<<< LEFT\n// a comment\n||||||| BASE\n=======\n// hi\n>>>>>>> RIGHT\n<<<<<<< LEFT\nuse bytes;\n||||||| BASE\nuse io;\n=======\nuse os;\n>>>>>>> RIGHT";
    let parsed = ParsedMerge::parse(source, &Default::default()).expect("could not parse!");

    let expected = ParsedMerge::new(vec![
        MergedChunk::Conflict {
            left_name: s("LEFT"),
            left: s("// a comment\n"),
            base_name: s("BASE"),
            base: None,
            right: s("// hi\n"),
            right_name: s("RIGHT"),
        },
        MergedChunk::Conflict {
            left_name: s("LEFT"),
            left: s("use bytes;"),
            base_name: s("BASE"),
            base: s("use io;"),
            right: s("use os;"),
            right_name: s("RIGHT"),
        },
    ]);

    assert_eq!(parsed, expected);
}

#[test]
fn parse_diff3_is_with_final_newline_when_possible() {
    let source = "<<<<<<< left\nlet's go to the left!\n||||||| base\nwhere should we go?\n=======\nturn right please!\n>>>>>>>\n";

    let parsed = ParsedMerge::parse(source, &Default::default()).expect("could not parse!");

    let unwanted_wo_final_newline = ParsedMerge::new(vec![
        MergedChunk::Conflict {
            left_name: s("left"),
            left: s("let's go to the left!"),
            base_name: s("base"),
            base: s("where should we go?"),
            right: s("turn right please!"),
            right_name: None,
        },
        resolved(102, "\n"),
    ]);

    assert_ne!(parsed, unwanted_wo_final_newline);
}

#[test]
fn render_non_standard_conflict_marker_size() {
    let merge = ParsedMerge::new(vec![
        resolved(0, "resolved line\n"),
        MergedChunk::Conflict {
            left_name: None,
            left: s("left line\n"),
            base: s("base line\n"),
            right: s("right line\n"),
            right_name: None,
            base_name: None,
        },
    ]);

    let rendered_with_4 = merge.render(&settings_with_size(4));
    let expected_with_4 = "resolved line\n<<<< LEFT\nleft line\n|||| BASE\nbase line\n====\nright line\n>>>> RIGHT\n";
    assert_eq!(rendered_with_4, expected_with_4);

    let rendered_with_9 = merge.render(&settings_with_size(9));
    let expected_with_9 = "resolved line\n<<<<<<<<< LEFT\nleft line\n||||||||| BASE\nbase line\n=========\nright line\n>>>>>>>>> RIGHT\n";
    assert_eq!(rendered_with_9, expected_with_9);
}

#[test]
fn render_no_final_newline() {
    let base_wo = "base";
    let base_w = "base\n";
    let left_wo = "left";
    let left_w = "left\n";
    let right_wo = "right";
    let right_w = "right\n";

    fn chunk(base: &str, left: &str, right: &str) -> String {
        ParsedMerge::new(vec![MergedChunk::Conflict {
            left: Some(left.to_string()),
            base: Some(base.to_string()),
            right: Some(right.to_string()),
            left_name: None,
            base_name: None,
            right_name: None,
        }])
        .render(&Default::default())
    }

    let expected_wo_wo_wo = "<<<<<<< LEFT\nleft\n||||||| BASE\nbase\n=======\nright\n>>>>>>> RIGHT";
    assert_eq!(chunk(base_wo, left_wo, right_wo), expected_wo_wo_wo);

    let expected_wo_w_wo = "<<<<<<< LEFT\nleft\n\n||||||| BASE\nbase\n=======\nright\n>>>>>>> RIGHT";
    assert_eq!(chunk(base_wo, left_w, right_wo), expected_wo_w_wo);

    let expected_wo_w_w = "<<<<<<< LEFT\nleft\n\n||||||| BASE\nbase\n=======\nright\n\n>>>>>>> RIGHT";
    assert_eq!(chunk(base_wo, left_w, right_w), expected_wo_w_w);

    let expected_w_wo_wo = "<<<<<<< LEFT\nleft\n||||||| BASE\nbase\n\n=======\nright\n>>>>>>> RIGHT";
    assert_eq!(chunk(base_w, left_wo, right_wo), expected_w_wo_wo);

    let expected_w_w_wo = "<<<<<<< LEFT\nleft\n\n||||||| BASE\nbase\n\n=======\nright\n>>>>>>> RIGHT";
    assert_eq!(chunk(base_w, left_w, right_wo), expected_w_w_wo);
}

#[test]
fn add_revision_names_to_settings() {
    let source = "<<<<<<< my_left\nlet's go to the left!\n||||||| my_base\nwhere should we go?\n=======\nturn right please!\n>>>>>>> my_right\nrest of file\n";
    let parsed = ParsedMerge::parse(source, &Default::default()).expect("unexpected parse error");

    let initial_settings = DisplaySettings::default();

    let mut enriched_settings = initial_settings.clone();
    enriched_settings.add_revision_names(&parsed);

    assert_eq!(
        enriched_settings,
        DisplaySettings {
            left_revision_name: s("my_left"),
            base_revision_name: s("my_base"),
            right_revision_name: s("my_right"),
            ..initial_settings
        }
    );
}

#[test]
fn add_revision_names_to_settings_no_names() {
    let source = "<<<<<<<\nlet's go to the left!\n|||||||\nwhere should we go?\n=======\nturn right please!\n>>>>>>>\nrest of file\n";
    let parsed = ParsedMerge::parse(source, &Default::default()).expect("unexpected parse error");

    let initial_settings = DisplaySettings::default();

    let mut enriched_settings = initial_settings.clone();
    enriched_settings.add_revision_names(&parsed);

    assert_eq!(enriched_settings, initial_settings);
}

#[test]
fn add_revision_names_to_settings_no_conflict() {
    let source = "start of file\nrest of file\n";
    let parsed = ParsedMerge::parse(source, &Default::default()).expect("unexpected parse error");

    let initial_settings = DisplaySettings::default();

    let mut enriched_settings = initial_settings.clone();
    enriched_settings.add_revision_names(&parsed);

    assert_eq!(enriched_settings, initial_settings);
}

#[test]
fn crlf_conflict_keeps_carriage_returns_in_sides() {
    let source = "a\r\n<<<<<<< L\r\nx\r\n||||||| B\r\ny\r\n=======\r\nz\r\n>>>>>>> R\r\nb\r\n";
    let parsed = ParsedMerge::parse(source, &Default::default()).unwrap();
    assert_eq!(parsed.conflict_count(), 1);
    assert_eq!(parsed.reconstruct_revision(Revision::Left), "a\r\nx\r\nb\r\n");
    assert_eq!(parsed.conflict_mass(), 9);
}

#[test]
fn conflict_without_any_side() {
    let source = "<<<<<<<\n|||||||\n=======\n>>>>>>>\n";
    let parsed = ParsedMerge::parse(source, &Default::default()).unwrap();
    assert_eq!(parsed.conflict_count(), 1);
    assert!(!parsed.all_conflicts_have_sides());
}

#[test]
fn empty_file_has_no_chunks() {
    let parsed = ParsedMerge::parse("", &Default::default()).unwrap();
    assert!(parsed.chunks.is_empty());
    assert_eq!(parsed.conflict_mass(), 0);
}

#[test]
fn offsets_count_bytes() {
    let source = "é\n<<<<<<< left\nà\n||||||| base\nb\n=======\nr\n>>>>>>> right\nsuite\n";
    let parsed = ParsedMerge::parse(source, &Default::default()).expect("unexpected parse error");
    let chunks = &parsed.chunks;
    assert_eq!(chunks[0], resolved(0, "é\n"));
    let last = chunks.last().unwrap();
    match last {
        MergedChunk::Resolved { offset, contents } => {
            assert_eq!(&source[*offset..*offset + contents.len()], contents.as_str());
            assert_eq!(*offset, source.len() - "suite\n".len());
        },
        _ => panic!("the file should end with a merged chunk"),
    }
    // the conflicting content counts the bytes of the sides
    assert_eq!(parsed.conflict_mass(), "à\n".len() + "b\n".len() + "r\n".len());
    // the left revision is "é\nà\nsuite\n": "suite\n" starts at byte 6 of it
    assert_eq!(
        parsed.rev_range_to_merged_range(&Range { start: 6, end: 12 }, Revision::Left),
        Some(Range { start: source.len() - 6, end: source.len() })
    );
}

#[test]
fn byte_ranges_after_non_ascii_text() {
    let source = "é\nx\n";
    let parsed = ParsedMerge::parse(source, &Default::default()).expect("unexpected parse error");
    assert_eq!(parsed.rev_range_to_merged_range(&Range { start: 3, end: 5 }, Revision::Base), Some(Range { start: 3, end: 5 }));
    assert_eq!(parsed.rev_range_to_merged_range(&Range { start: 3, end: 6 }, Revision::Base), None);
}

#[test]
fn rendering_default_markers_gives_back_the_text() {
    let source = "début\n<<<<<<< LEFT\ngauche\n||||||| BASE\nbase\n=======\ndroite\n>>>>>>> RIGHT\nfin\n<<<<<<< LEFT\n||||||| BASE\nb\n=======\n>>>>>>> RIGHT\n";
    let settings = DisplaySettings::default();
    let parsed = ParsedMerge::parse(source, &settings).expect("unexpected parse error");
    assert_eq!(parsed.render(&settings), source);
}

#[test]
fn rendering_gives_back_text_with_other_marker_like_lines() {
    let source = "Titre\n==========\n<<<<<<<<< pas un conflit\n<<<<<<< LEFT\ngauche\n||||||| BASE\nbase\n=======\ndroite\n>>>>>>> RIGHT\n>>>>>>>>\n";
    let settings = DisplaySettings::default();
    let parsed = ParsedMerge::parse(source, &settings).expect("unexpected parse error");
    assert_eq!(parsed.conflict_count(), 1);
    assert_eq!(parsed.render(&settings), source);
}

#[test]
fn new_gives_offset_maps_in_order() {
    let parsed = ParsedMerge::new(vec![
        resolved(0, "ab"),
        MergedChunk::Conflict {
            left: s("x\n"),
            base: None,
            right: s("yz\n"),
            left_name: None,
            base_name: None,
            right_name: None,
        },
        resolved(30, "cd"),
    ]);
    assert_eq!(parsed.rev_range_to_merged_range(&(0..2), Revision::Left), Some(0..2));
    assert_eq!(parsed.rev_range_to_merged_range(&(4..6), Revision::Left), Some(30..32));
    assert_eq!(parsed.rev_range_to_merged_range(&(5..7), Revision::Right), Some(30..32));
    assert_eq!(parsed.rev_range_to_merged_range(&(2..4), Revision::Left), None);
}
