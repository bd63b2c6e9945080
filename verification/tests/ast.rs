use mergiraf::ast::{AstNode, ParsedNode};
use mergiraf::lang_profile::LangProfile;

fn node(kind: &str, start: usize, end: usize, children: Vec<ParsedNode>) -> ParsedNode {
    ParsedNode {
        grammar_name: kind.to_string(),
        field_name: None,
        byte_range: start..end,
        start_point: (0, start),
        end_point: (0, end),
        is_error: false,
        query_commutative_parent: None,
        children,
    }
}

fn with_field(mut parsed: ParsedNode, field: &str) -> ParsedNode {
    parsed.field_name = Some(field.to_string());
    parsed
}

fn rust() -> LangProfile {
    LangProfile::find_by_name("Rust").unwrap()
}

/// `a + b` followed by a line break
fn sum_tree() -> ParsedNode {
    node(
        "source_file",
        0,
        6,
        vec![node(
            "binary_expression",
            0,
            6,
            vec![
                with_field(node("identifier", 0, 1, vec![]), "left"),
                with_field(node("+", 2, 3, vec![]), "operator"),
                with_field(node("identifier", 4, 5, vec![]), "right"),
            ],
        )],
    )
}

#[test]
fn builds_tree_with_trimmed_ranges() {
    let lang = rust();
    let tree = AstNode::parse("a + b\n", &sum_tree(), &lang).unwrap();
    assert_eq!(tree.byte_range, 0..6);
    assert_eq!(tree.source, "a + b\n");
    let expr = tree.child(0).unwrap();
    // the trailing line break is left out of the node
    assert_eq!(expr.byte_range, 0..5);
    assert_eq!(expr.source, "a + b");
    assert_eq!(expr.child(2).unwrap().source, "b");
    assert!(tree.child(1).is_none());
}

#[test]
fn dfs_and_postfix_traversals() {
    let lang = rust();
    let tree = AstNode::parse("a + b\n", &sum_tree(), &lang).unwrap();
    let dfs: Vec<&str> = tree.dfs().iter().map(|n| n.source.as_str()).collect();
    assert_eq!(dfs, vec!["a + b\n", "a + b", "a", "+", "b"]);
    let postfix: Vec<&str> = tree.postfix().iter().map(|n| n.source.as_str()).collect();
    assert_eq!(postfix, vec!["a", "+", "b", "a + b", "a + b\n"]);
}

#[test]
fn node_ids_are_allocated_children_first() {
    let lang = rust();
    let tree = AstNode::parse("a + b\n", &sum_tree(), &lang).unwrap();
    let ids: Vec<usize> = tree.postfix().iter().map(|n| n.id).collect();
    assert_eq!(ids, vec![1, 2, 3, 4, 5]);
}

#[test]
fn children_of_a_field_in_a_sum() {
    let lang = rust();
    let tree = AstNode::parse("a + b\n", &sum_tree(), &lang).unwrap();
    let expr = tree.child(0).unwrap();
    let right = expr.children_by_field_name("right").unwrap();
    assert_eq!(right.len(), 1);
    assert_eq!(right[0].source, "b");
    assert!(expr.children_by_field_name("condition").is_none());
}

#[test]
fn isomorphism_depends_on_content() {
    let lang = rust();
    let first = AstNode::parse("a + b\n", &sum_tree(), &lang).unwrap();
    let second = AstNode::parse("a + b\n", &sum_tree(), &lang).unwrap();
    let third = AstNode::parse("a + c\n", &sum_tree(), &lang).unwrap();
    assert!(first.isomorphic_to(&second));
    assert!(!first.isomorphic_to(&third));
    assert!(!first.child(0).unwrap().isomorphic_to(first.child(0).unwrap().child(0).unwrap()));
}

#[test]
fn multi_line_leaves_are_split_into_lines() {
    let lang = rust();
    let source = "/* a\n   b */";
    let parsed = node("source_file", 0, 12, vec![node("comment", 0, 12, vec![])]);
    let tree = AstNode::parse(source, &parsed, &lang).unwrap();
    let comment = tree.child(0).unwrap();
    assert_eq!(comment.children.len(), 2);
    assert_eq!(comment.children[0].grammar_name, "@virtual_line@");
    assert_eq!(comment.children[0].source, "/* a");
    assert_eq!(comment.children[0].byte_range, 0..4);
    assert_eq!(comment.children[1].source, "b */");
    assert_eq!(comment.children[1].byte_range, 8..12);
    assert_eq!(comment.size(), 3);
}

#[test]
fn atomic_nodes_are_leaves() {
    let lang = rust();
    let source = "/* x */";
    let parsed = node(
        "source_file",
        0,
        7,
        vec![node("block_comment", 0, 7, vec![node("doc_comment", 2, 5, vec![])])],
    );
    let tree = AstNode::parse(source, &parsed, &lang).unwrap();
    let comment = tree.child(0).unwrap();
    assert!(comment.is_leaf());
    assert_eq!(comment.source, "/* x */");
}

#[test]
fn empty_root_has_an_empty_range() {
    let lang = rust();
    let tree = AstNode::parse("\n\n", &node("source_file", 0, 2, vec![]), &lang).unwrap();
    assert_eq!(tree.byte_range, 0..0);
    assert_eq!(tree.source, "");
}

#[test]
fn flattening_pulls_in_grandchildren() {
    let lang = LangProfile::find_by_name("Typescript").unwrap();
    let source = "A | B | C";
    let parsed = node(
        "program",
        0,
        9,
        vec![node(
            "union_type",
            0,
            9,
            vec![
                node("union_type", 0, 5, vec![node("type_identifier", 0, 1, vec![]), node("|", 2, 3, vec![]), node("type_identifier", 4, 5, vec![])]),
                node("|", 6, 7, vec![]),
                node("type_identifier", 8, 9, vec![]),
            ],
        )],
    );
    let tree = AstNode::parse(source, &parsed, &lang).unwrap();
    let union = tree.child(0).unwrap();
    let children: Vec<&str> = union.children.iter().map(|c| c.source.as_str()).collect();
    assert_eq!(children, vec!["A", "|", "B", "|", "C"]);
    // the flattened node is not in the tree, but its id was allocated
    assert_eq!(union.size(), 6);
}

#[test]
fn commutative_parents_by_kind() {
    let lang = rust();
    let tree = AstNode::parse("a + b\n", &sum_tree(), &lang).unwrap();
    assert!(tree.commutative_parent.is_some());
    assert!(tree.child(0).unwrap().commutative_parent.is_none());
}

/// `x {\n    y;\n    z;\n}` with the statements as children of the block
fn block_tree() -> ParsedNode {
    node(
        "source_file",
        0,
        20,
        vec![node(
            "block",
            0,
            20,
            vec![
                node("{", 2, 3, vec![]),
                node("statement", 8, 10, vec![]),
                node("statement", 15, 17, vec![]),
                node("}", 18, 19, vec![]),
            ],
        )],
    )
}

#[test]
fn preceding_whitespace_and_indentation() {
    let lang = rust();
    let source = "x {\n    y;\n    z;\n}\n";
    let tree = AstNode::parse(source, &block_tree(), &lang).unwrap();
    let block = tree.child(0).unwrap();
    assert_eq!(block.preceding_whitespace(0), None);
    assert_eq!(block.preceding_whitespace(1), Some("\n    ".to_string()));
    assert_eq!(block.preceding_indentation(1), Some("    ".to_string()));
    assert_eq!(block.preceding_whitespace(3), Some("\n".to_string()));
    assert_eq!(block.preceding_indentation(3), Some("".to_string()));
    assert_eq!(block.leading_source(), Some("x ".to_string()));
    assert_eq!(block.source_with_surrounding_whitespace(1), "\n    y;\n    ");
    assert_eq!(block.trailing_whitespace(), None);
}

#[test]
fn trailing_whitespace_of_a_root() {
    let lang = rust();
    let parsed = node("source_file", 0, 4, vec![node("identifier", 0, 1, vec![])]);
    let tree = AstNode::parse("a  \n", &parsed, &lang).unwrap();
    assert_eq!(tree.trailing_whitespace(), Some("  \n".to_string()));
}

#[test]
fn indentation_suffix_with_mixed_tabs_and_spaces() {
    let extract = AstNode::extract_indentation_suffix_from_mixed_spaces_and_tabs;
    assert_eq!(extract("\t  ", "\t", 4), Some("  ".to_string()));
    assert_eq!(extract("        ", "\t", 4), Some("    ".to_string()));
    assert_eq!(extract("\t\t", "    ", 4), Some("\t".to_string()));
    assert_eq!(extract("  ", "\t", 4), None);
    assert_eq!(extract("\t", "\t", 8), None);
}

#[test]
fn node_ids_skip_flattened_nodes() {
    let lang = LangProfile::find_by_name("Typescript").unwrap();
    let parsed = node(
        "program",
        0,
        9,
        vec![node(
            "union_type",
            0,
            9,
            vec![
                node("union_type", 0, 5, vec![node("type_identifier", 0, 1, vec![]), node("|", 2, 3, vec![]), node("type_identifier", 4, 5, vec![])]),
                node("|", 6, 7, vec![]),
                node("type_identifier", 8, 9, vec![]),
            ],
        )],
    );
    let tree = AstNode::parse("A | B | C", &parsed, &lang).unwrap();
    let ids: Vec<usize> = tree.postfix().iter().map(|n| n.id).collect();
    // the identifier of the flattened node (4) is not in the tree
    assert_eq!(ids, vec![1, 2, 3, 5, 6, 7, 8]);
    assert_eq!(tree.dfs().len(), tree.size());
}

fn json() -> LangProfile {
    LangProfile::find_by_name("JSON").unwrap()
}

fn leaf(kind: &str, start: usize, end: usize) -> ParsedNode {
    node(kind, start, end, vec![])
}

/// What the JSON parser reports of `{"foo": 3}`
fn json_object() -> ParsedNode {
    node(
        "document",
        0,
        10,
        vec![node(
            "object",
            0,
            10,
            vec![
                leaf("{", 0, 1),
                node(
                    "pair",
                    1,
                    9,
                    vec![
                        with_field(node("string", 1, 6, vec![leaf("\"", 1, 2), leaf("string_content", 2, 5), leaf("\"", 5, 6)]), "key"),
                        leaf(":", 6, 7),
                        with_field(leaf("number", 8, 9), "value"),
                    ],
                ),
                leaf("}", 9, 10),
            ],
        )],
    )
}

#[test]
fn parse_error() {
    let lang = json();
    let mut error = leaf("ERROR", 3, 5);
    error.is_error = true;
    error.start_point = (1, 1);
    error.end_point = (1, 3);
    let parsed = node("document", 0, 7, vec![node("array", 0, 7, vec![leaf("[", 0, 1), error, leaf("]", 6, 7)])]);
    let parse = AstNode::parse("[\n {,\n]", &parsed, &lang);
    assert_eq!(parse.err(), Some("parse error at 1:1..1:3, starting with: {,".to_string()));

    let mut error = leaf("ERROR", 0, 13);
    error.is_error = true;
    error.start_point = (0, 0);
    error.end_point = (0, 39);
    let parse = AstNode::parse("属于个人的非赢利性开源项目", &node("document", 0, 13, vec![error]), &lang);
    assert_eq!(parse.err(), Some("parse error at 0:0..0:39, starting with: 属于个人的非赢利性开源".to_string()));
}

#[test]
fn heights() {
    let lang = json();
    let null = node("document", 0, 4, vec![leaf("null", 0, 4)]);
    assert_eq!(AstNode::parse("null", &null, &lang).unwrap().height(), 1);
    let array = node("document", 0, 3, vec![node("array", 0, 3, vec![leaf("[", 0, 1), leaf("number", 1, 2), leaf("]", 2, 3)])]);
    assert_eq!(AstNode::parse("[1]", &array, &lang).unwrap().height(), 2);
    assert_eq!(AstNode::parse("{\"foo\": 3}", &json_object(), &lang).unwrap().height(), 4);
}

#[test]
fn sizes() {
    let lang = json();
    let null = node("document", 0, 4, vec![leaf("null", 0, 4)]);
    assert_eq!(AstNode::parse("null", &null, &lang).unwrap().size(), 2);
    let array = node("document", 0, 3, vec![node("array", 0, 3, vec![leaf("[", 0, 1), leaf("number", 1, 2), leaf("]", 2, 3)])]);
    assert_eq!(AstNode::parse("[1]", &array, &lang).unwrap().size(), 5);
    assert_eq!(AstNode::parse("{\"foo\": 3}", &json_object(), &lang).unwrap().size(), 11);
}

#[test]
fn children_by_field_names() {
    let lang = json();
    let root = AstNode::parse("{\"foo\": 3}", &json_object(), &lang).unwrap();
    let object = root.child(0).unwrap();
    let pair = object.child(1).unwrap();
    assert!(root.children_by_field_name("non_existent").is_none());
    assert_eq!(pair.children_by_field_name("key").unwrap()[0].source, "\"foo\"");
}

#[test]
fn ast_dfs_traversal() {
    let lang = json();
    let tree = AstNode::parse("{\"foo\": 3}", &json_object(), &lang).unwrap();
    let node_types: Vec<&str> = tree.dfs().iter().map(|n| n.grammar_name.as_str()).collect();
    assert_eq!(
        node_types,
        vec!["document", "object", "{", "pair", "string", "\"", "string_content", "\"", ":", "number", "}"]
    );
}

#[test]
fn dfs_exact_size_iterator() {
    let lang = json();
    let tree = AstNode::parse("{\"foo\": 3}", &json_object(), &lang).unwrap();
    let mut nodes = tree.dfs().into_iter();
    for len in (0..=11).rev() {
        assert_eq!(nodes.len(), len);
        nodes.next();
    }
}

#[test]
fn ast_postfix_traversal() {
    let lang = json();
    let tree = AstNode::parse("{\"foo\": 3}", &json_object(), &lang).unwrap();
    let node_types: Vec<&str> = tree.postfix().iter().map(|n| n.grammar_name.as_str()).collect();
    assert_eq!(
        node_types,
        vec!["{", "\"", "string_content", "\"", "string", ":", "number", "pair", "}", "object", "document"]
    );
}

#[test]
fn ast_truncate() {
    let lang = json();
    let string = |start: usize, end: usize| {
        node("string", start, end, vec![leaf("\"", start, start + 1), leaf("string_content", start + 1, end - 1), leaf("\"", end - 1, end)])
    };
    let pair = |start: usize, key_end: usize, value: usize| {
        node("pair", start, value + 1, vec![with_field(string(start, key_end), "key"), leaf(":", key_end, key_end + 1), with_field(leaf("number", value, value + 1), "value")])
    };
    let parsed = node(
        "document",
        0,
        20,
        vec![node("object", 0, 20, vec![leaf("{", 0, 1), pair(1, 6, 8), leaf(",", 9, 10), pair(11, 16, 18), leaf("}", 19, 20)])],
    );
    let tree = AstNode::parse("{\"foo\": 3, \"bar\": 4}", &parsed, &lang).unwrap();
    let truncated = tree.truncate(&|node: &AstNode| node.grammar_name == "pair");
    let node_types: Vec<&str> = truncated.postfix().iter().map(|n| n.grammar_name.as_str()).collect();

    let truncated_object = truncated.child(0).unwrap();
    let original_object = tree.child(0).unwrap();
    let truncated_first_pair = truncated_object.child(1).unwrap();
    let original_first_pair = original_object.child(1).unwrap();

    assert_eq!(truncated_object.id, original_object.id);
    assert_eq!(truncated_first_pair.id, original_first_pair.id);
    assert_eq!(truncated.size(), tree.size());
    assert_eq!(node_types, vec!["{", "pair", ",", "pair", "}", "object", "document"]);
}

#[test]
fn ast_preceding_whitespace() {
    let lang = json();
    let parsed = node(
        "document",
        0,
        10,
        vec![node(
            "array",
            0,
            10,
            vec![leaf("[", 0, 1), leaf("number", 1, 2), leaf(",", 2, 3), leaf("number", 4, 5), leaf(",", 5, 6), leaf("number", 8, 9), leaf("]", 9, 10)],
        )],
    );
    let tree = AstNode::parse("[1, 2,\n 3]", &parsed, &lang).unwrap();
    let root = tree.child(0).unwrap();

    assert_eq!(tree.preceding_whitespace(0), None);
    assert_eq!(root.preceding_whitespace(0), None);
    assert_eq!(root.preceding_whitespace(1), Some("".to_string()));
    assert_eq!(root.preceding_whitespace(2), Some("".to_string()));
    assert_eq!(root.preceding_whitespace(3), Some(" ".to_string()));
    assert_eq!(root.preceding_whitespace(5), Some("\n ".to_string()));
}

#[test]
fn ast_source_with_whitespace() {
    let lang = json();
    let parsed = node(
        "document",
        0,
        13,
        vec![node(
            "array",
            1,
            13,
            vec![leaf("[", 1, 2), leaf("number", 3, 4), leaf(",", 5, 6), leaf("number", 7, 8), leaf(",", 8, 9), leaf("number", 11, 12), leaf("]", 12, 13)],
        )],
    );
    let tree = AstNode::parse(" [ 1 , 2,\n 3]", &parsed, &lang).unwrap();
    let root = tree.child(0).unwrap();

    assert_eq!(root.source_with_surrounding_whitespace(0), "[ ");
    assert_eq!(root.source_with_surrounding_whitespace(1), " 1 ");
    assert_eq!(root.source_with_surrounding_whitespace(2), " , ");
    assert_eq!(root.source_with_surrounding_whitespace(3), " 2");
    assert_eq!(root.source_with_surrounding_whitespace(4), ",\n ");
}

/// What the Rust parser reports of a `let` declaration with a string on three lines
fn let_with_string() -> (&'static str, ParsedNode) {
    let src = "let foo = \"line 1\nline 2\nline 3\";";
    let parsed = node(
        "source_file",
        0,
        33,
        vec![node(
            "let_declaration",
            0,
            33,
            vec![
                leaf("let", 0, 3),
                with_field(leaf("identifier", 4, 7), "pattern"),
                leaf("=", 8, 9),
                with_field(node("string_literal", 10, 32, vec![leaf("\"", 10, 11), leaf("string_content", 11, 31), leaf("\"", 31, 32)]), "value"),
                leaf(";", 32, 33),
            ],
        )],
    );
    (src, parsed)
}

#[test]
fn node_ids() {
    let lang = rust();
    let (src, parsed) = let_with_string();
    let root = AstNode::parse(src, &parsed, &lang).unwrap();
    assert_eq!(root.id, 13);

    let let_declaration = root.child(0).unwrap();
    assert_eq!(let_declaration.id, 12);

    let ids: Vec<usize> = let_declaration.children.iter().map(|c| c.id).collect();
    assert_eq!(ids, vec![1, 2, 3, 10, 11]);

    let str_literal = let_declaration.child(3).unwrap();
    let ids: Vec<usize> = str_literal.children.iter().map(|c| c.id).collect();
    assert_eq!(ids, vec![4, 8, 9]);

    let lines = str_literal.child(1).unwrap();
    let sources: Vec<&str> = lines.children.iter().map(|c| c.source.as_str()).collect();
    assert_eq!(sources, vec!["line 1", "line 2", "line 3"]);
    let ids: Vec<usize> = lines.children.iter().map(|c| c.id).collect();
    assert_eq!(ids, vec![5, 6, 7]);
}

#[test]
fn node_ids_all_unique() {
    let lang = rust();
    let (src, parsed) = let_with_string();
    let tree = AstNode::parse(src, &parsed, &lang).unwrap();
    let mut ids: Vec<usize> = tree.dfs().iter().map(|n| n.id).collect();
    let count = ids.len();
    ids.sort();
    ids.dedup();
    assert_eq!(ids.len(), count);
    // all the available ids (1..=len) are used, i.e. none are skipped
    assert_eq!(*ids.iter().max().unwrap(), count);
}

fn java() -> LangProfile {
    LangProfile::find_by_name("Java").unwrap()
}

fn class_declaration(start: usize, name: (usize, usize), body: ParsedNode) -> ParsedNode {
    let end = body.byte_range.end;
    node(
        "class_declaration",
        start,
        end,
        vec![leaf("class", start, start + 5), with_field(leaf("identifier", name.0, name.1), "name"), with_field(body, "body")],
    )
}

fn class_body(open: usize, members: Vec<ParsedNode>, close: usize) -> ParsedNode {
    let mut children = vec![leaf("{", open, open + 1)];
    children.extend(members);
    children.push(leaf("}", close, close + 1));
    node("class_body", open, close + 1, children)
}

/// `int attr;`
fn int_field(start: usize, name: usize, semicolon: usize) -> ParsedNode {
    node(
        "field_declaration",
        start,
        semicolon + 1,
        vec![
            with_field(node("integral_type", start, start + 3, vec![leaf("int", start, start + 3)]), "type"),
            with_field(node("variable_declarator", name, name + 4, vec![with_field(leaf("identifier", name, name + 4), "name")]), "declarator"),
            leaf(";", semicolon, semicolon + 1),
        ],
    )
}

#[test]
fn ast_preceding_indentation_shift() {
    let lang = java();
    let source = "\nclass MyCls {\n    int attr;\n}";
    let parsed = node("program", 0, 30, vec![class_declaration(1, (7, 12), class_body(13, vec![int_field(19, 23, 27)], 29))]);
    let tree = AstNode::parse(source, &parsed, &lang).unwrap();
    assert_eq!(tree.indentation_shift(&[0, 2, 1]), Some("    ".to_string()));
}

/// A class in a class, with the offsets of the inner class, its body and its field
fn nested_classes(len: usize, inner: usize, inner_name: usize, inner_open: usize, field: (usize, usize, usize), inner_close: usize, outer_close: usize) -> ParsedNode {
    let inner_class = class_declaration(inner, (inner_name, inner_name + 5), class_body(inner_open, vec![int_field(field.0, field.1, field.2)], inner_close));
    node("program", 0, len, vec![class_declaration(0, (6, 11), class_body(12, vec![inner_class], outer_close))])
}

#[test]
fn ast_preceding_indentation_shift_tabs() {
    let lang = java();
    let source = "class Outer {\n\tclass MyCls {\n\t\tint attr;\n\t}\n}\n";
    let parsed = nested_classes(46, 15, 21, 27, (31, 35, 39), 42, 44);
    let tree = AstNode::parse(source, &parsed, &lang).unwrap();
    assert_eq!(tree.indentation_shift(&[0, 2, 1, 2, 1]), Some("\t".to_string()));
}

#[test]
fn ast_preceding_indentation_shift_mixed_spaces_and_tabs() {
    let lang = java();
    let source = "class Outer {\n\tclass MyCls {\n        int attr;\n\t}\n}\n";
    let parsed = nested_classes(52, 15, 21, 27, (37, 41, 45), 48, 50);
    let tree = AstNode::parse(source, &parsed, &lang).unwrap();
    assert_eq!(tree.indentation_shift(&[0, 2, 1, 2, 1]), Some("    ".to_string()));
}

#[test]
fn ast_preceding_indentation_shift_mixed_tabs_and_spaces() {
    let lang = java();
    let source = "class Outer {\n    class MyCls {\n\t\tint attr;\n    }\n}\n";
    let parsed = nested_classes(52, 18, 24, 30, (34, 38, 42), 48, 50);
    let tree = AstNode::parse(source, &parsed, &lang).unwrap();
    assert_eq!(tree.indentation_shift(&[0, 2, 1, 2, 1]), Some("\t".to_string()));
}

fn json_string(start: usize, end: usize) -> ParsedNode {
    node("string", start, end, vec![leaf("\"", start, start + 1), leaf("string_content", start + 1, end - 1), leaf("\"", end - 1, end)])
}

fn json_pair(key: (usize, usize), value: ParsedNode) -> ParsedNode {
    let end = value.byte_range.end;
    node("pair", key.0, end, vec![with_field(json_string(key.0, key.1), "key"), leaf(":", key.1, key.1 + 1), with_field(value, "value")])
}

#[test]
fn ast_removing_indentation() {
    let lang = json();
    let source = r#"
{
    "a": [
        1,
        2,
    ],
    "b": {
        "c": "foo"
    }
}
"#;
    let array = node(
        "array",
        12,
        41,
        vec![leaf("[", 12, 13), leaf("number", 22, 23), leaf(",", 23, 24), leaf("number", 33, 34), leaf(",", 34, 35), leaf("]", 40, 41)],
    );
    let inner = node("object", 52, 78, vec![leaf("{", 52, 53), json_pair((62, 65), json_string(67, 72)), leaf("}", 77, 78)]);
    let object = node(
        "object",
        1,
        80,
        vec![leaf("{", 1, 2), json_pair((7, 10), array), leaf(",", 41, 42), json_pair((47, 50), inner), leaf("}", 79, 80)],
    );
    let tree = AstNode::parse(source, &node("document", 0, 81, vec![object]), &lang).unwrap();

    let entry_a = tree.node_at_prefix(&[0, 1], 2).unwrap();
    assert_eq!(entry_a.source, "\"a\": [\n        1,\n        2,\n    ]");
    assert_eq!(tree.indentation_shift(&[0, 1]), Some("    ".to_string()));
    assert_eq!(tree.ancestor_indentation(&[0, 1]), None);
    assert_eq!(tree.unindented_source(&[0, 1]), "\"a\": [\n    1,\n    2,\n]");
    assert_eq!(tree.reindented_source(&[0, 1], "  "), "\"a\": [\n      1,\n      2,\n  ]");

    let array = tree.node_at_prefix(&[0, 1, 2], 3).unwrap();
    assert_eq!(array.source, "[\n        1,\n        2,\n    ]");
    assert_eq!(tree.indentation_shift(&[0, 1, 2]), None);
    assert_eq!(tree.ancestor_indentation(&[0, 1, 2]), Some("    ".to_string()));
    assert_eq!(tree.unindented_source(&[0, 1, 2]), "[\n    1,\n    2,\n]");
    assert_eq!(tree.reindented_source(&[0, 1, 2], "  "), "[\n      1,\n      2,\n  ]");
}

#[test]
fn children_by_field_names_with_modifiers() {
    let lang = java();
    let parsed = node(
        "program",
        0,
        21,
        vec![node(
            "class_declaration",
            0,
            21,
            vec![
                node("modifiers", 0, 6, vec![leaf("public", 0, 6)]),
                leaf("class", 7, 12),
                with_field(leaf("identifier", 13, 18), "name"),
                with_field(node("class_body", 19, 21, vec![leaf("{", 19, 20), leaf("}", 20, 21)]), "body"),
            ],
        )],
    );
    let root = AstNode::parse("public class MyCls {}", &parsed, &lang).unwrap();
    let class_declaration = root.child(0).unwrap();
    let names = class_declaration.children_by_field_name("name").unwrap();
    assert_eq!(names.len(), 1);
    assert_eq!(names[0].id, class_declaration.child(2).unwrap().id);
    assert_eq!(names[0].source, "MyCls");
}

#[test]
fn atomic_nodes() {
    let lang = java();
    let parsed = node(
        "program",
        0,
        27,
        vec![node(
            "import_declaration",
            0,
            27,
            vec![
                leaf("import", 0, 6),
                node("scoped_identifier", 7, 26, vec![leaf("scoped_identifier", 7, 14), leaf(".", 14, 15), leaf("identifier", 15, 26)]),
                leaf(";", 26, 27),
            ],
        )],
    );
    let root = AstNode::parse("import java.io.InputStream;", &parsed, &lang).unwrap();
    let import_statement = root.child(0).unwrap();
    assert_eq!(import_statement.children.len(), 0);
    assert_eq!(import_statement.source, "import java.io.InputStream;");
}

/// `fn x()`, optionally followed by `-> i32` at the given offset, and a body
fn function_item(len: usize, return_type: Option<usize>, body: ParsedNode) -> ParsedNode {
    let mut children = vec![
        leaf("fn", 0, 2),
        with_field(leaf("identifier", 3, 4), "name"),
        with_field(node("parameters", 4, 6, vec![leaf("(", 4, 5), leaf(")", 5, 6)]), "parameters"),
    ];
    if let Some(at) = return_type {
        children.push(leaf("->", at, at + 2));
        children.push(with_field(leaf("primitive_type", at + 3, at + 6), "return_type"));
    }
    let end = body.byte_range.end;
    children.push(with_field(body, "body"));
    node("source_file", 0, len, vec![node("function_item", 0, end, children)])
}

/// A block holding a subtraction of two digits
fn subtraction_block(open: usize, left: usize, op: usize, right: usize, close: usize) -> ParsedNode {
    node(
        "block",
        open,
        close + 1,
        vec![
            leaf("{", open, open + 1),
            node(
                "binary_expression",
                left,
                right + 1,
                vec![
                    with_field(leaf("integer_literal", left, left + 1), "left"),
                    with_field(leaf("-", op, op + 1), "operator"),
                    with_field(leaf("integer_literal", right, right + 1), "right"),
                ],
            ),
            leaf("}", close, close + 1),
        ],
    )
}

/// A block holding a string literal spanning `start..end`
fn string_block(start: usize, end: usize, close: usize) -> ParsedNode {
    node(
        "block",
        7,
        close + 1,
        vec![
            leaf("{", 7, 8),
            node(
                "string_literal",
                start,
                end,
                vec![leaf("\"", start, start + 1), leaf("string_content", start + 1, end - 1), leaf("\"", end - 1, end)],
            ),
            leaf("}", close, close + 1),
        ],
    )
}

#[test]
fn ast_hashing_does_not_depend_on_whitespace_but_on_content() {
    let lang = rust();
    let tree_1 = AstNode::parse("fn x() -> i32 { 7 - 1 }", &function_item(23, Some(7), subtraction_block(14, 16, 18, 20, 22)), &lang).unwrap();
    let tree_2 = AstNode::parse("fn x() -> i32 {\n 7-1 }", &function_item(22, Some(7), subtraction_block(14, 17, 18, 19, 21)), &lang).unwrap();
    let tree_3 = AstNode::parse("fn x() -> i32 {\n 9-2 }", &function_item(22, Some(7), subtraction_block(14, 17, 18, 19, 21)), &lang).unwrap();

    assert_eq!(tree_1.hash, tree_2.hash); // whitespace and indentation differences are insignificant
    assert_ne!(tree_2.hash, tree_3.hash);

    let tree_4 = AstNode::parse("fn x() { \"some string\" }", &function_item(24, None, string_block(9, 22, 23)), &lang).unwrap();
    let tree_5 = AstNode::parse("fn x() { \" some string\" }", &function_item(25, None, string_block(9, 23, 24)), &lang).unwrap();
    let tree_6 = AstNode::parse("fn x() {   \"some string\" }", &function_item(26, None, string_block(11, 24, 25)), &lang).unwrap();
    assert_ne!(tree_4.hash, tree_5.hash); // whitespace inside of a string is significant
    assert_eq!(tree_4.hash, tree_6.hash);
}

#[test]
fn ast_isomorphism_is_not_just_hashing() {
    let lang = rust();
    let node_1 = AstNode::parse("fn x() -> i32 { 7 - 1 }", &function_item(23, Some(7), subtraction_block(14, 16, 18, 20, 22)), &lang).unwrap();
    let node_2 = AstNode::parse("fn x() -> i32 { 8 - 1 }", &function_item(23, Some(7), subtraction_block(14, 16, 18, 20, 22)), &lang).unwrap();
    let hash = node_1.hash;
    let fake_hash_collision = AstNode { hash, ..node_2 };

    assert_eq!(node_1.hash, fake_hash_collision.hash);
    assert!(!node_1.isomorphic_to(&fake_hash_collision));
}

#[test]
fn isomorphism_of_empty_roots() {
    let lang = rust();
    let tree_1 = AstNode::parse("    ", &node("source_file", 0, 4, vec![]), &lang).unwrap();
    let tree_2 = AstNode::parse("  ", &node("source_file", 0, 2, vec![]), &lang).unwrap();
    assert!(tree_1.isomorphic_to(&tree_2));
    assert!(tree_2.isomorphic_to(&tree_1));
}

/// An empty argument list spanning `start..start + 2`
fn empty_arguments(start: usize) -> ParsedNode {
    with_field(node("argument_list", start, start + 2, vec![leaf("(", start, start + 1), leaf(")", start + 1, start + 2)]), "arguments")
}

#[test]
fn isomorphism_for_different_languages() {
    let python = LangProfile::find_by_name("Python").unwrap();
    let java = java();
    let python_tree = node(
        "module",
        0,
        5,
        vec![node(
            "expression_statement",
            0,
            5,
            vec![node("call", 0, 5, vec![with_field(leaf("identifier", 0, 3), "function"), empty_arguments(3)])],
        )],
    );
    let java_tree = node(
        "program",
        0,
        6,
        vec![node(
            "expression_statement",
            0,
            6,
            vec![node("method_invocation", 0, 5, vec![with_field(leaf("identifier", 0, 3), "name"), empty_arguments(3)]), leaf(";", 5, 6)],
        )],
    );
    let tree_python = AstNode::parse("foo()", &python_tree, &python).unwrap();
    let tree_java = AstNode::parse("foo();", &java_tree, &java).unwrap();
    let arguments_python = tree_python.child(0).unwrap().child(0).unwrap().child(1).unwrap();
    let arguments_java = tree_java.child(0).unwrap().child(0).unwrap().child(1).unwrap();

    // those nodes would satisfy all other conditions to be isomorphic…
    assert_eq!(arguments_python.grammar_name, "argument_list");
    assert_eq!(arguments_java.grammar_name, "argument_list");
    assert_eq!(arguments_python.children.len(), 2);
    assert_eq!(arguments_java.children.len(), 2);
    assert_eq!(arguments_python.source, "()");
    assert_eq!(arguments_java.source, "()");

    // but they aren't, because the languages differ
    assert!(!arguments_java.isomorphic_to(arguments_python));
}

#[test]
fn leading_source() {
    let lang = rust();
    let parsed = node(
        "source_file",
        0,
        13,
        vec![node(
            "let_declaration",
            2,
            12,
            vec![
                leaf("let", 2, 5),
                with_field(leaf("identifier", 6, 7), "pattern"),
                leaf("=", 8, 9),
                with_field(leaf("integer_literal", 10, 11), "value"),
                leaf(";", 11, 12),
            ],
        )],
    );
    let tree = AstNode::parse("\n let x = 1;\n", &parsed, &lang).unwrap();
    assert_eq!(tree.byte_range.start, 0);
    assert_eq!(tree.leading_source(), Some("\n ".to_string()));
}

#[test]
fn ast_preceding_whitespace_go() {
    let lang = LangProfile::find_by_name("Go").unwrap();
    let import_spec = |start: usize, end: usize| node("import_spec", start, end, vec![with_field(leaf("interpreted_string_literal", start, end), "path")]);
    let parsed = node(
        "source_file",
        0,
        32,
        vec![node(
            "import_declaration",
            0,
            31,
            vec![
                leaf("import", 0, 6),
                node("import_spec_list", 7, 31, vec![leaf("(", 7, 8), import_spec(13, 18), import_spec(23, 29), leaf(")", 30, 31)]),
            ],
        )],
    );
    let tree = AstNode::parse("import (\n    \"fmt\"\n    \"core\"\n)\n", &parsed, &lang).unwrap();
    let root = tree.child(0).unwrap();
    let import_list = root.child(1).unwrap();
    let core = import_list.child(2).unwrap();
    assert_eq!(core.source, "\"core\"");
    assert_eq!(import_list.preceding_whitespace(2), Some("\n    ".to_string()));
    assert_eq!(tree.ancestor_indentation(&[0, 1, 2]), None);
}

#[test]
fn ast_trailing_whitespace_toml() {
    let lang = LangProfile::find_by_name("TOML").unwrap();
    let table = |start: usize, end: usize| {
        node(
            "table",
            start,
            end,
            vec![
                leaf("[", start, start + 1),
                leaf("bare_key", start + 1, start + 4),
                leaf("]", start + 4, start + 5),
                node(
                    "pair",
                    start + 6,
                    start + 11,
                    vec![leaf("bare_key", start + 6, start + 7), leaf("=", start + 8, start + 9), leaf("integer", start + 10, start + 11)],
                ),
            ],
        )
    };
    let parsed = node("document", 0, 24, vec![table(0, 13), table(13, 24)]);
    let tree = AstNode::parse("[foo]\na = 1\n\n[bar]\nb = 2", &parsed, &lang).unwrap();
    let first_table = tree.child(0).unwrap();
    let second_table = tree.child(1).unwrap();
    assert_eq!(first_table.source, "[foo]\na = 1");
    assert_eq!(first_table.trailing_whitespace(), None);
    assert_eq!(second_table.source, "[bar]\nb = 2");
    assert_eq!(second_table.trailing_whitespace(), None);
}

/// A YAML key, colon and flow value
fn yaml_pair(start: usize, key_len: usize, value: ParsedNode) -> ParsedNode {
    let colon = start + key_len;
    let end = value.byte_range.end;
    node(
        "block_mapping_pair",
        start,
        end,
        vec![
            with_field(node("flow_node", start, colon, vec![leaf("plain_scalar", start, colon)]), "key"),
            leaf(":", colon, colon + 1),
            with_field(value, "value"),
        ],
    )
}

#[test]
fn ast_reindent_yaml() {
    let lang = LangProfile::find_by_name("YAML").unwrap();
    let scalar = |at: usize| node("flow_node", at, at + 1, vec![leaf("plain_scalar", at, at + 1)]);
    let inner = node("block_node", 9, 16, vec![node("block_mapping", 9, 16, vec![yaml_pair(9, 3, scalar(14))])]);
    let parsed = node(
        "stream",
        0,
        23,
        vec![node(
            "document",
            0,
            23,
            vec![node("block_node", 0, 23, vec![node("block_mapping", 0, 23, vec![yaml_pair(0, 5, inner), yaml_pair(16, 3, scalar(21))])])],
        )],
    );
    let tree = AstNode::parse("hello:\n  foo: 2\nbar: 4\n", &parsed, &lang).unwrap();
    let block_node = tree.child(0).unwrap().child(0).unwrap();
    assert_eq!(block_node.grammar_name, "block_node");
    let value = block_node.child(0).unwrap().child(0).unwrap().child(2).unwrap();
    assert_eq!(value.grammar_name, "block_node");

    assert_eq!(tree.indentation_shift(&[0, 0]), None);
    assert_eq!(tree.indentation_shift(&[0, 0, 0, 0, 2]), Some("  ".to_string()));
}

#[test]
fn ast_multiline_comments_are_isomorphic() {
    let lang = java();
    let source_1 = "/**\n * This is a comment\n * spanning on many lines\n*/";
    let tree_1 = AstNode::parse(source_1, &node("program", 0, 53, vec![leaf("block_comment", 0, 53)]), &lang).unwrap();
    let comment_1 = tree_1.child(0).unwrap();
    let source_2 = "  /**\n   * This is a comment\n   * spanning on many lines\n  */";
    let tree_2 = AstNode::parse(source_2, &node("program", 0, 61, vec![leaf("block_comment", 2, 61)]), &lang).unwrap();
    let comment_2 = tree_2.child(0).unwrap();

    assert!(comment_1.isomorphic_to(comment_2));
    assert_eq!(comment_1.children.len(), 4);
    assert_eq!(comment_2.child(0).unwrap().source, "/**");
    assert_eq!(comment_2.child(1).unwrap().source, "* This is a comment");
    assert_eq!(comment_2.child(2).unwrap().source, "* spanning on many lines");
    assert_eq!(comment_2.child(3).unwrap().source, "*/");
    assert_eq!(comment_2.child(0).unwrap().byte_range, 2..5);
    assert_eq!(comment_2.child(1).unwrap().byte_range, 9..28);
    assert_eq!(comment_2.child(2).unwrap().byte_range, 32..56);
    assert_eq!(comment_2.child(3).unwrap().byte_range, 59..61);
    assert_eq!(comment_2.preceding_whitespace(1), Some("\n   ".to_string()));
}

#[test]
fn parse_empty_child_out_of_trimmed_parent() {
    let lang = LangProfile::find_by_name("Markdown").unwrap();
    // The parser gives an empty "block_continuation" node as a child of the "paragraph"
    // node, after the trailing newline in it. Because we trim the newline at the end of
    // the paragraph node, the child would fall outside of the trimmed range, so the range
    // of the paragraph is kept long enough to include it.
    let source = "A list:\n- Hello\n\n";
    let paragraph = node("paragraph", 10, 16, vec![leaf("paragraph_repeat1", 10, 15), leaf("block_continuation", 16, 16)]);
    let list_item = node("list_item", 8, 17, vec![leaf("list_marker_minus", 8, 10), paragraph]);
    let parsed = node(
        "document",
        0,
        17,
        vec![node(
            "section",
            0,
            17,
            vec![node("paragraph", 0, 8, vec![leaf("inline", 0, 7)]), node("list", 8, 17, vec![list_item])],
        )],
    );
    let markdown = AstNode::parse(source, &parsed, &lang).unwrap();

    let paragraph = markdown.child(0).unwrap().child(1).unwrap().child(0).unwrap().child(1).unwrap();
    assert_eq!(paragraph.grammar_name, "paragraph");
    assert_eq!(paragraph.children.len(), 2);
    assert_eq!(paragraph.child(0).unwrap().grammar_name, "paragraph_repeat1");
    assert_eq!(paragraph.child(1).unwrap().grammar_name, "block_continuation");
    assert_eq!(paragraph.preceding_whitespace(1), Some("\n".to_string()));
}

fn typescript() -> LangProfile {
    LangProfile::find_by_name("Typescript").unwrap()
}

/// A literal type spanning `start..end`
fn literal_type(start: usize, end: usize) -> ParsedNode {
    node("literal_type", start, end, vec![leaf("string", start, end)])
}

/// A binary type operation
fn type_operation(kind: &str, left: ParsedNode, op: (&str, usize), right: ParsedNode) -> ParsedNode {
    let start = left.byte_range.start;
    let end = right.byte_range.end;
    node(kind, start, end, vec![left, leaf(op.0, op.1, op.1 + 1), right])
}

/// An interface with one property of the given type
fn interface(len: usize, name: (usize, usize), open: usize, property: (usize, usize), ty: ParsedNode, separator: &str, close: usize) -> ParsedNode {
    let type_end = ty.byte_range.end;
    node(
        "program",
        0,
        len,
        vec![node(
            "interface_declaration",
            0,
            len,
            vec![
                leaf("interface", 0, 9),
                with_field(leaf("type_identifier", name.0, name.1), "name"),
                with_field(
                    node(
                        "interface_body",
                        open,
                        close + 1,
                        vec![
                            leaf("{", open, open + 1),
                            node(
                                "property_signature",
                                property.0,
                                type_end,
                                vec![
                                    with_field(leaf("property_identifier", property.0, property.1), "name"),
                                    with_field(node("type_annotation", property.1, type_end, vec![leaf(":", property.1, property.1 + 1), ty]), "type"),
                                ],
                            ),
                            leaf(separator, type_end, type_end + 1),
                            leaf("}", close, close + 1),
                        ],
                    ),
                    "body",
                ),
            ],
        )],
    )
}

#[test]
fn flatten_binary_operators() {
    let lang = typescript();
    let source = "interface MyInterface {\n  level: 'debug' | 'info' | 'warn' | 'error';\n}";
    let first = type_operation("union_type", literal_type(33, 40), ("|", 41), literal_type(43, 49));
    let second = type_operation("union_type", first, ("|", 50), literal_type(52, 58));
    let third = type_operation("union_type", second, ("|", 59), literal_type(61, 68));
    let parsed = interface(71, (10, 21), 22, (26, 31), third, ";", 70);
    let ts = AstNode::parse(source, &parsed, &lang).unwrap();
    let union_type = ts.child(0).unwrap().child(2).unwrap().child(1).unwrap().child(1).unwrap().child(1).unwrap();
    assert_eq!(union_type.grammar_name, "union_type");
    assert_eq!(union_type.children.len(), 7);
    assert_eq!(union_type.child(0).unwrap().grammar_name, "literal_type");
    assert_eq!(union_type.child(1).unwrap().grammar_name, "|");
    assert_eq!(union_type.child(2).unwrap().grammar_name, "literal_type");
    assert_eq!(union_type.child(3).unwrap().grammar_name, "|");
}

#[test]
fn dont_flatten_different_operators_together() {
    let lang = typescript();
    let source = "interface Foo {\n  field: 'first' | 'second' & 'third',\n}";
    let intersection = type_operation("intersection_type", literal_type(35, 43), ("&", 44), literal_type(46, 53));
    let union = type_operation("union_type", literal_type(25, 32), ("|", 33), intersection);
    let parsed = interface(56, (10, 13), 14, (18, 23), union, ",", 55);
    let ts = AstNode::parse(source, &parsed, &lang).unwrap();
    let union_type = ts.child(0).unwrap().child(2).unwrap().child(1).unwrap().child(1).unwrap().child(1).unwrap();
    assert_eq!(union_type.grammar_name, "union_type");
    assert_eq!(union_type.children.len(), 3);
    assert_eq!(union_type.child(0).unwrap().grammar_name, "literal_type");
    assert_eq!(union_type.child(1).unwrap().grammar_name, "|");
    assert_eq!(union_type.child(2).unwrap().grammar_name, "intersection_type");
}

#[test]
fn commutative_parent_via_query() {
    let lang = LangProfile::find_by_name("Python").unwrap();
    // __all__ = [ 'foo', 'bar' ]
    // other = [ 1, 2 ]
    let source = "__all__ = [ 'foo', 'bar' ]\nother = [ 1, 2 ]\n";
    let list = |start: usize, items: Vec<ParsedNode>, end: usize| {
        let mut children = vec![leaf("[", start, start + 1)];
        children.extend(items);
        children.push(leaf("]", end - 1, end));
        node("list", start, end, children)
    };
    let assignment = |start: usize, name_end: usize, value: ParsedNode| {
        let end = value.byte_range.end;
        node(
            "expression_statement",
            start,
            end,
            vec![node(
                "assignment",
                start,
                end,
                vec![with_field(leaf("identifier", start, name_end), "left"), leaf("=", name_end + 1, name_end + 2), with_field(value, "right")],
            )],
        )
    };
    let mut first_list = list(10, vec![leaf("string", 12, 17), leaf(",", 17, 18), leaf("string", 19, 24)], 26);
    // the query of the language captured this list as a commutative parent
    first_list.query_commutative_parent = Some(0);
    let second_list = list(35, vec![leaf("integer", 37, 38), leaf(",", 38, 39), leaf("integer", 40, 41)], 43);
    let parsed = node("module", 0, 44, vec![assignment(0, 7, first_list), assignment(27, 32, second_list)]);
    let python = AstNode::parse(source, &parsed, &lang).unwrap();

    let first_list = python.child(0).unwrap().child(0).unwrap().child(2).unwrap();
    let second_list = python.child(1).unwrap().child(0).unwrap().child(2).unwrap();
    assert_eq!(first_list.grammar_name, "list");
    assert_eq!(second_list.grammar_name, "list");

    // the __all__ assignment is captured by the query defining the commutative parent
    assert!(first_list.commutative_parent_definition().is_some());
    // the other list isn't captured, so it's not associated to any commutative parent
    assert!(second_list.commutative_parent_definition().is_none());
}
