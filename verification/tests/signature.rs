use mergiraf::ast::{AstNode, ParsedNode};
use mergiraf::lang_profile::LangProfile;
use mergiraf::signature::{signature, PathStep, Signature};

fn node(kind: &str, start: usize, end: usize, children: Vec<ParsedNode>) -> ParsedNode {
    ParsedNode {
        grammar_name: kind.to_string(),
        field_name: None,
        byte_range: start..end,
        start_point: (0, start),
        end_point: (0, end),
        is_error: false,
        query_commutative_parent: None,
        children,
    }
}

fn leaf(kind: &str, start: usize, end: usize) -> ParsedNode {
    node(kind, start, end, vec![])
}

fn with_field(mut parsed: ParsedNode, field: &str) -> ParsedNode {
    parsed.field_name = Some(field.to_string());
    parsed
}

fn json() -> LangProfile {
    LangProfile::find_by_name("JSON").unwrap()
}

/// A JSON string spanning `start..end`, quotes included
fn string(start: usize, end: usize) -> ParsedNode {
    node(
        "string",
        start,
        end,
        vec![leaf("\"", start, start + 1), leaf("string_content", start + 1, end - 1), leaf("\"", end - 1, end)],
    )
}

/// A JSON pair at `start`, with a one-character key and a value of the given kind and length
fn pair(start: usize, value_kind: &str, value_len: usize) -> ParsedNode {
    let value = if value_kind == "string" {
        string(start + 4, start + 4 + value_len)
    } else {
        leaf(value_kind, start + 4, start + 4 + value_len)
    };
    node(
        "pair",
        start,
        start + 4 + value_len,
        vec![with_field(string(start, start + 3), "key"), leaf(":", start + 3, start + 4), with_field(value, "value")],
    )
}

/// What the JSON parser reports of `{"a":"b"}` (or any other one-letter value)
fn single_pair_object() -> ParsedNode {
    node("document", 0, 9, vec![node("object", 0, 9, vec![leaf("{", 0, 1), pair(1, "string", 3), leaf("}", 8, 9)])])
}

#[test]
fn equal_signatures() {
    let lang = json();
    let document = AstNode::parse("{\"a\":\"b\"}", &single_pair_object(), &lang).unwrap();
    let other_document = AstNode::parse("{\"a\":\"c\"}", &single_pair_object(), &lang).unwrap();
    let object = document.child(0).unwrap();
    let pair = object.child(1).unwrap();
    let other_pair = other_document.child(0).unwrap().child(1).unwrap();
    let key = pair.child(0).unwrap();

    let signature_def = {
        let paths = vec![vec![PathStep::Field("key")]];
        signature("pair", paths)
    };

    let expected_sig = Signature(vec![vec![key]]);
    assert!(signature_def.extract_signature_from_original_node(pair).same_as(&expected_sig));
    assert!(signature_def.extract_signature_from_original_node(other_pair).same_as(&expected_sig));
}

#[test]
fn different_keys_give_different_signatures() {
    let lang = json();
    let document = AstNode::parse("{\"a\":\"b\"}", &single_pair_object(), &lang).unwrap();
    let other_document = AstNode::parse("{\"x\":\"b\"}", &single_pair_object(), &lang).unwrap();
    let pair = document.child(0).unwrap().child(1).unwrap();
    let other_pair = other_document.child(0).unwrap().child(1).unwrap();
    let first = pair.signature().unwrap();
    let second = other_pair.signature().unwrap();
    assert!(!first.same_as(&second));
    assert_eq!(first.0.len(), 1);
    assert_eq!(first.0[0].len(), 1);
    assert_eq!(first.0[0][0].source, "\"a\"");
}

#[test]
fn signature_only_for_defined_kinds() {
    let lang = json();
    let document = AstNode::parse("{\"a\":\"b\"}", &single_pair_object(), &lang).unwrap();
    let object = document.child(0).unwrap();
    assert!(object.signature().is_none());
    assert!(object.signature_definition().is_none());
    assert_eq!(object.child(1).unwrap().signature_definition().unwrap().node_type, "pair");
}

#[test]
fn has_signature_conflicts() {
    let lang = json();

    // [{"a":1, "b":2, "a":3}]
    let with_conflicts_tree = node(
        "document",
        0,
        23,
        vec![node(
            "array",
            0,
            23,
            vec![
                leaf("[", 0, 1),
                node(
                    "object",
                    1,
                    22,
                    vec![
                        leaf("{", 1, 2),
                        pair(2, "number", 1),
                        leaf(",", 7, 8),
                        pair(9, "number", 1),
                        leaf(",", 14, 15),
                        pair(16, "number", 1),
                        leaf("}", 21, 22),
                    ],
                ),
                leaf("]", 22, 23),
            ],
        )],
    );
    let with_conflicts = AstNode::parse("[{\"a\":1, \"b\":2, \"a\":3}]", &with_conflicts_tree, &lang).unwrap();

    // {"a": [4], "b": [4]}
    let array_at = |start: usize| {
        node("array", start, start + 3, vec![leaf("[", start, start + 1), leaf("number", start + 1, start + 2), leaf("]", start + 2, start + 3)])
    };
    let spaced_pair = |start: usize| {
        node(
            "pair",
            start,
            start + 8,
            vec![with_field(string(start, start + 3), "key"), leaf(":", start + 3, start + 4), with_field(array_at(start + 5), "value")],
        )
    };
    let without_conflicts_tree = node(
        "document",
        0,
        20,
        vec![node(
            "object",
            0,
            20,
            vec![leaf("{", 0, 1), spaced_pair(1), leaf(",", 9, 10), spaced_pair(11), leaf("}", 19, 20)],
        )],
    );
    let without_conflicts = AstNode::parse("{\"a\": [4], \"b\": [4]}", &without_conflicts_tree, &lang).unwrap();

    assert!(with_conflicts.has_signature_conflicts());
    assert!(!without_conflicts.has_signature_conflicts());
}
