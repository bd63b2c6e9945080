use mergiraf::ast::{AstNode, ParsedNode};
use mergiraf::changeset::ChangeSet;
use mergiraf::class_mapping::ClassMapping;
use mergiraf::lang_profile::LangProfile;
use mergiraf::pcs::{PCSNode, Revision};

fn node(kind: &str, start: usize, end: usize, children: Vec<ParsedNode>) -> ParsedNode {
    ParsedNode {
        grammar_name: kind.to_string(),
        field_name: None,
        byte_range: start..end,
        start_point: (0, start),
        end_point: (0, end),
        is_error: false,
        query_commutative_parent: None,
        children,
    }
}

fn leaf(kind: &str, start: usize, end: usize) -> ParsedNode {
    node(kind, start, end, vec![])
}

/// What the JSON parser reports of `[1, [2, 3]]`
fn nested_arrays() -> ParsedNode {
    node(
        "document",
        0,
        11,
        vec![node(
            "array",
            0,
            11,
            vec![
                leaf("[", 0, 1),
                leaf("number", 1, 2),
                leaf(",", 2, 3),
                node("array", 4, 10, vec![leaf("[", 4, 5), leaf("number", 5, 6), leaf(",", 6, 7), leaf("number", 8, 9), leaf("]", 9, 10)]),
                leaf("]", 10, 11),
            ],
        )],
    )
}

fn describe(node: &PCSNode, tree: &AstNode) -> String {
    match node {
        PCSNode::VirtualRoot => "⊥".to_string(),
        PCSNode::LeftMarker => "⊣".to_string(),
        PCSNode::RightMarker => "⊢".to_string(),
        PCSNode::Node { node: leader, .. } => {
            let n = tree.dfs().into_iter().find(|n| n.id == leader.0.node).unwrap();
            format!("{}:{}…{}@{:?}", n.grammar_name, n.byte_range.start, n.byte_range.end, leader.0.rev)
        }
    }
}

#[test]
fn test_from_tree() {
    let lang = LangProfile::find_by_name("JSON").unwrap();
    let tree = AstNode::parse("[1, [2, 3]]", &nested_arrays(), &lang).unwrap();

    let classmapping = ClassMapping::new();
    let mut changeset = ChangeSet::new();
    changeset.add_tree(&tree, Revision::Base, &classmapping);

    let mut as_strings: Vec<String> = changeset
        .iter()
        .iter()
        .map(|pcs| format!("({}, {}, {})", describe(&pcs.parent, &tree), describe(&pcs.predecessor, &tree), describe(&pcs.successor, &tree)))
        .collect();
    as_strings.sort();

    let mut expected = vec![
        "(⊥, ⊣, document:0…11@Base)",
        "(⊥, document:0…11@Base, ⊢)",
        "(document:0…11@Base, ⊣, array:0…11@Base)",
        "(document:0…11@Base, array:0…11@Base, ⊢)",
        "(array:0…11@Base, ⊣, [:0…1@Base)",
        "(array:0…11@Base, [:0…1@Base, number:1…2@Base)",
        "(array:0…11@Base, number:1…2@Base, ,:2…3@Base)",
        "(array:0…11@Base, ,:2…3@Base, array:4…10@Base)",
        "(array:0…11@Base, array:4…10@Base, ]:10…11@Base)",
        "(array:0…11@Base, ]:10…11@Base, ⊢)",
        "([:0…1@Base, ⊣, ⊢)",
        "(number:1…2@Base, ⊣, ⊢)",
        "(,:2…3@Base, ⊣, ⊢)",
        "(array:4…10@Base, ⊣, [:4…5@Base)",
        "(array:4…10@Base, [:4…5@Base, number:5…6@Base)",
        "(array:4…10@Base, number:5…6@Base, ,:6…7@Base)",
        "(array:4…10@Base, ,:6…7@Base, number:8…9@Base)",
        "(array:4…10@Base, number:8…9@Base, ]:9…10@Base)",
        "(array:4…10@Base, ]:9…10@Base, ⊢)",
        "([:4…5@Base, ⊣, ⊢)",
        "(number:5…6@Base, ⊣, ⊢)",
        "(,:6…7@Base, ⊣, ⊢)",
        "(number:8…9@Base, ⊣, ⊢)",
        "(]:9…10@Base, ⊣, ⊢)",
        "(]:10…11@Base, ⊣, ⊢)",
    ];
    expected.sort();

    assert_eq!(as_strings, expected);
    assert_eq!(changeset.len(), 25);
}

#[test]
fn test_single_tree_has_no_conflicts() {
    let lang = LangProfile::find_by_name("JSON").unwrap();
    let tree = AstNode::parse("[1, [2, 3]]", &nested_arrays(), &lang).unwrap();

    let classmapping = ClassMapping::new();
    let mut changeset = ChangeSet::new();
    changeset.add_tree(&tree, Revision::Base, &classmapping);

    for pcs in changeset.iter() {
        assert!(changeset.other_successors(pcs).is_empty());
    }
}

#[test]
fn adding_a_triple_twice_keeps_one() {
    let lang = LangProfile::find_by_name("JSON").unwrap();
    let tree = AstNode::parse("[1, [2, 3]]", &nested_arrays(), &lang).unwrap();
    let classmapping = ClassMapping::new();
    let mut changeset = ChangeSet::new();
    changeset.add_tree(&tree, Revision::Base, &classmapping);
    changeset.add_tree(&tree, Revision::Base, &classmapping);
    assert_eq!(changeset.len(), 25);
    let first = changeset.iter()[0];
    changeset.add(first);
    assert_eq!(changeset.len(), 25);
}
