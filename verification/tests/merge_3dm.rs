use mergiraf::ast::{AstNode, ParsedNode};
use mergiraf::class_mapping::{Leader, RevNode};
use mergiraf::lang_profile::LangProfile;
use mergiraf::matching::Matching;
use mergiraf::merge_3dm::{create_class_mapping, fix_pcs_inconsistencies, generate_pcs_triples, DetailedMatching};
use mergiraf::pcs::{PCSNode, Revision};

fn node(kind: &str, start: usize, end: usize, children: Vec<ParsedNode>) -> ParsedNode {
    ParsedNode {
        grammar_name: kind.to_string(),
        field_name: None,
        byte_range: start..end,
        start_point: (0, start),
        end_point: (0, end),
        is_error: false,
        query_commutative_parent: None,
        children,
    }
}

/// What the JSON parser reports of `[x]` for a digit x: the nodes get the identifiers
/// `[` 1, the number 2, `]` 3, the array 4 and the document 5
fn singleton_array() -> ParsedNode {
    node(
        "document",
        0,
        3,
        vec![node("array", 0, 3, vec![node("[", 0, 1, vec![]), node("number", 1, 2, vec![]), node("]", 2, 3, vec![])])],
    )
}

fn matching(pairs: &[(usize, usize)]) -> Matching {
    let mut m = Matching::new();
    for (l, r) in pairs {
        m.add(*l, *r);
    }
    m
}

fn is_node(n: &PCSNode, rev: Revision, id: usize) -> bool {
    matches!(n, PCSNode::Node { node: Leader(RevNode { rev: r, node }), .. } if *r == rev && *node == id)
}

#[test]
fn base_triples_contradicted_by_a_change_are_removed() {
    let lang = LangProfile::find_by_name("JSON").unwrap();
    let base = AstNode::parse("[1]", &singleton_array(), &lang).unwrap();
    let left = AstNode::parse("[2]", &singleton_array(), &lang).unwrap();
    let right = AstNode::parse("[1]", &singleton_array(), &lang).unwrap();

    let base_left = DetailedMatching { exact: matching(&[(1, 1), (3, 3)]), full: matching(&[(5, 5), (4, 4), (1, 1), (3, 3)]) };
    let base_right = DetailedMatching {
        exact: matching(&[(5, 5), (4, 4), (1, 1), (2, 2), (3, 3)]),
        full: matching(&[(5, 5), (4, 4), (1, 1), (2, 2), (3, 3)]),
    };
    let left_right = DetailedMatching { exact: matching(&[(1, 1), (3, 3)]), full: matching(&[(5, 5), (4, 4), (1, 1), (3, 3)]) };
    let class_mapping = create_class_mapping(&base_left, &base_right, &left_right);

    // the changed number of the left revision is a class of its own
    assert_eq!(class_mapping.map_to_leader(RevNode::new(Revision::Left, 2)), Leader(RevNode::new(Revision::Left, 2)));
    assert_eq!(class_mapping.map_to_leader(RevNode::new(Revision::Right, 2)), Leader(RevNode::new(Revision::Base, 2)));
    assert_eq!(class_mapping.map_to_leader(RevNode::new(Revision::Left, 4)), Leader(RevNode::new(Revision::Base, 4)));

    let (changeset, base_changeset) = generate_pcs_triples(&base, &left, &right, &class_mapping);
    assert!(base_changeset.len() < changeset.len());
    let array_then_base_number = |pcs: &mergiraf::pcs::PCS| {
        is_node(&pcs.parent, Revision::Base, 4) && is_node(&pcs.successor, Revision::Base, 2)
    };
    let array_then_left_number = |pcs: &mergiraf::pcs::PCS| {
        is_node(&pcs.parent, Revision::Base, 4) && is_node(&pcs.successor, Revision::Left, 2)
    };
    assert!(changeset.iter().iter().any(array_then_base_number));
    assert!(changeset.iter().iter().any(array_then_left_number));

    let cleaned = fix_pcs_inconsistencies(&changeset);
    assert!(!cleaned.iter().iter().any(array_then_base_number));
    assert!(cleaned.iter().iter().any(array_then_left_number));
    assert!(cleaned.len() < changeset.len());
}
