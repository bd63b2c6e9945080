use mergiraf::ast::{AstNode, ParsedNode};
use mergiraf::lang_profile::LangProfile;
use mergiraf::matching::Matching;

fn node(kind: &str, start: usize, end: usize, children: Vec<ParsedNode>) -> ParsedNode {
    ParsedNode {
        grammar_name: kind.to_string(),
        field_name: None,
        byte_range: start..end,
        start_point: (0, start),
        end_point: (0, end),
        is_error: false,
        query_commutative_parent: None,
        children,
    }
}

fn leaf(kind: &str, start: usize, end: usize) -> ParsedNode {
    node(kind, start, end, vec![])
}

/// What the JSON parser reports of `[1, 2]`
fn pair_array() -> ParsedNode {
    node(
        "document",
        0,
        6,
        vec![node(
            "array",
            0,
            6,
            vec![leaf("[", 0, 1), leaf("number", 1, 2), leaf(",", 2, 3), leaf("number", 4, 5), leaf("]", 5, 6)],
        )],
    )
}

#[test]
fn parent_and_siblings() {
    let lang = LangProfile::find_by_name("JSON").unwrap();
    let root = AstNode::parse("[1, 2]", &pair_array(), &lang).unwrap();
    let comma = [0, 2];
    assert_eq!(root.parent(&comma).unwrap().grammar_name, "array");
    assert!(root.parent(&[]).is_none());
    assert_eq!(root.predecessor(&comma).unwrap().source, "1");
    assert_eq!(root.successor(&comma).unwrap().source, "2");
    assert!(root.predecessor(&[0, 0]).is_none());
    assert!(root.successor(&[0, 4]).is_none());
    assert!(root.successor(&[0]).is_none());
}

#[test]
fn ancestors_go_up_to_the_root() {
    let lang = LangProfile::find_by_name("JSON").unwrap();
    let root = AstNode::parse("[1, 2]", &pair_array(), &lang).unwrap();
    let kinds: Vec<String> = root.ancestors(&[0, 3]).iter().map(|n| n.grammar_name.clone()).collect();
    assert_eq!(kinds, vec!["number", "array", "document"]);
    assert_eq!(root.ancestors(&[]).len(), 1);
}

#[test]
fn submatches_follow_the_matched_subtrees() {
    let lang = LangProfile::find_by_name("JSON").unwrap();
    let left = AstNode::parse("[1, 2]", &pair_array(), &lang).unwrap();
    let right = AstNode::parse("[3, 4]", &pair_array(), &lang).unwrap();
    let (la, ra) = (&left.children[0], &right.children[0]);
    let mut matching = Matching::new();
    matching.add(la.id, ra.id);
    let sub = matching.add_submatches(&left, &right);
    assert_eq!(sub.len(), 6);
    assert_eq!(sub.get_from_left(la.id), Some(ra.id));
    for i in 0..5 {
        assert_eq!(sub.get_from_left(la.children[i].id), Some(ra.children[i].id));
    }
    assert_eq!(sub.get_from_left(left.id), None);
}
