use mergiraf::matching::{Matching, NodeSummary};

fn node(id: usize, grammar_name: &str, is_leaf: bool, source: &str) -> NodeSummary {
    NodeSummary { id, grammar_name: grammar_name.to_string(), is_leaf, source: source.to_string() }
}

#[test]
fn retrieve_match() {
    let mut matching = Matching::new();
    assert_eq!(matching.len(), 0);

    matching.add(1, 10);
    assert_eq!(matching.len(), 1);
    assert_eq!(matching.as_ids(), vec![(1, 10)]);
}

#[test]
fn remove_previously_matched() {
    let (elem1, elem4, elem5) = (1, 4, 5);
    let mut matching = Matching::new();

    matching.add(elem1, elem4);
    matching.add(elem1, elem5);

    assert_eq!(matching.get_from_right(elem5), Some(elem1));
    assert_eq!(matching.get_from_left(elem1), Some(elem5));
    assert_eq!(matching.get_from_right(elem4), None);

    matching.remove(elem1, elem4);
    assert_eq!(matching.get_from_right(elem4), None);
    assert_eq!(matching.get_from_left(elem1), None);
    assert_eq!(matching.get_from_right(elem5), None);
}

#[test]
fn adding_a_pair_unmatches_both_former_partners() {
    let mut matching = Matching::new();
    matching.add(1, 10);
    matching.add(2, 20);
    matching.add(1, 20);
    assert_eq!(matching.get_from_left(1), Some(20));
    assert_eq!(matching.get_from_left(2), None);
    assert_eq!(matching.get_from_right(10), None);
    assert_eq!(matching.len(), 1);
    assert!(matching.are_matched(1, 20));
    assert!(!matching.are_matched(2, 20));
    assert!(matching.can_be_matched(&node(2, "identifier", true, "x"), &node(10, "identifier", true, "x")));
    assert!(!matching.can_be_matched(&node(2, "identifier", true, "x"), &node(20, "identifier", true, "x")));
}

#[test]
fn compose_and_reverse() {
    let mut first = Matching::new();
    first.add(1, 10);
    first.add(2, 20);
    first.add(3, 30);
    let mut second = Matching::new();
    second.add(10, 100);
    second.add(30, 300);
    let composed = first.compose(&second);
    let mut ids = composed.as_ids();
    ids.sort();
    assert_eq!(ids, vec![(1, 100), (3, 300)]);
    let reversed = composed.into_reversed();
    assert_eq!(reversed.get_from_left(300), Some(3));
    assert_eq!(reversed.get_from_right(1), Some(100));
}

#[test]
fn add_matching_overrides_conflicting_pairs() {
    let mut base = Matching::new();
    base.add(1, 10);
    base.add(2, 20);
    base.add(3, 30);
    let mut other = Matching::new();
    other.add(1, 20);
    other.add(4, 40);
    base.add_matching(&other);
    let mut ids = base.as_ids();
    ids.sort();
    assert_eq!(ids, vec![(1, 20), (3, 30), (4, 40)]);
    let mut left: Vec<usize> = base.left_matched().into_iter().collect();
    left.sort();
    assert_eq!(left, vec![1, 3, 4]);
    let mut right: Vec<usize> = base.right_matched().into_iter().collect();
    right.sort();
    assert_eq!(right, vec![20, 30, 40]);
    let copy = base.clone_matching();
    assert_eq!(copy.len(), 3);
}

#[test]
fn can_be_matched_checks_kind_and_leaf_source() {
    let matching = Matching::new();
    assert!(matching.can_be_matched(&node(1, "block", false, "{ a }"), &node(2, "block", false, "{ b }")));
    assert!(!matching.can_be_matched(&node(1, "block", false, "{ a }"), &node(2, "expression", false, "{ a }")));
    assert!(!matching.can_be_matched(&node(1, "identifier", true, "a"), &node(2, "identifier", true, "b")));
    assert!(matching.can_be_matched(&node(1, "identifier", true, "a"), &node(2, "identifier", false, "b")));
}

#[test]
fn reversing_twice_gives_the_matching_back() {
    let mut matching = Matching::new();
    matching.add(1, 10);
    matching.add(2, 20);
    let back = matching.into_reversed().into_reversed();
    let mut ids = back.as_ids();
    ids.sort();
    assert_eq!(ids, vec![(1, 10), (2, 20)]);
}

fn small_tree<'a>(source: &str, lang: &'a mergiraf::lang_profile::LangProfile) -> mergiraf::ast::AstNode<'a> {
    let parsed = mergiraf::ast::ParsedNode {
        grammar_name: "document".to_string(),
        field_name: None,
        byte_range: 0..1,
        start_point: (0, 0),
        end_point: (0, 1),
        is_error: false,
        query_commutative_parent: None,
        children: vec![mergiraf::ast::ParsedNode {
            grammar_name: "number".to_string(),
            field_name: None,
            byte_range: 0..1,
            start_point: (0, 0),
            end_point: (0, 1),
            is_error: false,
            query_commutative_parent: None,
            children: vec![],
        }],
    };
    mergiraf::ast::AstNode::parse(source, &parsed, lang).unwrap()
}

#[test]
fn translate_keeps_the_pairs_present_in_both_trees() {
    let lang = mergiraf::lang_profile::LangProfile::find_by_name("JSON").unwrap();
    let left = small_tree("1", &lang);
    let right = small_tree("2", &lang);
    // the nodes of each tree are numbered 1 (the number) and 2 (the document)
    let mut matching = Matching::new();
    matching.add(1, 2);
    matching.add(2, 7);
    matching.add(9, 1);
    let translated = matching.translate(&left, &right);
    assert_eq!(translated.len(), 1);
    assert_eq!(translated.get_from_left(1), Some(2));
    assert_eq!(translated.get_from_left(2), None);
    assert_eq!(translated.get_from_right(1), None);
}

#[test]
fn pairs_read_from_right_to_left() {
    let mut matching = Matching::new();
    matching.add(1, 10);
    matching.add(2, 20);
    let mut pairs = matching.iter_right_to_left();
    pairs.sort();
    assert_eq!(pairs, vec![(10, 1), (20, 2)]);
}
