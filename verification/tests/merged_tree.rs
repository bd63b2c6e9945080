use mergiraf::ast::{AstNode, ParsedNode};
use mergiraf::class_mapping::{ClassMapping, Leader, RevNode, RevisionNESet};
use mergiraf::lang_profile::LangProfile;
use mergiraf::merged_text::MergeSection;
use mergiraf::settings::DisplaySettings;
use mergiraf::merged_tree::{Conflict, MergedTree, RevisionTrees};
use mergiraf::pcs::Revision;
use mergiraf::signature::{isomorphic_merged_trees, AstNodeEquiv};

fn node(kind: &str, start: usize, end: usize, children: Vec<ParsedNode>) -> ParsedNode {
    ParsedNode {
        grammar_name: kind.to_string(),
        field_name: None,
        byte_range: start..end,
        start_point: (0, start),
        end_point: (0, end),
        is_error: false,
        query_commutative_parent: None,
        children,
    }
}

fn leaf(kind: &str, start: usize, end: usize) -> ParsedNode {
    node(kind, start, end, vec![])
}

/// What the JSON parser reports of an array of two one-digit numbers, such as `[1, 2]`
fn pair_array() -> ParsedNode {
    node(
        "document",
        0,
        6,
        vec![node(
            "array",
            0,
            6,
            vec![leaf("[", 0, 1), leaf("number", 1, 2), leaf(",", 2, 3), leaf("number", 4, 5), leaf("]", 5, 6)],
        )],
    )
}

fn json() -> LangProfile {
    LangProfile::find_by_name("JSON").unwrap()
}

fn leader(rev: Revision, n: &AstNode) -> Leader {
    Leader(RevNode { rev, node: n.id })
}

fn exact<'b, 'a>(rev: Revision, n: &AstNode) -> MergedTree<'b, 'a> {
    MergedTree::ExactTree { node: leader(rev, n), revisions: RevisionNESet::singleton(rev), hash: n.hash }
}

/// The array of a parsed document
fn array<'b, 'a>(doc: &'b AstNode<'a>) -> &'b AstNode<'a> {
    &doc.children[0]
}

#[test]
fn exact_tree_is_isomorphic_to_the_same_source() {
    let lang = json();
    let base = AstNode::parse("[1, 1]", &pair_array(), &lang).unwrap();
    let left = AstNode::parse("[1, 2]", &pair_array(), &lang).unwrap();
    let right = AstNode::parse("[2, 1]", &pair_array(), &lang).unwrap();
    let trees = RevisionTrees { base: &base, left: &left, right: &right };
    let class_mapping = ClassMapping::new();
    let merged = exact(Revision::Left, array(&left));
    let reparsed = AstNode::parse("[1, 2]", &pair_array(), &lang).unwrap();
    assert!(merged.isomorphic_to_source(array(&reparsed), Revision::Left, &class_mapping, &trees));
    let other = AstNode::parse("[2, 2]", &pair_array(), &lang).unwrap();
    assert!(!merged.isomorphic_to_source(array(&other), Revision::Left, &class_mapping, &trees));
}

#[test]
fn mixed_tree_is_compared_child_by_child() {
    let lang = json();
    let base = AstNode::parse("[1, 1]", &pair_array(), &lang).unwrap();
    let left = AstNode::parse("[1, 2]", &pair_array(), &lang).unwrap();
    let right = AstNode::parse("[2, 1]", &pair_array(), &lang).unwrap();
    let trees = RevisionTrees { base: &base, left: &left, right: &right };
    let class_mapping = ClassMapping::new();
    let (b, l, r) = (array(&base), array(&left), array(&right));
    // `[2, 2]`: the first number from the right, the second from the left
    let merged = MergedTree::MixedTree {
        node: leader(Revision::Base, b),
        children: vec![
            exact(Revision::Base, &b.children[0]),
            exact(Revision::Right, &r.children[1]),
            exact(Revision::Base, &b.children[2]),
            exact(Revision::Left, &l.children[3]),
            exact(Revision::Base, &b.children[4]),
        ],
        hash: 0,
    };
    let good = AstNode::parse("[2, 2]", &pair_array(), &lang).unwrap();
    assert!(merged.isomorphic_to_source(array(&good), Revision::Base, &class_mapping, &trees));
    let bad = AstNode::parse("[2, 1]", &pair_array(), &lang).unwrap();
    assert!(!merged.isomorphic_to_source(array(&bad), Revision::Base, &class_mapping, &trees));
    // a tree of another kind is not isomorphic
    assert!(!merged.isomorphic_to_source(&good, Revision::Base, &class_mapping, &trees));
}

#[test]
fn conflict_is_replaced_by_its_side_at_the_revision() {
    let lang = json();
    let base = AstNode::parse("[1, 1]", &pair_array(), &lang).unwrap();
    let left = AstNode::parse("[1, 2]", &pair_array(), &lang).unwrap();
    let right = AstNode::parse("[2, 3]", &pair_array(), &lang).unwrap();
    let trees = RevisionTrees { base: &base, left: &left, right: &right };
    let class_mapping = ClassMapping::new();
    let (b, l, r) = (array(&base), array(&left), array(&right));
    let merged = MergedTree::MixedTree {
        node: leader(Revision::Base, b),
        children: vec![
            exact(Revision::Base, &b.children[0]),
            exact(Revision::Base, &b.children[1]),
            exact(Revision::Base, &b.children[2]),
            MergedTree::Conflict(Conflict {
                base: vec![&b.children[3]],
                left: vec![&l.children[3]],
                right: vec![&r.children[3]],
            }),
            exact(Revision::Base, &b.children[4]),
        ],
        hash: 0,
    };
    let at_left = AstNode::parse("[1, 2]", &pair_array(), &lang).unwrap();
    let at_right = AstNode::parse("[1, 3]", &pair_array(), &lang).unwrap();
    assert!(merged.isomorphic_to_source(array(&at_left), Revision::Left, &class_mapping, &trees));
    assert!(!merged.isomorphic_to_source(array(&at_left), Revision::Right, &class_mapping, &trees));
    assert!(merged.isomorphic_to_source(array(&at_right), Revision::Right, &class_mapping, &trees));
    // a conflict on its own is never isomorphic to a source
    let conflict = MergedTree::Conflict(Conflict { base: vec![], left: vec![&l.children[3]], right: vec![] });
    assert!(!conflict.isomorphic_to_source(&l.children[3], Revision::Left, &class_mapping, &trees));
}

#[test]
fn separator_and_line_based_merge_against_source() {
    let lang = json();
    let base = AstNode::parse("[1, 1]", &pair_array(), &lang).unwrap();
    let trees = RevisionTrees { base: &base, left: &base, right: &base };
    let class_mapping = ClassMapping::new();
    let comma = &array(&base).children[2];
    let separator = MergedTree::CommutativeChildSeparator { separator: " ,\n" };
    assert!(separator.isomorphic_to_source(comma, Revision::Base, &class_mapping, &trees));
    let bracket = &array(&base).children[0];
    assert!(!separator.isomorphic_to_source(bracket, Revision::Base, &class_mapping, &trees));
    let line_based = MergedTree::LineBasedMerge {
        node: leader(Revision::Base, array(&base)),
        contents: "[1, 1]".to_string(),
        conflict_mass: 0,
    };
    assert!(line_based.isomorphic_to_source(bracket, Revision::Base, &class_mapping, &trees));
}

#[test]
fn equivalence_of_original_and_merged_nodes() {
    let lang = json();
    let base = AstNode::parse("[1, 1]", &pair_array(), &lang).unwrap();
    let left = AstNode::parse("[1, 2]", &pair_array(), &lang).unwrap();
    let right = AstNode::parse("[2, 1]", &pair_array(), &lang).unwrap();
    let trees = RevisionTrees { base: &base, left: &left, right: &right };
    let class_mapping = ClassMapping::new();
    let (b, l) = (array(&base), array(&left));
    // the first numbers of base and left are isomorphic, the second ones are not
    let one = AstNodeEquiv::Original(&b.children[1]);
    let also_one = AstNodeEquiv::Original(&l.children[1]);
    let two = AstNodeEquiv::Original(&l.children[3]);
    assert!(one.isomorphic(&also_one, &class_mapping, &trees));
    assert!(!one.isomorphic(&two, &class_mapping, &trees));
    // an exact tree is compared through its node
    let exact_two = exact(Revision::Left, &l.children[3]);
    let merged_two = AstNodeEquiv::Merged(&exact_two);
    assert!(merged_two.isomorphic(&two, &class_mapping, &trees));
    assert!(two.isomorphic(&merged_two, &class_mapping, &trees));
    assert!(!merged_two.isomorphic(&one, &class_mapping, &trees));
    // a separator is compared with the source once trimmed
    let sep = MergedTree::CommutativeChildSeparator { separator: " , " };
    assert!(AstNodeEquiv::Merged(&sep).isomorphic(&AstNodeEquiv::Original(&b.children[2]), &class_mapping, &trees));
    // a conflict is only isomorphic to an equal conflict
    let c1 = MergedTree::Conflict(Conflict { base: vec![], left: vec![&l.children[3]], right: vec![] });
    let c2 = MergedTree::Conflict(Conflict { base: vec![], left: vec![&l.children[3]], right: vec![] });
    let c3 = MergedTree::Conflict(Conflict { base: vec![], left: vec![&l.children[1]], right: vec![] });
    assert!(AstNodeEquiv::Merged(&c1).isomorphic(&AstNodeEquiv::Merged(&c2), &class_mapping, &trees));
    assert!(!AstNodeEquiv::Merged(&c1).isomorphic(&AstNodeEquiv::Merged(&c3), &class_mapping, &trees));
    assert!(!AstNodeEquiv::Merged(&c1).isomorphic(&AstNodeEquiv::Original(&l.children[3]), &class_mapping, &trees));
}

#[test]
fn mixed_trees_are_isomorphic_when_their_children_are() {
    let lang = json();
    let base = AstNode::parse("[1, 1]", &pair_array(), &lang).unwrap();
    let left = AstNode::parse("[1, 2]", &pair_array(), &lang).unwrap();
    let right = AstNode::parse("[2, 1]", &pair_array(), &lang).unwrap();
    let trees = RevisionTrees { base: &base, left: &left, right: &right };
    let class_mapping = ClassMapping::new();
    let (b, l, r) = (array(&base), array(&left), array(&right));
    let mixed = |second: &AstNode, rev: Revision| MergedTree::MixedTree {
        node: leader(Revision::Base, b),
        children: vec![
            exact(Revision::Base, &b.children[0]),
            exact(Revision::Base, &b.children[1]),
            exact(Revision::Base, &b.children[2]),
            exact(rev, second),
            exact(Revision::Base, &b.children[4]),
        ],
        hash: 0,
    };
    let m1 = mixed(&l.children[3], Revision::Left);
    let m2 = mixed(&l.children[3], Revision::Left);
    let m3 = mixed(&r.children[3], Revision::Right);
    assert!(isomorphic_merged_trees(&m1, &m2, &class_mapping, &trees));
    assert!(!isomorphic_merged_trees(&m1, &m3, &class_mapping, &trees));
    assert!(!isomorphic_merged_trees(&m3, &m1, &class_mapping, &trees));
    // a mixed tree against the original array it reproduces
    assert!(AstNodeEquiv::Merged(&m1).isomorphic(&AstNodeEquiv::Original(l), &class_mapping, &trees));
    assert!(!AstNodeEquiv::Merged(&m3).isomorphic(&AstNodeEquiv::Original(l), &class_mapping, &trees));
}

#[test]
fn new_exact_takes_the_hash_of_its_node() {
    let lang = json();
    let base = AstNode::parse("[1, 1]", &pair_array(), &lang).unwrap();
    let left = AstNode::parse("[1, 2]", &pair_array(), &lang).unwrap();
    let trees = RevisionTrees { base: &base, left: &left, right: &left };
    let class_mapping = ClassMapping::new();
    let two = &array(&left).children[3];
    let tree = MergedTree::new_exact(leader(Revision::Left, two), RevisionNESet::singleton(Revision::Left), &class_mapping, &trees);
    match tree {
        MergedTree::ExactTree { hash, node, .. } => {
            assert_eq!(hash, two.hash);
            assert_eq!(node, leader(Revision::Left, two));
        },
        _ => panic!("an exact tree was expected"),
    }
    assert_eq!(tree.kind(&trees), Some("number"));
    assert_eq!(tree.field_name(&trees), None);
}

#[test]
fn new_mixed_keeps_its_children() {
    let lang = json();
    let base = AstNode::parse("[1, 1]", &pair_array(), &lang).unwrap();
    let trees = RevisionTrees { base: &base, left: &base, right: &base };
    let b = array(&base);
    let tree = MergedTree::new_mixed(
        leader(Revision::Base, b),
        vec![exact(Revision::Base, &b.children[0]), MergedTree::CommutativeChildSeparator { separator: "," }],
        &trees,
    );
    match &tree {
        MergedTree::MixedTree { children, .. } => assert_eq!(children.len(), 2),
        _ => panic!("a mixed tree was expected"),
    }
    assert_eq!(tree.kind(&trees), Some("array"));
    let separator = MergedTree::CommutativeChildSeparator { separator: "," };
    assert_eq!(separator.kind(&trees), None);
}

#[test]
fn spurious_conflicts_are_resolved() {
    let lang = json();
    let base = AstNode::parse("[1, 1]", &pair_array(), &lang).unwrap();
    let left = AstNode::parse("[1, 2]", &pair_array(), &lang).unwrap();
    let right = AstNode::parse("[2, 2]", &pair_array(), &lang).unwrap();
    let trees = RevisionTrees { base: &base, left: &left, right: &right };
    let class_mapping = ClassMapping::new();
    let (b, l, r) = (array(&base), array(&left), array(&right));
    // left and right agree: the left side is taken, from both revisions
    let res = MergedTree::new_conflict(vec![&b.children[3]], vec![&l.children[3]], vec![&r.children[3]], &class_mapping, &trees);
    assert_eq!(res.len(), 1);
    match &res[0] {
        MergedTree::ExactTree { node, revisions, hash } => {
            assert_eq!(*node, leader(Revision::Left, &l.children[3]));
            assert!(revisions.contains(Revision::Left) && revisions.contains(Revision::Right));
            assert!(!revisions.contains(Revision::Base));
            assert_eq!(*hash, l.children[3].hash);
        },
        _ => panic!("an exact tree was expected"),
    }
    // base and left agree: the right side is taken
    let res = MergedTree::new_conflict(vec![&b.children[1]], vec![&l.children[1]], vec![&r.children[1]], &class_mapping, &trees);
    match &res[0] {
        MergedTree::ExactTree { node, revisions, .. } => {
            assert_eq!(*node, leader(Revision::Right, &r.children[1]));
            assert!(revisions.contains(Revision::Right) && !revisions.contains(Revision::Left));
        },
        _ => panic!("an exact tree was expected"),
    }
    // all three differ: a conflict remains
    let res = MergedTree::new_conflict(vec![&b.children[1]], vec![&l.children[3]], vec![&r.children[0]], &class_mapping, &trees);
    assert_eq!(res.len(), 1);
    assert!(matches!(&res[0], MergedTree::Conflict(_)));
}

#[test]
fn pretty_print_exact_tree_gives_its_source() {
    let lang = json();
    let base = AstNode::parse("[1, 1]", &pair_array(), &lang).unwrap();
    let trees = RevisionTrees { base: &base, left: &base, right: &base };
    let class_mapping = ClassMapping::new();
    let tree = exact(Revision::Base, &base);
    assert_eq!(tree.pretty_print(&class_mapping, &trees, &DisplaySettings::default()), "[1, 1]");
}

#[test]
fn pretty_print_mixed_tree_takes_whitespace_from_the_revisions() {
    let lang = json();
    let base = AstNode::parse("[1, 1]", &pair_array(), &lang).unwrap();
    let left = AstNode::parse("[1, 2]", &pair_array(), &lang).unwrap();
    let right = AstNode::parse("[2, 1]", &pair_array(), &lang).unwrap();
    let trees = RevisionTrees { base: &base, left: &left, right: &right };
    let class_mapping = ClassMapping::new();
    let (b, l, r) = (array(&base), array(&left), array(&right));
    let merged = MergedTree::MixedTree {
        node: leader(Revision::Base, b),
        children: vec![
            exact(Revision::Base, &b.children[0]),
            exact(Revision::Right, &r.children[1]),
            exact(Revision::Base, &b.children[2]),
            exact(Revision::Left, &l.children[3]),
            exact(Revision::Base, &b.children[4]),
        ],
        hash: 0,
    };
    assert_eq!(merged.pretty_print(&class_mapping, &trees, &DisplaySettings::default()), "[2, 2]");
}

#[test]
fn pretty_print_conflict_keeps_the_three_sides() {
    let lang = json();
    let base = AstNode::parse("[1, 1]", &pair_array(), &lang).unwrap();
    let left = AstNode::parse("[1, 2]", &pair_array(), &lang).unwrap();
    let right = AstNode::parse("[1, 3]", &pair_array(), &lang).unwrap();
    let trees = RevisionTrees { base: &base, left: &left, right: &right };
    let class_mapping = ClassMapping::new();
    let (b, l, r) = (array(&base), array(&left), array(&right));
    let merged = MergedTree::MixedTree {
        node: leader(Revision::Base, b),
        children: vec![
            exact(Revision::Base, &b.children[0]),
            exact(Revision::Base, &b.children[1]),
            exact(Revision::Base, &b.children[2]),
            MergedTree::Conflict(Conflict {
                base: vec![&b.children[3]],
                left: vec![&l.children[3]],
                right: vec![&r.children[3]],
            }),
            exact(Revision::Base, &b.children[4]),
        ],
        hash: 0,
    };
    let text = merged.to_merged_text(&class_mapping, &trees, &DisplaySettings::default());
    let mut before = String::new();
    let mut after = String::new();
    let mut conflicts = Vec::new();
    for section in &text.sections {
        match section {
            MergeSection::Merged(m) => {
                if conflicts.is_empty() {
                    before.push_str(m);
                } else {
                    after.push_str(m);
                }
            },
            MergeSection::Conflict { base, left, right } => conflicts.push((base.clone(), left.clone(), right.clone())),
        }
    }
    assert_eq!(before, "[1, ");
    assert_eq!(conflicts, vec![("1".to_string(), "2".to_string(), "3".to_string())]);
    assert_eq!(after, "]");
}

#[test]
fn pretty_print_separator_and_empty_conflict() {
    let lang = json();
    let base = AstNode::parse("[1, 1]", &pair_array(), &lang).unwrap();
    let trees = RevisionTrees { base: &base, left: &base, right: &base };
    let class_mapping = ClassMapping::new();
    let separator = MergedTree::CommutativeChildSeparator { separator: ", " };
    assert_eq!(separator.pretty_print(&class_mapping, &trees, &DisplaySettings::default()), ", ");
    let empty = MergedTree::Conflict(Conflict { base: vec![], left: vec![], right: vec![] });
    assert_eq!(empty.to_merged_text(&class_mapping, &trees, &DisplaySettings::default()).sections.len(), 0);
}

#[test]
fn contains_looks_through_the_tree() {
    let lang = json();
    let base = AstNode::parse("[1, 1]", &pair_array(), &lang).unwrap();
    let left = AstNode::parse("[1, 2]", &pair_array(), &lang).unwrap();
    let right = AstNode::parse("[2, 1]", &pair_array(), &lang).unwrap();
    let trees = RevisionTrees { base: &base, left: &left, right: &right };
    let class_mapping = ClassMapping::new();
    let (b, l, r) = (array(&base), array(&left), array(&right));
    let merged = MergedTree::MixedTree {
        node: leader(Revision::Base, b),
        children: vec![
            exact(Revision::Base, &b.children[0]),
            exact(Revision::Right, &r.children[1]),
            MergedTree::Conflict(Conflict { base: vec![], left: vec![&l.children[3]], right: vec![] }),
        ],
        hash: 0,
    };
    assert!(merged.contains(&leader(Revision::Base, b), &class_mapping, &trees));
    assert!(merged.contains(&leader(Revision::Base, &b.children[0]), &class_mapping, &trees));
    assert!(merged.contains(&leader(Revision::Right, &r.children[1]), &class_mapping, &trees));
    assert!(merged.contains(&leader(Revision::Left, &l.children[3]), &class_mapping, &trees));
    assert!(!merged.contains(&leader(Revision::Left, &l.children[1]), &class_mapping, &trees));
    let whole = exact(Revision::Base, &base);
    assert!(whole.contains(&leader(Revision::Base, &b.children[3]), &class_mapping, &trees));
    assert!(!whole.contains(&leader(Revision::Left, &l.children[3]), &class_mapping, &trees));
}
