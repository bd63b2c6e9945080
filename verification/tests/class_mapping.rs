use mergiraf::class_mapping::{ClassMapping, Leader, RevNode};
use mergiraf::matching::Matching;
use mergiraf::pcs::Revision;

#[test]
fn left_right_matching_does_not_override_base_matchings() {
    // base: root 3 with `struct Foo;` (1) and `struct Bar;` (2)
    // left: root 12 with `struct Foo;` (11); right: root 22 with `struct Bar;` (21)
    let (base_tree, foo_base_node, bar_base_node) = (3, 1, 2);
    let (left_tree, foo_left_node) = (12, 11);
    let (right_tree, bar_right_node) = (22, 21);
    let foo_left = RevNode::new(Revision::Left, foo_left_node);
    let bar_right = RevNode::new(Revision::Right, bar_right_node);

    let mut base_left = Matching::new();
    base_left.add(base_tree, left_tree);
    base_left.add(foo_base_node, foo_left_node);
    let mut base_right = Matching::new();
    base_right.add(base_tree, right_tree);
    base_right.add(bar_base_node, bar_right_node);
    let mut left_right = Matching::new();
    left_right.add(left_tree, right_tree);
    left_right.add(foo_left_node, bar_right_node); // this matching is wrong!

    let mut class_mapping = ClassMapping::new();
    class_mapping.add_matching(&base_left, Revision::Base, Revision::Left, false);
    class_mapping.add_matching(&base_right, Revision::Base, Revision::Right, false);
    class_mapping.add_matching(&left_right, Revision::Left, Revision::Right, false);

    // because the wrong left-right matching is between nodes that were already matched to the base,
    // it was ignored and has not merged the classes of both nodes
    assert_ne!(class_mapping.map_to_leader(foo_left), class_mapping.map_to_leader(bar_right));
}

/// If two out of three revisions are matched, then all three revisions get mapped to the same leader
#[test]
fn classes_are_properly_merged() {
    // in each revision, the root (4) has three children: Foo (1), Bar (2) and Hey (3)
    let root = 4;
    let (foo, bar, hey) = (1, 2, 3);
    let foo_base = RevNode::new(Revision::Base, foo);
    let foo_left = RevNode::new(Revision::Left, foo);
    let foo_right = RevNode::new(Revision::Right, foo);
    let bar_base = RevNode::new(Revision::Base, bar);
    let bar_left = RevNode::new(Revision::Left, bar);
    let bar_right = RevNode::new(Revision::Right, bar);
    let hey_base = RevNode::new(Revision::Base, hey);
    let hey_left = RevNode::new(Revision::Left, hey);
    let hey_right = RevNode::new(Revision::Right, hey);

    let mut base_left = Matching::new();
    base_left.add(root, root);
    // FooBase and FooLeft are NOT matched
    base_left.add(bar, bar); // BarBase and BarLeft are matched
    base_left.add(hey, hey); // HeyBase and HeyLeft are matched

    let mut base_right = Matching::new();
    base_right.add(root, root);
    base_right.add(foo, foo); // FooBase and FooRight are matched
    // BarBase and BarRight are NOT matched
    base_right.add(hey, hey); // HeyBase and HeyRight are matched

    let mut left_right = Matching::new();
    left_right.add(root, root);
    left_right.add(foo, foo); // FooLeft and FooRight are matched
    left_right.add(bar, bar); // BarLeft and BarRight are matched
    // HeyLeft and HeyRight are NOT matched

    let mut class_mapping = ClassMapping::new();
    class_mapping.add_matching(&base_left, Revision::Base, Revision::Left, false);
    class_mapping.add_matching(&base_right, Revision::Base, Revision::Right, false);
    class_mapping.add_matching(&left_right, Revision::Left, Revision::Right, false);

    // matchings of Foo look like: Base <-> Right <-> Left
    let expected_foo_leader = Leader(foo_base);
    assert_eq!(class_mapping.map_to_leader(foo_base), expected_foo_leader);
    assert_eq!(class_mapping.map_to_leader(foo_left), expected_foo_leader);
    assert_eq!(class_mapping.map_to_leader(foo_right), expected_foo_leader);
    assert!(class_mapping.revision_set(&expected_foo_leader).set().is_full());

    // matchings of Bar look like: Base <-> Left <-> Right
    let expected_bar_leader = Leader(bar_base);
    assert_eq!(class_mapping.map_to_leader(bar_base), expected_bar_leader);
    assert_eq!(class_mapping.map_to_leader(bar_left), expected_bar_leader);
    assert_eq!(class_mapping.map_to_leader(bar_right), expected_bar_leader);
    assert!(class_mapping.revision_set(&expected_bar_leader).set().is_full());

    // matchings of Hey look like: Left <-> Base <-> Right
    let expected_hey_leader = Leader(hey_base);
    assert_eq!(class_mapping.map_to_leader(hey_base), expected_hey_leader);
    assert_eq!(class_mapping.map_to_leader(hey_left), expected_hey_leader);
    assert_eq!(class_mapping.map_to_leader(hey_right), expected_hey_leader);
    assert!(class_mapping.revision_set(&expected_hey_leader).set().is_full());
}

#[test]
fn exact_matchings_and_representatives() {
    let mut base_left = Matching::new();
    base_left.add(1, 5);
    let mut base_right = Matching::new();
    base_right.add(1, 9);
    let mut class_mapping = ClassMapping::new();
    class_mapping.add_matching(&base_left, Revision::Base, Revision::Left, true);
    let leader = class_mapping.map_to_leader(RevNode::new(Revision::Left, 5));
    assert_eq!(leader, Leader(RevNode::new(Revision::Base, 1)));
    assert!(!class_mapping.is_isomorphic_in_all_revisions(&leader));
    class_mapping.add_matching(&base_right, Revision::Base, Revision::Right, true);
    assert!(class_mapping.is_isomorphic_in_all_revisions(&leader));
    assert_eq!(
        class_mapping.representatives(&leader),
        vec![RevNode::new(Revision::Base, 1), RevNode::new(Revision::Left, 5), RevNode::new(Revision::Right, 9)]
    );
    assert_eq!(class_mapping.node_at_rev(&leader, Revision::Right), Some(9));
    assert_eq!(class_mapping.node_at_rev(&leader, Revision::Base), Some(1));

    let lonely = Leader(RevNode::new(Revision::Left, 7));
    assert_eq!(class_mapping.map_to_leader(RevNode::new(Revision::Left, 7)), lonely);
    assert_eq!(class_mapping.representatives(&lonely), vec![RevNode::new(Revision::Left, 7)]);
    assert_eq!(class_mapping.node_at_rev(&lonely, Revision::Base), None);
}

#[test]
fn leaders_give_their_representative() {
    let node = RevNode::new(Revision::Left, 4);
    let leader = Leader(node);
    assert_eq!(leader.as_representative(), node);
}
