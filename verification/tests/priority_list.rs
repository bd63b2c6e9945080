use mergiraf::ast::{AstNode, ParsedNode};
use mergiraf::lang_profile::LangProfile;
use mergiraf::priority_list::PriorityList;

fn node(kind: &str, start: usize, end: usize, children: Vec<ParsedNode>) -> ParsedNode {
    ParsedNode {
        grammar_name: kind.to_string(),
        field_name: None,
        byte_range: start..end,
        start_point: (0, start),
        end_point: (0, end),
        is_error: false,
        query_commutative_parent: None,
        children,
    }
}

fn leaf(kind: &str, start: usize, end: usize) -> ParsedNode {
    node(kind, start, end, vec![])
}

fn with_field(mut parsed: ParsedNode, field: &str) -> ParsedNode {
    parsed.field_name = Some(field.to_string());
    parsed
}

fn rust() -> LangProfile {
    LangProfile::find_by_name("Rust").unwrap()
}

/// A one-digit integer at the given offset
fn integer(at: usize) -> ParsedNode {
    leaf("integer_literal", at, at + 1)
}

/// A binary operation
fn bin(left: ParsedNode, op: &str, at: usize, right: ParsedNode) -> ParsedNode {
    let start = left.byte_range.start;
    let end = right.byte_range.end;
    node(
        "binary_expression",
        start,
        end,
        vec![with_field(left, "left"), with_field(leaf(op, at, at + 1), "operator"), with_field(right, "right")],
    )
}

/// An expression in parentheses
fn paren(open: usize, inner: ParsedNode) -> ParsedNode {
    let close = inner.byte_range.end;
    node("parenthesized_expression", open, close + 1, vec![leaf("(", open, open + 1), inner, leaf(")", close, close + 1)])
}

/// `fn x()`, optionally with a return type (the offset of its arrow and the length of the
/// type), and a body holding one expression
fn function(len: usize, return_type: Option<(usize, usize)>, open: usize, expression: ParsedNode, close: usize) -> ParsedNode {
    let mut children = vec![
        leaf("fn", 0, 2),
        with_field(leaf("identifier", 3, 4), "name"),
        with_field(node("parameters", 4, 6, vec![leaf("(", 4, 5), leaf(")", 5, 6)]), "parameters"),
    ];
    if let Some((at, type_len)) = return_type {
        children.push(leaf("->", at, at + 2));
        children.push(with_field(leaf("primitive_type", at + 3, at + 3 + type_len), "return_type"));
    }
    let block = node("block", open, close + 1, vec![leaf("{", open, open + 1), expression, leaf("}", close, close + 1)]);
    children.push(with_field(block, "body"));
    node("source_file", 0, len, vec![node("function_item", 0, close + 1, children)])
}

fn parse<'a>(source: &str, tree: ParsedNode, lang: &'a LangProfile) -> AstNode<'a> {
    AstNode::parse(source, &tree, lang).unwrap()
}

/// `fn _() { a ? (b + c) }` with the given operator
fn nested<'a>(source: &str, op: &str, lang: &'a LangProfile) -> AstNode<'a> {
    parse(source, function(22, None, 7, bin(integer(9), op, 11, paren(13, bin(integer(14), "+", 16, integer(18)))), 21), lang)
}

/// `fn _() { a ? b }` with the given operator
fn flat<'a>(source: &str, op: &str, lang: &'a LangProfile) -> AstNode<'a> {
    parse(source, function(16, None, 7, bin(integer(9), op, 11, integer(13)), 15), lang)
}

#[test]
fn empty() {
    let mut priority_list = PriorityList::new();

    assert_eq!(priority_list.peek_max(), None);
    assert_eq!(priority_list.pop().len(), 0);
}

#[test]
fn one_element() {
    let lang = rust();
    let mut priority_list = PriorityList::new();

    let node = parse("fn x() -> i32 { 1 + 2 }", function(23, Some((7, 3)), 14, bin(integer(16), "+", 18, integer(20)), 22), &lang);
    priority_list.push(&node);

    assert_eq!(priority_list.peek_max(), Some(4));
    let popped = priority_list.pop();
    assert_eq!(popped.len(), 1);
    assert!(std::ptr::eq(popped[0], &node));
}

#[test]
fn two_elements_same_height() {
    let lang = rust();
    let mut priority_list = PriorityList::new();

    let node1 = parse("fn y() -> u8 { 1 + 2 }", function(22, Some((7, 2)), 13, bin(integer(15), "+", 17, integer(19)), 21), &lang);
    priority_list.push(&node1);
    let node2 = parse("fn z() { 3 *  5 }", function(17, None, 7, bin(integer(9), "*", 11, integer(14)), 16), &lang);
    priority_list.push(&node2);

    assert_eq!(priority_list.peek_max(), Some(4));
    let popped = priority_list.pop();
    assert_eq!(popped.len(), 2);
    assert!(std::ptr::eq(popped[0], &node2));
    assert!(std::ptr::eq(popped[1], &node1));
}

#[test]
fn two_elements_increasing_height() {
    let lang = rust();
    let mut priority_list = PriorityList::new();

    let node1 = flat("fn a() { 1 + 2 }", "+", &lang);
    priority_list.push(&node1);
    let node2 = nested("fn b() { 3 * (5 + 1) }", "*", &lang);
    priority_list.push(&node2);

    assert_eq!(priority_list.peek_max(), Some(6));
    let popped = priority_list.pop();
    assert_eq!(popped.len(), 1);
    assert!(std::ptr::eq(popped[0], &node2));
}

#[test]
fn two_elements_decreasing_height() {
    let lang = rust();
    let mut priority_list = PriorityList::new();

    let node1 = nested("fn c() { 1 + (2 + 5) }", "+", &lang);
    priority_list.push(&node1);
    let node2 = flat("fn d() { 3 * 9 }", "*", &lang);
    priority_list.push(&node2);

    assert_eq!(priority_list.peek_max(), Some(6));
    let popped = priority_list.pop();
    assert_eq!(popped.len(), 1);
    assert!(std::ptr::eq(popped[0], &node1));
}

#[test]
fn open() {
    let lang = rust();
    let mut priority_list = PriorityList::new();

    let tree = nested("fn x() { 1 + (2 + 5) }", "+", &lang);
    let node1 = tree.child(0).unwrap().child(3).unwrap().child(1).unwrap();
    priority_list.open(node1);
    let child1 = node1.child(0).unwrap();
    let child2 = node1.child(1).unwrap();
    let child3 = node1.child(2).unwrap();

    assert_eq!(priority_list.peek_max(), Some(2));
    let popped = priority_list.pop();
    assert_eq!(popped.len(), 1);
    assert!(std::ptr::eq(popped[0], child3));
    assert_eq!(priority_list.peek_max(), Some(0));
    let popped = priority_list.pop();
    assert_eq!(popped.len(), 2);
    assert!(std::ptr::eq(popped[0], child1));
    assert!(std::ptr::eq(popped[1], child2));
}

#[test]
fn popping_leaves_the_lower_trees() {
    let lang = rust();
    let mut priority_list = PriorityList::new();

    let low = flat("fn a() { 1 + 2 }", "+", &lang);
    let high = nested("fn c() { 1 + (2 + 5) }", "+", &lang);
    priority_list.push(&low);
    priority_list.push(&high);
    priority_list.push(&low);

    assert_eq!(priority_list.pop().len(), 1);
    assert_eq!(priority_list.peek_max(), Some(4));
    assert_eq!(priority_list.pop().len(), 2);
    assert_eq!(priority_list.peek_max(), None);
}
