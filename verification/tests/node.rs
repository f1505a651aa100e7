use std::borrow::{Borrow, Cow};

use green_tree::{
    GreenElement, GreenNode, GreenNodeData, GreenToken, GreenTokenData, NodeOrToken, SyntaxKind,
    TextSize,
};

fn token(kind: u16, text: &str) -> GreenElement {
    NodeOrToken::Token(GreenToken::new(SyntaxKind(kind), text))
}

fn node(kind: u16, children: Vec<GreenElement>) -> GreenElement {
    NodeOrToken::Node(GreenNode::new(SyntaxKind(kind), children))
}

fn sum() -> GreenNode {
    // 1 + (2*3)
    let product = node(11, vec![token(1, "2"), token(2, "*"), token(1, "3")]);
    GreenNode::new(
        SyntaxKind(10),
        vec![token(1, "1"), token(3, " + "), token(4, "("), product, token(4, ")")],
    )
}

#[test]
fn new_node_has_kind_and_text() {
    let node = sum();
    assert_eq!(node.kind(), SyntaxKind(10));
    assert_eq!(node.text_len(), TextSize::new(9));
    assert_eq!(node.to_string(), "1 + (2*3)");
    assert_eq!(node.children().len(), 5);
}

#[test]
fn empty_node_has_no_text() {
    let node = GreenNode::new(SyntaxKind(3), Vec::new());
    assert_eq!(node.kind(), SyntaxKind(3));
    assert_eq!(node.text_len(), TextSize::new(0));
    assert_eq!(node.to_string(), "");
    assert_eq!(node.children().len(), 0);
    assert!(node.children().next().is_none());
    assert!(node.header().first_ref().is_none());
}

#[test]
fn text_is_counted_in_bytes() {
    let node = GreenNode::new(
        SyntaxKind(1),
        vec![token(2, "ä"), token(2, "€"), token(2, ""), token(2, "𝄞"), token(2, "z")],
    );
    assert_eq!(node.text_len(), TextSize::new(2 + 3 + 4 + 1));
    assert_eq!(node.to_string(), "ä€𝄞z");
    assert_eq!(node.text_len().raw() as usize, node.to_string().len());
    let mut offsets = Vec::new();
    let mut walk = node.children_ext();
    while let Some((_, offset)) = walk.next() {
        offsets.push(offset.raw());
    }
    assert_eq!(offsets, vec![0, 2, 5, 5, 9]);
}

#[test]
fn child_text_stands_at_its_offset() {
    let node = sum();
    let text = node.to_string();
    let mut walk = node.children_ext();
    let mut seen = String::new();
    while let Some((child, offset)) = walk.next() {
        let start = offset.raw() as usize;
        let end = start + child.text_len().raw() as usize;
        assert_eq!(start, seen.len());
        seen.push_str(&text[start..end]);
        match child {
            NodeOrToken::Node(inner) => assert_eq!(inner.to_string(), &text[start..end]),
            NodeOrToken::Token(leaf) => assert_eq!(leaf.text(), &text[start..end]),
        }
    }
    assert_eq!(seen, text);
}

#[test]
fn header_tells_kind_length_and_first_child() {
    let node = sum();
    let header = node.header();
    assert_eq!(header.kind(), SyntaxKind(10));
    assert_eq!(header.text_len(), TextSize::new(9));
    assert!(header.compact());
    match header.first_ref() {
        Some(NodeOrToken::Token(first)) => assert_eq!(first.text(), "1"),
        _ => panic!("the first child is a token"),
    }
}

#[test]
fn thin_nodes_tell_the_same() {
    let compact = GreenNode::new(SyntaxKind(1), vec![token(2, "a"), node(3, vec![]), token(2, "b")]);
    let thin =
        GreenNode::new_thin(SyntaxKind(1), vec![token(2, "a"), node(3, vec![]), token(2, "b")]);
    assert!(compact.header().compact());
    assert!(!thin.header().compact());
    assert!(compact == thin);
    assert!(compact.header() == thin.header());
    assert_eq!(thin.text_len(), TextSize::new(2));
    assert_eq!(thin.to_string(), "ab");
}

#[test]
fn equality_looks_at_kinds_texts_and_children() {
    let a = sum();
    let b = sum();
    assert!(a == b);
    assert!(b == a);
    assert!(a == a.clone());
    let other_kind = GreenNode::new(SyntaxKind(9), vec![token(1, "1")]);
    let other_text = GreenNode::new(SyntaxKind(10), vec![token(1, "2")]);
    let one = GreenNode::new(SyntaxKind(10), vec![token(1, "1")]);
    let other_token = GreenNode::new(SyntaxKind(10), vec![token(2, "1")]);
    let longer = GreenNode::new(SyntaxKind(10), vec![token(1, "1"), token(1, "")]);
    assert!(one != other_kind);
    assert!(one != other_text);
    assert!(one != other_token);
    assert!(one != longer);
    assert!(longer != one);
    let wrapped = GreenNode::new(SyntaxKind(10), vec![node(1, vec![token(1, "1")])]);
    assert!(one != wrapped);
    assert!(token(1, "1") != node(1, vec![token(1, "1")]));
}

#[test]
fn equality_is_deeper_than_the_text() {
    let split = GreenNode::new(SyntaxKind(1), vec![token(2, "a"), token(2, "b")]);
    let joined = GreenNode::new(SyntaxKind(1), vec![token(2, "ab")]);
    assert_eq!(split.to_string(), joined.to_string());
    assert!(split != joined);
}

#[test]
fn heads_look_at_the_first_child_only() {
    let a = GreenNode::new(SyntaxKind(1), vec![token(2, "a"), token(2, "b")]);
    let b = GreenNode::new(SyntaxKind(1), vec![token(2, "a"), token(2, "c")]);
    let c = GreenNode::new(SyntaxKind(1), vec![token(2, "c"), token(2, "b")]);
    let d = GreenNode::new(SyntaxKind(1), vec![token(2, "a"), token(2, "bb")]);
    assert!(a != b);
    assert!(a.header() == b.header());
    assert!(a.header() != c.header());
    assert!(a.header() != d.header());
    assert!(a.header() != GreenNode::new(SyntaxKind(1), vec![]).header());
}

#[test]
fn head_clone_is_equal() {
    let node = sum();
    let head = node.header().clone();
    assert!(&head == node.header());
    assert!(head.compact());
    let first = head.first_ref().map(|el| el.to_owned());
    drop(node);
    assert!(first == Some(token(1, "1")));
    assert!(GreenNode::new(SyntaxKind(1), vec![]).header().clone().first_ref().is_none());
}

#[test]
fn clones_share_one_node() {
    let a = sum();
    let b = a.clone();
    let data_a: &GreenNodeData = &a;
    let text_a = match data_a.children().next() {
        Some(NodeOrToken::Token(first)) => first.text().as_ptr(),
        _ => panic!("the first child is a token"),
    };
    let text_b = match b.children().next() {
        Some(NodeOrToken::Token(first)) => first.text().as_ptr(),
        _ => panic!("the first child is a token"),
    };
    assert_eq!(text_a, text_b);
    drop(a);
    assert_eq!(b.to_string(), "1 + (2*3)");
}

#[test]
fn owned_and_borrowed_data_give_nodes() {
    let node = sum();
    let data: &GreenNodeData = node.borrow();
    assert!(data.to_owned() == node);
    assert!(GreenNode::from(Cow::Borrowed(data)) == node);
    let owned: Cow<'_, GreenNodeData> = Cow::Owned(node.clone());
    assert!(GreenNode::from(owned) == node);
    assert!(GreenNode::new_thin(SyntaxKind(1), vec![]).to_owned() == GreenNode::new(SyntaxKind(1), vec![]));
}

#[test]
fn tokens_have_kind_and_text() {
    let leaf = GreenToken::new(SyntaxKind(7), "héllo");
    assert_eq!(leaf.kind(), SyntaxKind(7));
    assert_eq!(leaf.text(), "héllo");
    assert_eq!(leaf.text_len(), TextSize::new(6));
    let data: &GreenTokenData = leaf.borrow();
    assert!(data.to_owned() == leaf);
    assert!(leaf.clone() == leaf);
    assert!(leaf != GreenToken::new(SyntaxKind(8), "héllo"));
    assert!(leaf != GreenToken::new(SyntaxKind(7), "hello"));
}

#[test]
fn short_children_can_be_held() {
    assert!(GreenNode::can_hold(&vec![]));
    assert!(GreenNode::can_hold(&vec![token(1, "a"), token(1, "")]));
    assert!(GreenNode::can_hold(&vec![node(1, vec![token(1, "a")]), token(1, "b")]));
}

/// A node whose text is 2 to the power of `n` bytes long.
fn doubled(n: u32) -> GreenElement {
    let mut child = token(1, "x");
    for _ in 0..n {
        child = node(2, vec![child.clone(), child]);
    }
    child
}

#[test]
fn long_children_can_be_held_up_to_a_limit() {
    let half = doubled(29);
    let whole = doubled(30);
    assert_eq!(half.text_len(), TextSize::new(0x2000_0000));
    assert_eq!(whole.text_len(), TextSize::new(0x4000_0000));
    // the offset of a later child must stay below 2^30
    assert!(GreenNode::can_hold(&vec![half.clone(), half.clone()]));
    assert!(GreenNode::can_hold(&vec![half.clone(), whole.clone()]));
    assert!(!GreenNode::can_hold(&vec![whole.clone(), token(1, "")]));
    assert!(!GreenNode::can_hold(&vec![half.clone(), half.clone(), token(1, "")]));
    // the first child is not bound by that, and the last one may end anywhere
    assert!(GreenNode::can_hold(&vec![whole.clone()]));
    let long = GreenNode::new(SyntaxKind(1), vec![half.clone(), whole.clone()]);
    assert_eq!(long.text_len(), TextSize::new(0x6000_0000));
    let mut walk = long.children_ext();
    assert_eq!(walk.nth(1).map(|(_, offset)| offset), Some(TextSize::new(0x2000_0000)));
    // and the sum must fit into 32 bits
    let longest = GreenNode::new(
        SyntaxKind(1),
        vec![token(1, "abc"), NodeOrToken::Node(long.clone())],
    );
    assert_eq!(longest.text_len(), TextSize::new(0x6000_0003));
    assert!(GreenNode::can_hold(&vec![half.clone(), NodeOrToken::Node(long.clone())]));
    let nested = NodeOrToken::Node(GreenNode::new(
        SyntaxKind(1),
        vec![half.clone(), NodeOrToken::Node(long.clone())],
    ));
    assert_eq!(nested.text_len(), TextSize::new(0x8000_0000));
    let more = NodeOrToken::Node(GreenNode::new(SyntaxKind(1), vec![half.clone(), nested]));
    let more = NodeOrToken::Node(GreenNode::new(SyntaxKind(1), vec![half.clone(), more]));
    let more = NodeOrToken::Node(GreenNode::new(SyntaxKind(1), vec![half.clone(), more]));
    assert_eq!(more.text_len(), TextSize::new(0xe000_0000));
    assert!(!GreenNode::can_hold(&vec![half, more]));
}

fn is_send_and_sync<T: Send + Sync>(_: &T) -> bool {
    true
}

#[test]
fn nodes_go_from_thread_to_thread() {
    assert!(is_send_and_sync(&sum()));
    assert!(is_send_and_sync(&GreenToken::new(SyntaxKind(1), "a")));
}

#[test]
fn edited_nodes_share_the_other_children() {
    let base = sum();
    let edited = base.replace_child(0, token(1, "7"));
    let place = |node: &GreenNode| match node.children().nth(1) {
        Some(NodeOrToken::Token(leaf)) => leaf.text().as_ptr(),
        _ => panic!("the second child is a token"),
    };
    assert_eq!(place(&base), place(&edited));
    assert_eq!(edited.to_string(), "7 + (2*3)");
}
