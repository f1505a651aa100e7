use std::collections::hash_map::DefaultHasher;
use std::hash::{Hash, Hasher};

use green_tree::hashing::{feed_item, HashItem};
use green_tree::{
    ElementTag, GreenElement, GreenNode, GreenNodeData, GreenToken, NodeOrToken, SyntaxKind,
    TextSize,
};

fn token(kind: u16, text: &str) -> GreenElement {
    NodeOrToken::Token(GreenToken::new(SyntaxKind(kind), text))
}

fn node(kind: u16, children: Vec<GreenElement>) -> GreenElement {
    NodeOrToken::Node(GreenNode::new(SyntaxKind(kind), children))
}

fn hash<T: Hash + ?Sized>(value: &T) -> u64 {
    let mut hasher = DefaultHasher::new();
    value.hash(&mut hasher);
    hasher.finish()
}

fn children() -> Vec<GreenElement> {
    vec![token(1, "a"), node(2, vec![token(1, "b")]), token(3, "")]
}

#[test]
fn equal_nodes_have_equal_hashes() {
    let compact = GreenNode::new(SyntaxKind(9), children());
    let thin = GreenNode::new_thin(SyntaxKind(9), children());
    assert_eq!(hash(&compact), hash(&thin));
    assert_eq!(hash(&compact), hash(&compact.clone()));
    assert_eq!(hash(compact.header()), hash(thin.header()));
    let data: &GreenNodeData = &compact;
    assert_eq!(hash(&compact), hash(data));
    assert!(data == &*thin);
}

#[test]
fn other_nodes_have_other_hashes() {
    let base = GreenNode::new(SyntaxKind(9), children());
    assert_ne!(hash(&base), hash(&GreenNode::new(SyntaxKind(8), children())));
    assert_ne!(hash(&base), hash(&base.remove_child(1)));
    assert_ne!(hash(&base), hash(&base.replace_child(0, token(1, "c"))));
    assert_ne!(hash(&base), hash(&base.replace_child(0, token(2, "a"))));
}

#[test]
fn node_hands_over_its_kind_and_its_children() {
    let base = GreenNode::new(SyntaxKind(9), children());
    let mut hasher = DefaultHasher::new();
    SyntaxKind(9).hash(&mut hasher);
    for child in children() {
        child.hash(&mut hasher);
    }
    assert_eq!(hash(&base), hasher.finish());
}

#[test]
fn head_hands_over_its_kind_its_length_and_the_first_child() {
    let base = GreenNode::new(SyntaxKind(9), children());
    let mut hasher = DefaultHasher::new();
    SyntaxKind(9).hash(&mut hasher);
    base.text_len().hash(&mut hasher);
    base.header().first_ref().hash(&mut hasher);
    assert_eq!(hash(base.header()), hasher.finish());
    let empty = GreenNode::new(SyntaxKind(9), vec![]);
    let mut hasher = DefaultHasher::new();
    SyntaxKind(9).hash(&mut hasher);
    empty.text_len().hash(&mut hasher);
    empty.header().first_ref().hash(&mut hasher);
    assert_eq!(hash(empty.header()), hasher.finish());
}

#[test]
fn token_hands_over_its_kind_and_its_text() {
    let leaf = GreenToken::new(SyntaxKind(4), "abc");
    let mut hasher = DefaultHasher::new();
    SyntaxKind(4).hash(&mut hasher);
    "abc".hash(&mut hasher);
    assert_eq!(hash(&leaf), hasher.finish());
}

#[test]
fn hash_items_are_told_one_by_one() {
    let base = GreenNode::new(SyntaxKind(9), vec![token(1, "a"), node(2, vec![token(3, "b")])]);
    let items = base.hash_items();
    assert_eq!(items.len(), 9);
    assert!(matches!(items[0], HashItem::Kind(SyntaxKind(9))));
    assert!(matches!(items[1], HashItem::Tag(ElementTag::Token)));
    assert!(matches!(items[2], HashItem::Kind(SyntaxKind(1))));
    assert!(matches!(items[3], HashItem::Text("a")));
    assert!(matches!(items[4], HashItem::Tag(ElementTag::Node)));
    assert!(matches!(items[5], HashItem::Kind(SyntaxKind(2))));
    assert!(matches!(items[6], HashItem::Tag(ElementTag::Token)));
    assert!(matches!(items[7], HashItem::Kind(SyntaxKind(3))));
    assert!(matches!(items[8], HashItem::Text("b")));
    let head = base.header().hash_items();
    assert_eq!(head.len(), 6);
    assert!(matches!(head[1], HashItem::Len(len) if len.raw() == 2));
    assert!(matches!(head[2], HashItem::Present(true)));
    assert!(matches!(head[5], HashItem::Text("a")));
    let empty = GreenNode::new(SyntaxKind(9), vec![]);
    assert!(matches!(empty.header().hash_items()[2], HashItem::Present(false)));
    assert_eq!(GreenToken::new(SyntaxKind(1), "a").hash_items().len(), 2);
}

fn fed(item: HashItem<'_>) -> u64 {
    let mut hasher = DefaultHasher::new();
    feed_item(&item, &mut hasher);
    hasher.finish()
}

#[test]
fn each_item_is_handed_over_as_a_number_or_a_text() {
    assert_eq!(fed(HashItem::Kind(SyntaxKind(5))), hash(&5u16));
    assert_eq!(fed(HashItem::Len(TextSize::new(7))), hash(&7u32));
    assert_eq!(fed(HashItem::Present(true)), hash(&1isize));
    assert_eq!(fed(HashItem::Present(false)), hash(&0isize));
    assert_eq!(fed(HashItem::Tag(ElementTag::Node)), hash(&0isize));
    assert_eq!(fed(HashItem::Tag(ElementTag::Token)), hash(&1isize));
    assert_eq!(fed(HashItem::Text("abc")), hash("abc"));
}

#[test]
fn head_clones_have_equal_hashes() {
    let base = GreenNode::new(SyntaxKind(9), children());
    assert_eq!(hash(base.header()), hash(&base.header().clone()));
    let other = GreenNode::new(SyntaxKind(9), vec![]);
    assert_ne!(hash(base.header()), hash(other.header()));
}
