use green_tree::tag::{pack, REL_OFFSET_LIMIT, TAG_BITS, TAG_MASK};
use green_tree::{
    ElementTag, GreenChild, GreenChildCompact, GreenElement, GreenNode, GreenToken, NodeOrToken,
    SyntaxKind, TextRange, TextSize, UntaggedElement,
};

fn token(kind: u16, text: &str) -> GreenElement {
    NodeOrToken::Token(GreenToken::new(SyntaxKind(kind), text))
}

fn node(kind: u16, children: Vec<GreenElement>) -> GreenElement {
    NodeOrToken::Node(GreenNode::new(SyntaxKind(kind), children))
}

#[test]
fn tags_have_numbers() {
    assert_eq!(ElementTag::Node.to_number(), 0);
    assert_eq!(ElementTag::Token.to_number(), 1);
}

#[test]
fn word_holds_tag_and_offset() {
    assert_eq!(pack(ElementTag::Node, TextSize::new(0)), 0);
    assert_eq!(pack(ElementTag::Token, TextSize::new(0)), 1);
    assert_eq!(pack(ElementTag::Node, TextSize::new(5)), 20);
    assert_eq!(pack(ElementTag::Token, TextSize::new(5)), 21);
    let word = pack(ElementTag::Token, TextSize::new(REL_OFFSET_LIMIT - 1));
    assert_eq!(word, 0xffff_fffd);
    assert_eq!(word & TAG_MASK, 1);
    assert_eq!(word >> TAG_BITS, REL_OFFSET_LIMIT - 1);
    assert_eq!(REL_OFFSET_LIMIT, 1 << (32 - TAG_BITS));
    assert_eq!(TAG_MASK, (1 << TAG_BITS) - 1);
}

#[test]
fn untagged_elements_keep_what_they_are() {
    for el in vec![token(1, "a"), node(2, vec![token(1, "b")])] {
        let is_node = matches!(el, NodeOrToken::Node(_));
        let (tag, untagged) = UntaggedElement::from_element(el.clone());
        assert_eq!(tag, if is_node { ElementTag::Node } else { ElementTag::Token });
        assert!(untagged.as_element_ref(tag).to_owned() == el);
        assert!(untagged.into_element(tag) == el);
    }
}

#[test]
fn stored_child_tells_its_place() {
    let child = GreenChild::new(TextSize::new(7), token(1, "abc"));
    assert!(child.as_ref().to_owned() == token(1, "abc"));
    assert_eq!(child.rel_offset(), TextSize::new(7));
    assert_eq!(child.rel_range(), TextRange::new(TextSize::new(7), TextSize::new(10)));
    assert!(child.clone() == child);
    assert!(child != GreenChild::new(TextSize::new(8), token(1, "abc")));
    assert!(child != GreenChild::new(TextSize::new(7), token(1, "abd")));
    assert!(child != GreenChild::new(TextSize::new(7), node(1, vec![token(1, "abc")])));
}

#[test]
fn compact_child_tells_its_place() {
    for el in vec![token(1, "abc"), node(2, vec![token(1, "abc")])] {
        let child = GreenChildCompact::new(TextSize::new(7), el.clone());
        assert!(child.as_ref().to_owned() == el);
        assert_eq!(child.rel_offset(), TextSize::new(7));
        assert_eq!(child.rel_range(), TextRange::new(TextSize::new(7), TextSize::new(10)));
    }
    let far = GreenChildCompact::new(TextSize::new(REL_OFFSET_LIMIT - 1), token(1, "a"));
    assert_eq!(far.rel_offset(), TextSize::new(REL_OFFSET_LIMIT - 1));
    assert!(far.as_ref().to_owned() == token(1, "a"));
}

#[test]
fn dropped_child_holds_no_offset() {
    for el in vec![token(1, "abc"), node(2, vec![token(1, "abc")])] {
        let mut child = GreenChildCompact::new(TextSize::new(7), el);
        child.drop_underlying();
        // every bit of the word is set
        assert_eq!(child.rel_offset(), TextSize::new(REL_OFFSET_LIMIT - 1));
    }
}
