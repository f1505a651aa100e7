use green_tree::{
    GreenElement, GreenNode, GreenToken, NodeOrToken, Placement, SyntaxKind, TextRange, TextSize,
};

fn token(kind: u16, text: &str) -> GreenElement {
    NodeOrToken::Token(GreenToken::new(SyntaxKind(kind), text))
}

fn both_forms(texts: &[&str]) -> Vec<GreenNode> {
    let children = |_: u8| texts.iter().map(|text| token(1, text)).collect::<Vec<_>>();
    vec![
        GreenNode::new(SyntaxKind(0), children(0)),
        GreenNode::new_thin(SyntaxKind(0), children(1)),
    ]
}

fn range(start: u32, end: u32) -> TextRange {
    TextRange::new(TextSize::new(start), TextSize::new(end))
}

/// The index and the offset of the child that covers a range.
fn found(node: &GreenNode, start: u32, end: u32) -> Option<(usize, u32)> {
    node.child_at_range(range(start, end)).map(|(i, offset, _)| (i, offset.raw()))
}

#[test]
fn own_range_finds_the_child() {
    for node in both_forms(&["ab", "cde", "f", "ghij"]) {
        assert_eq!(found(&node, 0, 2), Some((0, 0)));
        assert_eq!(found(&node, 2, 5), Some((1, 2)));
        assert_eq!(found(&node, 5, 6), Some((2, 5)));
        assert_eq!(found(&node, 6, 10), Some((3, 6)));
        match node.child_at_range(range(2, 5)) {
            Some((_, _, NodeOrToken::Token(leaf))) => assert_eq!(leaf.text(), "cde"),
            _ => panic!("the child is a token"),
        }
    }
}

#[test]
fn range_inside_a_child_finds_it() {
    for node in both_forms(&["ab", "cde", "f", "ghij"]) {
        assert_eq!(found(&node, 0, 1), Some((0, 0)));
        assert_eq!(found(&node, 1, 1), Some((0, 0)));
        assert_eq!(found(&node, 3, 4), Some((1, 2)));
        assert_eq!(found(&node, 3, 3), Some((1, 2)));
        assert_eq!(found(&node, 7, 9), Some((3, 6)));
        assert_eq!(found(&node, 8, 8), Some((3, 6)));
    }
}

#[test]
fn range_across_children_finds_nothing() {
    for node in both_forms(&["ab", "cde", "f", "ghij"]) {
        assert_eq!(found(&node, 0, 3), None);
        assert_eq!(found(&node, 1, 5), None);
        assert_eq!(found(&node, 4, 6), None);
        assert_eq!(found(&node, 0, 10), None);
        assert_eq!(found(&node, 5, 7), None);
    }
}

#[test]
fn range_past_the_end_finds_nothing() {
    for node in both_forms(&["ab", "cde"]) {
        assert_eq!(found(&node, 5, 6), None);
        assert_eq!(found(&node, 4, 6), None);
        assert_eq!(found(&node, 6, 6), None);
        assert_eq!(found(&node, 7, 9), None);
    }
    for node in both_forms(&["ab"]) {
        assert_eq!(found(&node, 2, 2), Some((0, 0)));
        assert_eq!(found(&node, 3, 3), None);
        assert_eq!(found(&node, 1, 3), None);
    }
}

#[test]
fn empty_range_between_children_finds_the_one_before_it() {
    for node in both_forms(&["ab", "cde", "f", "ghij"]) {
        assert_eq!(found(&node, 0, 0), Some((0, 0)));
        assert_eq!(found(&node, 2, 2), Some((0, 0)));
        assert_eq!(found(&node, 5, 5), Some((1, 2)));
        assert_eq!(found(&node, 6, 6), Some((2, 5)));
        assert_eq!(found(&node, 10, 10), Some((3, 6)));
    }
}

#[test]
fn empty_range_finds_the_last_child_that_ends_there() {
    for node in both_forms(&["a", "b", "", "", "c"]) {
        assert_eq!(found(&node, 1, 1), Some((0, 0)));
        assert_eq!(found(&node, 2, 2), Some((3, 2)));
        assert_eq!(found(&node, 3, 3), Some((4, 2)));
    }
    for node in both_forms(&["", "", "a", "", ""]) {
        assert_eq!(found(&node, 0, 0), Some((0, 0)));
        assert_eq!(found(&node, 0, 1), Some((2, 0)));
        assert_eq!(found(&node, 1, 1), Some((4, 1)));
    }
}

#[test]
fn node_without_children_finds_nothing() {
    for node in both_forms(&[]) {
        assert_eq!(found(&node, 0, 0), None);
        assert_eq!(found(&node, 0, 1), None);
    }
}

#[test]
fn each_offset_finds_a_child() {
    for node in both_forms(&["", "ab", "", "cde", "f", "", "ghij", ""]) {
        for offset in 0..=10 {
            assert!(found(&node, offset, offset).is_some());
        }
        for byte in 0..10 {
            let covering = [2, 5, 6, 10].iter().position(|end| byte < *end);
            let index = [1usize, 3, 4, 6];
            assert_eq!(
                found(&node, byte, byte + 1).map(|(i, _)| i),
                covering.map(|c| index[c]),
            );
        }
        assert_eq!(found(&node, 11, 11), None);
    }
}

#[test]
fn ranges_lie_before_after_or_over_each_other() {
    assert_eq!(range(0, 2).ordering(range(2, 3)), Placement::Before);
    assert_eq!(range(2, 3).ordering(range(0, 2)), Placement::After);
    assert_eq!(range(0, 3).ordering(range(2, 4)), Placement::Overlapping);
    assert_eq!(range(2, 2).ordering(range(2, 2)), Placement::Before);
    assert_eq!(range(2, 4).ordering(range(2, 2)), Placement::After);
    assert_eq!(range(1, 3).ordering(range(2, 2)), Placement::Overlapping);
}

#[test]
fn ranges_contain_their_ends() {
    assert!(range(1, 4).contains_range(range(1, 4)));
    assert!(range(1, 4).contains_range(range(1, 1)));
    assert!(range(1, 4).contains_range(range(4, 4)));
    assert!(!range(1, 4).contains_range(range(0, 2)));
    assert!(!range(1, 4).contains_range(range(3, 5)));
    assert_eq!(TextRange::at(TextSize::new(3), TextSize::new(4)), range(3, 7));
    assert_eq!(range(3, 7).start(), TextSize::new(3));
    assert_eq!(range(3, 7).end(), TextSize::new(7));
}

#[test]
fn found_child_is_the_one_of_the_walk() {
    for node in both_forms(&["", "äb", "", "c€d", "f"]) {
        let text = node.to_string();
        for (start, end) in [(0, 2), (2, 3), (3, 4), (4, 7), (7, 8), (8, 9), (5, 5), (9, 9)] {
            let (index, offset, child) = match node.child_at_range(range(start, end)) {
                Some(found) => found,
                None => panic!("some child covers the range"),
            };
            let mut walk = node.children_ext();
            let (walked, walked_offset) = match walk.nth(index) {
                Some(item) => item,
                None => panic!("the walk comes to the child"),
            };
            assert!(walked == child);
            assert_eq!(walked_offset, offset);
            let child_text = match child {
                NodeOrToken::Node(inner) => inner.to_string(),
                NodeOrToken::Token(leaf) => leaf.text().to_string(),
            };
            let from = (start - offset.raw()) as usize;
            let to = (end - offset.raw()) as usize;
            assert_eq!(
                &text.as_bytes()[start as usize..end as usize],
                &child_text.as_bytes()[from..to],
            );
        }
    }
}
