use green_tree::{
    child_range, GreenElement, GreenNode, GreenToken, NodeOrToken, RangeEdge, SyntaxKind, TextSize,
};

fn token(kind: u16, text: &str) -> GreenElement {
    NodeOrToken::Token(GreenToken::new(SyntaxKind(kind), text))
}

fn tokens(texts: &[&str]) -> Vec<GreenElement> {
    texts.iter().map(|text| token(1, text)).collect()
}

fn line(texts: &[&str]) -> GreenNode {
    GreenNode::new(SyntaxKind(5), tokens(texts))
}

#[test]
fn replace_child_replaces_one_child() {
    let node = line(&["a", "b", "c"]);
    assert!(node.replace_child(0, token(1, "xyz")) == line(&["xyz", "b", "c"]));
    assert!(node.replace_child(1, token(1, "")) == line(&["a", "", "c"]));
    assert!(node.replace_child(2, token(1, "x")) == line(&["a", "b", "x"]));
    assert_eq!(node.replace_child(0, token(1, "xyz")).text_len(), TextSize::new(5));
    assert_eq!(node.to_string(), "abc");
}

#[test]
fn replace_child_past_the_end_changes_nothing() {
    let node = line(&["a", "b", "c"]);
    assert!(node.replace_child(3, token(1, "x")) == node);
    assert!(node.replace_child(usize::MAX, token(1, "x")) == node);
    let empty = line(&[]);
    assert!(empty.replace_child(0, token(1, "x")) == empty);
}

#[test]
fn replace_child_can_be_undone() {
    let node = line(&["a", "b", "c"]);
    let other = node.replace_child(1, token(1, "x"));
    assert!(other != node);
    assert!(other.replace_child(1, token(1, "b")) == node);
    assert!(other.replace_child(1, token(1, "y")) == line(&["a", "y", "c"]));
    assert!(
        node.replace_child(0, token(1, "x")).replace_child(2, token(1, "y"))
            == node.replace_child(2, token(1, "y")).replace_child(0, token(1, "x"))
    );
}

#[test]
fn insert_child_moves_the_others() {
    let node = line(&["a", "b"]);
    assert!(node.insert_child(0, token(1, "x")) == line(&["x", "a", "b"]));
    assert!(node.insert_child(1, token(1, "x")) == line(&["a", "x", "b"]));
    assert!(node.insert_child(2, token(1, "x")) == line(&["a", "b", "x"]));
    assert!(line(&[]).insert_child(0, token(1, "x")) == line(&["x"]));
}

#[test]
fn remove_child_leaves_the_others() {
    let node = line(&["a", "bb", "c"]);
    assert!(node.remove_child(0) == line(&["bb", "c"]));
    assert!(node.remove_child(1) == line(&["a", "c"]));
    assert!(node.remove_child(2) == line(&["a", "bb"]));
    assert_eq!(node.remove_child(1).text_len(), TextSize::new(2));
    assert!(line(&["a"]).remove_child(0) == line(&[]));
}

#[test]
fn insert_and_remove_undo_each_other() {
    let node = line(&["a", "b", "c"]);
    for i in 0..=3 {
        assert!(node.insert_child(i, token(1, "x")).remove_child(i) == node);
    }
    for (i, text) in ["a", "b", "c"].iter().enumerate() {
        assert!(node.remove_child(i).insert_child(i, token(1, text)) == node);
    }
}

#[test]
fn splice_children_replaces_a_range() {
    let node = line(&["a", "b", "c", "d"]);
    assert!(node.splice_children(1..3, tokens(&["x", "y", "z"])) == line(&["a", "x", "y", "z", "d"]));
    assert!(node.splice_children(0..4, tokens(&[])) == line(&[]));
    assert!(node.splice_children(0..0, tokens(&["x"])) == line(&["x", "a", "b", "c", "d"]));
    assert!(node.splice_children(4..4, tokens(&["x"])) == line(&["a", "b", "c", "d", "x"]));
    assert!(node.splice_children(2..2, tokens(&[])) == node);
    assert!(node.splice_children(1..3, tokens(&["b", "c"])) == node);
    assert!(
        node.splice_children(1..3, tokens(&["x"])).splice_children(1..2, tokens(&["b", "c"]))
            == node
    );
}

#[test]
fn splice_children_moves_the_offsets_behind_it() {
    let node = line(&["a", "bb", "ccc", "d"]);
    let after = node.splice_children(1..2, tokens(&["xxxx", "y"]));
    let mut offsets = Vec::new();
    let mut walk = after.children_ext();
    while let Some((_, offset)) = walk.next() {
        offsets.push(offset.raw());
    }
    assert_eq!(offsets, vec![0, 1, 5, 6, 9]);
    assert_eq!(after.text_len(), TextSize::new(10));
    assert_eq!(after.to_string(), "axxxxycccd");
}

#[test]
fn edits_keep_the_kind_and_make_compact_nodes() {
    let thin = GreenNode::new_thin(SyntaxKind(5), tokens(&["a", "b"]));
    let compact = line(&["a", "b"]);
    let edited = vec![
        thin.replace_child(0, token(1, "x")),
        thin.insert_child(0, token(1, "x")),
        thin.remove_child(0),
        thin.splice_children(0..1, tokens(&["x", "y"])),
    ];
    let same = vec![
        compact.replace_child(0, token(1, "x")),
        compact.insert_child(0, token(1, "x")),
        compact.remove_child(0),
        compact.splice_children(0..1, tokens(&["x", "y"])),
    ];
    assert!(edited == same);
    for node in edited {
        assert_eq!(node.kind(), SyntaxKind(5));
        assert!(node.header().compact());
    }
}

#[test]
fn lists_of_children_can_be_had_before_the_node() {
    let node = line(&["a", "b", "c"]);
    assert!(node.replaced_children(1, token(1, "x")) == tokens(&["a", "x", "c"]));
    assert!(node.replaced_children(3, token(1, "x")) == tokens(&["a", "b", "c"]));
    assert!(node.spliced_children(0..2, tokens(&["x"])) == tokens(&["x", "c"]));
}

#[test]
fn ranges_are_written_in_several_ways() {
    assert_eq!(child_range(RangeEdge::Included(1), RangeEdge::Excluded(3), 4), Some(1..3));
    assert_eq!(child_range(RangeEdge::Included(1), RangeEdge::Included(3), 4), Some(1..4));
    assert_eq!(child_range(RangeEdge::Excluded(1), RangeEdge::Unbounded, 4), Some(2..4));
    assert_eq!(child_range(RangeEdge::Unbounded, RangeEdge::Unbounded, 0), Some(0..0));
    assert_eq!(child_range(RangeEdge::Included(4), RangeEdge::Unbounded, 4), Some(4..4));
    assert_eq!(child_range(RangeEdge::Included(5), RangeEdge::Unbounded, 4), None);
    assert_eq!(child_range(RangeEdge::Unbounded, RangeEdge::Included(4), 4), None);
    assert_eq!(child_range(RangeEdge::Included(3), RangeEdge::Excluded(2), 4), None);
    assert_eq!(child_range(RangeEdge::Excluded(usize::MAX), RangeEdge::Unbounded, 4), None);
    assert_eq!(child_range(RangeEdge::Unbounded, RangeEdge::Included(usize::MAX), 4), None);
}
