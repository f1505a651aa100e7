use green_tree::{
    ChildrenExt, GreenElement, GreenElementRef, GreenNode, GreenToken, NodeOrToken, SyntaxKind,
    TextSize,
};

fn token(kind: u16, text: &str) -> GreenElement {
    NodeOrToken::Token(GreenToken::new(SyntaxKind(kind), text))
}

fn letters() -> Vec<GreenElement> {
    vec![token(1, "a"), token(1, "bb"), token(1, ""), token(1, "ccc"), token(1, "d")]
}

fn both_forms() -> Vec<GreenNode> {
    vec![
        GreenNode::new(SyntaxKind(0), letters()),
        GreenNode::new_thin(SyntaxKind(0), letters()),
    ]
}

fn text(child: GreenElementRef<'_>) -> String {
    match child {
        NodeOrToken::Node(node) => node.to_string(),
        NodeOrToken::Token(token) => token.text().to_string(),
    }
}

fn step(item: Option<(GreenElementRef<'_>, TextSize)>) -> Option<(String, u32)> {
    item.map(|(child, offset)| (text(child), offset.raw()))
}

fn at(text: &str, offset: u32) -> Option<(String, u32)> {
    Some((text.to_string(), offset))
}

#[test]
fn walk_comes_to_each_child_with_its_offset() {
    for node in both_forms() {
        let mut walk = node.children_ext();
        assert_eq!(walk.len(), 5);
        assert_eq!(walk.size_hint(), (5, Some(5)));
        assert_eq!(step(walk.next()), at("a", 0));
        assert_eq!(step(walk.next()), at("bb", 1));
        assert_eq!(step(walk.next()), at("", 3));
        assert_eq!(walk.len(), 2);
        assert_eq!(step(walk.next()), at("ccc", 3));
        assert_eq!(step(walk.next()), at("d", 6));
        assert_eq!(walk.size_hint(), (0, Some(0)));
        assert_eq!(step(walk.next()), None);
        assert_eq!(step(walk.next()), None);
        assert_eq!(step(walk.next_back()), None);
        assert_eq!(step(walk.nth(0)), None);
    }
}

#[test]
fn walk_from_the_back_comes_to_the_same_children() {
    for node in both_forms() {
        let mut walk = node.children_ext();
        assert_eq!(step(walk.next_back()), at("d", 6));
        assert_eq!(step(walk.next_back()), at("ccc", 3));
        assert_eq!(step(walk.next()), at("a", 0));
        assert_eq!(walk.len(), 2);
        assert_eq!(step(walk.next_back()), at("", 3));
        assert_eq!(step(walk.next_back()), at("bb", 1));
        assert_eq!(step(walk.next_back()), None);
        assert_eq!(step(walk.next()), None);
    }
}

#[test]
fn first_child_is_the_last_one_from_the_back() {
    for node in both_forms() {
        let mut walk = node.children_ext();
        for _ in 0..4 {
            assert!(walk.next_back().is_some());
        }
        assert_eq!(walk.len(), 1);
        assert_eq!(step(walk.next_back()), at("a", 0));
        assert_eq!(step(walk.next_back()), None);
    }
}

#[test]
fn nth_passes_over_children() {
    for node in both_forms() {
        let mut walk = node.children_ext();
        assert_eq!(step(walk.nth(0)), at("a", 0));
        assert_eq!(step(walk.nth(1)), at("", 3));
        assert_eq!(step(walk.nth(1)), at("d", 6));
        assert_eq!(walk.len(), 0);
        let mut walk = node.children_ext();
        assert_eq!(step(walk.nth(3)), at("ccc", 3));
        assert_eq!(walk.len(), 1);
        let mut walk = node.children_ext();
        assert_eq!(step(walk.nth(5)), None);
        assert_eq!(step(walk.next()), None);
        let mut walk = node.children_ext();
        assert_eq!(step(walk.nth(usize::MAX)), None);
        assert_eq!(walk.len(), 0);
    }
}

#[test]
fn nth_back_passes_over_children_from_the_back() {
    for node in both_forms() {
        let mut walk = node.children_ext();
        assert_eq!(step(walk.nth_back(1)), at("ccc", 3));
        assert_eq!(step(walk.nth_back(0)), at("", 3));
        assert_eq!(step(walk.nth_back(1)), at("a", 0));
        assert_eq!(step(walk.nth_back(0)), None);
        let mut walk = node.children_ext();
        assert_eq!(step(walk.nth_back(4)), at("a", 0));
        let mut walk = node.children_ext();
        assert_eq!(step(walk.nth_back(5)), None);
        assert_eq!(walk.len(), 0);
        let mut walk = node.children_ext();
        assert_eq!(step(walk.nth_back(usize::MAX)), None);
        assert_eq!(step(walk.next()), None);
    }
}

#[test]
fn nth_is_as_many_steps() {
    for node in both_forms() {
        for n in 0..7 {
            let mut jump = node.children_ext();
            let mut steps = node.children_ext();
            for _ in 0..n {
                let _ = steps.next();
            }
            assert_eq!(step(jump.nth(n)), step(steps.next()));
            assert_eq!(jump.len(), steps.len());
            let mut jump = node.children_ext();
            let mut steps = node.children_ext();
            for _ in 0..n {
                let _ = steps.next_back();
            }
            assert_eq!(step(jump.nth_back(n)), step(steps.next_back()));
            assert_eq!(jump.len(), steps.len());
        }
    }
}

#[test]
fn count_and_last_use_up_the_walk() {
    for node in both_forms() {
        assert_eq!(node.children_ext().count(), 5);
        assert_eq!(step(node.children_ext().last()), at("d", 6));
        let mut walk = node.children_ext();
        let _ = walk.nth(3);
        let _ = walk.next_back();
        assert_eq!(walk.clone().count(), 0);
        assert_eq!(step(walk.last()), None);
    }
    assert_eq!(step(GreenNode::new(SyntaxKind(0), vec![token(1, "z")]).children_ext().last()), at("z", 0));
}

#[test]
fn fold_goes_from_the_front() {
    for node in both_forms() {
        let mut walk = node.children_ext();
        let _ = walk.next();
        let seen = walk.fold(String::from("<"), |mut seen: String, (child, offset)| {
            seen.push_str(&text(child));
            seen.push_str(&offset.raw().to_string());
            seen
        });
        assert_eq!(seen, "<bb13ccc3d6");
    }
    let nothing = ChildrenExt::empty().fold(7, |_, _| 8);
    assert_eq!(nothing, 7);
}

#[test]
fn empty_walk_has_no_children() {
    let mut walk = ChildrenExt::empty();
    assert_eq!(walk.len(), 0);
    assert_eq!(step(walk.next()), None);
    assert_eq!(step(walk.next_back()), None);
    assert_eq!(step(walk.nth(0)), None);
    assert_eq!(step(walk.nth_back(0)), None);
    assert_eq!(walk.count(), 0);
}

#[test]
fn clone_of_a_walk_goes_its_own_way() {
    for node in both_forms() {
        let mut walk = node.children_ext();
        let _ = walk.next();
        let mut other = walk.clone();
        assert_eq!(step(walk.next()), at("bb", 1));
        assert_eq!(step(walk.next()), at("", 3));
        assert_eq!(step(other.next()), at("bb", 1));
        assert_eq!(other.len(), 3);
        assert_eq!(walk.len(), 2);
    }
}

#[test]
fn children_leave_the_offsets_out() {
    for node in both_forms() {
        let mut walk = node.children();
        assert_eq!(walk.len(), 5);
        assert_eq!(walk.next().map(text), Some("a".to_string()));
        assert_eq!(walk.next_back().map(text), Some("d".to_string()));
        let mut other = walk.clone();
        assert_eq!(walk.nth(1).map(text), Some("".to_string()));
        assert_eq!(walk.next().map(text), Some("ccc".to_string()));
        assert_eq!(walk.next().map(text), None);
        assert_eq!(other.next().map(text), Some("bb".to_string()));
    }
}

#[test]
fn children_can_be_taken_from_the_back() {
    for node in both_forms() {
        let mut walk = node.children();
        assert_eq!(walk.nth_back(1).map(text), Some("ccc".to_string()));
        assert_eq!(walk.len(), 3);
        assert_eq!(walk.clone().last().map(text), Some("".to_string()));
        assert_eq!(walk.nth_back(3).map(text), None);
        assert_eq!(walk.len(), 0);
        assert_eq!(walk.last().map(text), None);
        assert_eq!(node.children().last().map(text), Some("d".to_string()));
    }
}

#[test]
fn fold_takes_functions_with_a_state() {
    for node in both_forms() {
        let mut offsets = Vec::new();
        let letters = node.children_ext().fold(0, |sum: usize, (child, offset)| {
            offsets.push(offset.raw());
            sum + text(child).len()
        });
        assert_eq!(letters, 7);
        assert_eq!(offsets, vec![0, 1, 3, 3, 6]);
    }
}
