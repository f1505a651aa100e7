use green_tree::{GreenNode, SyntaxKind};

#[test]
fn live_nodes_are_counted() {
    countme::enable(true);
    let before = countme::get::<GreenNode>();
    let a = GreenNode::new(SyntaxKind(1), vec![]);
    let b = GreenNode::new(SyntaxKind(2), vec![]);
    assert_eq!(countme::get::<GreenNode>().live, before.live + 2);
    // a clone shares the node
    let c = a.clone();
    assert_eq!(countme::get::<GreenNode>().live, before.live + 2);
    drop(a);
    assert_eq!(countme::get::<GreenNode>().live, before.live + 2);
    drop(c);
    assert_eq!(countme::get::<GreenNode>().live, before.live + 1);
    // the clone of a head is counted
    let head = b.header().clone();
    assert_eq!(countme::get::<GreenNode>().live, before.live + 2);
    drop(head);
    drop(b);
    assert_eq!(countme::get::<GreenNode>().live, before.live);
    assert_eq!(countme::get::<GreenNode>().total, before.total + 3);
}
