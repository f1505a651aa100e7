//! The text below a node.

use vstd::prelude::*;
use crate::element::{GreenElementRef, NodeOrToken};
use crate::model;
use crate::node::{GreenNode, GreenNodeData};

verus! {

/// Writes the text below a child.
fn write_element(element: GreenElementRef<'_>, out: &mut String)
    ensures
        final(out)@ == old(out)@ + model::element_text(element@),
    decreases element@,
{
    match element {
        NodeOrToken::Node(node) => {
            assert(decreases_to!(element@ => element@->Node_0));
            write_node(node, out);
        },
        NodeOrToken::Token(token) => {
            out.append(token.text());
        },
    }
}

/// Writes the text below a node, child by child.
fn write_node(node: &GreenNodeData, out: &mut String)
    ensures
        final(out)@ == old(out)@ + model::node_text(node@),
    decreases node@,
{
    let ghost before = out@;
    let mut walk = node.children();
    let ghost mut i: int = 0;
    assert(out@ =~= before + model::text_before(node@.children, 0));
    loop
        invariant
            0 <= i <= node@.children.len(),
            walk@ == node@.children.skip(i),
            out@ == before + model::text_before(node@.children, i),
        ensures
            i == node@.children.len(),
        decreases walk@.len(),
    {
        match walk.next() {
            None => {
                break;
            },
            Some(child) => {
                assert(child@ == node@.children[i]);
                write_element(child, out);
                proof {
                    i = i + 1;
                    assert(out@ =~= before + model::text_before(node@.children, i));
                }
            },
        }
    }
}

impl GreenNodeData {
    /// The text below this node: that of its tokens, one after the other.
    pub fn to_string(&self) -> (text: String)
        ensures
            text@ == model::node_text(self@),
    {
        let mut text = String::new();
        write_node(self, &mut text);
        assert(text@ =~= model::node_text(self@));
        text
    }
}

impl GreenNode {
    /// The text below this node: that of its tokens, one after the other.
    pub fn to_string(&self) -> (text: String)
        ensures
            text@ == model::node_text(self@),
    {
        self.as_data().to_string()
    }
}

} // verus!
