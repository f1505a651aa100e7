//! When two nodes, tokens or children are equal: when they are the same tree,
//! however each of them is stored.

use vstd::prelude::*;
use crate::child::{GreenChild, StoredChild};
use crate::element::{GreenElementRef, NodeOrToken};
use crate::head::GreenNodeHead;
use crate::node::{GreenNode, GreenNodeData};
use crate::text::TextSize;
use crate::token::{GreenToken, GreenTokenData};

verus! {

fn same_token(a: &GreenTokenData, b: &GreenTokenData) -> (same: bool)
    ensures
        same == (a@ == b@),
{
    a.kind() == b.kind() && same_text(a, b)
}

fn same_text(a: &GreenTokenData, b: &GreenTokenData) -> (same: bool)
    ensures
        same == (a@.text == b@.text),
{
    *a.owned_text() == *b.owned_text()
}

/// Whether two children are the same tree.
pub(crate) fn same_element(a: GreenElementRef<'_>, b: GreenElementRef<'_>) -> (same: bool)
    ensures
        same == (a@ == b@),
    decreases a@,
{
    match (a, b) {
        (NodeOrToken::Node(x), NodeOrToken::Node(y)) => {
            assert(decreases_to!(a@ => a@->Node_0));
            same_node(x, y)
        },
        (NodeOrToken::Token(x), NodeOrToken::Token(y)) => same_token(x, y),
        _ => false,
    }
}

/// Whether two nodes are the same tree: they have the same kind, as many
/// children, and the same children.
pub(crate) fn same_node(a: &GreenNodeData, b: &GreenNodeData) -> (same: bool)
    ensures
        same == (a@ == b@),
    decreases a@,
{
    if a.kind() != b.kind() {
        return false;
    }
    let mut left = a.children();
    let mut right = b.children();
    let ghost mut i: int = 0;
    loop
        invariant
            a@.kind == b@.kind,
            0 <= i <= a@.children.len(),
            i <= b@.children.len(),
            left@ == a@.children.skip(i),
            right@ == b@.children.skip(i),
            forall|j: int| 0 <= j < i ==> a@.children[j] == b@.children[j],
        decreases left@.len(),
    {
        match (left.next(), right.next()) {
            (None, None) => {
                assert(a@.children =~= b@.children);
                return true;
            },
            (Some(x), Some(y)) => {
                assert(x@ == a@.children[i] && y@ == b@.children[i]);
                if !same_element(x, y) {
                    return false;
                }
                proof {
                    i = i + 1;
                }
            },
            _ => {
                return false;
            },
        }
    }
}

impl PartialEq for GreenTokenData {
    fn eq(&self, other: &Self) -> (equal: bool) {
        same_token(self, other)
    }
}

impl vstd::std_specs::cmp::PartialEqSpecImpl for GreenTokenData {
    open spec fn obeys_eq_spec() -> bool {
        true
    }

    open spec fn eq_spec(&self, other: &Self) -> bool {
        self@ == other@
    }
}

impl Eq for GreenTokenData {

}

impl PartialEq for GreenToken {
    fn eq(&self, other: &Self) -> (equal: bool) {
        same_token(self.as_data(), other.as_data())
    }
}

impl vstd::std_specs::cmp::PartialEqSpecImpl for GreenToken {
    open spec fn obeys_eq_spec() -> bool {
        true
    }

    open spec fn eq_spec(&self, other: &Self) -> bool {
        self@ == other@
    }
}

impl Eq for GreenToken {

}

impl PartialEq for GreenNodeData {
    fn eq(&self, other: &Self) -> (equal: bool) {
        same_node(self, other)
    }
}

impl vstd::std_specs::cmp::PartialEqSpecImpl for GreenNodeData {
    open spec fn obeys_eq_spec() -> bool {
        true
    }

    open spec fn eq_spec(&self, other: &Self) -> bool {
        self@ == other@
    }
}

impl Eq for GreenNodeData {

}

impl PartialEq for GreenNode {
    fn eq(&self, other: &Self) -> (equal: bool) {
        same_node(self.as_data(), other.as_data())
    }
}

impl vstd::std_specs::cmp::PartialEqSpecImpl for GreenNode {
    open spec fn obeys_eq_spec() -> bool {
        true
    }

    open spec fn eq_spec(&self, other: &Self) -> bool {
        self@ == other@
    }
}

impl Eq for GreenNode {

}

impl PartialEq for GreenNodeHead {
    fn eq(&self, other: &Self) -> (equal: bool) {
        proof {
            TextSize::lemma_view_injective();
        }
        self.kind() == other.kind() && self.text_len() == other.text_len() && match (
            self.first_ref(),
            other.first_ref(),
        ) {
            (None, None) => true,
            (Some(a), Some(b)) => same_element(a, b),
            _ => false,
        }
    }
}

impl vstd::std_specs::cmp::PartialEqSpecImpl for GreenNodeHead {
    open spec fn obeys_eq_spec() -> bool {
        true
    }

    open spec fn eq_spec(&self, other: &Self) -> bool {
        &&& self@.kind == other@.kind
        &&& self@.text_len == other@.text_len
        &&& self@.first == other@.first
    }
}

impl Eq for GreenNodeHead {

}

impl PartialEq for GreenChild {
    fn eq(&self, other: &Self) -> (equal: bool) {
        proof {
            TextSize::lemma_view_injective();
        }
        self.rel_offset() == other.rel_offset() && same_element(self.as_ref(), other.as_ref())
    }
}

impl vstd::std_specs::cmp::PartialEqSpecImpl for GreenChild {
    open spec fn obeys_eq_spec() -> bool {
        true
    }

    open spec fn eq_spec(&self, other: &Self) -> bool {
        &&& self.offset() == other.offset()
        &&& self.element() == other.element()
    }
}

impl Eq for GreenChild {

}

impl PartialEq for NodeOrToken<GreenNode, GreenToken> {
    fn eq(&self, other: &Self) -> (equal: bool) {
        match (self, other) {
            (NodeOrToken::Node(a), NodeOrToken::Node(b)) => same_node(a.as_data(), b.as_data()),
            (NodeOrToken::Token(a), NodeOrToken::Token(b)) => same_token(a.as_data(), b.as_data()),
            _ => false,
        }
    }
}

impl vstd::std_specs::cmp::PartialEqSpecImpl for NodeOrToken<GreenNode, GreenToken> {
    open spec fn obeys_eq_spec() -> bool {
        true
    }

    open spec fn eq_spec(&self, other: &Self) -> bool {
        self@ == other@
    }
}

impl Eq for NodeOrToken<GreenNode, GreenToken> {

}

impl<'a> PartialEq for NodeOrToken<&'a GreenNodeData, &'a GreenTokenData> {
    fn eq(&self, other: &Self) -> (equal: bool) {
        same_element(*self, *other)
    }
}

impl<'a> vstd::std_specs::cmp::PartialEqSpecImpl for NodeOrToken<&'a GreenNodeData, &'a GreenTokenData> {
    open spec fn obeys_eq_spec() -> bool {
        true
    }

    open spec fn eq_spec(&self, other: &Self) -> bool {
        self@ == other@
    }
}

impl<'a> Eq for NodeOrToken<&'a GreenNodeData, &'a GreenTokenData> {

}

} // verus!
