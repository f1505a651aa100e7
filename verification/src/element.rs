//! Kinds of syntax, and children that are either nodes or tokens.

use vstd::prelude::*;
use crate::model;
use crate::model::{ElementTree, NodeTree, TokenTree};
use crate::node::{GreenNode, GreenNodeData};
use crate::text::TextSize;
use crate::token::{GreenToken, GreenTokenData};

verus! {

/// The kind of a node or a token. What each number stands for is up to the
/// language that the tree is a tree of.
#[derive(Debug, Clone, Copy, PartialEq, Eq, PartialOrd, Ord, Hash, Structural)]
pub struct SyntaxKind(pub u16);

/// Either a node or a token.
#[derive(Debug, Clone, Copy, Hash)]
pub enum NodeOrToken<N, T> {
    Node(N),
    Token(T),
}

/// A child of a node.
pub type GreenElement = NodeOrToken<GreenNode, GreenToken>;

/// A child of a node, borrowed from it.
pub type GreenElementRef<'a> = NodeOrToken<&'a GreenNodeData, &'a GreenTokenData>;

impl<N: View<V = NodeTree>, T: View<V = TokenTree>> View for NodeOrToken<N, T> {
    type V = ElementTree;

    open spec fn view(&self) -> ElementTree {
        match self {
            NodeOrToken::Node(node) => ElementTree::Node(node@),
            NodeOrToken::Token(token) => ElementTree::Token(token@),
        }
    }
}

/// What some children are.
pub open spec fn trees(elements: Seq<GreenElement>) -> Seq<ElementTree> {
    Seq::new(elements.len(), |i: int| elements[i]@)
}

impl NodeOrToken<GreenNode, GreenToken> {
    /// Returns the length of the text below this child.
    pub fn text_len(&self) -> (len: TextSize)
        ensures
            len@ == model::element_len(self@),
    {
        match self {
            NodeOrToken::Node(node) => node.as_data().text_len(),
            NodeOrToken::Token(token) => token.as_data().text_len(),
        }
    }
}

impl<'a> NodeOrToken<&'a GreenNodeData, &'a GreenTokenData> {
    /// Returns the length of the text below this child.
    pub fn text_len(self) -> (len: TextSize)
        ensures
            len@ == model::element_len(self@),
    {
        match self {
            NodeOrToken::Node(node) => node.text_len(),
            NodeOrToken::Token(token) => token.text_len(),
        }
    }

    /// The child as one that is owned.
    pub fn to_owned(self) -> (el: GreenElement)
        ensures
            el@ == self@,
            match self {
                NodeOrToken::Node(node) => el == GreenElement::Node(GreenNode::handle(*node)),
                NodeOrToken::Token(token) => el == GreenElement::Token(GreenToken::handle(*token)),
            },
    {
        match self {
            NodeOrToken::Node(node) => NodeOrToken::Node(node.to_owned()),
            NodeOrToken::Token(token) => NodeOrToken::Token(token.to_owned()),
        }
    }
}

} // verus!
