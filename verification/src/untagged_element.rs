//! Children whose tag is kept apart from them.

use vstd::prelude::*;
use crate::element::{GreenElement, GreenElementRef, NodeOrToken};
use crate::model::ElementTree;
use crate::node::{GreenNode, GreenNodeData};
use crate::tag::ElementTag;
use crate::token::{GreenToken, GreenTokenData};

verus! {

broadcast use {crate::node::lemma_data_view, crate::node::lemma_node_view};

/// A child without the tag that says whether it is a node or a token. Whoever
/// holds it keeps the tag elsewhere.
pub struct UntaggedElement {
    pub(crate) node: Option<GreenNodeData>,
    pub(crate) token: Option<GreenTokenData>,
}

/// What a tag says of an untagged element, for the rest of the crate.
pub(crate) broadcast proof fn lemma_tagged(untagged: UntaggedElement, tag: ElementTag)
    ensures
        #[trigger] untagged.tagged(tag) == crate::repr::has_tag(untagged, tag),
{
}

pub(crate) broadcast proof fn lemma_tree(untagged: UntaggedElement, tag: ElementTag)
    ensures
        #[trigger] untagged.tree(tag) == crate::repr::untagged_tree(untagged, tag),
{
}

/// What an untagged element holds, for the rest of the crate.
pub(crate) broadcast proof fn lemma_held_node(untagged: UntaggedElement)
    ensures
        #[trigger] untagged.held_node() == untagged.node,
{
}

pub(crate) broadcast proof fn lemma_held_token(untagged: UntaggedElement)
    ensures
        #[trigger] untagged.held_token() == untagged.token,
{
}

impl UntaggedElement {
    /// Whether `tag` is the correct tag of this element.
    pub closed spec fn tagged(self, tag: ElementTag) -> bool {
        crate::repr::has_tag(self, tag)
    }

    /// The child that this is under `tag`.
    pub closed spec fn tree(self, tag: ElementTag) -> ElementTree {
        crate::repr::untagged_tree(self, tag)
    }

    /// The node that this holds, if it holds one.
    pub closed spec fn held_node(self) -> Option<GreenNodeData> {
        self.node
    }

    /// The token that this holds, if it holds one.
    pub closed spec fn held_token(self) -> Option<GreenTokenData> {
        self.token
    }

    /// Takes the tag off a child.
    #[must_use]
    pub fn from_element(el: GreenElement) -> (parts: (ElementTag, UntaggedElement))
        ensures
            parts.0 == ElementTag::of(el@),
            parts.1.tagged(parts.0),
            parts.1.tree(parts.0) == el@,
            match el {
                NodeOrToken::Node(node) => {
                    &&& parts.1.held_node() == Some(node.behind())
                    &&& parts.1.held_token() is None
                },
                NodeOrToken::Token(token) => {
                    &&& parts.1.held_node() is None
                    &&& parts.1.held_token() == Some(token.behind())
                },
            },
    {
        match el {
            NodeOrToken::Node(node) => (
                ElementTag::Node,
                UntaggedElement { node: Some(GreenNode::into_raw(node)), token: None },
            ),
            NodeOrToken::Token(token) => (
                ElementTag::Token,
                UntaggedElement { node: None, token: Some(GreenToken::into_raw(token)) },
            ),
        }
    }

    /// Puts the tag back on. `tag` must be the correct tag.
    pub fn into_element(self, tag: ElementTag) -> (el: GreenElement)
        requires
            self.tagged(tag),
        ensures
            el@ == self.tree(tag),
            ElementTag::of(el@) == tag,
            match el {
                NodeOrToken::Node(node) => self.held_node() == Some(node.behind()),
                NodeOrToken::Token(token) => self.held_token() == Some(token.behind()),
            },
    {
        match tag {
            ElementTag::Node => NodeOrToken::Node(GreenNode::from_raw(self.node.unwrap())),
            ElementTag::Token => NodeOrToken::Token(GreenToken::from_raw(self.token.unwrap())),
        }
    }

    /// The child, borrowed. `tag` must be the correct tag.
    pub fn as_element_ref<'a>(&'a self, tag: ElementTag) -> (el: GreenElementRef<'a>)
        requires
            self.tagged(tag),
        ensures
            el@ == self.tree(tag),
            ElementTag::of(el@) == tag,
            match el {
                NodeOrToken::Node(node) => self.held_node() == Some(*node),
                NodeOrToken::Token(token) => self.held_token() == Some(*token),
            },
    {
        match tag {
            ElementTag::Node => NodeOrToken::Node(self.node.as_ref().unwrap()),
            ElementTag::Token => NodeOrToken::Token(self.token.as_ref().unwrap()),
        }
    }
}

} // verus!
