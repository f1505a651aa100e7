//! The fixed part of a node.

use vstd::prelude::*;
use crate::children;
use crate::element::{GreenElementRef, NodeOrToken, SyntaxKind};
use crate::model;
use crate::model::{ElementTree, NodeTree};
use crate::shared::NodeCount;
use crate::tag::ElementTag;
use crate::text::TextSize;
use crate::untagged_element::UntaggedElement;

verus! {

/// The fixed part of a node, with its first child.
pub struct GreenNodeHead {
    pub(crate) kind: SyntaxKind,
    pub(crate) text_len: TextSize,
    pub(crate) compact: bool,
    pub(crate) first_tag: ElementTag,
    pub(crate) first_ptr: Option<UntaggedElement>,
    pub(crate) _c: NodeCount,
}

/// What the fixed part of a node tells.
#[verifier::ext_equal]
pub struct HeadTree {
    pub kind: SyntaxKind,
    pub text_len: nat,
    pub compact: bool,
    pub first: Option<ElementTree>,
}

/// The fixed part of a node, told from its tree and from whether the tags and
/// offsets of its children share words.
pub open spec fn head_of(node: NodeTree, compact: bool) -> HeadTree {
    HeadTree {
        kind: node.kind,
        text_len: model::children_len(node.children),
        compact,
        first: children::first_of(node.children),
    }
}

impl View for GreenNodeHead {
    type V = HeadTree;

    closed spec fn view(&self) -> HeadTree {
        HeadTree {
            kind: self.kind,
            text_len: self.text_len@,
            compact: self.compact,
            first: match self.first_ptr {
                Some(first) => Some(first.tree(self.first_tag)),
                None => None,
            },
        }
    }
}

/// What the view of a head is, for the rest of the crate.
pub(crate) broadcast proof fn lemma_head_view(head: GreenNodeHead)
    ensures
        #[trigger] head@ == (HeadTree {
            kind: head.kind,
            text_len: head.text_len@,
            compact: head.compact,
            first: match head.first_ptr {
                Some(first) => Some(first.tree(head.first_tag)),
                None => None,
            },
        }),
{
}

impl GreenNodeHead {
    #[verifier::type_invariant]
    closed spec fn inv(self) -> bool {
        self.first_ptr matches Some(first) ==> first.tagged(self.first_tag)
    }

    /// The tag that is stored for the first child, also where there is none.
    pub closed spec fn tag(self) -> ElementTag {
        self.first_tag
    }

    /// The first child as it is stored, without its tag.
    pub closed spec fn held(self) -> Option<UntaggedElement> {
        self.first_ptr
    }

    /// The fixed part of a new node. `first_tag` must be the tag of the first
    /// child.
    pub(crate) fn new(
        kind: SyntaxKind,
        text_len: TextSize,
        compact: bool,
        first_tag: ElementTag,
        first_ptr: Option<UntaggedElement>,
    ) -> (head: GreenNodeHead)
        requires
            first_ptr matches Some(first) ==> first.tagged(first_tag),
        ensures
            head.kind == kind,
            head.text_len == text_len,
            head.compact == compact,
            head.first_tag == first_tag,
            head.first_ptr == first_ptr,
    {
        GreenNodeHead { kind, text_len, compact, first_tag, first_ptr, _c: NodeCount::new() }
    }

    /// Kind of the node.
    pub fn kind(&self) -> (kind: SyntaxKind)
        ensures
            kind == self@.kind,
    {
        self.kind
    }

    /// Length of the text covered by the node.
    pub fn text_len(&self) -> (len: TextSize)
        ensures
            len@ == self@.text_len,
    {
        self.text_len
    }

    /// Whether the tags and offsets of the children share words.
    pub fn compact(&self) -> (compact: bool)
        ensures
            compact == self@.compact,
    {
        self.compact
    }

    /// The first child.
    pub fn first_ref(&self) -> (first: Option<GreenElementRef<'_>>)
        ensures
            children::element_view(first) == self@.first,
            first is Some <==> self.held() is Some,
            first matches Some(el) ==> {
                &&& ElementTag::of(el@) == self.tag()
                &&& match el {
                    NodeOrToken::Node(node) => self.held()->0.held_node() == Some(*node),
                    NodeOrToken::Token(token) => self.held()->0.held_token() == Some(*token),
                }
            },
    {
        proof {
            use_type_invariant(self);
        }
        match &self.first_ptr {
            Some(first) => Some(first.as_element_ref(self.first_tag)),
            None => None,
        }
    }
}

impl Clone for GreenNodeHead {
    fn clone(&self) -> (head: Self)
        ensures
            head@ == self@,
            head.tag() == self.tag(),
            head.held() == self.held(),
    {
        broadcast use {
            crate::untagged_element::lemma_held_node,
            crate::untagged_element::lemma_held_token,
            crate::untagged_element::lemma_tagged,
            crate::untagged_element::lemma_tree,
        };

        proof {
            use_type_invariant(self);
        }
        // clone first element
        let first_ptr = match self.first_ref() {
            Some(el) => {
                let owned = el.to_owned();
                proof {
                    match &owned {
                        NodeOrToken::Node(node) => node.lemma_behind(),
                        NodeOrToken::Token(token) => token.lemma_behind(),
                    }
                }
                Some(UntaggedElement::from_element(owned).1)
            },
            None => None,
        };
        GreenNodeHead {
            kind: self.kind,
            text_len: self.text_len,
            compact: self.compact,
            first_tag: self.first_tag,
            first_ptr,
            _c: self._c.again(),
        }
    }
}

impl Drop for GreenNodeHead {
    /// Drops the first child.
    fn drop(&mut self)
        ensures
            final(self)@.first is None,
        opens_invariants none
        no_unwind
    {
        self.first_ptr = None;
    }
}

} // verus!
