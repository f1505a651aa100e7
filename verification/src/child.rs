//! The two forms in which a node stores the children after its first one.

use vstd::prelude::*;
use crate::element::{GreenElement, GreenElementRef, NodeOrToken};
use crate::model;
use crate::model::ElementTree;
use crate::node::GreenNode;
use crate::tag;
use crate::tag::{ElementTag, pack, REL_OFFSET_LIMIT, TAG_BITS, TAG_MASK};
use crate::text::{TextRange, TextSize};
use crate::token::GreenToken;
use crate::untagged_element::UntaggedElement;

verus! {

broadcast use {
    crate::node::lemma_data_view,
    crate::node::lemma_node_view,
    crate::untagged_element::lemma_tagged,
    crate::untagged_element::lemma_tree,
};

/// What both forms of a stored child are.
pub trait StoredChild: Sized {
    /// Whether this still holds a child.
    spec fn is_live(self) -> bool;

    /// The child that this holds.
    spec fn element(self) -> ElementTree;

    /// The offset of the child from the start of the node.
    spec fn offset(self) -> nat;
}

/// What both forms of a stored child offer.
pub trait ChildEntry: StoredChild {
    /// Stores a child.
    fn store(rel_offset: TextSize, el: GreenElement) -> (child: Self)
        requires
            rel_offset@ < REL_OFFSET_LIMIT,
        ensures
            child.is_live(),
            child.element() == el@,
            child.offset() == rel_offset@,
    ;

    /// The child and its offset.
    fn entry(&self) -> (entry: (GreenElementRef<'_>, TextSize))
        requires
            self.is_live(),
        ensures
            entry.0@ == self.element(),
            entry.1@ == self.offset(),
    ;

    /// The range of the child, relative to the start of the node.
    fn range(&self) -> (range: TextRange)
        requires
            self.is_live(),
            self.offset() + model::element_len(self.element()) <= u32::MAX,
        ensures
            range.from() == self.offset(),
            range.to() == self.offset() + model::element_len(self.element()),
    ;
}

/// A stored child with its offset from the start of the node.
#[derive(Hash)]
pub enum GreenChild {
    Node { rel_offset: TextSize, node: GreenNode },
    Token { rel_offset: TextSize, token: GreenToken },
}

impl GreenChild {
    /// Stores a child.
    pub fn new(rel_offset: TextSize, el: GreenElement) -> (child: GreenChild)
        ensures
            child.element() == el@,
            child.offset() == rel_offset@,
            match el {
                NodeOrToken::Node(node) => child == (GreenChild::Node { rel_offset, node }),
                NodeOrToken::Token(token) => child == (GreenChild::Token { rel_offset, token }),
            },
    {
        match el {
            NodeOrToken::Node(node) => GreenChild::Node { rel_offset, node },
            NodeOrToken::Token(token) => GreenChild::Token { rel_offset, token },
        }
    }

    /// The stored child.
    pub fn as_ref(&self) -> (el: GreenElementRef<'_>)
        ensures
            el@ == self.element(),
            match self {
                GreenChild::Node { node, .. } => el == GreenElementRef::Node(&node.behind()),
                GreenChild::Token { token, .. } => el == GreenElementRef::Token(&token.behind()),
            },
    {
        match self {
            GreenChild::Node { node, .. } => NodeOrToken::Node(node.as_data()),
            GreenChild::Token { token, .. } => NodeOrToken::Token(token.as_data()),
        }
    }

    /// The offset of the stored child from the start of the node.
    pub fn rel_offset(&self) -> (rel_offset: TextSize)
        ensures
            rel_offset@ == self.offset(),
    {
        match self {
            GreenChild::Node { rel_offset, .. } | GreenChild::Token { rel_offset, .. } => {
                *rel_offset
            },
        }
    }

    /// The range of the stored child, relative to the start of the node.
    pub fn rel_range(&self) -> (range: TextRange)
        requires
            self.offset() + model::element_len(self.element()) <= u32::MAX,
        ensures
            range.from() == self.offset(),
            range.to() == self.offset() + model::element_len(self.element()),
    {
        let len = self.as_ref().text_len();
        TextRange::at(self.rel_offset(), len)
    }
}

impl StoredChild for GreenChild {
    open spec fn is_live(self) -> bool {
        true
    }

    open spec fn element(self) -> ElementTree {
        match self {
            GreenChild::Node { node, .. } => ElementTree::Node(node@),
            GreenChild::Token { token, .. } => ElementTree::Token(token@),
        }
    }

    open spec fn offset(self) -> nat {
        match self {
            GreenChild::Node { rel_offset, .. } => rel_offset@,
            GreenChild::Token { rel_offset, .. } => rel_offset@,
        }
    }
}

impl Clone for GreenChild {
    fn clone(&self) -> (child: Self)
        ensures
            child == *self,
    {
        match self {
            GreenChild::Node { rel_offset, node } => GreenChild::Node {
                rel_offset: *rel_offset,
                node: node.clone(),
            },
            GreenChild::Token { rel_offset, token } => GreenChild::Token {
                rel_offset: *rel_offset,
                token: token.clone(),
            },
        }
    }
}

impl ChildEntry for GreenChild {
    fn store(rel_offset: TextSize, el: GreenElement) -> (child: Self) {
        GreenChild::new(rel_offset, el)
    }

    fn entry(&self) -> (entry: (GreenElementRef<'_>, TextSize)) {
        (self.as_ref(), self.rel_offset())
    }

    fn range(&self) -> (range: TextRange) {
        self.rel_range()
    }
}

/// A stored child whose tag and offset share one word: the tag takes the low
/// [`TAG_BITS`] bits, and the offset the bits above them.
pub struct GreenChildCompact {
    pub(crate) tag_rel_offset: u32,
    pub(crate) ptr: UntaggedElement,
}

impl GreenChildCompact {
    /// What is stored, without its tag.
    pub closed spec fn held(self) -> UntaggedElement {
        self.ptr
    }

    /// The word that the tag and the offset share.
    pub closed spec fn word(self) -> u32 {
        self.tag_rel_offset
    }

    /// The word of a stored child holds the tag of the child and its offset. When
    /// the child has been dropped, all bits of the word are set.
    pub proof fn lemma_word(self)
        ensures
            self.offset() == tag::word_offset(self.word()),
            self.is_live() ==> tag::word_tag(self.word()) == ElementTag::of(
                self.element(),
            ).number(),
            self.is_dropped() ==> self.word() == u32::MAX && !self.is_live(),
    {
        tag::lemma_dropped_word(ElementTag::Node);
        tag::lemma_dropped_word(ElementTag::Token);
    }

    /// Whether the child has been dropped. The tag is then no tag at all.
    pub closed spec fn is_dropped(self) -> bool {
        &&& self.tag_rel_offset == u32::MAX
        &&& self.ptr.node is None
        &&& self.ptr.token is None
    }

    /// Stores a child. The offset has to leave room for the tag.
    pub fn new(rel_offset: TextSize, el: GreenElement) -> (child: GreenChildCompact)
        requires
            rel_offset@ < REL_OFFSET_LIMIT,
        ensures
            child.is_live(),
            child.element() == el@,
            child.offset() == rel_offset@,
            match el {
                NodeOrToken::Node(node) => child.held().held_node() == Some(node.behind()),
                NodeOrToken::Token(token) => child.held().held_token() == Some(token.behind()),
            },
    {
        let (tag, ptr) = UntaggedElement::from_element(el);
        let tag_rel_offset: u32 = pack(tag, rel_offset);
        GreenChildCompact { tag_rel_offset, ptr }
    }

    /// The stored child.
    pub fn as_ref(&self) -> (el: GreenElementRef<'_>)
        requires
            self.is_live(),
        ensures
            el@ == self.element(),
            match el {
                NodeOrToken::Node(node) => self.held().held_node() == Some(*node),
                NodeOrToken::Token(token) => self.held().held_token() == Some(*token),
            },
    {
        let tag: u32 = self.tag_rel_offset & TAG_MASK;
        if tag == ElementTag::Node.to_number() {
            self.ptr.as_element_ref(ElementTag::Node)
        } else {
            self.ptr.as_element_ref(ElementTag::Token)
        }
    }

    /// Drops the stored child and takes the tag away.
    pub fn drop_underlying(&mut self)
        requires
            old(self).is_live(),
        ensures
            final(self).is_dropped(),
            !final(self).is_live(),
            final(self).offset() == REL_OFFSET_LIMIT - 1,
    {
        self.clear();
    }

    fn clear(&mut self)
        ensures
            final(self).is_dropped(),
            !final(self).is_live(),
            final(self).offset() == REL_OFFSET_LIMIT - 1,
        opens_invariants none
        no_unwind
    {
        proof {
            tag::lemma_dropped_word(ElementTag::Node);
            tag::lemma_dropped_word(ElementTag::Token);
        }
        self.ptr.node = None;
        self.ptr.token = None;
        self.tag_rel_offset = u32::MAX;
    }

    /// The offset of the stored child from the start of the node.
    pub fn rel_offset(&self) -> (rel_offset: TextSize)
        ensures
            rel_offset@ == self.offset(),
    {
        TextSize::new(self.tag_rel_offset >> TAG_BITS)
    }

    /// The range of the stored child, relative to the start of the node.
    pub fn rel_range(&self) -> (range: TextRange)
        requires
            self.is_live(),
            self.offset() + model::element_len(self.element()) <= u32::MAX,
        ensures
            range.from() == self.offset(),
            range.to() == self.offset() + model::element_len(self.element()),
    {
        let len = self.as_ref().text_len();
        TextRange::at(self.rel_offset(), len)
    }
}

impl Drop for GreenChildCompact {
    /// Drops the stored child and takes the tag away.
    fn drop(&mut self)
        ensures
            final(self).is_dropped(),
        opens_invariants none
        no_unwind
    {
        self.clear();
    }
}

/// What a compact child holds, for the rest of the crate.
pub(crate) broadcast proof fn lemma_compact_element(child: GreenChildCompact)
    ensures
        #[trigger] child.element() == crate::repr::untagged_tree(
            child.ptr,
            crate::repr::compact_tag(child),
        ),
{
}

impl StoredChild for GreenChildCompact {
    closed spec fn is_live(self) -> bool {
        &&& tag::word_tag(self.tag_rel_offset) == crate::repr::compact_tag(self).number()
        &&& self.ptr.tagged(crate::repr::compact_tag(self))
    }

    closed spec fn element(self) -> ElementTree {
        self.ptr.tree(crate::repr::compact_tag(self))
    }

    closed spec fn offset(self) -> nat {
        tag::word_offset(self.tag_rel_offset) as nat
    }
}

impl ChildEntry for GreenChildCompact {
    fn store(rel_offset: TextSize, el: GreenElement) -> (child: Self) {
        GreenChildCompact::new(rel_offset, el)
    }

    fn entry(&self) -> (entry: (GreenElementRef<'_>, TextSize)) {
        (self.as_ref(), self.rel_offset())
    }

    fn range(&self) -> (range: TextRange) {
        self.rel_range()
    }
}

} // verus!
