//! How the stored form of a node determines the tree that the node is.

use vstd::prelude::*;
use crate::child::{GreenChild, GreenChildCompact, StoredChild};
use crate::model;
use crate::model::{ElementTree, NodeTree};
use crate::node::{ChildSlice, NodeRepr};
use crate::tag;
use crate::tag::ElementTag;
use crate::untagged_element::UntaggedElement;

verus! {

/// The child that `untagged` is under `tag`.
pub(crate) open spec fn untagged_tree(untagged: UntaggedElement, tag: ElementTag) -> ElementTree
    decreases untagged, 0int,
{
    match tag {
        ElementTag::Node => match untagged.node {
            Some(node) => ElementTree::Node(repr_tree(*node.repr)),
            None => arbitrary(),
        },
        ElementTag::Token => match untagged.token {
            Some(token) => ElementTree::Token(token@),
            None => arbitrary(),
        },
    }
}

/// Whether `tag` is the correct tag of `untagged`.
pub(crate) open spec fn has_tag(untagged: UntaggedElement, tag: ElementTag) -> bool {
    match tag {
        ElementTag::Node => untagged.node is Some && untagged.token is None,
        ElementTag::Token => untagged.node is None && untagged.token is Some,
    }
}

/// The tag in the low bits of a compact child.
pub(crate) open spec fn compact_tag(child: GreenChildCompact) -> ElementTag {
    if tag::word_tag(child.tag_rel_offset) == ElementTag::Node.number() {
        ElementTag::Node
    } else {
        ElementTag::Token
    }
}

pub(crate) open spec fn tail_len(repr: NodeRepr) -> nat {
    match repr.slice {
        ChildSlice::Thin(thin) => thin@.len(),
        ChildSlice::Compact(compact) => compact@.len(),
    }
}

pub(crate) open spec fn repr_len(repr: NodeRepr) -> nat {
    if repr.header.first_ptr is Some {
        1 + tail_len(repr)
    } else {
        tail_len(repr)
    }
}

pub(crate) open spec fn repr_tree(repr: NodeRepr) -> NodeTree
    decreases repr, 1int,
{
    NodeTree {
        kind: repr.header.kind,
        children: Seq::new(repr_len(repr), |i: int| repr_child(repr, i)),
    }
}

pub(crate) open spec fn repr_child(repr: NodeRepr, i: int) -> ElementTree
    decreases repr, 0int,
{
    if i == 0 {
        match repr.header.first_ptr {
            Some(first) => untagged_tree(first, repr.header.first_tag),
            None => arbitrary(),
        }
    } else if 0 < i <= tail_len(repr) {
        match repr.slice {
            ChildSlice::Thin(thin) => match thin@[i - 1] {
                GreenChild::Node { node, .. } => ElementTree::Node(repr_tree(*node.data.repr)),
                GreenChild::Token { token, .. } => ElementTree::Token(token@),
            },
            ChildSlice::Compact(compact) => untagged_tree(
                compact@[i - 1].ptr,
                compact_tag(compact@[i - 1]),
            ),
        }
    } else {
        arbitrary()
    }
}

/// Whether `tail` holds the children after the first one.
pub(crate) open spec fn tail_wf<C: StoredChild>(tail: Seq<C>, children: Seq<ElementTree>) -> bool {
    &&& children.len() > 0 ==> tail.len() == children.len() - 1
    &&& children.len() == 0 ==> tail.len() == 0
    &&& forall|i: int| #![trigger tail[i]]
        0 <= i < tail.len() ==> {
            &&& tail[i].is_live()
            &&& tail[i].element() == children[i + 1]
            &&& tail[i].offset() == model::offset_at(children, i + 1)
        }
}

/// What holds of every node.
pub(crate) open spec fn repr_wf(repr: NodeRepr) -> bool {
    let children = repr_tree(repr).children;
    &&& repr.header.first_ptr matches Some(first) ==> first.tagged(repr.header.first_tag)
    &&& repr.header.text_len@ == model::children_len(children)
    &&& children.len() <= usize::MAX
    &&& model::fits_compact(children)
    &&& match repr.slice {
        ChildSlice::Thin(thin) => !repr.header.compact && tail_wf(thin@, children),
        ChildSlice::Compact(compact) => repr.header.compact && tail_wf(compact@, children),
    }
}

} // verus!
