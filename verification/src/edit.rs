//! Nodes that are made from other nodes.

use std::ops::Range;
use vstd::prelude::*;
use crate::element;
use crate::element::GreenElement;
use crate::model;
use crate::model::NodeTree;
use crate::node::{GreenNode, GreenNodeData};

verus! {

broadcast use crate::node::lemma_data_view;

/// One end of a range of children, as it is written.
#[derive(Debug, Clone, Copy, PartialEq, Eq, Structural)]
pub enum RangeEdge {
    /// The child at this end, which is in the range.
    Included(usize),
    /// The child beyond this end, which is not in the range.
    Excluded(usize),
    /// The range goes as far as there are children.
    Unbounded,
}

/// The first child in a range that starts at `start`.
pub open spec fn range_start(start: RangeEdge) -> int {
    match start {
        RangeEdge::Included(i) => i as int,
        RangeEdge::Excluded(i) => i + 1,
        RangeEdge::Unbounded => 0,
    }
}

/// The child after a range of `len` children that ends at `end`.
pub open spec fn range_end(end: RangeEdge, len: int) -> int {
    match end {
        RangeEdge::Included(i) => i + 1,
        RangeEdge::Excluded(i) => i as int,
        RangeEdge::Unbounded => len,
    }
}

/// The children in a range, of `len` children. There is no such range if it
/// ends before it starts, or ends after the last child.
pub fn child_range(start: RangeEdge, end: RangeEdge, len: usize) -> (range: Option<Range<usize>>)
    ensures
        match range {
            Some(range) => {
                &&& range.start == range_start(start)
                &&& range.end == range_end(end, len as int)
                &&& range.start <= range.end <= len
            },
            None => !(range_start(start) <= range_end(end, len as int) <= len),
        },
{
    let first: usize = match start {
        RangeEdge::Included(i) => i,
        RangeEdge::Excluded(i) => {
            if i == usize::MAX {
                return None;
            }
            i + 1
        },
        RangeEdge::Unbounded => 0,
    };
    let after: usize = match end {
        RangeEdge::Included(i) => {
            if i == usize::MAX {
                return None;
            }
            i + 1
        },
        RangeEdge::Excluded(i) => i,
        RangeEdge::Unbounded => len,
    };
    if first <= after && after <= len {
        Some(first..after)
    } else {
        None
    }
}

impl GreenNodeData {
    /// This node with child `index` replaced. Where there is no such child, the
    /// new node is like this one.
    #[must_use]
    pub fn replace_child(&self, index: usize, new_child: GreenElement) -> (node: GreenNode)
        requires
            index < self@.children.len() ==> model::fits_compact(
                self@.children.update(index as int, new_child@),
            ),
        ensures
            node@ == (NodeTree {
                kind: self@.kind,
                children: model::replaced(self@.children, index as int, new_child@),
            }),
            node@.kind == self@.kind,
            node@.children == (if index < self@.children.len() {
                self@.children.update(index as int, new_child@)
            } else {
                self@.children
            }),
            node.is_compact(),
    {
        proof {
            use_type_invariant(self);
        }
        let children = self.replaced_children(index, new_child);
        GreenNode::new(self.kind(), children)
    }

    /// This node with one more child, which becomes child `index`.
    #[must_use]
    pub fn insert_child(&self, index: usize, new_child: GreenElement) -> (node: GreenNode)
        requires
            index <= self@.children.len(),
            model::fits_compact(self@.children.insert(index as int, new_child@)),
        ensures
            node@ == (NodeTree {
                kind: self@.kind,
                children: self@.children.insert(index as int, new_child@),
            }),
            node.is_compact(),
    {
        let added = vec![new_child];
        assert(model::spliced(
            self@.children,
            index as int,
            index as int,
            element::trees(added@),
        ) =~= self@.children.insert(index as int, new_child@));
        self.splice_children(index..index, added)
    }

    /// This node without child `index`.
    #[must_use]
    pub fn remove_child(&self, index: usize) -> (node: GreenNode)
        requires
            index < self@.children.len(),
        ensures
            node@ == (NodeTree {
                kind: self@.kind,
                children: self@.children.remove(index as int),
            }),
            node.is_compact(),
    {
        proof {
            use_type_invariant(self);
            model::lemma_removal_fits(self@.children, index as int);
        }
        let added: Vec<GreenElement> = Vec::new();
        assert(model::spliced(
            self@.children,
            index as int,
            index + 1,
            element::trees(added@),
        ) =~= self@.children.remove(index as int));
        self.splice_children(index..index + 1, added)
    }

    /// This node with the children in `range` replaced by others.
    #[must_use]
    pub fn splice_children(&self, range: Range<usize>, replace_with: Vec<GreenElement>) -> (node:
        GreenNode)
        requires
            range.start <= range.end <= self@.children.len(),
            model::fits_compact(
                model::spliced(
                    self@.children,
                    range.start as int,
                    range.end as int,
                    element::trees(replace_with@),
                ),
            ),
        ensures
            node@ == (NodeTree {
                kind: self@.kind,
                children: model::spliced(
                    self@.children,
                    range.start as int,
                    range.end as int,
                    element::trees(replace_with@),
                ),
            }),
            node@.children == self@.children.subrange(0, range.start as int) + element::trees(
                replace_with@,
            ) + self@.children.subrange(range.end as int, self@.children.len() as int),
            node.is_compact(),
    {
        let children = self.spliced_children(range, replace_with);
        GreenNode::new(self.kind(), children)
    }

    /// The children of this node, with child `index` replaced if there is one.
    pub fn replaced_children(&self, index: usize, new_child: GreenElement) -> (children: Vec<
        GreenElement,
    >)
        ensures
            element::trees(children@) == model::replaced(
                self@.children,
                index as int,
                new_child@,
            ),
    {
        let ghost all = model::replaced(self@.children, index as int, new_child@);
        let ghost new_tree = new_child@;
        let mut replacement = Some(new_child);
        let mut children: Vec<GreenElement> = Vec::new();
        let mut walk = self.children();
        loop
            invariant
                children@.len() <= self@.children.len(),
                all == model::replaced(self@.children, index as int, new_tree),
                walk@ == self@.children.skip(children@.len() as int),
                children@.len() <= index ==> (replacement matches Some(el) && el@ == new_tree),
                forall|j: int|
                    0 <= j < children@.len() ==> (#[trigger] children@[j])@ == all[j],
            ensures
                children@.len() == self@.children.len(),
            decreases walk@.len(),
        {
            match walk.next() {
                None => {
                    break;
                },
                Some(child) => {
                    if children.len() == index {
                        children.push(replacement.take().unwrap());
                    } else {
                        children.push(child.to_owned());
                    }
                },
            }
        }
        assert(element::trees(children@) =~= all);
        children
    }

    /// The children of this node, with those in `range` replaced by others.
    pub fn spliced_children(
        &self,
        range: Range<usize>,
        replace_with: Vec<GreenElement>,
    ) -> (children: Vec<GreenElement>)
        requires
            range.start <= range.end <= self@.children.len(),
        ensures
            element::trees(children@) == model::spliced(
                self@.children,
                range.start as int,
                range.end as int,
                element::trees(replace_with@),
            ),
    {
        let mut children = self.owned_children();
        let mut replace_with = replace_with;
        let ghost middle = replace_with@;
        let ghost before = children@;
        let mut rest = children.split_off(range.end);
        children.truncate(range.start);
        children.append(&mut replace_with);
        children.append(&mut rest);
        assert(element::trees(children@) =~= model::spliced(
            self@.children,
            range.start as int,
            range.end as int,
            element::trees(middle),
        )) by {
            assert(element::trees(before) == self@.children);
        }
        children
    }

    /// The children of this node, each shared with it.
    fn owned_children(&self) -> (children: Vec<GreenElement>)
        ensures
            element::trees(children@) == self@.children,
    {
        let mut children: Vec<GreenElement> = Vec::new();
        let mut walk = self.children();
        loop
            invariant
                children@.len() <= self@.children.len(),
                walk@ == self@.children.skip(children@.len() as int),
                forall|j: int|
                    0 <= j < children@.len() ==> (#[trigger] children@[j])@ == self@.children[j],
            ensures
                children@.len() == self@.children.len(),
            decreases walk@.len(),
        {
            match walk.next() {
                None => {
                    break;
                },
                Some(child) => {
                    children.push(child.to_owned());
                },
            }
        }
        assert(element::trees(children@) =~= self@.children);
        children
    }
}

} // verus!
