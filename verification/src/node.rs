//! Nodes of the immutable tree.

use std::borrow::{Borrow, Cow};
use std::ops::Deref;
use std::sync::Arc;
use vstd::prelude::*;
use crate::child::{ChildEntry, GreenChild, GreenChildCompact, StoredChild};
use crate::children;
use crate::children::{Children, ChildrenExt};
use crate::element;
use crate::element::{GreenElement, GreenElementRef, SyntaxKind};
use crate::head::GreenNodeHead;
use crate::model;
use crate::model::{ElementTree, NodeTree};
use crate::search::search_tail;
use crate::shared::share;
use crate::tag::{ElementTag, REL_OFFSET_LIMIT};
use crate::text::{TextRange, TextSize};
use crate::untagged_element::UntaggedElement;

verus! {

/// The children after the first one, in one of two forms.
pub(crate) enum ChildSlice {
    Thin(Vec<GreenChild>),
    Compact(Vec<GreenChildCompact>),
}

pub(crate) struct NodeRepr {
    pub(crate) header: GreenNodeHead,
    pub(crate) slice: ChildSlice,
}

/// What is behind a [`GreenNode`].
pub struct GreenNodeData {
    pub(crate) repr: Arc<NodeRepr>,
}

/// Internal node in the immutable tree.
/// It has other nodes and tokens as children.
pub struct GreenNode {
    pub(crate) data: GreenNodeData,
}

impl View for GreenNodeData {
    type V = NodeTree;

    closed spec fn view(&self) -> NodeTree {
        crate::repr::repr_tree(*self.repr)
    }
}

impl View for GreenNode {
    type V = NodeTree;

    closed spec fn view(&self) -> NodeTree {
        self.data@
    }
}

/// What the view of a node is, for the rest of the crate.
pub(crate) broadcast proof fn lemma_data_view(data: GreenNodeData)
    ensures
        #[trigger] data@ == crate::repr::repr_tree(*data.repr),
{
}

pub(crate) broadcast proof fn lemma_node_view(node: GreenNode)
    ensures
        #[trigger] node@ == node.data@,
{
}

impl GreenNodeData {
    #[verifier::type_invariant]
    pub(crate) open spec fn inv(self) -> bool {
        crate::repr::repr_wf(*self.repr)
    }

    /// Whether the tags and offsets of the children share words.
    pub closed spec fn is_compact(self) -> bool {
        self.repr.header.compact
    }

    fn head(&self) -> (header: &GreenNodeHead)
        ensures
            *header == self.repr.header,
    {
        &self.repr.header
    }

    /// The fixed part of this node.
    pub fn header(&self) -> (header: &GreenNodeHead)
        ensures
            header@ == crate::head::head_of(self@, self.is_compact()),
    {
        broadcast use {crate::head::lemma_head_view, crate::untagged_element::lemma_tree};

        proof {
            use_type_invariant(self);
        }
        self.head()
    }

    /// Kind of this node.
    pub fn kind(&self) -> (kind: SyntaxKind)
        ensures
            kind == self@.kind,
    {
        self.head().kind
    }

    /// Returns the length of the text covered by this node. It fits, as do the
    /// offsets of the children.
    pub fn text_len(&self) -> (len: TextSize)
        ensures
            len@ == model::children_len(self@.children),
            model::fits_compact(self@.children),
    {
        proof {
            use_type_invariant(self);
        }
        self.head().text_len
    }

    fn outer(&self) -> (outer: Result<&Vec<GreenChild>, &Vec<GreenChildCompact>>)
        ensures
            match outer {
                Ok(thin) => self.repr.slice == ChildSlice::Thin(*thin),
                Err(compact) => self.repr.slice == ChildSlice::Compact(*compact),
            },
            outer is Err <==> self.repr.header.compact,
    {
        proof {
            use_type_invariant(self);
        }
        match &self.repr.slice {
            ChildSlice::Thin(thin) => Ok(thin),
            ChildSlice::Compact(compact) => Err(compact),
        }
    }

    /// Children of this node.
    pub fn children(&self) -> (children: Children<'_>)
        ensures
            children@ == self@.children,
    {
        let children = Children::new(self.children_ext());
        assert(children@ =~= self@.children);
        children
    }

    /// Children of this node, each with its offset from the start of the node.
    pub fn children_ext<'a>(&'a self) -> (children: ChildrenExt<'a>)
        ensures
            children@ == model::with_offsets(self@.children),
    {
        broadcast use {
            crate::child::lemma_compact_element,
            crate::head::lemma_head_view,
            crate::untagged_element::lemma_tagged,
            crate::untagged_element::lemma_tree,
        };

        proof {
            use_type_invariant(self);
        }
        let first = self.head().first_ref();
        match self.outer() {
            Ok(plain) => {
                let children = ChildrenExt::create(first, plain.as_slice());
                assert(children@ =~= model::with_offsets(self@.children));
                children
            },
            Err(compact) => {
                let children = ChildrenExt::create_compact(first, compact.as_slice());
                assert(children@ =~= model::with_offsets(self@.children));
                children
            },
        }
    }

    /// The child that covers `rel_range`, with its index and its offset.
    pub fn child_at_range(&self, rel_range: TextRange) -> (found: Option<
        (usize, TextSize, GreenElementRef<'_>),
    >)
        ensures
            match found {
                Some((i, offset, el)) => {
                    &&& model::child_picked(
                        self@.children,
                        i as int,
                        rel_range.from() as int,
                        rel_range.to() as int,
                    )
                    &&& offset@ == model::offset_at(self@.children, i as int)
                    &&& el@ == self@.children[i as int]
                    &&& i < self@.children.len()
                    &&& offset@ <= rel_range.from()
                    &&& rel_range.to() <= offset@ + model::element_len(el@)
                },
                None => {
                    &&& forall|i: int|
                        0 <= i < self@.children.len() ==> !#[trigger] model::child_contains(
                            self@.children,
                            i,
                            rel_range.from() as int,
                            rel_range.to() as int,
                        )
                    &&& forall|i: int| #![trigger self@.children[i]]
                        0 <= i < self@.children.len() ==> rel_range.from() < model::offset_at(
                            self@.children,
                            i,
                        ) || model::offset_at(self@.children, i) + model::element_len(
                            self@.children[i],
                        ) < rel_range.to()
                },
            },
    {
        broadcast use {crate::head::lemma_head_view, crate::untagged_element::lemma_tree};

        proof {
            use_type_invariant(self);
            model::lemma_first_offsets(self@.children);
            self.repr.header.text_len.lemma_view_bounded();
        }
        // first check first element
        if let Some(first_el) = self.head().first_ref() {
            if TextRange::new(TextSize::new(0), first_el.text_len()).contains_range(rel_range) {
                return Some((0, TextSize::new(0), first_el));
            }
        }
        let found = match self.outer() {
            Ok(plain) => search_tail(plain, rel_range, Ghost(self@.children)),
            Err(compact) => search_tail(compact, rel_range, Ghost(self@.children)),
        };
        proof {
            if let Some((i, offset, el)) = found {
                assert(model::offset_at(self@.children, i + 1) == offset@ + model::element_len(
                    el@,
                ));
            } else {
                assert forall|i: int| #![trigger self@.children[i]]
                    0 <= i < self@.children.len() implies rel_range.from() < model::offset_at(
                    self@.children,
                    i,
                ) || model::offset_at(self@.children, i) + model::element_len(self@.children[i])
                    < rel_range.to() by {
                    assert(!model::child_contains(
                        self@.children,
                        i,
                        rel_range.from() as int,
                        rel_range.to() as int,
                    ));
                    assert(model::offset_at(self@.children, i + 1) == model::offset_at(
                        self@.children,
                        i,
                    ) + model::element_len(self@.children[i]));
                }
            }
        }
        found
    }
}

impl ToOwned for GreenNodeData {
    type Owned = GreenNode;

    fn to_owned(&self) -> (node: GreenNode)
        ensures
            node@ == self@,
            node == GreenNode::handle(*self),
            node.is_compact() == self.is_compact(),
    {
        proof {
            use_type_invariant(self);
        }
        GreenNode { data: GreenNodeData { repr: share(&self.repr) } }
    }
}

impl Deref for GreenNode {
    type Target = GreenNodeData;

    fn deref(&self) -> (data: &GreenNodeData)
        ensures
            *data == self.behind(),
            data@ == self@,
            data.is_compact() == self.is_compact(),
    {
        &self.data
    }
}

impl Clone for GreenNode {
    fn clone(&self) -> (node: GreenNode)
        ensures
            node == *self,
    {
        self.data.to_owned()
    }
}

impl<'a> From<Cow<'a, GreenNodeData>> for GreenNode {
    fn from(cow: Cow<'a, GreenNodeData>) -> (node: GreenNode) {
        match cow {
            Cow::Borrowed(data) => data.to_owned(),
            Cow::Owned(node) => node,
        }
    }
}

impl<'a> vstd::std_specs::convert::FromSpecImpl<Cow<'a, GreenNodeData>> for GreenNode {
    open spec fn obeys_from_spec() -> bool {
        true
    }

    open spec fn from_spec(cow: Cow<'a, GreenNodeData>) -> GreenNode {
        match cow {
            Cow::Borrowed(data) => GreenNode::handle(*data),
            Cow::Owned(node) => node,
        }
    }
}

impl Borrow<GreenNodeData> for GreenNode {
    fn borrow(&self) -> &GreenNodeData
        returns
            &self.behind(),
    {
        self.as_data()
    }
}

/// The parts that some children are stored in.
struct Layout<C> {
    text_len: TextSize,
    first_tag: ElementTag,
    first_ptr: Option<UntaggedElement>,
    tail: Vec<C>,
}

impl<C: ChildEntry> Layout<C> {
    spec fn holds(self, children: Seq<ElementTree>) -> bool {
        &&& self.text_len@ == model::children_len(children)
        &&& self.first_ptr is Some <==> children.len() > 0
        &&& self.first_ptr matches Some(first) ==> {
            &&& first.tagged(self.first_tag)
            &&& first.tree(self.first_tag) == children[0]
        }
        &&& crate::repr::tail_wf(self.tail@, children)
    }

    /// Stores some children: the first one apart from the others, and each of
    /// those with the length of what comes before it.
    fn new(children: Vec<GreenElement>) -> (layout: Self)
        requires
            model::fits_compact(element::trees(children@)),
        ensures
            layout.holds(element::trees(children@)),
    {
        let ghost elements = children@;
        let ghost all = element::trees(children@);
        let mut text_len = TextSize::new(0);
        let mut first_tag = ElementTag::Node;
        let mut first_ptr: Option<UntaggedElement> = None;
        let mut tail: Vec<C> = Vec::new();
        for el in it: children
            invariant
                it.seq() == elements,
                all == element::trees(elements),
                model::fits_compact(all),
                text_len@ == model::offset_at(all, it.index()),
                first_ptr is Some <==> it.index() > 0,
                first_ptr matches Some(first) ==> {
                    &&& first.tagged(first_tag)
                    &&& first.tree(first_tag) == all[0]
                },
                tail@.len() == (if it.index() > 0 { it.index() - 1 } else { 0 }),
                forall|j: int| #![trigger tail@[j]]
                    0 <= j < tail@.len() ==> {
                        &&& tail@[j].is_live()
                        &&& tail@[j].element() == all[j + 1]
                        &&& tail@[j].offset() == model::offset_at(all, j + 1)
                    },
        {
            proof {
                model::lemma_offset_monotonic(all, it.index() + 1, all.len() as int);
            }
            let rel_offset = text_len;
            text_len = text_len.plus(el.text_len());
            if first_ptr.is_none() {
                // extract first element
                let (tag, ptr) = UntaggedElement::from_element(el);
                first_tag = tag;
                first_ptr = Some(ptr);
            } else {
                tail.push(C::store(rel_offset, el));
            }
        }
        Layout { text_len, first_tag, first_ptr, tail }
    }
}

/// A stored node is the tree that it was laid out for.
proof fn lemma_laid_out(repr: NodeRepr, children: Seq<ElementTree>)
    requires
        repr.header.first_ptr is Some <==> children.len() > 0,
        repr.header.first_ptr matches Some(first) ==> first.tree(repr.header.first_tag)
            == children[0],
        match repr.slice {
            ChildSlice::Thin(thin) => crate::repr::tail_wf(thin@, children),
            ChildSlice::Compact(compact) => crate::repr::tail_wf(compact@, children),
        },
    ensures
        crate::repr::repr_tree(repr).children == children,
{
    broadcast use {crate::child::lemma_compact_element, crate::untagged_element::lemma_tree};

    assert forall|j: int| 0 <= j < children.len() implies #[trigger] crate::repr::repr_child(
        repr,
        j,
    ) == children[j] by {
        if j > 0 {
            match repr.slice {
                ChildSlice::Thin(thin) => {
                    assert(thin@[j - 1].element() == children[j]);
                },
                ChildSlice::Compact(compact) => {
                    assert(compact@[j - 1].element() == children[j]);
                },
            }
        }
    }
    assert(crate::repr::repr_tree(repr).children =~= children);
}

impl GreenNode {
    /// Creates new Node. The tag and the offset of each child but the first share
    /// one word.
    pub fn new(kind: SyntaxKind, children: Vec<GreenElement>) -> (node: GreenNode)
        requires
            model::fits_compact(element::trees(children@)),
        ensures
            node@ == (NodeTree { kind, children: element::trees(children@) }),
            node.is_compact(),
    {
        broadcast use {
            crate::untagged_element::lemma_tagged,
            crate::untagged_element::lemma_tree,
        };

        let ghost all = element::trees(children@);
        assert(all.len() == children.len());
        let layout: Layout<GreenChildCompact> = Layout::new(children);
        let Layout { text_len, first_tag, first_ptr, tail } = layout;
        let header = GreenNodeHead::new(kind, text_len, true, first_tag, first_ptr);
        let repr = NodeRepr { header, slice: ChildSlice::Compact(tail) };
        proof {
            lemma_laid_out(repr, all);
        }
        GreenNode { data: GreenNodeData { repr: Arc::new(repr) } }
    }

    /// Creates new Node. The tag and the offset of each child are kept apart.
    pub fn new_thin(kind: SyntaxKind, children: Vec<GreenElement>) -> (node: GreenNode)
        requires
            model::fits_compact(element::trees(children@)),
        ensures
            node@ == (NodeTree { kind, children: element::trees(children@) }),
            !node.is_compact(),
    {
        broadcast use {
            crate::untagged_element::lemma_tagged,
            crate::untagged_element::lemma_tree,
        };

        let ghost all = element::trees(children@);
        assert(all.len() == children.len());
        let layout: Layout<GreenChild> = Layout::new(children);
        let Layout { text_len, first_tag, first_ptr, tail } = layout;
        let header = GreenNodeHead::new(kind, text_len, false, first_tag, first_ptr);
        let repr = NodeRepr { header, slice: ChildSlice::Thin(tail) };
        proof {
            lemma_laid_out(repr, all);
        }
        GreenNode { data: GreenNodeData { repr: Arc::new(repr) } }
    }

    /// Whether the tags and offsets of the children share words.
    pub closed spec fn is_compact(self) -> bool {
        self.data.is_compact()
    }

    /// Whether a node can have these children: the length of their text fits
    /// into 32 bits, and the offset of each one but the first leaves room for a
    /// tag.
    pub fn can_hold(children: &Vec<GreenElement>) -> (can: bool)
        ensures
            can == model::fits_compact(element::trees(children@)),
            can <==> {
                &&& model::children_len(element::trees(children@)) <= 0xffff_ffff
                &&& forall|i: int|
                    1 <= i < children@.len() ==> #[trigger] model::offset_at(
                        element::trees(children@),
                        i,
                    ) < 0x4000_0000
            },
    {
        let ghost all = element::trees(children@);
        let n: usize = children.len();
        let mut text_len: u32 = 0;
        let mut i: usize = 0;
        while i < n
            invariant
                i <= n == children@.len(),
                all == element::trees(children@),
                text_len == model::offset_at(all, i as int),
                forall|j: int|
                    1 <= j < i ==> #[trigger] model::offset_at(all, j) < REL_OFFSET_LIMIT,
            decreases n - i,
        {
            if i > 0 && text_len >= REL_OFFSET_LIMIT {
                return false;
            }
            proof {
                model::lemma_offset_monotonic(all, i + 1, n as int);
            }
            match text_len.checked_add(children[i].text_len().raw()) {
                Some(sum) => {
                    text_len = sum;
                },
                None => {
                    return false;
                },
            }
            i = i + 1;
        }
        true
    }

    /// The handle to `data`.
    pub closed spec fn handle(data: GreenNodeData) -> GreenNode {
        GreenNode { data }
    }

    /// What is behind this node.
    pub closed spec fn behind(self) -> GreenNodeData {
        self.data
    }

    /// A handle and what is behind it are the same tree, and either one gives
    /// the other.
    pub proof fn lemma_behind(self)
        ensures
            self.behind()@ == self@,
            self.behind().is_compact() == self.is_compact(),
            GreenNode::handle(self.behind()) == self,
            forall|data: GreenNodeData| #[trigger] GreenNode::handle(data).behind() == data,
            forall|data: GreenNodeData| #[trigger] GreenNode::handle(data)@ == data@,
    {
    }

    /// The data behind this node.
    pub(crate) fn as_data(&self) -> (data: &GreenNodeData)
        ensures
            *data == self.behind(),
            data@ == self@,
    {
        &self.data
    }

    /// Gives up the handle and keeps what it handles.
    pub(crate) fn into_raw(this: GreenNode) -> (data: GreenNodeData)
        ensures
            data == this.data,
            data == this.behind(),
    {
        this.data
    }

    /// The handle to `data`.
    pub(crate) fn from_raw(data: GreenNodeData) -> (node: GreenNode)
        ensures
            node.data == data,
            node == GreenNode::handle(data),
            node.behind() == data,
    {
        GreenNode { data }
    }
}

} // verus!
