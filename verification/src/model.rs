//! The mathematical trees that the contracts of this crate speak of.

use vstd::prelude::*;
use crate::element::SyntaxKind;
use crate::tag::REL_OFFSET_LIMIT;

verus! {

/// What a token is: a kind and a text.
#[verifier::ext_equal]
pub struct TokenTree {
    pub kind: SyntaxKind,
    pub text: Seq<char>,
}

/// What a node is: a kind and a list of children.
#[verifier::ext_equal]
pub struct NodeTree {
    pub kind: SyntaxKind,
    pub children: Seq<ElementTree>,
}

/// What a child is: a node or a token.
#[verifier::ext_equal]
pub enum ElementTree {
    Node(NodeTree),
    Token(TokenTree),
}

/// The length in bytes of the text below an element.
pub open spec fn element_len(element: ElementTree) -> nat
    decreases element, 0int,
{
    match element {
        ElementTree::Node(node) => offset_at(node.children, node.children.len() as int),
        ElementTree::Token(token) => vstd::utf8::encode_utf8(token.text).len(),
    }
}

/// The length in bytes of the text below the first `i` of some children. That
/// is the offset at which child `i` starts.
pub open spec fn offset_at(children: Seq<ElementTree>, i: int) -> nat
    decreases children, i,
{
    if 0 < i <= children.len() {
        offset_at(children, i - 1) + element_len(children[i - 1])
    } else {
        0
    }
}

/// The length in bytes of the text below some children.
pub open spec fn children_len(children: Seq<ElementTree>) -> nat {
    offset_at(children, children.len() as int)
}

/// The children before child `i` do not reach past the children before child `j`.
pub proof fn lemma_offset_monotonic(children: Seq<ElementTree>, i: int, j: int)
    requires
        0 <= i <= j <= children.len(),
    ensures
        offset_at(children, i) <= offset_at(children, j),
    decreases j - i,
{
    if i < j {
        lemma_offset_monotonic(children, i, j - 1);
    }
}

/// The first child starts where the node does.
pub proof fn lemma_first_offsets(children: Seq<ElementTree>)
    ensures
        offset_at(children, 0) == 0,
        children.len() > 0 ==> offset_at(children, 1) == element_len(children[0]),
{
    assert(offset_at(children, 0) == 0);
}

/// Whether offsets into the text below some children fit into 32 bits.
pub open spec fn fits(children: Seq<ElementTree>) -> bool {
    children_len(children) <= u32::MAX
}

/// Whether, beyond that, the offset of each child but the first leaves room for
/// a tag.
pub open spec fn fits_compact(children: Seq<ElementTree>) -> bool {
    &&& fits(children)
    &&& forall|i: int|
        1 <= i < children.len() ==> #[trigger] offset_at(children, i) < REL_OFFSET_LIMIT
}

/// The offsets before a removed child stay, and those after it go down.
pub proof fn lemma_removal_offsets(children: Seq<ElementTree>, index: int, i: int)
    requires
        0 <= index < children.len(),
        0 <= i < children.len(),
    ensures
        i <= index ==> offset_at(children.remove(index), i) == offset_at(children, i),
        i > index ==> offset_at(children.remove(index), i) + element_len(children[index])
            == offset_at(children, i + 1),
    decreases i,
{
    if i > 0 {
        lemma_removal_offsets(children, index, i - 1);
        if i == index + 1 {
            assert(offset_at(children, index + 1) == offset_at(children, index) + element_len(
                children[index],
            ));
        }
    }
}

/// What is left of children that fit when one of them is removed fits.
pub proof fn lemma_removal_fits(children: Seq<ElementTree>, index: int)
    requires
        fits_compact(children),
        0 <= index < children.len(),
    ensures
        fits_compact(children.remove(index)),
{
    let left = children.remove(index);
    lemma_removal_offsets(children, index, left.len() as int);
    lemma_offset_monotonic(children, index, children.len() as int);
    assert forall|i: int| 1 <= i < left.len() implies #[trigger] offset_at(left, i)
        < REL_OFFSET_LIMIT by {
        lemma_removal_offsets(children, index, i);
        assert(offset_at(children, i) < REL_OFFSET_LIMIT);
        assert(offset_at(children, i + 1) < REL_OFFSET_LIMIT);
    }
}

/// Some children with child `index` replaced, if there is one.
pub open spec fn replaced(
    children: Seq<ElementTree>,
    index: int,
    new_child: ElementTree,
) -> Seq<ElementTree> {
    if 0 <= index < children.len() {
        children.update(index, new_child)
    } else {
        children
    }
}

/// Some children with those from `start` to `end` replaced by `middle`.
pub open spec fn spliced(
    children: Seq<ElementTree>,
    start: int,
    end: int,
    middle: Seq<ElementTree>,
) -> Seq<ElementTree> {
    children.take(start) + middle + children.skip(end)
}

/// Whether child `i` covers the text from `start` to `end`.
pub open spec fn child_contains(children: Seq<ElementTree>, i: int, start: int, end: int) -> bool {
    offset_at(children, i) <= start && end <= offset_at(children, i + 1)
}

/// Whether child `i` is the one that is picked among those that cover the text
/// from `start` to `end`: the first child whenever that covers it. Two children
/// can only cover it if it is empty and lies where one of them ends. Then the
/// last child that ends there is picked.
pub open spec fn child_picked(children: Seq<ElementTree>, i: int, start: int, end: int) -> bool {
    &&& 0 <= i < children.len()
    &&& child_contains(children, i, start, end)
    &&& i > 0 ==> !child_contains(children, 0, start, end)
    &&& i > 0 && start == end ==> {
        ||| offset_at(children, i) < start < offset_at(children, i + 1)
        ||| {
            &&& offset_at(children, i + 1) == start
            &&& forall|j: int|
                i < j < children.len() ==> start < #[trigger] offset_at(children, j + 1)
        }
    }
}

/// The text below an element.
pub open spec fn element_text(element: ElementTree) -> Seq<char>
    decreases element, 0int,
{
    match element {
        ElementTree::Node(node) => text_before(node.children, node.children.len() as int),
        ElementTree::Token(token) => token.text,
    }
}

/// The text below the first `i` of some children.
pub open spec fn text_before(children: Seq<ElementTree>, i: int) -> Seq<char>
    decreases children, i,
{
    if 0 < i <= children.len() {
        text_before(children, i - 1) + element_text(children[i - 1])
    } else {
        Seq::empty()
    }
}

/// The text below some children.
pub open spec fn children_text(children: Seq<ElementTree>) -> Seq<char> {
    text_before(children, children.len() as int)
}

/// The text below a node.
pub open spec fn node_text(node: NodeTree) -> Seq<char> {
    children_text(node.children)
}

/// Each child together with the offset at which it starts.
pub open spec fn with_offsets(children: Seq<ElementTree>) -> Seq<(ElementTree, nat)> {
    Seq::new(children.len(), |i: int| (children[i], offset_at(children, i)))
}

} // verus!
