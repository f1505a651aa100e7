//! How the lengths and offsets of a tree agree with its text.

use vstd::prelude::*;
use crate::model;
use crate::element::SyntaxKind;
use crate::model::{ElementTree, NodeTree, TokenTree};

verus! {

/// Two texts, one after the other, are encoded one after the other.
pub proof fn lemma_encode_concat(a: Seq<char>, b: Seq<char>)
    ensures
        vstd::utf8::encode_utf8(a + b) == vstd::utf8::encode_utf8(a) + vstd::utf8::encode_utf8(b),
    decreases a.len(),
{
    if a.len() == 0 {
        assert(a + b =~= b);
        assert(vstd::utf8::encode_utf8(a + b) =~= vstd::utf8::encode_utf8(a)
            + vstd::utf8::encode_utf8(b));
    } else {
        assert((a + b).drop_first() =~= a.drop_first() + b);
        lemma_encode_concat(a.drop_first(), b);
        assert(vstd::utf8::encode_utf8(a + b) =~= vstd::utf8::encode_utf8(a)
            + vstd::utf8::encode_utf8(b));
    }
}

/// The length of an element is the number of bytes of its text.
pub proof fn lemma_element_len_is_byte_len(element: ElementTree)
    ensures
        model::element_len(element) == vstd::utf8::encode_utf8(model::element_text(element)).len(),
    decreases element, 0int,
{
    match element {
        ElementTree::Node(node) => {
            lemma_offset_is_byte_len(node.children, node.children.len() as int);
        },
        ElementTree::Token(_) => {},
    }
}

/// The offset of a child is the number of bytes of the text before it.
pub proof fn lemma_offset_is_byte_len(children: Seq<ElementTree>, i: int)
    requires
        0 <= i <= children.len(),
    ensures
        model::offset_at(children, i) == vstd::utf8::encode_utf8(
            model::text_before(children, i),
        ).len(),
    decreases children, i,
{
    if i > 0 {
        lemma_offset_is_byte_len(children, i - 1);
        lemma_element_len_is_byte_len(children[i - 1]);
        lemma_encode_concat(
            model::text_before(children, i - 1),
            model::element_text(children[i - 1]),
        );
    }
}

/// The length of a node is the number of bytes of the text that is displayed.
pub proof fn lemma_node_len_is_byte_len(node: NodeTree)
    ensures
        model::children_len(node.children) == vstd::utf8::encode_utf8(model::node_text(node)).len(),
{
    lemma_offset_is_byte_len(node.children, node.children.len() as int);
}

/// The text of a child stands in the text of its node, from the offset of the
/// child up to that of the next one.
pub proof fn lemma_child_text_at_offset(node: NodeTree, i: int)
    requires
        0 <= i < node.children.len(),
    ensures
        0 <= model::offset_at(node.children, i) <= model::offset_at(node.children, i + 1)
            <= vstd::utf8::encode_utf8(model::node_text(node)).len(),
        vstd::utf8::encode_utf8(model::node_text(node)).subrange(
            model::offset_at(node.children, i) as int,
            model::offset_at(node.children, i + 1) as int,
        ) == vstd::utf8::encode_utf8(model::element_text(node.children[i])),
{
    let children = node.children;
    lemma_text_prefix(children, i + 1, children.len() as int);
    lemma_offset_is_byte_len(children, i);
    lemma_offset_is_byte_len(children, i + 1);
    lemma_node_len_is_byte_len(node);
    model::lemma_offset_monotonic(children, i, i + 1);
    model::lemma_offset_monotonic(children, i + 1, children.len() as int);
    lemma_encode_concat(model::text_before(children, i), model::element_text(children[i]));
    let whole = vstd::utf8::encode_utf8(model::node_text(node));
    let before = vstd::utf8::encode_utf8(model::text_before(children, i));
    let own = vstd::utf8::encode_utf8(model::element_text(children[i]));
    assert(vstd::utf8::encode_utf8(model::text_before(children, i + 1)) == before + own);
    assert forall|k: int| 0 <= k < own.len() implies whole[before.len() + k] == own[k] by {
        assert((before + own)[before.len() + k] == own[k]);
    }
    assert(whole.subrange(before.len() as int, (before.len() + own.len()) as int) =~= own);
}

/// The text before one child starts with the text before any earlier one.
proof fn lemma_text_prefix(children: Seq<ElementTree>, i: int, j: int)
    requires
        0 <= i <= j <= children.len(),
    ensures
        vstd::utf8::encode_utf8(model::text_before(children, i)).is_prefix_of(
            vstd::utf8::encode_utf8(model::text_before(children, j)),
        ),
    decreases j - i,
{
    if i < j {
        lemma_text_prefix(children, i, j - 1);
        lemma_encode_concat(
            model::text_before(children, j - 1),
            model::element_text(children[j - 1]),
        );
    }
}

/// The first child starts at zero, each other one where the one before it ends,
/// and the node ends with the last one.
pub proof fn lemma_offsets_chain(children: Seq<ElementTree>, i: int)
    requires
        0 <= i < children.len(),
    ensures
        model::offset_at(children, 0) == 0,
        model::offset_at(children, i + 1) == model::offset_at(children, i) + model::element_len(
            children[i],
        ),
        model::offset_at(children, children.len() as int) == model::children_len(children),
{
    model::lemma_first_offsets(children);
}

/// The text of a token is its own text, and the text of a child that is a node is
/// the text of the node.
pub proof fn lemma_element_text(token: TokenTree, node: NodeTree)
    ensures
        model::element_text(ElementTree::Token(token)) == token.text,
        model::element_text(ElementTree::Node(node)) == model::node_text(node),
{
}

/// A node without children has no text. With one more child at its end, a node
/// has its old text and behind that the text of the child. The kind of the node
/// has no influence.
pub proof fn lemma_one_more_child_text(
    kind: SyntaxKind,
    other_kind: SyntaxKind,
    children: Seq<ElementTree>,
    child: ElementTree,
)
    ensures
        model::node_text(NodeTree { kind, children: Seq::empty() }) == Seq::<char>::empty(),
        model::node_text(NodeTree { kind, children: children.push(child) }) == model::node_text(
            NodeTree { kind: other_kind, children },
        ) + model::element_text(child),
{
    lemma_same_front(children.push(child), children, children.len() as int);
}

/// The text of a node is that of its tokens: with one more token at its end, the
/// node has the characters of the token behind its old text, and nothing else
/// changes.
pub proof fn lemma_one_more_token_text(node: NodeTree, token: TokenTree)
    ensures
        model::node_text(
            NodeTree {
                kind: node.kind,
                children: node.children.push(ElementTree::Token(token)),
            },
        ) == model::node_text(node) + token.text,
{
    lemma_one_more_child_text(node.kind, node.kind, node.children, ElementTree::Token(token));
}

/// A node that has one child, a node, has the text of that.
pub proof fn lemma_wrapped_text(kind: SyntaxKind, inner: NodeTree)
    ensures
        model::node_text(
            NodeTree { kind, children: seq![ElementTree::Node(inner)] },
        ) == model::node_text(inner),
{
    let none = Seq::<ElementTree>::empty();
    lemma_one_more_child_text(kind, kind, none, ElementTree::Node(inner));
    assert(none.push(ElementTree::Node(inner)) =~= seq![ElementTree::Node(inner)]);
    assert(Seq::<char>::empty() + model::node_text(inner) =~= model::node_text(inner));
}

/// The children of two nodes that agree so far have the same offsets and the same
/// text before them.
pub proof fn lemma_same_front(a: Seq<ElementTree>, b: Seq<ElementTree>, i: int)
    requires
        0 <= i <= a.len(),
        i <= b.len(),
        forall|j: int| 0 <= j < i ==> a[j] == b[j],
    ensures
        model::offset_at(a, i) == model::offset_at(b, i),
        model::text_before(a, i) == model::text_before(b, i),
    decreases i,
{
    if i > 0 {
        lemma_same_front(a, b, i - 1);
    }
}

/// The text before a child is the text of the children before it, and its offset
/// is their length.
pub proof fn lemma_before_is_front(children: Seq<ElementTree>, i: int)
    requires
        0 <= i <= children.len(),
    ensures
        model::text_before(children, i) == model::children_text(children.take(i)),
        model::offset_at(children, i) == model::children_len(children.take(i)),
{
    lemma_same_front(children, children.take(i), i);
}

/// A token is as long as its text has bytes, and a child that is a node is as long
/// as the children of the node together.
pub proof fn lemma_element_len(token: TokenTree, node: NodeTree)
    ensures
        model::element_len(ElementTree::Token(token)) == vstd::utf8::encode_utf8(token.text).len(),
        model::element_len(ElementTree::Node(node)) == model::children_len(node.children),
{
}

/// No children have no length. One more child at the end adds its own length, and
/// starts where the others end.
pub proof fn lemma_one_more_child_len(children: Seq<ElementTree>, child: ElementTree)
    ensures
        model::children_len(Seq::empty()) == 0,
        model::children_len(children.push(child)) == model::children_len(children)
            + model::element_len(child),
        model::offset_at(children.push(child), children.len() as int) == model::children_len(
            children,
        ),
{
    lemma_same_front(children.push(child), children, children.len() as int);
}

/// The lists that a node can hold: the empty one; and one more child at the end
/// of a list that a node can hold, if the sum of the lengths is at most
/// `0xffff_ffff`, and if that child, unless it is the first one, starts below
/// `0x4000_0000`.
pub proof fn lemma_one_more_child_fits(children: Seq<ElementTree>, child: ElementTree)
    ensures
        model::fits_compact(Seq::empty()),
        model::fits_compact(children.push(child)) <==> {
            &&& model::fits_compact(children)
            &&& model::children_len(children) + model::element_len(child) <= 0xffff_ffff
            &&& children.len() > 0 ==> model::children_len(children) < 0x4000_0000
        },
{
    let more = children.push(child);
    let n = children.len() as int;
    lemma_one_more_child_len(children, child);
    assert forall|i: int| 1 <= i <= n implies model::offset_at(more, i)
        == #[trigger] model::offset_at(children, i) by {
        lemma_same_front(more, children, i);
    }
    if model::fits_compact(more) {
        assert forall|i: int| 1 <= i < n implies #[trigger] model::offset_at(children, i)
            < 0x4000_0000 by {
            assert(model::offset_at(more, i) < 0x4000_0000);
        }
        if n > 0 {
            assert(model::offset_at(more, n) < 0x4000_0000);
        }
    }
    if model::fits_compact(children) && (n > 0 ==> model::children_len(children) < 0x4000_0000) {
        assert forall|i: int| 1 <= i < more.len() implies #[trigger] model::offset_at(more, i)
            < 0x4000_0000 by {
            assert(model::offset_at(children, i) < 0x4000_0000);
        }
    }
}

/// A list whose length fits into 32 bits, and no other, fits.
pub proof fn lemma_fits_is_length(children: Seq<ElementTree>)
    ensures
        model::fits(children) <==> model::children_len(children) <= 0xffff_ffff,
{
}

} // verus!
