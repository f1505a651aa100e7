//! What equal nodes have in common.

use std::borrow::Cow;
use std::hash::Hasher;
use vstd::prelude::*;
use vstd::std_specs::cmp::PartialEqSpec;
use vstd::std_specs::convert::FromSpec;
use crate::child::{GreenChild, StoredChild};
use crate::element::{GreenElement, GreenElementRef, SyntaxKind};
use crate::hashing;
use crate::hashing::{HashItem, HashValue};
use crate::head;
use crate::head::{GreenNodeHead, HeadTree};
use crate::model;
use crate::model::{ElementTree, NodeTree, TokenTree};
use crate::node::{GreenNode, GreenNodeData};
use crate::shared::{feed, NodeCount};
use crate::tag::ElementTag;
use crate::text::TextSize;
use crate::token::{GreenToken, GreenTokenData};

verus! {

/// Equality is an equivalence.
pub proof fn lemma_equality_is_equivalence(a: GreenNodeData, b: GreenNodeData, c: GreenNodeData)
    ensures
        a.eq_spec(&a),
        a.eq_spec(&b) == b.eq_spec(&a),
        a.eq_spec(&b) && b.eq_spec(&c) ==> a.eq_spec(&c),
{
}

/// Equal nodes hand the same to a hasher.
pub proof fn lemma_equal_nodes_hash_alike(a: GreenNodeData, b: GreenNodeData)
    requires
        a.eq_spec(&b),
    ensures
        hashing::node_hash(a@) == hashing::node_hash(b@),
{
}

/// A hasher that makes the same of the same value in the same state ends in the
/// same state when it is led by the same values from the same state.
proof fn lemma_traces_agree<H: Hasher>(
    a_items: Seq<HashItem<'_>>,
    a_states: Seq<H>,
    a_after: H,
    b_items: Seq<HashItem<'_>>,
    b_states: Seq<H>,
    b_after: H,
    before: H,
    n: int,
)
    requires
        forall|x: HashItem<'_>, y: HashItem<'_>, p: &mut H, q: &mut H|
            {
                &&& #[trigger] call_ensures(hashing::feed_item::<H>, (&x, p), ())
                &&& #[trigger] call_ensures(hashing::feed_item::<H>, (&y, q), ())
                &&& x@ == y@
                &&& *p == *q
            } ==> *final(p) == *final(q),
        hashing::hash_values(a_items) == hashing::hash_values(b_items),
        hashing::is_trace(a_states, a_items.len(), before, a_after),
        forall|i: int| #[trigger]
            hashing::is_step(i, a_items.len()) ==> exists|handed: &mut H|
                {
                    &&& #[trigger] call_ensures(
                        hashing::feed_item::<H>,
                        (&a_items[i], handed),
                        (),
                    )
                    &&& *handed == a_states[i]
                    &&& *final(handed) == a_states[i + 1]
                },
        hashing::is_trace(b_states, b_items.len(), before, b_after),
        forall|i: int| #[trigger]
            hashing::is_step(i, b_items.len()) ==> exists|handed: &mut H|
                {
                    &&& #[trigger] call_ensures(
                        hashing::feed_item::<H>,
                        (&b_items[i], handed),
                        (),
                    )
                    &&& *handed == b_states[i]
                    &&& *final(handed) == b_states[i + 1]
                },
        0 <= n <= a_items.len(),
    ensures
        a_items.len() == b_items.len(),
        a_states[n] == b_states[n],
    decreases n,
{
    assert(hashing::hash_values(a_items).len() == a_items.len());
    assert(hashing::hash_values(b_items).len() == b_items.len());
    if n > 0 {
        lemma_traces_agree(
            a_items,
            a_states,
            a_after,
            b_items,
            b_states,
            b_after,
            before,
            n - 1,
        );
        assert(hashing::is_step(n - 1, a_items.len()));
        assert(hashing::is_step(n - 1, b_items.len()));
        assert(hashing::hash_values(a_items)[n - 1] == a_items[n - 1]@);
        assert(hashing::hash_values(b_items)[n - 1] == b_items[n - 1]@);
        assert(a_states[n - 1 + 1] == b_states[n - 1 + 1]);
    }
}

/// Equal nodes leave a hasher in the same state, if the hasher makes the same of
/// the same value in the same state. Handles and what is behind them do so too.
pub proof fn lemma_equal_nodes_same_hasher<H: Hasher>(
    a: GreenNode,
    b: GreenNode,
    before: H,
    a_after: H,
    b_after: H,
)
    requires
        a.eq_spec(&b),
        forall|x: HashItem<'_>, y: HashItem<'_>, p: &mut H, q: &mut H|
            {
                &&& #[trigger] call_ensures(hashing::feed_item::<H>, (&x, p), ())
                &&& #[trigger] call_ensures(hashing::feed_item::<H>, (&y, q), ())
                &&& x@ == y@
                &&& *p == *q
            } ==> *final(p) == *final(q),
        exists|items: Seq<HashItem<'_>>, states: Seq<H>|
            {
                &&& #[trigger] hashing::hash_values(items) == hashing::node_hash(a@)
                &&& #[trigger] hashing::is_trace(states, items.len(), before, a_after)
                &&& forall|i: int| #[trigger]
                    hashing::is_step(i, items.len()) ==> exists|handed: &mut H|
                        {
                            &&& #[trigger] call_ensures(
                                hashing::feed_item::<H>,
                                (&items[i], handed),
                                (),
                            )
                            &&& *handed == states[i]
                            &&& *final(handed) == states[i + 1]
                        }
            },
        exists|items: Seq<HashItem<'_>>, states: Seq<H>|
            {
                &&& #[trigger] hashing::hash_values(items) == hashing::node_hash(b.behind()@)
                &&& #[trigger] hashing::is_trace(states, items.len(), before, b_after)
                &&& forall|i: int| #[trigger]
                    hashing::is_step(i, items.len()) ==> exists|handed: &mut H|
                        {
                            &&& #[trigger] call_ensures(
                                hashing::feed_item::<H>,
                                (&items[i], handed),
                                (),
                            )
                            &&& *handed == states[i]
                            &&& *final(handed) == states[i + 1]
                        }
            },
    ensures
        a_after == b_after,
{
    b.lemma_behind();
    assert forall|
        a_items: Seq<HashItem<'_>>,
        a_states: Seq<H>,
        b_items: Seq<HashItem<'_>>,
        b_states: Seq<H>,
    |
        {
            &&& #[trigger] hashing::hash_values(a_items) == hashing::node_hash(a@)
            &&& #[trigger] hashing::is_trace(a_states, a_items.len(), before, a_after)
            &&& forall|i: int| #[trigger]
                hashing::is_step(i, a_items.len()) ==> exists|handed: &mut H|
                    {
                        &&& #[trigger] call_ensures(
                            hashing::feed_item::<H>,
                            (&a_items[i], handed),
                            (),
                        )
                        &&& *handed == a_states[i]
                        &&& *final(handed) == a_states[i + 1]
                    }
            &&& #[trigger] hashing::hash_values(b_items) == hashing::node_hash(a@)
            &&& #[trigger] hashing::is_trace(b_states, b_items.len(), before, b_after)
            &&& forall|i: int| #[trigger]
                hashing::is_step(i, b_items.len()) ==> exists|handed: &mut H|
                    {
                        &&& #[trigger] call_ensures(
                            hashing::feed_item::<H>,
                            (&b_items[i], handed),
                            (),
                        )
                        &&& *handed == b_states[i]
                        &&& *final(handed) == b_states[i + 1]
                    }
        } implies a_after == b_after by {
        lemma_traces_agree(
            a_items,
            a_states,
            a_after,
            b_items,
            b_states,
            b_after,
            before,
            a_items.len() as int,
        );
    }
}

/// Whatever state a node can leave a hasher in, an equal node can leave it in.
pub proof fn lemma_equal_nodes_lead_alike<H: Hasher>(
    a: GreenNodeData,
    b: GreenNodeData,
    before: H,
    after: H,
)
    requires
        a.eq_spec(&b),
        exists|items: Seq<HashItem<'_>>, states: Seq<H>|
            {
                &&& #[trigger] hashing::hash_values(items) == hashing::node_hash(a@)
                &&& #[trigger] hashing::is_trace(states, items.len(), before, after)
                &&& forall|i: int| #[trigger]
                    hashing::is_step(i, items.len()) ==> exists|handed: &mut H|
                        {
                            &&& #[trigger] call_ensures(
                                hashing::feed_item::<H>,
                                (&items[i], handed),
                                (),
                            )
                            &&& *handed == states[i]
                            &&& *final(handed) == states[i + 1]
                        }
            },
    ensures
        exists|items: Seq<HashItem<'_>>, states: Seq<H>|
            {
                &&& #[trigger] hashing::hash_values(items) == hashing::node_hash(b@)
                &&& #[trigger] hashing::is_trace(states, items.len(), before, after)
                &&& forall|i: int| #[trigger]
                    hashing::is_step(i, items.len()) ==> exists|handed: &mut H|
                        {
                            &&& #[trigger] call_ensures(
                                hashing::feed_item::<H>,
                                (&items[i], handed),
                                (),
                            )
                            &&& *handed == states[i]
                            &&& *final(handed) == states[i + 1]
                        }
            },
{
}

/// Handles are equal when what is behind them is, and hand the same to a hasher.
pub proof fn lemma_handles_agree(a: GreenNode, b: GreenNode)
    ensures
        a.eq_spec(&b) == a.behind().eq_spec(&b.behind()),
        hashing::node_hash(a@) == hashing::node_hash(a.behind()@),
{
    a.lemma_behind();
    b.lemma_behind();
}

/// Two handles to the same data are the same handle.
pub proof fn lemma_same_data_same_handle(a: GreenNode, b: GreenNode, c: GreenToken, d: GreenToken)
    ensures
        a.behind() == b.behind() ==> a == b,
        c.behind() == d.behind() ==> c == d,
{
    a.lemma_behind();
    b.lemma_behind();
    c.lemma_behind();
    d.lemma_behind();
}

/// The fixed parts of equal nodes are equal, however the nodes store their
/// children, and hand the same to a hasher.
pub proof fn lemma_equal_nodes_equal_heads(
    node: NodeTree,
    a: GreenNodeHead,
    a_compact: bool,
    b: GreenNodeHead,
    b_compact: bool,
)
    requires
        a@ == head::head_of(node, a_compact),
        b@ == head::head_of(node, b_compact),
    ensures
        a.eq_spec(&b),
        hashing::head_hash(a@) == hashing::head_hash(b@),
{
}

/// Equal fixed parts hand the same to a hasher.
pub proof fn lemma_equal_heads_hash_alike(a: GreenNodeHead, b: GreenNodeHead)
    requires
        a.eq_spec(&b),
    ensures
        hashing::head_hash(a@) == hashing::head_hash(b@),
{
}

/// Whatever state the fixed part of a node can leave a hasher in, an equal one
/// can leave it in.
pub proof fn lemma_equal_heads_lead_alike<H: Hasher>(
    a: GreenNodeHead,
    b: GreenNodeHead,
    before: H,
    after: H,
)
    requires
        a.eq_spec(&b),
        exists|items: Seq<HashItem<'_>>, states: Seq<H>, mid: H|
            {
                &&& #[trigger] hashing::hash_values(items) == hashing::head_hash(a@)
                &&& #[trigger] hashing::is_trace(states, items.len(), before, mid)
                &&& forall|i: int| #[trigger]
                    hashing::is_step(i, items.len()) ==> exists|handed: &mut H|
                        {
                            &&& #[trigger] call_ensures(
                                hashing::feed_item::<H>,
                                (&items[i], handed),
                                (),
                            )
                            &&& *handed == states[i]
                            &&& *final(handed) == states[i + 1]
                        }
                &&& exists|count: NodeCount, handed: &mut H|
                    {
                        &&& #[trigger] call_ensures(
                            feed::<NodeCount, H>,
                            (&count, handed),
                            (),
                        )
                        &&& *handed == mid
                        &&& *final(handed) == after
                    }
            },
    ensures
        exists|items: Seq<HashItem<'_>>, states: Seq<H>, mid: H|
            {
                &&& #[trigger] hashing::hash_values(items) == hashing::head_hash(b@)
                &&& #[trigger] hashing::is_trace(states, items.len(), before, mid)
                &&& forall|i: int| #[trigger]
                    hashing::is_step(i, items.len()) ==> exists|handed: &mut H|
                        {
                            &&& #[trigger] call_ensures(
                                hashing::feed_item::<H>,
                                (&items[i], handed),
                                (),
                            )
                            &&& *handed == states[i]
                            &&& *final(handed) == states[i + 1]
                        }
                &&& exists|count: NodeCount, handed: &mut H|
                    {
                        &&& #[trigger] call_ensures(
                            feed::<NodeCount, H>,
                            (&count, handed),
                            (),
                        )
                        &&& *handed == mid
                        &&& *final(handed) == after
                    }
            },
{
}

/// Equal fixed parts leave a hasher in the same state, if the hasher makes the
/// same of the same value in the same state, and of any count.
pub proof fn lemma_equal_heads_same_hasher<H: Hasher>(
    a: GreenNodeHead,
    b: GreenNodeHead,
    before: H,
    a_after: H,
    b_after: H,
)
    requires
        a.eq_spec(&b),
        forall|x: HashItem<'_>, y: HashItem<'_>, p: &mut H, q: &mut H|
            {
                &&& #[trigger] call_ensures(hashing::feed_item::<H>, (&x, p), ())
                &&& #[trigger] call_ensures(hashing::feed_item::<H>, (&y, q), ())
                &&& x@ == y@
                &&& *p == *q
            } ==> *final(p) == *final(q),
        forall|c: NodeCount, d: NodeCount, p: &mut H, q: &mut H|
            {
                &&& #[trigger] call_ensures(feed::<NodeCount, H>, (&c, p), ())
                &&& #[trigger] call_ensures(feed::<NodeCount, H>, (&d, q), ())
                &&& *p == *q
            } ==> *final(p) == *final(q),
        exists|items: Seq<HashItem<'_>>, states: Seq<H>, mid: H|
            {
                &&& #[trigger] hashing::hash_values(items) == hashing::head_hash(a@)
                &&& #[trigger] hashing::is_trace(states, items.len(), before, mid)
                &&& forall|i: int| #[trigger]
                    hashing::is_step(i, items.len()) ==> exists|handed: &mut H|
                        {
                            &&& #[trigger] call_ensures(
                                hashing::feed_item::<H>,
                                (&items[i], handed),
                                (),
                            )
                            &&& *handed == states[i]
                            &&& *final(handed) == states[i + 1]
                        }
                &&& exists|count: NodeCount, handed: &mut H|
                    {
                        &&& #[trigger] call_ensures(
                            feed::<NodeCount, H>,
                            (&count, handed),
                            (),
                        )
                        &&& *handed == mid
                        &&& *final(handed) == a_after
                    }
            },
        exists|items: Seq<HashItem<'_>>, states: Seq<H>, mid: H|
            {
                &&& #[trigger] hashing::hash_values(items) == hashing::head_hash(b@)
                &&& #[trigger] hashing::is_trace(states, items.len(), before, mid)
                &&& forall|i: int| #[trigger]
                    hashing::is_step(i, items.len()) ==> exists|handed: &mut H|
                        {
                            &&& #[trigger] call_ensures(
                                hashing::feed_item::<H>,
                                (&items[i], handed),
                                (),
                            )
                            &&& *handed == states[i]
                            &&& *final(handed) == states[i + 1]
                        }
                &&& exists|count: NodeCount, handed: &mut H|
                    {
                        &&& #[trigger] call_ensures(
                            feed::<NodeCount, H>,
                            (&count, handed),
                            (),
                        )
                        &&& *handed == mid
                        &&& *final(handed) == b_after
                    }
            },
    ensures
        a_after == b_after,
{
    assert forall|
        a_items: Seq<HashItem<'_>>,
        a_states: Seq<H>,
        a_mid: H,
        b_items: Seq<HashItem<'_>>,
        b_states: Seq<H>,
        b_mid: H,
    |
        {
            &&& #[trigger] hashing::hash_values(a_items) == hashing::head_hash(a@)
            &&& #[trigger] hashing::is_trace(a_states, a_items.len(), before, a_mid)
            &&& forall|i: int| #[trigger]
                hashing::is_step(i, a_items.len()) ==> exists|handed: &mut H|
                    {
                        &&& #[trigger] call_ensures(
                            hashing::feed_item::<H>,
                            (&a_items[i], handed),
                            (),
                        )
                        &&& *handed == a_states[i]
                        &&& *final(handed) == a_states[i + 1]
                    }
            &&& #[trigger] hashing::hash_values(b_items) == hashing::head_hash(a@)
            &&& #[trigger] hashing::is_trace(b_states, b_items.len(), before, b_mid)
            &&& forall|i: int| #[trigger]
                hashing::is_step(i, b_items.len()) ==> exists|handed: &mut H|
                    {
                        &&& #[trigger] call_ensures(
                            hashing::feed_item::<H>,
                            (&b_items[i], handed),
                            (),
                        )
                        &&& *handed == b_states[i]
                        &&& *final(handed) == b_states[i + 1]
                    }
        } implies a_mid == b_mid by {
        lemma_traces_agree(
            a_items,
            a_states,
            a_mid,
            b_items,
            b_states,
            b_mid,
            before,
            a_items.len() as int,
        );
    }
}

/// What `==` gives is what equality means, for each type that has it, and what
/// `from` gives is what the conversion means.
pub proof fn lemma_equality_is_meant()
    ensures
        <GreenNodeData as PartialEqSpec>::obeys_eq_spec(),
        <GreenNode as PartialEqSpec>::obeys_eq_spec(),
        <GreenTokenData as PartialEqSpec>::obeys_eq_spec(),
        <GreenToken as PartialEqSpec>::obeys_eq_spec(),
        <GreenNodeHead as PartialEqSpec>::obeys_eq_spec(),
        <GreenChild as PartialEqSpec>::obeys_eq_spec(),
        <GreenElement as PartialEqSpec>::obeys_eq_spec(),
        <GreenElementRef<'_> as PartialEqSpec>::obeys_eq_spec(),
        <GreenNode as FromSpec<Cow<'_, GreenNodeData>>>::obeys_from_spec(),
{
}

/// Nodes, handles, tokens and children are equal when they are the same tree, and
/// only then.
pub proof fn lemma_equal_is_same_tree(
    nodes: (GreenNodeData, GreenNodeData),
    handles: (GreenNode, GreenNode),
    leaves: (GreenTokenData, GreenTokenData),
    tokens: (GreenToken, GreenToken),
    elements: (GreenElement, GreenElement),
)
    ensures
        nodes.0.eq_spec(&nodes.1) <==> nodes.0@.kind == nodes.1@.kind && nodes.0@.children
            == nodes.1@.children,
        handles.0.eq_spec(&handles.1) <==> handles.0@.kind == handles.1@.kind
            && handles.0@.children == handles.1@.children,
        leaves.0.eq_spec(&leaves.1) <==> leaves.0@.kind == leaves.1@.kind && leaves.0@.text
            == leaves.1@.text,
        tokens.0.eq_spec(&tokens.1) <==> tokens.0@.kind == tokens.1@.kind && tokens.0@.text
            == tokens.1@.text,
        elements.0.eq_spec(&elements.1) <==> elements.0@ == elements.1@,
{
}

/// Borrowed children are equal when they are the same tree, and only then.
pub proof fn lemma_equal_refs_are_same_tree<'a>(a: GreenElementRef<'a>, b: GreenElementRef<'a>)
    ensures
        a.eq_spec(&b) <==> a@ == b@,
{
}

/// The fixed parts of nodes are equal when kind, length and first child are the
/// same, and only then.
pub proof fn lemma_equal_heads(a: GreenNodeHead, b: GreenNodeHead)
    ensures
        a.eq_spec(&b) <==> a@.kind == b@.kind && a@.text_len == b@.text_len && a@.first == b@.first,
{
}

/// Stored children are equal when they are the same tree at the same offset, and
/// only then.
pub proof fn lemma_equal_stored_children(a: GreenChild, b: GreenChild)
    ensures
        a.eq_spec(&b) <==> a.element() == b.element() && a.offset() == b.offset(),
{
}

/// A stored child is the node or the token that it holds, at the offset that it
/// holds.
pub proof fn lemma_stored_child(node: GreenNode, token: GreenToken, rel_offset: TextSize)
    ensures
        (GreenChild::Node { rel_offset, node }).element() == ElementTree::Node(node@),
        (GreenChild::Node { rel_offset, node }).offset() == rel_offset@,
        (GreenChild::Token { rel_offset, token }).element() == ElementTree::Token(token@),
        (GreenChild::Token { rel_offset, token }).offset() == rel_offset@,
{
}

/// The fixed part of a node has the kind of the node and the length of its
/// children, and its first child if it has one.
pub proof fn lemma_head_parts(node: NodeTree, compact: bool)
    ensures
        head::head_of(node, compact).kind == node.kind,
        head::head_of(node, compact).text_len == model::children_len(node.children),
        head::head_of(node, compact).compact == compact,
        node.children.len() == 0 ==> head::head_of(node, compact).first is None,
        node.children.len() > 0 ==> head::head_of(node, compact).first == Some(node.children[0]),
{
}

/// Borrowed data becomes a handle to the same tree, and an owned handle stays what
/// it is.
pub proof fn lemma_cow_keeps_tree<'a>(data: GreenNodeData, node: GreenNode)
    ensures
        <GreenNode as FromSpec<Cow<'a, GreenNodeData>>>::from_spec(Cow::Borrowed(&data)).behind()
            == data,
        <GreenNode as FromSpec<Cow<'a, GreenNodeData>>>::from_spec(Cow::Borrowed(&data))@ == data@,
        <GreenNode as FromSpec<Cow<'a, GreenNodeData>>>::from_spec(Cow::Owned(node)) == node,
{
    GreenNode::handle(data).lemma_behind();
}

/// What a token, a child, a node and the fixed part of a node hand to a hasher,
/// each told from its parts. A node with one more child at its end hands over what
/// it did, and then what the child does.
pub proof fn lemma_handed_over(
    token: TokenTree,
    node: NodeTree,
    child: ElementTree,
    fixed: HeadTree,
)
    ensures
        hashing::token_hash(token) == seq![
            HashValue::Kind(token.kind),
            HashValue::Text(token.text),
        ],
        hashing::element_hash(ElementTree::Token(token)) == seq![
            HashValue::Tag(ElementTag::Token),
            HashValue::Kind(token.kind),
            HashValue::Text(token.text),
        ],
        hashing::element_hash(ElementTree::Node(node)) == seq![HashValue::Tag(ElementTag::Node)]
            + hashing::node_hash(node),
        hashing::node_hash(NodeTree { kind: node.kind, children: Seq::empty() }) == seq![
            HashValue::Kind(node.kind),
        ],
        hashing::node_hash(
            NodeTree { kind: node.kind, children: node.children.push(child) },
        ) == hashing::node_hash(node) + hashing::element_hash(child),
        hashing::head_hash(fixed) == seq![
            HashValue::Kind(fixed.kind),
            HashValue::Len(fixed.text_len),
            HashValue::Present(fixed.first is Some),
        ] + (match fixed.first {
            Some(first) => hashing::element_hash(first),
            None => Seq::empty(),
        }),
{
    let more = node.children.push(child);
    assert(hashing::element_hash(ElementTree::Token(token)) =~= seq![
        HashValue::Tag(ElementTag::Token),
        HashValue::Kind(token.kind),
        HashValue::Text(token.text),
    ]);
    assert(hashing::element_hash(ElementTree::Node(node)) =~= seq![
        HashValue::Tag(ElementTag::Node),
    ] + hashing::node_hash(node));
    lemma_hash_front(more, node.children, node.children.len() as int);
    assert(hashing::node_hash(NodeTree { kind: node.kind, children: more })
        =~= hashing::node_hash(node) + hashing::element_hash(child));
    assert(hashing::node_hash(NodeTree { kind: node.kind, children: Seq::empty() }) =~= seq![
        HashValue::Kind(node.kind),
    ]);
}

/// Children that agree so far hand over the same so far.
proof fn lemma_hash_front(a: Seq<ElementTree>, b: Seq<ElementTree>, i: int)
    requires
        0 <= i <= a.len(),
        i <= b.len(),
        forall|j: int| 0 <= j < i ==> a[j] == b[j],
    ensures
        hashing::hash_before(a, i) == hashing::hash_before(b, i),
    decreases i,
{
    if i > 0 {
        lemma_hash_front(a, b, i - 1);
    }
}

/// Values are seen one by one, in their order, each as the one that it is.
pub proof fn lemma_hash_values_one_more<'a>(items: Seq<HashItem<'a>>, item: HashItem<'a>)
    ensures
        hashing::hash_values(Seq::<HashItem<'a>>::empty()) == Seq::<HashValue>::empty(),
        hashing::hash_values(items.push(item)) == hashing::hash_values(items).push(item@),
{
    assert(hashing::hash_values(Seq::<HashItem<'a>>::empty()) =~= Seq::<HashValue>::empty());
    assert(hashing::hash_values(items.push(item)) =~= hashing::hash_values(items).push(item@));
}

/// A value that is handed over is seen as what it holds.
pub proof fn lemma_hash_item_view<'a>(
    kind: SyntaxKind,
    len: TextSize,
    present: bool,
    tag: ElementTag,
    text: &'a str,
)
    ensures
        HashItem::<'a>::Kind(kind)@ == HashValue::Kind(kind),
        HashItem::<'a>::Len(len)@ == HashValue::Len(len@),
        HashItem::<'a>::Present(present)@ == HashValue::Present(present),
        HashItem::<'a>::Tag(tag)@ == HashValue::Tag(tag),
        HashItem::Text(text)@ == HashValue::Text(text@),
{
}

/// When a hasher is led by some values, each of them takes one step, from where
/// the one before it led to.
pub proof fn lemma_each_value_is_a_step<H>(states: Seq<H>, n: nat, before: H, after: H, i: int)
    ensures
        hashing::is_step(i, n) <==> 0 <= i < n,
        hashing::is_trace(states, n, before, after) <==> {
            &&& states.len() == n + 1
            &&& states.first() == before
            &&& states.last() == after
        },
{
}

} // verus!
