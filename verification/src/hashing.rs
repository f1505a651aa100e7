//! What nodes, tokens and children hand to a hasher. That is told by the tree
//! alone, so equal ones hand over the same.

use std::hash::{Hash, Hasher};
use vstd::prelude::*;
use crate::children;
use crate::element::{GreenElementRef, NodeOrToken, SyntaxKind};
use crate::head::{GreenNodeHead, HeadTree};
use crate::model::{ElementTree, NodeTree, TokenTree};
use crate::node::{GreenNode, GreenNodeData};
use crate::shared::{feed, NodeCount};
use crate::tag::ElementTag;
use crate::text::TextSize;
use crate::token::{GreenToken, GreenTokenData};

verus! {

/// One value that is handed to a hasher.
pub enum HashItem<'a> {
    Kind(SyntaxKind),
    Len(TextSize),
    Present(bool),
    Tag(ElementTag),
    Text(&'a str),
}

/// What such a value is.
#[verifier::ext_equal]
pub enum HashValue {
    Kind(SyntaxKind),
    Len(nat),
    Present(bool),
    Tag(ElementTag),
    Text(Seq<char>),
}

impl<'a> View for HashItem<'a> {
    type V = HashValue;

    open spec fn view(&self) -> HashValue {
        match self {
            HashItem::Kind(kind) => HashValue::Kind(*kind),
            HashItem::Len(len) => HashValue::Len(len@),
            HashItem::Present(present) => HashValue::Present(*present),
            HashItem::Tag(tag) => HashValue::Tag(*tag),
            HashItem::Text(text) => HashValue::Text(text@),
        }
    }
}

/// What some values are.
pub open spec fn hash_values(items: Seq<HashItem<'_>>) -> Seq<HashValue> {
    Seq::new(items.len(), |i: int| items[i]@)
}

/// What a token hands over.
pub open spec fn token_hash(token: TokenTree) -> Seq<HashValue> {
    seq![HashValue::Kind(token.kind), HashValue::Text(token.text)]
}

/// What a child hands over: its tag, and then what it is.
pub open spec fn element_hash(element: ElementTree) -> Seq<HashValue>
    decreases element, 0int,
{
    match element {
        ElementTree::Node(node) => seq![
            HashValue::Tag(ElementTag::Node),
            HashValue::Kind(node.kind),
        ] + hash_before(node.children, node.children.len() as int),
        ElementTree::Token(token) => seq![HashValue::Tag(ElementTag::Token)] + token_hash(token),
    }
}

/// What the first `i` of some children hand over.
pub open spec fn hash_before(children: Seq<ElementTree>, i: int) -> Seq<HashValue>
    decreases children, i,
{
    if 0 < i <= children.len() {
        hash_before(children, i - 1) + element_hash(children[i - 1])
    } else {
        Seq::empty()
    }
}

/// What a node hands over: its kind, and then its children.
pub open spec fn node_hash(node: NodeTree) -> Seq<HashValue> {
    seq![HashValue::Kind(node.kind)] + hash_before(node.children, node.children.len() as int)
}

/// What the fixed part of a node hands over.
pub open spec fn head_hash(head: HeadTree) -> Seq<HashValue> {
    seq![
        HashValue::Kind(head.kind),
        HashValue::Len(head.text_len),
        HashValue::Present(head.first is Some),
    ] + match head.first {
        Some(first) => element_hash(first),
        None => Seq::empty(),
    }
}

fn push_token<'a>(token: &'a GreenTokenData, items: &mut Vec<HashItem<'a>>)
    ensures
        hash_values(final(items)@) == hash_values(old(items)@) + token_hash(token@),
{
    items.push(HashItem::Kind(token.kind()));
    items.push(HashItem::Text(token.text()));
    assert(hash_values(items@) =~= hash_values(old(items)@) + token_hash(token@));
}

fn push_element<'a>(element: GreenElementRef<'a>, items: &mut Vec<HashItem<'a>>)
    ensures
        hash_values(final(items)@) == hash_values(old(items)@) + element_hash(element@),
    decreases element@,
{
    let ghost before = hash_values(items@);
    match element {
        NodeOrToken::Node(node) => {
            assert(decreases_to!(element@ => element@->Node_0));
            items.push(HashItem::Tag(ElementTag::Node));
            assert(hash_values(items@) =~= before + seq![HashValue::Tag(ElementTag::Node)]);
            push_node(node, items);
        },
        NodeOrToken::Token(token) => {
            items.push(HashItem::Tag(ElementTag::Token));
            assert(hash_values(items@) =~= before + seq![HashValue::Tag(ElementTag::Token)]);
            push_token(token, items);
        },
    }
    assert(hash_values(items@) =~= before + element_hash(element@));
}

fn push_node<'a>(node: &'a GreenNodeData, items: &mut Vec<HashItem<'a>>)
    ensures
        hash_values(final(items)@) == hash_values(old(items)@) + node_hash(node@),
    decreases node@,
{
    let ghost before = hash_values(items@);
    items.push(HashItem::Kind(node.kind()));
    let ghost start = before + seq![HashValue::Kind(node@.kind)];
    let mut walk = node.children();
    let ghost mut i: int = 0;
    assert(hash_values(items@) =~= start + hash_before(node@.children, 0));
    loop
        invariant
            0 <= i <= node@.children.len(),
            walk@ == node@.children.skip(i),
            hash_values(items@) == start + hash_before(node@.children, i),
        ensures
            i == node@.children.len(),
        decreases walk@.len(),
    {
        match walk.next() {
            None => {
                break;
            },
            Some(child) => {
                assert(child@ == node@.children[i]);
                push_element(child, items);
                proof {
                    i = i + 1;
                    assert(hash_values(items@) =~= start + hash_before(node@.children, i));
                }
            },
        }
    }
    assert(hash_values(items@) =~= before + node_hash(node@));
}

/// Hands one value to a hasher: the hasher ends as a call of [`feed`] on that
/// value leaves it.
pub fn feed_item<H: Hasher>(item: &HashItem<'_>, state: &mut H)
    ensures
        match *item {
            HashItem::Kind(kind) => exists|handed: &mut H|
                {
                    &&& #[trigger] call_ensures(feed::<u16, H>, (&kind.0, handed), ())
                    &&& *handed == *old(state)
                    &&& *final(handed) == *final(state)
                },
            HashItem::Len(len) => exists|raw: u32, handed: &mut H|
                {
                    &&& #[trigger] call_ensures(feed::<u32, H>, (&raw, handed), ())
                    &&& raw == len@
                    &&& *handed == *old(state)
                    &&& *final(handed) == *final(state)
                },
            HashItem::Present(present) => exists|number: isize, handed: &mut H|
                {
                    &&& #[trigger] call_ensures(feed::<isize, H>, (&number, handed), ())
                    &&& number == (if present { 1int } else { 0int })
                    &&& *handed == *old(state)
                    &&& *final(handed) == *final(state)
                },
            HashItem::Tag(tag) => exists|number: isize, handed: &mut H|
                {
                    &&& #[trigger] call_ensures(feed::<isize, H>, (&number, handed), ())
                    &&& number == tag.number()
                    &&& *handed == *old(state)
                    &&& *final(handed) == *final(state)
                },
            HashItem::Text(text) => exists|handed: &mut H|
                {
                    &&& #[trigger] call_ensures(feed::<str, H>, (text, handed), ())
                    &&& *handed == *old(state)
                    &&& *final(handed) == *final(state)
                },
        },
{
    // each call goes through a value, so that the contract can speak of the call
    match item {
        HashItem::Kind(kind) => {
            let call = feed::<u16, H>;
            call(&kind.0, state);
        },
        HashItem::Len(len) => {
            let call = feed::<u32, H>;
            let raw: u32 = len.raw();
            call(&raw, state);
        },
        HashItem::Present(present) => {
            let call = feed::<isize, H>;
            let number: isize = if *present {
                1
            } else {
                0
            };
            call(&number, state);
        },
        HashItem::Tag(tag) => {
            let call = feed::<isize, H>;
            let number: isize = tag.to_number() as isize;
            call(&number, state);
        },
        HashItem::Text(text) => {
            let call = feed::<str, H>;
            call(*text, state);
        },
    }
}

/// Whether `states` leads in `n` steps from `before` to `after`.
pub open spec fn is_trace<H>(states: Seq<H>, n: nat, before: H, after: H) -> bool {
    &&& states.len() == n + 1
    &&& states[0] == before
    &&& states[n as int] == after
}

/// Whether step `i` is one of `n` steps.
pub open spec fn is_step(i: int, n: nat) -> bool {
    0 <= i < n
}

/// Hands some values to a hasher, one after the other: the hasher goes through
/// states of which each is what a call of [`feed_item`] on the next value makes
/// of the one before it.
fn feed_all<H: Hasher>(items: &Vec<HashItem<'_>>, state: &mut H)
    ensures
        exists|states: Seq<H>|
            {
                &&& #[trigger] is_trace(states, items@.len(), *old(state), *final(state))
                &&& forall|i: int| #[trigger]
                    is_step(i, items@.len()) ==> exists|handed: &mut H|
                        {
                            &&& #[trigger] call_ensures(feed_item::<H>, (&items@[i], handed), ())
                            &&& *handed == states[i]
                            &&& *final(handed) == states[i + 1]
                        }
            },
{
    let n: usize = items.len();
    let mut i: usize = 0;
    let ghost mut states: Seq<H> = seq![*state];
    while i < n
        invariant
            i <= n == items@.len(),
            is_trace(states, i as nat, *old(state), *state),
            forall|j: int| #[trigger]
                is_step(j, i as nat) ==> exists|handed: &mut H|
                    {
                        &&& #[trigger] call_ensures(feed_item::<H>, (&items@[j], handed), ())
                        &&& *handed == states[j]
                        &&& *final(handed) == states[j + 1]
                    },
        decreases n - i,
    {
        let ghost before = states;
        let call = feed_item::<H>;
        call(&items[i], state);
        assert(exists|handed: &mut H|
            {
                &&& #[trigger] call_ensures(feed_item::<H>, (&items@[i as int], handed), ())
                &&& *handed == before[i as int]
                &&& *final(handed) == *state
            });
        proof {
            states = states.push(*state);
        }
        assert forall|j: int| #[trigger] is_step(j, (i + 1) as nat) implies exists|
            handed: &mut H,
        |
            {
                &&& #[trigger] call_ensures(feed_item::<H>, (&items@[j], handed), ())
                &&& *handed == states[j]
                &&& *final(handed) == states[j + 1]
            } by {
            if j < i {
                assert(is_step(j, i as nat));
                assert(states[j] == before[j] && states[j + 1] == before[j + 1]);
            } else {
                assert(states[j] == before[j] && states[j + 1] == *state);
            }
        }
        i = i + 1;
    }
}

impl GreenTokenData {
    /// What this token hands to a hasher.
    pub fn hash_items(&self) -> (items: Vec<HashItem<'_>>)
        ensures
            hash_values(items@) == token_hash(self@),
    {
        let mut items: Vec<HashItem<'_>> = Vec::new();
        push_token(self, &mut items);
        assert(hash_values(items@) =~= token_hash(self@));
        items
    }
}

impl GreenNodeData {
    /// What this node hands to a hasher.
    pub fn hash_items(&self) -> (items: Vec<HashItem<'_>>)
        ensures
            hash_values(items@) == node_hash(self@),
    {
        let mut items: Vec<HashItem<'_>> = Vec::new();
        push_node(self, &mut items);
        assert(hash_values(items@) =~= node_hash(self@));
        items
    }
}

impl GreenNodeHead {
    /// What the fixed part of a node hands to a hasher.
    pub fn hash_items(&self) -> (items: Vec<HashItem<'_>>)
        ensures
            hash_values(items@) == head_hash(self@),
    {
        let mut items: Vec<HashItem<'_>> = Vec::new();
        items.push(HashItem::Kind(self.kind()));
        items.push(HashItem::Len(self.text_len()));
        match self.first_ref() {
            Some(first) => {
                items.push(HashItem::Present(true));
                push_element(first, &mut items);
            },
            None => {
                items.push(HashItem::Present(false));
            },
        }
        assert(hash_values(items@) =~= head_hash(self@));
        items
    }
}

impl Hash for GreenTokenData {
    /// Hands this token to a hasher, value by value.
    fn hash<H: Hasher>(&self, state: &mut H)
        ensures
            exists|items: Seq<HashItem<'_>>, states: Seq<H>|
                {
                    &&& #[trigger] hash_values(items) == token_hash(self@)
                    &&& #[trigger] is_trace(states, items.len(), *old(state), *final(state))
                    &&& forall|i: int| #[trigger]
                        is_step(i, items.len()) ==> exists|handed: &mut H|
                            {
                                &&& #[trigger] call_ensures(
                                    feed_item::<H>,
                                    (&items[i], handed),
                                    (),
                                )
                                &&& *handed == states[i]
                                &&& *final(handed) == states[i + 1]
                            }
                },
    {
        let items = self.hash_items();
        feed_all(&items, state)
    }
}

impl Hash for GreenToken {
    /// Hands this token to a hasher, as the data behind it.
    fn hash<H: Hasher>(&self, state: &mut H)
        ensures
            exists|items: Seq<HashItem<'_>>, states: Seq<H>|
                {
                    &&& #[trigger] hash_values(items) == token_hash(self@)
                    &&& #[trigger] is_trace(states, items.len(), *old(state), *final(state))
                    &&& forall|i: int| #[trigger]
                        is_step(i, items.len()) ==> exists|handed: &mut H|
                            {
                                &&& #[trigger] call_ensures(
                                    feed_item::<H>,
                                    (&items[i], handed),
                                    (),
                                )
                                &&& *handed == states[i]
                                &&& *final(handed) == states[i + 1]
                            }
                },
    {
        let items = self.as_data().hash_items();
        feed_all(&items, state)
    }
}

impl Hash for GreenNodeData {
    /// Hands this node to a hasher, value by value.
    fn hash<H: Hasher>(&self, state: &mut H)
        ensures
            exists|items: Seq<HashItem<'_>>, states: Seq<H>|
                {
                    &&& #[trigger] hash_values(items) == node_hash(self@)
                    &&& #[trigger] is_trace(states, items.len(), *old(state), *final(state))
                    &&& forall|i: int| #[trigger]
                        is_step(i, items.len()) ==> exists|handed: &mut H|
                            {
                                &&& #[trigger] call_ensures(
                                    feed_item::<H>,
                                    (&items[i], handed),
                                    (),
                                )
                                &&& *handed == states[i]
                                &&& *final(handed) == states[i + 1]
                            }
                },
    {
        let items = self.hash_items();
        feed_all(&items, state)
    }
}

impl Hash for GreenNode {
    /// Hands this node to a hasher, as the data behind it.
    fn hash<H: Hasher>(&self, state: &mut H)
        ensures
            exists|items: Seq<HashItem<'_>>, states: Seq<H>|
                {
                    &&& #[trigger] hash_values(items) == node_hash(self@)
                    &&& #[trigger] is_trace(states, items.len(), *old(state), *final(state))
                    &&& forall|i: int| #[trigger]
                        is_step(i, items.len()) ==> exists|handed: &mut H|
                            {
                                &&& #[trigger] call_ensures(
                                    feed_item::<H>,
                                    (&items[i], handed),
                                    (),
                                )
                                &&& *handed == states[i]
                                &&& *final(handed) == states[i + 1]
                            }
                },
    {
        let items = self.as_data().hash_items();
        feed_all(&items, state)
    }
}

impl Hash for GreenNodeHead {
    /// Hands the fixed part of a node to a hasher, value by value, and then the
    /// count of the node.
    fn hash<H: Hasher>(&self, state: &mut H)
        ensures
            exists|items: Seq<HashItem<'_>>, states: Seq<H>, mid: H|
                {
                    &&& #[trigger] hash_values(items) == head_hash(self@)
                    &&& #[trigger] is_trace(states, items.len(), *old(state), mid)
                    &&& forall|i: int| #[trigger]
                        is_step(i, items.len()) ==> exists|handed: &mut H|
                            {
                                &&& #[trigger] call_ensures(
                                    feed_item::<H>,
                                    (&items[i], handed),
                                    (),
                                )
                                &&& *handed == states[i]
                                &&& *final(handed) == states[i + 1]
                            }
                    &&& exists|count: NodeCount, handed: &mut H|
                        {
                            &&& #[trigger] call_ensures(
                                feed::<NodeCount, H>,
                                (&count, handed),
                                (),
                            )
                            &&& *handed == mid
                            &&& *final(handed) == *final(state)
                        }
                },
    {
        let items = self.hash_items();
        feed_all(&items, state);
        let call = feed::<NodeCount, H>;
        call(&self._c, state);
    }
}

} // verus!
