//! How the steps of a walk over the children of a node go together.

use vstd::prelude::*;
use crate::children;
use crate::element::{GreenElement, GreenElementRef};
use crate::laws;
use crate::model;
use crate::model::ElementTree;
use crate::node::{GreenNode, GreenNodeData};
use crate::text::TextSize;
use crate::token::{GreenToken, GreenTokenData};

verus! {

/// To take child `n` is to take `n` children and then the next one, and leaves
/// as much.
pub proof fn lemma_nth_is_steps<T>(items: Seq<T>, n: int)
    requires
        n >= 0,
    ensures
        children::nth_of(items, n) == children::first_of(children::without_first(items, n)),
        children::without_first(items, n + 1) == children::without_first(
            children::without_first(items, n),
            1,
        ),
{
    assert(children::without_first(items, n + 1) =~= children::without_first(
        children::without_first(items, n),
        1,
    ));
}

/// The same from the back.
pub proof fn lemma_nth_back_is_steps<T>(items: Seq<T>, n: int)
    requires
        n >= 0,
    ensures
        children::nth_back_of(items, n) == children::last_of(children::without_last(items, n)),
        children::without_last(items, n + 1) == children::without_last(
            children::without_last(items, n),
            1,
        ),
{
    assert(children::without_last(items, n + 1) =~= children::without_last(
        children::without_last(items, n),
        1,
    ));
}

/// A step from the front and one from the back can come in either order, as
/// long as they do not meet in one child.
pub proof fn lemma_ends_commute<T>(items: Seq<T>)
    ensures
        items.len() != 1 ==> {
            &&& children::first_of(children::without_last(items, 1)) == children::first_of(items)
            &&& children::last_of(children::without_first(items, 1)) == children::last_of(items)
        },
        children::without_last(children::without_first(items, 1), 1) == children::without_first(
            children::without_last(items, 1),
            1,
        ),
{
    assert(children::without_last(children::without_first(items, 1), 1)
        =~= children::without_first(children::without_last(items, 1), 1));
}

/// A child counted from the back is the same child counted from the front.
pub proof fn lemma_back_is_front_reversed<T>(items: Seq<T>, n: int)
    requires
        0 <= n < items.len(),
    ensures
        children::nth_back_of(items, n) == children::nth_of(items, items.len() - 1 - n),
        children::last_of(items) == children::nth_of(items, items.len() - 1),
{
}

/// A walk that has come to its end stays there.
pub proof fn lemma_fused<T>(items: Seq<T>, n: int)
    requires
        children::first_of(items) is None,
        n >= 0,
    ensures
        items.len() == 0,
        children::nth_of(items, n) is None,
        children::nth_back_of(items, n) is None,
        children::without_first(items, n + 1) == items,
        children::without_last(items, n + 1) == items,
{
    assert(items =~= Seq::empty());
}

/// Each step shortens a walk by one until nothing is left.
pub proof fn lemma_steps_shorten<T>(items: Seq<T>, n: int)
    requires
        n >= 0,
    ensures
        children::without_first(items, n).len() == (if n <= items.len() {
            items.len() - n
        } else {
            0
        }),
        children::without_last(items, n).len() == (if n <= items.len() {
            items.len() - n
        } else {
            0
        }),
        children::first_of(items) is None <==> items.len() == 0,
        children::last_of(items) is None <==> items.len() == 0,
{
}

/// A walk with offsets comes to the same children as one without. Its offsets
/// start at zero, and each one is the one before it and the length of the child
/// there.
pub proof fn lemma_walk_offsets(items: Seq<ElementTree>, i: int)
    requires
        0 <= i < items.len(),
    ensures
        children::elements_of(model::with_offsets(items)) == items,
        model::with_offsets(items)[0].1 == 0,
        i + 1 < items.len() ==> model::with_offsets(items)[i + 1].1 == model::with_offsets(
            items,
        )[i].1 + model::element_len(items[i]),
        i + 1 == items.len() ==> model::children_len(items) == model::with_offsets(items)[i].1
            + model::element_len(items[i]),
{
    assert(children::elements_of(model::with_offsets(items)) =~= items);
    model::lemma_first_offsets(items);
}

/// A walk that starts with an item gives that item first and goes on with the
/// others. From the back the same holds of its last item.
pub proof fn lemma_step_takes_end<T>(items: Seq<T>, item: T)
    ensures
        children::first_of(seq![item] + items) == Some(item),
        children::without_first(seq![item] + items, 1) == items,
        children::last_of(items.push(item)) == Some(item),
        children::without_last(items.push(item), 1) == items,
        children::first_of(Seq::<T>::empty()) is None,
        children::last_of(Seq::<T>::empty()) is None,
{
    assert(children::without_first(seq![item] + items, 1) =~= items);
    assert(children::without_last(items.push(item), 1) =~= items);
}

/// To pass over as many items as come before one gives that one, and leaves those
/// after it. To pass over as many as come after it, from the back, gives it too,
/// and leaves those before it.
pub proof fn lemma_nth_takes_item<T>(before: Seq<T>, item: T, after: Seq<T>)
    ensures
        children::nth_of(before + seq![item] + after, before.len() as int) == Some(item),
        children::without_first(before + seq![item] + after, (before.len() + 1) as int) == after,
        children::nth_back_of(before + seq![item] + after, after.len() as int) == Some(item),
        children::without_last(before + seq![item] + after, (after.len() + 1) as int) == before,
{
    let items = before + seq![item] + after;
    assert(children::without_first(items, (before.len() + 1) as int) =~= after);
    assert(children::without_last(items, (after.len() + 1) as int) =~= before);
}

/// To pass over more items than are left gives nothing and leaves nothing. To pass
/// over none leaves all.
pub proof fn lemma_nth_past_end<T>(items: Seq<T>, n: int)
    requires
        n >= items.len(),
    ensures
        children::nth_of(items, n) is None,
        children::nth_back_of(items, n) is None,
        children::without_first(items, n + 1) == Seq::<T>::empty(),
        children::without_last(items, n + 1) == Seq::<T>::empty(),
        children::without_first(items, 0) == items,
        children::without_last(items, 0) == items,
{
    assert(children::without_first(items, 0) =~= items);
    assert(children::without_last(items, 0) =~= items);
}

/// What a step gives is the child itself, with the offset itself.
pub proof fn lemma_step_is_child(el: GreenElementRef<'_>, offset: TextSize)
    ensures
        children::item_view(Some((el, offset))) == Some((el@, offset@)),
        children::item_view(None) is None,
        children::element_view(Some(el)) == Some(el@),
        children::element_view(None) is None,
{
}

/// A child is seen as the node or the token that it is.
pub proof fn lemma_child_is_node_or_token(
    node: GreenNode,
    token: GreenToken,
    node_data: GreenNodeData,
    token_data: GreenTokenData,
)
    ensures
        GreenElement::Node(node)@ == ElementTree::Node(node@),
        GreenElement::Token(token)@ == ElementTree::Token(token@),
        GreenElementRef::Node(&node_data)@ == ElementTree::Node(node_data@),
        GreenElementRef::Token(&token_data)@ == ElementTree::Token(token_data@),
{
}

/// A walk with offsets over one more child comes to the same children at the same
/// offsets, and then to that child, where the others end. A walk without offsets
/// leaves nothing but the offsets out.
pub proof fn lemma_one_more_child_walked(items: Seq<ElementTree>, item: ElementTree)
    ensures
        model::with_offsets(Seq::empty()) == Seq::<(ElementTree, nat)>::empty(),
        model::with_offsets(items.push(item)) == model::with_offsets(items).push(
            (item, model::children_len(items)),
        ),
{
    let more = items.push(item);
    assert(model::with_offsets(Seq::empty()) =~= Seq::<(ElementTree, nat)>::empty());
    assert forall|i: int| 0 <= i <= items.len() implies model::offset_at(more, i)
        == #[trigger] model::offset_at(items, i) by {
        laws::text::lemma_same_front(more, items, i);
    }
    assert(model::with_offsets(more) =~= model::with_offsets(items).push(
        (item, model::children_len(items)),
    ));
}

/// The children of a walk with offsets are its steps without the offsets.
pub proof fn lemma_one_more_step_element(
    items: Seq<(ElementTree, nat)>,
    item: ElementTree,
    offset: nat,
)
    ensures
        children::elements_of(Seq::empty()) == Seq::<ElementTree>::empty(),
        children::elements_of(items.push((item, offset))) == children::elements_of(items).push(item),
{
    assert(children::elements_of(Seq::empty()) =~= Seq::<ElementTree>::empty());
    assert(children::elements_of(items.push((item, offset))) =~= children::elements_of(items).push(
        item,
    ));
}

/// A fold over no steps gives what it was given.
pub proof fn lemma_fold_of_nothing<'a, Acc, F: FnMut(Acc, (GreenElementRef<'a>, TextSize)) -> Acc>(
    f: F,
    items: Seq<(GreenElementRef<'a>, TextSize)>,
    accs: Seq<Acc>,
)
    requires
        children::fold_trace(f, Seq::empty(), items, accs),
    ensures
        items.len() == 0,
        accs.len() == 1,
        accs.last() == accs[0],
{
}

/// The fold of a walk with one more step is the function applied to the fold of
/// the walk without that step, and to that step: each step is handed over, in the
/// order of the walk.
pub proof fn lemma_fold_one_more_step<
    'a,
    Acc,
    F: FnMut(Acc, (GreenElementRef<'a>, TextSize)) -> Acc,
>(
    f: F,
    walk: Seq<(ElementTree, nat)>,
    step: (ElementTree, nat),
    items: Seq<(GreenElementRef<'a>, TextSize)>,
    accs: Seq<Acc>,
)
    requires
        children::fold_trace(f, walk.push(step), items, accs),
        items.len() == walk.len() + 1,
    ensures
        accs.len() == walk.len() + 2,
        children::fold_trace(f, walk, items.drop_last(), accs.drop_last()),
        accs.drop_last()[0] == accs[0],
        (items.last().0@, items.last().1@) == step,
        call_ensures(f, (accs.drop_last().last(), items.last()), accs.last()),
{
    let n = walk.len() as int;
    assert((items[n].0@, items[n].1@) == walk.push(step)[n]);
    assert forall|i: int| #![trigger items.drop_last()[i]] 0 <= i < n implies {
        &&& (items.drop_last()[i].0@, items.drop_last()[i].1@) == walk[i]
        &&& call_ensures(f, (accs.drop_last()[i], items.drop_last()[i]), accs.drop_last()[i + 1])
    } by {
        assert((items[i].0@, items[i].1@) == walk.push(step)[i]);
    }
}

/// A function is applied at each step of a fold, whichever it is.
pub proof fn lemma_fold_applies_at<'a, Acc, F: FnMut(Acc, (GreenElementRef<'a>, TextSize)) -> Acc>(
    f: F,
    walk: Seq<(ElementTree, nat)>,
    items: Seq<(GreenElementRef<'a>, TextSize)>,
    accs: Seq<Acc>,
    i: int,
)
    requires
        children::fold_trace(f, walk, items, accs),
        0 <= i < items.len(),
    ensures
        items.len() <= walk.len(),
        accs.len() == items.len() + 1,
        (items[i].0@, items[i].1@) == walk[i],
        call_ensures(f, (accs[i], items[i]), accs[i + 1]),
{
    assert((items[i].0@, items[i].1@) == walk[i]);
}

/// A function that can be applied to anything can be folded over any walk.
pub proof fn lemma_fold_ready<'a, Acc, F: FnMut(Acc, (GreenElementRef<'a>, TextSize)) -> Acc>(
    f: F,
    walk: Seq<(ElementTree, nat)>,
    init: Acc,
)
    requires
        forall|acc: Acc, item: (GreenElementRef<'a>, TextSize)| #[trigger]
            call_requires(f, (acc, item)),
    ensures
        children::fold_ready(f, walk, init),
{
}

} // verus!
