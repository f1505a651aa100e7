//! What the operations that make a node out of another one keep, and how they
//! undo each other.

use vstd::prelude::*;
use crate::edit;
use crate::edit::RangeEdge;
use crate::element;
use crate::element::GreenElement;
use crate::model;
use crate::model::ElementTree;
use crate::tag::REL_OFFSET_LIMIT;

verus! {

/// The offsets in one list of children stay when another list follows it.
pub proof fn lemma_offset_in_front(a: Seq<ElementTree>, b: Seq<ElementTree>, i: int)
    requires
        0 <= i <= a.len(),
    ensures
        model::offset_at(a + b, i) == model::offset_at(a, i),
        model::text_before(a + b, i) == model::text_before(a, i),
    decreases i,
{
    if i > 0 {
        lemma_offset_in_front(a, b, i - 1);
        assert((a + b)[i - 1] == a[i - 1]);
    }
}

/// The offsets in one list of children go up by the length of the list before
/// it.
pub proof fn lemma_offset_behind(a: Seq<ElementTree>, b: Seq<ElementTree>, i: int)
    requires
        0 <= i <= b.len(),
    ensures
        model::offset_at(a + b, a.len() + i) == model::children_len(a) + model::offset_at(b, i),
        model::text_before(a + b, a.len() + i) == model::children_text(a) + model::text_before(
            b,
            i,
        ),
    decreases i,
{
    if i > 0 {
        lemma_offset_behind(a, b, i - 1);
        assert((a + b)[a.len() + i - 1] == b[i - 1]);
    } else {
        lemma_offset_in_front(a, b, a.len() as int);
    }
    assert(model::text_before(a + b, a.len() + i) =~= model::children_text(a)
        + model::text_before(b, i));
}

/// Two lists of children, one after the other, are as long as both together, and
/// so is their text.
pub proof fn lemma_concat(a: Seq<ElementTree>, b: Seq<ElementTree>)
    ensures
        model::children_len(a + b) == model::children_len(a) + model::children_len(b),
        model::children_text(a + b) == model::children_text(a) + model::children_text(b),
{
    lemma_offset_behind(a, b, b.len() as int);
}

/// The children before a splice stay where they are. Those after it move by as
/// much as the length of the node changes, and none of them is lost.
pub proof fn lemma_splice_keeps_others(
    children: Seq<ElementTree>,
    start: int,
    end: int,
    middle: Seq<ElementTree>,
    i: int,
)
    requires
        0 <= start <= end <= children.len(),
        0 <= i < children.len(),
    ensures
        model::spliced(children, start, end, middle).len() == children.len() - (end - start)
            + middle.len(),
        i < start ==> {
            let after = model::spliced(children, start, end, middle);
            &&& after[i] == children[i]
            &&& model::offset_at(after, i) == model::offset_at(children, i)
        },
        i >= end ==> {
            let after = model::spliced(children, start, end, middle);
            let moved = i - (end - start) + middle.len();
            &&& after[moved] == children[i]
            &&& model::offset_at(after, moved) + model::offset_at(children, end)
                == model::offset_at(children, i) + model::offset_at(children, start)
                + model::children_len(middle)
        },
{
    let front = children.take(start);
    let rest = children.skip(end);
    if i < start {
        lemma_offset_in_front(front, middle + rest, i);
        assert(front + (middle + rest) =~= model::spliced(children, start, end, middle));
        lemma_take_offset(children, start, i);
    }
    if i >= end {
        lemma_offset_behind(front + middle, rest, i - end);
        lemma_concat(front, middle);
        lemma_take_offset(children, start, start);
        lemma_skip_offset(children, end, i - end);
    }
}

/// The first few children have the same offsets without the others.
proof fn lemma_take_offset(children: Seq<ElementTree>, n: int, i: int)
    requires
        0 <= i <= n <= children.len(),
    ensures
        model::offset_at(children.take(n), i) == model::offset_at(children, i),
        model::text_before(children.take(n), i) == model::text_before(children, i),
{
    assert(children.take(n) + children.skip(n) =~= children);
    lemma_offset_in_front(children.take(n), children.skip(n), i);
}

/// The last few children start at zero without the others.
proof fn lemma_skip_offset(children: Seq<ElementTree>, n: int, i: int)
    requires
        0 <= n <= children.len(),
        0 <= i <= children.len() - n,
    ensures
        model::offset_at(children, n + i) == model::offset_at(children, n) + model::offset_at(
            children.skip(n),
            i,
        ),
        model::text_before(children, n + i) == model::text_before(children, n)
            + model::text_before(children.skip(n), i),
{
    assert(children.take(n) + children.skip(n) =~= children);
    lemma_offset_behind(children.take(n), children.skip(n), i);
    lemma_take_offset(children, n, n);
}

/// A splice takes the length of the children that go and adds that of the ones
/// that come.
pub proof fn lemma_splice_len(
    children: Seq<ElementTree>,
    start: int,
    end: int,
    middle: Seq<ElementTree>,
)
    requires
        0 <= start <= end <= children.len(),
    ensures
        model::children_len(model::spliced(children, start, end, middle)) + model::offset_at(
            children,
            end,
        ) == model::children_len(children) + model::offset_at(children, start)
            + model::children_len(middle),
{
    lemma_concat(children.take(start) + middle, children.skip(end));
    lemma_concat(children.take(start), middle);
    lemma_take_offset(children, start, start);
    lemma_skip_offset(children, end, children.len() - end);
}

/// A splice leaves the text before it and after it as it was.
pub proof fn lemma_splice_text(
    children: Seq<ElementTree>,
    start: int,
    end: int,
    middle: Seq<ElementTree>,
)
    requires
        0 <= start <= end <= children.len(),
    ensures
        model::children_text(model::spliced(children, start, end, middle)) == model::text_before(
            children,
            start,
        ) + model::children_text(middle) + model::children_text(children.skip(end)),
        model::children_text(children) == model::text_before(children, end) + model::children_text(
            children.skip(end),
        ),
{
    lemma_concat(children.take(start) + middle, children.skip(end));
    lemma_concat(children.take(start), middle);
    lemma_take_offset(children, start, start);
    lemma_skip_offset(children, end, children.len() - end);
}

/// Children that replace themselves change nothing.
pub proof fn lemma_splice_identity(children: Seq<ElementTree>, start: int, end: int)
    requires
        0 <= start <= end <= children.len(),
    ensures
        model::spliced(children, start, end, children.subrange(start, end)) == children,
{
    assert(model::spliced(children, start, end, children.subrange(start, end)) =~= children);
}

/// A splice is undone by one that puts back what it took.
pub proof fn lemma_splice_undone(
    children: Seq<ElementTree>,
    start: int,
    end: int,
    middle: Seq<ElementTree>,
)
    requires
        0 <= start <= end <= children.len(),
    ensures
        model::spliced(
            model::spliced(children, start, end, middle),
            start,
            start + middle.len(),
            children.subrange(start, end),
        ) == children,
{
    assert(model::spliced(
        model::spliced(children, start, end, middle),
        start,
        start + middle.len(),
        children.subrange(start, end),
    ) =~= children);
}

/// To insert, to remove and to replace a child is to splice.
pub proof fn lemma_edits_are_splices(
    children: Seq<ElementTree>,
    index: int,
    new_child: ElementTree,
)
    ensures
        0 <= index <= children.len() ==> children.insert(index, new_child) == model::spliced(
            children,
            index,
            index,
            seq![new_child],
        ),
        0 <= index < children.len() ==> children.remove(index) == model::spliced(
            children,
            index,
            index + 1,
            Seq::empty(),
        ),
        0 <= index < children.len() ==> model::replaced(children, index, new_child)
            == model::spliced(children, index, index + 1, seq![new_child]),
{
    if 0 <= index <= children.len() {
        assert(children.insert(index, new_child) =~= model::spliced(
            children,
            index,
            index,
            seq![new_child],
        ));
    }
    if 0 <= index < children.len() {
        assert(children.remove(index) =~= model::spliced(
            children,
            index,
            index + 1,
            Seq::empty(),
        ));
        assert(model::replaced(children, index, new_child) =~= model::spliced(
            children,
            index,
            index + 1,
            seq![new_child],
        ));
    }
}

/// A child that was inserted can be removed again.
pub proof fn lemma_insert_undone(children: Seq<ElementTree>, index: int, new_child: ElementTree)
    requires
        0 <= index <= children.len(),
    ensures
        children.insert(index, new_child)[index] == new_child,
        children.insert(index, new_child).remove(index) == children,
{
    assert(children.insert(index, new_child).remove(index) =~= children);
}

/// A child that was removed can be inserted again.
pub proof fn lemma_remove_undone(children: Seq<ElementTree>, index: int)
    requires
        0 <= index < children.len(),
    ensures
        children.remove(index).insert(index, children[index]) == children,
{
    assert(children.remove(index).insert(index, children[index]) =~= children);
}

/// A child that replaces itself changes nothing, and neither does a child that
/// replaces none.
pub proof fn lemma_replace_identity(
    children: Seq<ElementTree>,
    index: int,
    new_child: ElementTree,
)
    ensures
        0 <= index < children.len() ==> model::replaced(children, index, children[index])
            == children,
        !(0 <= index < children.len()) ==> model::replaced(children, index, new_child) == children,
{
    if 0 <= index < children.len() {
        assert(model::replaced(children, index, children[index]) =~= children);
    }
}

/// Of two children that replace the same one, the second stays. So what was
/// replaced can be put back.
pub proof fn lemma_replace_twice(
    children: Seq<ElementTree>,
    index: int,
    first: ElementTree,
    second: ElementTree,
)
    ensures
        model::replaced(model::replaced(children, index, first), index, second) == model::replaced(
            children,
            index,
            second,
        ),
        0 <= index < children.len() ==> model::replaced(
            model::replaced(children, index, first),
            index,
            children[index],
        ) == children,
{
    assert(model::replaced(model::replaced(children, index, first), index, second)
        =~= model::replaced(children, index, second));
    lemma_replace_identity(children, index, first);
    if 0 <= index < children.len() {
        assert(model::replaced(model::replaced(children, index, first), index, children[index])
            =~= children);
    }
}

/// Two children that replace different ones can come in either order.
pub proof fn lemma_replace_commutes(
    children: Seq<ElementTree>,
    i: int,
    a: ElementTree,
    j: int,
    b: ElementTree,
)
    requires
        i != j,
    ensures
        model::replaced(model::replaced(children, i, a), j, b) == model::replaced(
            model::replaced(children, j, b),
            i,
            a,
        ),
{
    assert(model::replaced(model::replaced(children, i, a), j, b) =~= model::replaced(
        model::replaced(children, j, b),
        i,
        a,
    ));
}

/// How an inserted, a removed and a replaced child change the length of a node.
pub proof fn lemma_edit_len(children: Seq<ElementTree>, index: int, new_child: ElementTree)
    ensures
        0 <= index <= children.len() ==> model::children_len(children.insert(index, new_child))
            == model::children_len(children) + model::element_len(new_child),
        0 <= index < children.len() ==> model::children_len(children.remove(index))
            + model::element_len(children[index]) == model::children_len(children),
        0 <= index < children.len() ==> model::children_len(
            model::replaced(children, index, new_child),
        ) + model::element_len(children[index]) == model::children_len(children)
            + model::element_len(new_child),
{
    lemma_edits_are_splices(children, index, new_child);
    model::lemma_first_offsets(seq![new_child]);
    if 0 <= index <= children.len() {
        lemma_splice_len(children, index, index, seq![new_child]);
    }
    if 0 <= index < children.len() {
        lemma_splice_len(children, index, index + 1, Seq::empty());
        lemma_splice_len(children, index, index + 1, seq![new_child]);
    }
}

/// Children whose text is short enough fit into a node.
pub proof fn lemma_short_children_fit(children: Seq<ElementTree>)
    requires
        model::children_len(children) < REL_OFFSET_LIMIT,
    ensures
        model::fits_compact(children),
{
    assert forall|i: int| 1 <= i < children.len() implies #[trigger] model::offset_at(children, i)
        < REL_OFFSET_LIMIT by {
        model::lemma_offset_monotonic(children, i, children.len() as int);
    }
}

/// One child, or none, fits into a node as soon as its own length fits.
pub proof fn lemma_single_child_fits(children: Seq<ElementTree>)
    requires
        children.len() <= 1,
        children.len() == 1 ==> model::element_len(children[0]) <= u32::MAX,
    ensures
        model::fits_compact(children),
{
    model::lemma_first_offsets(children);
}

/// A node has room for a child in the place of one that is at least as long.
pub proof fn lemma_shorter_child_fits(
    children: Seq<ElementTree>,
    index: int,
    new_child: ElementTree,
)
    requires
        model::fits_compact(children),
        0 <= index < children.len(),
        model::element_len(new_child) <= model::element_len(children[index]),
    ensures
        model::fits_compact(children.update(index, new_child)),
{
    let after = children.update(index, new_child);
    lemma_edit_len(children, index, new_child);
    assert forall|i: int| 1 <= i < after.len() implies #[trigger] model::offset_at(after, i)
        < REL_OFFSET_LIMIT by {
        lemma_update_offset(children, index, new_child, i);
        assert(model::offset_at(children, i) < REL_OFFSET_LIMIT);
    }
}

/// No child moves to the right when one of them becomes shorter.
proof fn lemma_update_offset(
    children: Seq<ElementTree>,
    index: int,
    new_child: ElementTree,
    i: int,
)
    requires
        0 <= index < children.len(),
        0 <= i <= children.len(),
        model::element_len(new_child) <= model::element_len(children[index]),
    ensures
        model::offset_at(children.update(index, new_child), i) <= model::offset_at(children, i),
    decreases i,
{
    if i > 0 {
        lemma_update_offset(children, index, new_child, i - 1);
    }
}

/// The child at the index of a replacement is the new child itself, and every
/// other child is as it was. Without such an index nothing changes.
pub proof fn lemma_replace_places(
    children: Seq<ElementTree>,
    index: int,
    new_child: ElementTree,
    i: int,
)
    requires
        0 <= i < children.len(),
    ensures
        model::replaced(children, index, new_child).len() == children.len(),
        i == index ==> model::replaced(children, index, new_child)[i] == new_child,
        i != index ==> model::replaced(children, index, new_child)[i] == children[i],
{
}

/// A splice puts exactly the given children in the place of those in its range,
/// between the children before the range and those after it.
pub proof fn lemma_splice_places(
    children: Seq<ElementTree>,
    start: int,
    end: int,
    middle: Seq<ElementTree>,
)
    requires
        0 <= start <= end <= children.len(),
    ensures
        model::spliced(children, start, end, middle).len() == start + middle.len() + (
        children.len() - end),
        model::spliced(children, start, end, middle).subrange(0, start) == children.subrange(
            0,
            start,
        ),
        model::spliced(children, start, end, middle).subrange(start, start + middle.len())
            == middle,
        model::spliced(children, start, end, middle).skip(start + middle.len()) == children.skip(
            end,
        ),
{
    let after = model::spliced(children, start, end, middle);
    assert(after.subrange(0, start) =~= children.subrange(0, start));
    assert(after.subrange(start, start + middle.len()) =~= middle);
    assert(after.skip(start + middle.len()) =~= children.skip(end));
}

/// Which children a written range means: an included end is in the range, an
/// excluded one is not, and an open end goes as far as there are children.
pub proof fn lemma_range_edges(i: usize, len: int)
    ensures
        edit::range_start(RangeEdge::Included(i)) == i,
        edit::range_start(RangeEdge::Excluded(i)) == i + 1,
        edit::range_start(RangeEdge::Unbounded) == 0,
        edit::range_end(RangeEdge::Included(i), len) == i + 1,
        edit::range_end(RangeEdge::Excluded(i), len) == i,
        edit::range_end(RangeEdge::Unbounded, len) == len,
{
}

/// Children in a list are seen one by one, in their order.
pub proof fn lemma_trees_one_more(elements: Seq<GreenElement>, element: GreenElement)
    ensures
        element::trees(Seq::empty()) == Seq::<ElementTree>::empty(),
        element::trees(elements.push(element)) == element::trees(elements).push(element@),
{
    assert(element::trees(Seq::empty()) =~= Seq::<ElementTree>::empty());
    assert(element::trees(elements.push(element)) =~= element::trees(elements).push(element@));
}

} // verus!
