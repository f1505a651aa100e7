//! How a range of text finds the child that covers it.

use vstd::prelude::*;
use crate::children;
use crate::laws;
use crate::model;
use crate::model::{ElementTree, NodeTree};

verus! {

/// The ranges of the children cover the text of their node without overlapping:
/// each byte lies in exactly one of them.
pub proof fn lemma_ranges_tile(children: Seq<ElementTree>, position: int)
    requires
        0 <= position < model::children_len(children),
    ensures
        exists|i: int| #[trigger] model::child_contains(children, i, position, position + 1) && 0
            <= i < children.len(),
        forall|i: int, j: int|
            0 <= i < children.len() && 0 <= j < children.len() && #[trigger] model::child_contains(
                children,
                i,
                position,
                position + 1,
            ) && #[trigger] model::child_contains(children, j, position, position + 1) ==> i == j,
{
    let i = find_child(children, position, children.len() as int);
    assert(model::child_contains(children, i, position, position + 1));
    assert forall|i: int, j: int|
        0 <= i < children.len() && 0 <= j < children.len() && #[trigger] model::child_contains(
            children,
            i,
            position,
            position + 1,
        ) && #[trigger] model::child_contains(children, j, position, position + 1) implies i
        == j by {
        lemma_contains_unique(children, i, j, position, position + 1);
    }
}

/// The child among the first `n` in which a byte lies.
proof fn find_child(children: Seq<ElementTree>, position: int, n: int) -> (i: int)
    requires
        0 <= n <= children.len(),
        0 <= position < model::offset_at(children, n),
    ensures
        0 <= i < n,
        model::child_contains(children, i, position, position + 1),
    decreases n,
{
    if model::offset_at(children, n - 1) <= position {
        n - 1
    } else {
        find_child(children, position, n - 1)
    }
}

/// No two children cover the same text, unless there is no text to cover.
pub proof fn lemma_contains_unique(
    children: Seq<ElementTree>,
    i: int,
    j: int,
    start: int,
    end: int,
)
    requires
        0 <= i < children.len(),
        0 <= j < children.len(),
        start < end,
        model::child_contains(children, i, start, end),
        model::child_contains(children, j, start, end),
    ensures
        i == j,
{
    if i < j {
        model::lemma_offset_monotonic(children, i + 1, j);
    } else if j < i {
        model::lemma_offset_monotonic(children, j + 1, i);
    }
}

/// A range picks at most one child.
pub proof fn lemma_picked_unique(
    children: Seq<ElementTree>,
    i: int,
    j: int,
    start: int,
    end: int,
)
    requires
        0 <= start <= end,
        model::child_picked(children, i, start, end),
        model::child_picked(children, j, start, end),
    ensures
        i == j,
{
    if start < end {
        lemma_contains_unique(children, i, j, start, end);
    } else if i < j && i > 0 {
        lemma_picked_order(children, i, j, start);
    } else if j < i && j > 0 {
        lemma_picked_order(children, j, i, start);
    }
}

/// Of two children that an empty range picks, neither of them the first, none
/// comes after the other.
proof fn lemma_picked_order(children: Seq<ElementTree>, i: int, j: int, start: int)
    requires
        0 < i <= j,
        model::child_picked(children, i, start, start),
        model::child_picked(children, j, start, start),
    ensures
        i == j,
{
    if i < j {
        model::lemma_offset_monotonic(children, i + 1, j);
        model::lemma_offset_monotonic(children, j, j + 1);
        assert(model::offset_at(children, i + 1) == start);
        assert(start < model::offset_at(children, j + 1));
    }
}

/// A range picks a child as soon as some child covers it.
pub proof fn lemma_covered_picks(children: Seq<ElementTree>, i: int, start: int, end: int)
    requires
        0 <= start <= end,
        0 <= i < children.len(),
        model::child_contains(children, i, start, end),
    ensures
        exists|j: int| #[trigger] model::child_picked(children, j, start, end),
{
    if model::child_contains(children, 0, start, end) {
        assert(model::child_picked(children, 0, start, end));
    } else if start < end {
        assert(model::child_picked(children, i, start, end));
    } else if model::offset_at(children, i) < start < model::offset_at(children, i + 1) {
        assert(model::child_picked(children, i, start, end));
    } else {
        let j = last_end(children, start, children.len() as int, i);
        assert(model::child_picked(children, j, start, end));
    }
}

/// The last child that ends at `start`, if some child starts or ends there.
proof fn last_end(children: Seq<ElementTree>, start: int, n: int, i: int) -> (j: int)
    requires
        0 < i < n <= children.len(),
        model::offset_at(children, i) == start || model::offset_at(children, i + 1) == start,
        model::offset_at(children, 1) < start,
        forall|k: int| n <= k < children.len() ==> start < #[trigger] model::offset_at(
            children,
            k + 1,
        ),
    ensures
        0 < j < children.len(),
        model::child_contains(children, j, start, start),
        model::offset_at(children, j + 1) == start,
        forall|k: int| j < k < children.len() ==> start < #[trigger] model::offset_at(
            children,
            k + 1,
        ),
    decreases n,
{
    model::lemma_offset_monotonic(children, n - 1, n);
    if model::offset_at(children, n) == start {
        n - 1
    } else if i == n - 1 {
        if i == 1 {
            model::lemma_offset_monotonic(children, 1, 2);
        }
        last_end(children, start, n - 1, i - 1)
    } else {
        model::lemma_offset_monotonic(children, i + 1, n - 1);
        if model::offset_at(children, n) < start {
            model::lemma_offset_monotonic(children, i, n);
        }
        last_end(children, start, n - 1, i)
    }
}

/// The range of a child that has some text picks that child.
pub proof fn lemma_own_range_picks(children: Seq<ElementTree>, i: int)
    requires
        0 <= i < children.len(),
        model::element_len(children[i]) > 0,
    ensures
        model::child_picked(
            children,
            i,
            model::offset_at(children, i) as int,
            model::offset_at(children, i + 1) as int,
        ),
{
    if i > 0 {
        model::lemma_offset_monotonic(children, 1, i);
        model::lemma_first_offsets(children);
    }
}

/// Each offset in the text of a node with children picks one of them, its end
/// included.
pub proof fn lemma_offset_picks(children: Seq<ElementTree>, offset: int)
    requires
        0 <= offset <= model::children_len(children),
        children.len() > 0,
    ensures
        exists|j: int| #[trigger] model::child_picked(children, j, offset, offset),
{
    if offset == model::children_len(children) {
        let i = children.len() - 1;
        model::lemma_offset_monotonic(children, i, i + 1);
        lemma_covered_picks(children, i, offset, offset);
    } else {
        let i = find_child(children, offset, children.len() as int);
        lemma_covered_picks(children, i, offset, offset);
    }
}

/// A range that reaches past the end of the node picks nothing.
pub proof fn lemma_past_end_picks_nothing(
    children: Seq<ElementTree>,
    i: int,
    start: int,
    end: int,
)
    requires
        end > model::children_len(children),
    ensures
        !model::child_picked(children, i, start, end),
{
    if 0 <= i < children.len() {
        model::lemma_offset_monotonic(children, i + 1, children.len() as int);
    }
}

/// A range that starts before a child ends and ends after it picks nothing: it
/// lies in no one child.
pub proof fn lemma_split_range_picks_nothing(
    children: Seq<ElementTree>,
    i: int,
    j: int,
    start: int,
    end: int,
)
    requires
        0 <= j < children.len(),
        start < model::offset_at(children, j + 1) < end,
    ensures
        !model::child_picked(children, i, start, end),
{
    if 0 <= i < children.len() {
        if i <= j {
            model::lemma_offset_monotonic(children, i + 1, j + 1);
        } else {
            model::lemma_offset_monotonic(children, j + 1, i);
        }
    }
}

/// A child that is picked is the one that a walk comes to at its index, with the
/// same offset.
pub proof fn lemma_picked_is_walked(items: Seq<ElementTree>, i: int, start: int, end: int)
    requires
        model::child_picked(items, i, start, end),
    ensures
        children::nth_of(model::with_offsets(items), i) == Some(
            (items[i], model::offset_at(items, i)),
        ),
{
}

/// The text in a range is the same in the node and in the child that the range
/// picks, where it starts later by the offset of the child.
pub proof fn lemma_picked_text(node: NodeTree, i: int, start: int, end: int)
    requires
        0 <= start <= end,
        model::child_picked(node.children, i, start, end),
    ensures
        vstd::utf8::encode_utf8(model::node_text(node)).subrange(start, end)
            == vstd::utf8::encode_utf8(model::element_text(node.children[i])).subrange(
            start - model::offset_at(node.children, i),
            end - model::offset_at(node.children, i),
        ),
{
    laws::text::lemma_child_text_at_offset(node, i);
    let whole = vstd::utf8::encode_utf8(model::node_text(node));
    let offset = model::offset_at(node.children, i) as int;
    let next = model::offset_at(node.children, i + 1) as int;
    assert(whole.subrange(start, end) =~= whole.subrange(offset, next).subrange(
        start - offset,
        end - offset,
    ));
}

/// A child that starts no later than a range and ends no earlier covers it, and no
/// other child does. Then some child is picked, and for a range that is not empty
/// it is that one.
pub proof fn lemma_enclosed_range_picks(
    children: Seq<ElementTree>,
    i: int,
    start: int,
    end: int,
)
    requires
        0 <= i < children.len(),
        model::offset_at(children, i) <= start <= end <= model::offset_at(children, i + 1),
    ensures
        model::child_contains(children, i, start, end),
        exists|j: int| #[trigger] model::child_picked(children, j, start, end),
        start < end ==> model::child_picked(children, i, start, end),
{
    lemma_covered_picks(children, i, start, end);
    if start < end {
        let j = choose|j: int| #[trigger] model::child_picked(children, j, start, end);
        lemma_contains_unique(children, i, j, start, end);
    }
}

/// A child that covers a range starts no later than the range and ends no earlier,
/// and so does a child that is picked.
pub proof fn lemma_picked_encloses(children: Seq<ElementTree>, i: int, start: int, end: int)
    ensures
        model::child_contains(children, i, start, end) <==> model::offset_at(children, i) <= start
            && end <= model::offset_at(children, i + 1),
        model::child_picked(children, i, start, end) ==> {
            &&& 0 <= i < children.len()
            &&& model::offset_at(children, i) <= start
            &&& end <= model::offset_at(children, i + 1)
        },
{
}

/// A range inside a range that picks a child picks the same child, unless the
/// inner range is empty and lies at one end of the outer one.
pub proof fn lemma_inner_range_picks(
    children: Seq<ElementTree>,
    i: int,
    start: int,
    end: int,
    inner_start: int,
    inner_end: int,
)
    requires
        0 <= start <= inner_start <= inner_end <= end,
        inner_start < inner_end || start < inner_start < end,
        model::child_picked(children, i, start, end),
    ensures
        model::child_picked(children, i, inner_start, inner_end),
{
    if inner_start < inner_end {
        lemma_enclosed_range_picks(children, i, inner_start, inner_end);
    } else if i > 0 {
        lemma_contains_not_first(children, i, start, end, inner_start);
    }
}

/// When a later child covers a range, the first one ends before any offset inside
/// that range.
proof fn lemma_contains_not_first(
    children: Seq<ElementTree>,
    i: int,
    start: int,
    end: int,
    offset: int,
)
    requires
        0 < i < children.len(),
        start < offset < end,
        model::child_contains(children, i, start, end),
    ensures
        !model::child_contains(children, 0, offset, offset),
{
    model::lemma_offset_monotonic(children, 1, i);
}

/// An offset up to the end of the first child picks the first child.
pub proof fn lemma_offset_in_first_picks(children: Seq<ElementTree>, offset: int)
    requires
        children.len() > 0,
        0 <= offset <= model::element_len(children[0]),
    ensures
        model::child_picked(children, 0, offset, offset),
{
    model::lemma_first_offsets(children);
}

/// An offset inside a child, at neither end of it, picks that child.
pub proof fn lemma_offset_inside_picks(children: Seq<ElementTree>, i: int, offset: int)
    requires
        0 <= i < children.len(),
        model::offset_at(children, i) < offset < model::offset_at(children, i + 1),
    ensures
        model::child_picked(children, i, offset, offset),
{
    if i > 0 {
        model::lemma_offset_monotonic(children, 1, i);
    }
}

/// An offset at which children end, past the end of the first one, picks the last
/// of the children that end there.
pub proof fn lemma_offset_at_end_picks(children: Seq<ElementTree>, i: int)
    requires
        0 < i < children.len(),
        model::offset_at(children, 1) < model::offset_at(children, i + 1),
        i + 1 < children.len() ==> model::element_len(children[i + 1]) > 0,
    ensures
        model::child_picked(
            children,
            i,
            model::offset_at(children, i + 1) as int,
            model::offset_at(children, i + 1) as int,
        ),
{
    let offset = model::offset_at(children, i + 1) as int;
    model::lemma_offset_monotonic(children, i, i + 1);
    assert forall|j: int| i < j < children.len() implies offset < #[trigger] model::offset_at(
        children,
        j + 1,
    ) by {
        model::lemma_offset_monotonic(children, i + 2, j + 1);
        assert(model::offset_at(children, i + 2) == offset + model::element_len(children[i + 1]));
    }
}

} // verus!
