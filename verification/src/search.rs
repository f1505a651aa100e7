//! The search for the child that covers a range of text.

use vstd::prelude::*;
use crate::child::ChildEntry;
use crate::element::GreenElementRef;
use crate::model;
use crate::model::ElementTree;
use crate::text::{Placement, TextRange, TextSize};

verus! {

/// Halves the tail of a node until one child is left. Gives the index of a
/// child that overlaps `rel_range`, or else how many children lie before it.
fn binary_search<C: ChildEntry>(
    tail: &Vec<C>,
    rel_range: TextRange,
    Ghost(children): Ghost<Seq<ElementTree>>,
) -> (found: Result<usize, usize>)
    requires
        crate::repr::tail_wf(tail@, children),
        model::fits(children),
    ensures
        match found {
            Ok(i) => {
                &&& i < tail@.len()
                &&& rel_range.from() < model::offset_at(children, i + 2)
                &&& model::offset_at(children, i + 1) < rel_range.to()
            },
            Err(i) => {
                &&& i <= tail@.len()
                &&& forall|k: int| 1 <= k <= i ==> #[trigger] model::offset_at(children, k + 1)
                    <= rel_range.from()
                &&& forall|k: int|
                    i < k < children.len() ==> {
                        &&& rel_range.from() < #[trigger] model::offset_at(children, k + 1)
                        &&& rel_range.to() <= model::offset_at(children, k)
                    }
            },
        },
{
    let mut low: usize = 0;
    let mut high: usize = tail.len();
    while low < high
        invariant
            crate::repr::tail_wf(tail@, children),
            model::fits(children),
            low <= high <= tail@.len(),
            forall|k: int| 1 <= k <= low ==> #[trigger] model::offset_at(children, k + 1)
                <= rel_range.from(),
            forall|k: int|
                high < k < children.len() ==> {
                    &&& rel_range.from() < #[trigger] model::offset_at(children, k + 1)
                    &&& rel_range.to() <= model::offset_at(children, k)
                },
        decreases high - low,
    {
        let mid: usize = low + (high - low) / 2;
        proof {
            assert(tail@[mid as int].element() == children[mid + 1]);
            model::lemma_offset_monotonic(children, mid + 2, children.len() as int);
        }
        match tail[mid].range().ordering(rel_range) {
            Placement::Before => {
                assert forall|k: int| 1 <= k <= mid + 1 implies #[trigger] model::offset_at(
                    children,
                    k + 1,
                ) <= rel_range.from() by {
                    model::lemma_offset_monotonic(children, k + 1, mid + 2);
                }
                low = mid + 1;
            },
            Placement::After => {
                assert forall|k: int| mid < k < children.len() implies {
                    &&& rel_range.from() < #[trigger] model::offset_at(children, k + 1)
                    &&& rel_range.to() <= model::offset_at(children, k)
                } by {
                    model::lemma_offset_monotonic(children, mid + 2, k + 1);
                    model::lemma_offset_monotonic(children, mid + 1, k);
                }
                high = mid;
            },
            Placement::Overlapping => {
                return Ok(mid);
            },
        }
    }
    Err(low)
}

/// Looks for the child that covers `rel_range` among the children after the
/// first one, which does not cover it.
pub(crate) fn search_tail<'a, C: ChildEntry>(
    tail: &'a Vec<C>,
    rel_range: TextRange,
    Ghost(children): Ghost<Seq<ElementTree>>,
) -> (found: Option<(usize, TextSize, GreenElementRef<'a>)>)
    requires
        crate::repr::tail_wf(tail@, children),
        model::fits(children),
        children.len() > 0 ==> !model::child_contains(
            children,
            0,
            rel_range.from() as int,
            rel_range.to() as int,
        ),
    ensures
        match found {
            Some((i, offset, el)) => {
                &&& model::child_picked(
                    children,
                    i as int,
                    rel_range.from() as int,
                    rel_range.to() as int,
                )
                &&& offset@ == model::offset_at(children, i as int)
                &&& el@ == children[i as int]
            },
            None => forall|i: int|
                0 <= i < children.len() ==> !#[trigger] model::child_contains(
                    children,
                    i,
                    rel_range.from() as int,
                    rel_range.to() as int,
                ),
        },
{
    // a range starts no later than it ends
    let _ = rel_range.start();
    let ghost s = rel_range.from() as int;
    let ghost e = rel_range.to() as int;
    let searched = binary_search(tail, rel_range, Ghost(children));
    // an empty range overlaps nothing when it lies between two children
    let idx: usize = match searched {
        Ok(i) => i,
        Err(i) => if i > 0 {
            i - 1
        } else {
            0
        },
    };
    proof {
        reveal_with_fuel(model::offset_at, 2);
        if idx < tail@.len() {
            assert(tail@[idx as int].element() == children[idx + 1]);
            model::lemma_offset_monotonic(children, idx + 2, children.len() as int);
        }
    }
    if idx < tail.len() && tail[idx].range().contains_range(rel_range) {
        let (el, offset) = tail[idx].entry();
        Some((idx + 1, offset, el))
    } else {
        proof {
            assert forall|k: int| 0 <= k < children.len() implies !#[trigger] model::child_contains(
                children,
                k,
                s,
                e,
            ) by {
                if k > 0 && model::child_contains(children, k, s, e) {
                    lemma_not_missed(children, searched, idx as int, k, s, e);
                }
            }
        }
        None
    }
}

/// When some child but the first covers a range, so does the child at which the
/// search ends.
proof fn lemma_not_missed(
    children: Seq<ElementTree>,
    searched: Result<usize, usize>,
    idx: int,
    k: int,
    s: int,
    e: int,
)
    requires
        0 <= s <= e,
        0 < k < children.len(),
        model::child_contains(children, k, s, e),
        !model::child_contains(children, 0, s, e),
        0 <= idx,
        match searched {
            Ok(i) => {
                &&& idx == i
                &&& i < children.len() - 1
                &&& s < model::offset_at(children, i + 2)
                &&& model::offset_at(children, i + 1) < e
            },
            Err(i) => {
                &&& idx == (if i > 0 { i - 1 } else { 0 })
                &&& i <= children.len() - 1
                &&& forall|j: int| 1 <= j <= i ==> #[trigger] model::offset_at(children, j + 1) <= s
                &&& forall|j: int|
                    i < j < children.len() ==> {
                        &&& s < #[trigger] model::offset_at(children, j + 1)
                        &&& e <= model::offset_at(children, j)
                    }
            },
        },
    ensures
        idx + 1 < children.len(),
        model::child_contains(children, idx + 1, s, e),
{
    reveal_with_fuel(model::offset_at, 2);
    match searched {
        Ok(i) => {
            if k < idx + 1 {
                model::lemma_offset_monotonic(children, k + 1, idx + 1);
            } else if k > idx + 1 {
                model::lemma_offset_monotonic(children, idx + 2, k);
            }
        },
        Err(i) => {
            if k <= i {
                model::lemma_offset_monotonic(children, k + 1, idx + 2);
                assert(model::offset_at(children, k + 1) <= s);
                assert(model::offset_at(children, idx + 1 + 1) <= s);
                model::lemma_offset_monotonic(children, idx + 1, idx + 2);
            } else {
                assert(s < model::offset_at(children, k + 1));
                model::lemma_offset_monotonic(children, i + 1, k);
                assert(s < model::offset_at(children, (i + 1) + 1));
                if i > 0 {
                    assert(model::offset_at(children, i + 1) <= s);
                    model::lemma_offset_monotonic(children, idx + 1, idx + 2);
                }
            }
        },
    }
}

} // verus!
