//! Walks over the children of a node, from either end.

use vstd::prelude::*;
use crate::child::{ChildEntry, GreenChild, GreenChildCompact, StoredChild};
use crate::element::GreenElementRef;
use crate::model::ElementTree;
use crate::text::TextSize;

verus! {

/// A step of a walk that also tells offsets, seen as trees and numbers.
pub open spec fn item_view(item: Option<(GreenElementRef<'_>, TextSize)>) -> Option<
    (ElementTree, nat),
> {
    match item {
        Some((el, offset)) => Some((el@, offset@)),
        None => None,
    }
}

/// A step of a walk, seen as a tree.
pub open spec fn element_view(item: Option<GreenElementRef<'_>>) -> Option<ElementTree> {
    match item {
        Some(el) => Some(el@),
        None => None,
    }
}

/// What the next step of a walk over `items` gives.
pub open spec fn first_of<T>(items: Seq<T>) -> Option<T> {
    nth_of(items, 0)
}

/// What the next step from the back gives.
pub open spec fn last_of<T>(items: Seq<T>) -> Option<T> {
    nth_back_of(items, 0)
}

/// Item `n`, counted from the front.
pub open spec fn nth_of<T>(items: Seq<T>, n: int) -> Option<T> {
    if 0 <= n < items.len() {
        Some(items[n])
    } else {
        None
    }
}

/// Item `n`, counted from the back.
pub open spec fn nth_back_of<T>(items: Seq<T>, n: int) -> Option<T> {
    if 0 <= n < items.len() {
        Some(items[items.len() - 1 - n])
    } else {
        None
    }
}

/// What is left of `items` after the first `n`.
pub open spec fn without_first<T>(items: Seq<T>, n: int) -> Seq<T> {
    if 0 <= n <= items.len() {
        items.skip(n)
    } else {
        Seq::empty()
    }
}

/// What is left of `items` before the last `n`.
pub open spec fn without_last<T>(items: Seq<T>, n: int) -> Seq<T> {
    if 0 <= n <= items.len() {
        items.take(items.len() - n)
    } else {
        Seq::empty()
    }
}

/// Whether `accs` are the values that go through `f` when it is applied to
/// `items` in turn, these being the first steps of a walk over `walk`.
pub open spec fn fold_trace<'a, Acc, F: FnMut(Acc, (GreenElementRef<'a>, TextSize)) -> Acc>(
    f: F,
    walk: Seq<(ElementTree, nat)>,
    items: Seq<(GreenElementRef<'a>, TextSize)>,
    accs: Seq<Acc>,
) -> bool {
    &&& items.len() <= walk.len()
    &&& accs.len() == items.len() + 1
    &&& forall|i: int| #![trigger items[i]]
        0 <= i < items.len() ==> {
            &&& (items[i].0@, items[i].1@) == walk[i]
            &&& call_ensures(f, (accs[i], items[i]), accs[i + 1])
        }
}

/// Whether `f` can be applied to `init` and the steps of a walk over `walk` in
/// turn, whatever it makes of them.
pub open spec fn fold_ready<'a, Acc, F: FnMut(Acc, (GreenElementRef<'a>, TextSize)) -> Acc>(
    f: F,
    walk: Seq<(ElementTree, nat)>,
    init: Acc,
) -> bool {
    forall|
        items: Seq<(GreenElementRef<'a>, TextSize)>,
        accs: Seq<Acc>,
        item: (GreenElementRef<'a>, TextSize),
    |
        #![trigger fold_trace(f, walk, items, accs), call_requires(f, (accs.last(), item))]
        {
            &&& fold_trace(f, walk, items, accs)
            &&& accs[0] == init
            &&& items.len() < walk.len()
            &&& (item.0@, item.1@) == walk[items.len() as int]
        } ==> call_requires(f, (accs.last(), item))
}

pub(crate) open spec fn head_view(head: Option<GreenElementRef<'_>>) -> Seq<(ElementTree, nat)> {
    match head {
        Some(el) => seq![(el@, 0nat)],
        None => Seq::empty(),
    }
}

pub(crate) open spec fn tail_view<C: StoredChild>(tail: Seq<C>) -> Seq<(ElementTree, nat)> {
    Seq::new(tail.len(), |i: int| (tail[i].element(), tail[i].offset()))
}

/// What is left of a walk: maybe the first child, then a part of the tail.
pub struct RawChildren<'a, C: ChildEntry> {
    head: Option<GreenElementRef<'a>>,
    tail: &'a [C],
    front: usize,
    back: usize,
}

impl<'a, C: ChildEntry> View for RawChildren<'a, C> {
    type V = Seq<(ElementTree, nat)>;

    closed spec fn view(&self) -> Seq<(ElementTree, nat)> {
        head_view(self.head) + tail_view(self.tail@.subrange(self.front as int, self.back as int))
    }
}

impl<'a, C: ChildEntry> RawChildren<'a, C> {
    #[verifier::type_invariant]
    closed spec fn inv(self) -> bool {
        &&& self.front <= self.back <= self.tail@.len()
        &&& forall|i: int| #![trigger self.tail@[i]]
            0 <= i < self.tail@.len() ==> self.tail@[i].is_live()
        &&& self.head is Some ==> self.back - self.front < usize::MAX
    }

    fn new(head: Option<GreenElementRef<'a>>, tail: &'a [C]) -> (raw: Self)
        requires
            forall|i: int| #![trigger tail@[i]] 0 <= i < tail@.len() ==> tail@[i].is_live(),
            head is Some ==> tail@.len() < usize::MAX,
        ensures
            raw@ == head_view(head) + tail_view(tail@),
    {
        let raw = RawChildren { head, tail, front: 0, back: tail.len() };
        assert(tail@.subrange(0, tail@.len() as int) =~= tail@);
        raw
    }

    fn again(&self) -> (raw: Self)
        ensures
            raw@ == self@,
    {
        proof {
            use_type_invariant(self);
        }
        RawChildren { head: self.head, tail: self.tail, front: self.front, back: self.back }
    }

    fn len(&self) -> (len: usize)
        ensures
            len == self@.len(),
    {
        proof {
            use_type_invariant(self);
        }
        if self.head.is_some() {
            self.back - self.front + 1
        } else {
            self.back - self.front
        }
    }

    fn next(&mut self) -> (item: Option<(GreenElementRef<'a>, TextSize)>)
        ensures
            item_view(item) == first_of(old(self)@),
            final(self)@ == without_first(old(self)@, 1),
    {
        proof {
            use_type_invariant(&*self);
        }
        match self.head {
            Some(el) => {
                self.head = None;
                Some((el, TextSize::new(0)))
            },
            None => {
                if self.front < self.back {
                    let item = self.tail[self.front].entry();
                    self.front = self.front + 1;
                    Some(item)
                } else {
                    None
                }
            },
        }
    }

    fn next_back(&mut self) -> (item: Option<(GreenElementRef<'a>, TextSize)>)
        ensures
            item_view(item) == last_of(old(self)@),
            final(self)@ == without_last(old(self)@, 1),
    {
        proof {
            use_type_invariant(&*self);
        }
        if self.front < self.back {
            let item = self.tail[self.back - 1].entry();
            self.back = self.back - 1;
            Some(item)
        } else {
            match self.head {
                Some(el) => {
                    self.head = None;
                    Some((el, TextSize::new(0)))
                },
                None => None,
            }
        }
    }

    fn nth(&mut self, n: usize) -> (item: Option<(GreenElementRef<'a>, TextSize)>)
        ensures
            item_view(item) == nth_of(old(self)@, n as int),
            final(self)@ == without_first(old(self)@, n + 1),
    {
        proof {
            use_type_invariant(&*self);
        }
        let mut n: usize = n;
        if let Some(el) = self.head {
            self.head = None;
            if n == 0 {
                return Some((el, TextSize::new(0)));
            }
            n = n - 1;
        }
        if n < self.back - self.front {
            let item = self.tail[self.front + n].entry();
            self.front = self.front + n + 1;
            Some(item)
        } else {
            self.front = self.back;
            None
        }
    }

    fn nth_back(&mut self, n: usize) -> (item: Option<(GreenElementRef<'a>, TextSize)>)
        ensures
            item_view(item) == nth_back_of(old(self)@, n as int),
            final(self)@ == without_last(old(self)@, n + 1),
    {
        proof {
            use_type_invariant(&*self);
        }
        let left: usize = self.back - self.front;
        if n < left {
            let item = self.tail[self.back - 1 - n].entry();
            self.back = self.back - 1 - n;
            Some(item)
        } else {
            self.back = self.front;
            let head = self.head;
            self.head = None;
            match head {
                Some(el) => {
                    if n == left {
                        Some((el, TextSize::new(0)))
                    } else {
                        None
                    }
                },
                None => None,
            }
        }
    }
}

/// The children of a node that a walk has still to come to, each with its
/// offset from the start of the node.
#[allow(inconsistent_fields)]
pub enum ChildrenExt<'a> {
    Plain { raw: RawChildren<'a, GreenChild> },
    Compact { raw: RawChildren<'a, GreenChildCompact> },
}

impl<'a> View for ChildrenExt<'a> {
    type V = Seq<(ElementTree, nat)>;

    open spec fn view(&self) -> Seq<(ElementTree, nat)> {
        match self {
            ChildrenExt::Plain { raw } => raw@,
            ChildrenExt::Compact { raw } => raw@,
        }
    }
}

/// The steps of a walk over a first child and a tail.
pub(crate) open spec fn walk_of<C: StoredChild>(
    head: Option<GreenElementRef<'_>>,
    tail: Seq<C>,
) -> Seq<(ElementTree, nat)> {
    head_view(head) + tail_view(tail)
}

impl<'a> ChildrenExt<'a> {
    pub(crate) fn create(head: Option<GreenElementRef<'a>>, tail: &'a [GreenChild]) -> (children:
        Self)
        requires
            head is Some ==> tail@.len() < usize::MAX,
        ensures
            children@ == walk_of(head, tail@),
    {
        ChildrenExt::Plain { raw: RawChildren::new(head, tail) }
    }

    pub(crate) fn create_compact(
        head: Option<GreenElementRef<'a>>,
        tail: &'a [GreenChildCompact],
    ) -> (children: Self)
        requires
            head is Some ==> tail@.len() < usize::MAX,
            forall|i: int| #![trigger tail@[i]] 0 <= i < tail@.len() ==> tail@[i].is_live(),
        ensures
            children@ == walk_of(head, tail@),
    {
        ChildrenExt::Compact { raw: RawChildren::new(head, tail) }
    }

    /// A walk over no children.
    pub fn empty() -> (children: Self)
        ensures
            children@ == Seq::<(ElementTree, nat)>::empty(),
    {
        ChildrenExt::create(None, &[])
    }

    /// How many children are left.
    pub fn len(&self) -> (len: usize)
        ensures
            len == self@.len(),
    {
        let (lower, upper) = self.size_hint();
        match upper {
            Some(upper) => upper,
            None => lower,
        }
    }

    /// The next child, from the front.
    pub fn next(&mut self) -> (item: Option<(GreenElementRef<'a>, TextSize)>)
        ensures
            item_view(item) == first_of(old(self)@),
            final(self)@ == without_first(old(self)@, 1),
    {
        match self {
            ChildrenExt::Plain { raw } => raw.next(),
            ChildrenExt::Compact { raw } => raw.next(),
        }
    }

    /// How many children are left, as a lower and an upper bound. The two are
    /// the same.
    pub fn size_hint(&self) -> (hint: (usize, Option<usize>))
        ensures
            hint.0 == self@.len(),
            hint.1 == Some(hint.0),
    {
        let len: usize = match self {
            ChildrenExt::Plain { raw } => raw.len(),
            ChildrenExt::Compact { raw } => raw.len(),
        };
        (len, Some(len))
    }

    /// How many children were left.
    pub fn count(self) -> (count: usize)
        ensures
            count == self@.len(),
    {
        self.len()
    }

    /// Passes over `n` children and takes the one after them.
    pub fn nth(&mut self, n: usize) -> (item: Option<(GreenElementRef<'a>, TextSize)>)
        ensures
            item_view(item) == nth_of(old(self)@, n as int),
            final(self)@ == without_first(old(self)@, n + 1),
    {
        match self {
            ChildrenExt::Plain { raw } => raw.nth(n),
            ChildrenExt::Compact { raw } => raw.nth(n),
        }
    }

    /// The last of the children that were left.
    pub fn last(self) -> (item: Option<(GreenElementRef<'a>, TextSize)>)
        ensures
            item_view(item) == last_of(self@),
    {
        let mut children = self;
        children.next_back()
    }

    /// Applies `f` to `init` and the first child, then to what came of that and
    /// the second child, and so on.
    pub fn fold<Acc, F: FnMut(Acc, (GreenElementRef<'a>, TextSize)) -> Acc>(
        self,
        init: Acc,
        f: F,
    ) -> (accum: Acc)
        requires
            fold_ready(f, self@, init),
        ensures
            exists|items: Seq<(GreenElementRef<'a>, TextSize)>, accs: Seq<Acc>|
                {
                    &&& #[trigger] fold_trace(f, self@, items, accs)
                    &&& items.len() == self@.len()
                    &&& accs.len() == self@.len() + 1
                    &&& accs[0] == init
                    &&& accs.last() == accum
                    &&& forall|i: int| #![trigger items[i]]
                        0 <= i < self@.len() ==> {
                            &&& (items[i].0@, items[i].1@) == self@[i]
                            &&& call_ensures(f, (accs[i], items[i]), accs[i + 1])
                        }
                },
    {
        let mut children = self;
        let mut accum = init;
        let mut step = f;
        let ghost mut items: Seq<(GreenElementRef<'a>, TextSize)> = Seq::empty();
        let ghost mut accs: Seq<Acc> = seq![init];
        loop
            invariant
                step == f,
                fold_trace(f, self@, items, accs),
                accs[0] == init,
                accs.last() == accum,
                children@ == self@.skip(items.len() as int),
                fold_ready(f, self@, init),
            ensures
                items.len() == self@.len(),
            decreases children@.len(),
        {
            match children.next() {
                None => {
                    break;
                },
                Some(x) => {
                    accum = step(accum, x);
                    proof {
                        items = items.push(x);
                        accs = accs.push(accum);
                    }
                },
            }
        }
        accum
    }

    /// The next child, from the back.
    pub fn next_back(&mut self) -> (item: Option<(GreenElementRef<'a>, TextSize)>)
        ensures
            item_view(item) == last_of(old(self)@),
            final(self)@ == without_last(old(self)@, 1),
    {
        match self {
            ChildrenExt::Plain { raw } => raw.next_back(),
            ChildrenExt::Compact { raw } => raw.next_back(),
        }
    }

    /// Passes over `n` children from the back and takes the one before them.
    pub fn nth_back(&mut self, n: usize) -> (item: Option<(GreenElementRef<'a>, TextSize)>)
        ensures
            item_view(item) == nth_back_of(old(self)@, n as int),
            final(self)@ == without_last(old(self)@, n + 1),
    {
        match self {
            ChildrenExt::Plain { raw } => raw.nth_back(n),
            ChildrenExt::Compact { raw } => raw.nth_back(n),
        }
    }
}

impl<'a> Clone for ChildrenExt<'a> {
    fn clone(&self) -> (children: Self)
        ensures
            children@ == self@,
    {
        match self {
            ChildrenExt::Plain { raw } => ChildrenExt::Plain { raw: raw.again() },
            ChildrenExt::Compact { raw } => ChildrenExt::Compact { raw: raw.again() },
        }
    }
}

/// The children of a node that a walk has still to come to.
pub struct Children<'a> {
    ext: ChildrenExt<'a>,
}

impl<'a> View for Children<'a> {
    type V = Seq<ElementTree>;

    closed spec fn view(&self) -> Seq<ElementTree> {
        elements_of(self.ext@)
    }
}

/// The children of a walk that also tells offsets.
pub open spec fn elements_of(items: Seq<(ElementTree, nat)>) -> Seq<ElementTree> {
    Seq::new(items.len(), |i: int| items[i].0)
}

impl<'a> Children<'a> {
    /// Leaves the offsets out of a walk.
    pub(crate) fn new(ext: ChildrenExt<'a>) -> (children: Self)
        ensures
            children@ == elements_of(ext@),
    {
        Children { ext }
    }

    /// How many children are left.
    pub fn len(&self) -> (len: usize)
        ensures
            len == self@.len(),
    {
        self.ext.len()
    }

    /// The next child, from the front.
    pub fn next(&mut self) -> (item: Option<GreenElementRef<'a>>)
        ensures
            element_view(item) == first_of(old(self)@),
            final(self)@ == without_first(old(self)@, 1),
    {
        match self.ext.next() {
            Some((el, _)) => Some(el),
            None => None,
        }
    }

    /// The next child, from the back.
    pub fn next_back(&mut self) -> (item: Option<GreenElementRef<'a>>)
        ensures
            element_view(item) == last_of(old(self)@),
            final(self)@ == without_last(old(self)@, 1),
    {
        match self.ext.next_back() {
            Some((el, _)) => Some(el),
            None => None,
        }
    }

    /// Passes over `n` children and takes the one after them.
    pub fn nth(&mut self, n: usize) -> (item: Option<GreenElementRef<'a>>)
        ensures
            element_view(item) == nth_of(old(self)@, n as int),
            final(self)@ == without_first(old(self)@, n + 1),
    {
        match self.ext.nth(n) {
            Some((el, _)) => Some(el),
            None => None,
        }
    }

    /// The last of the children that were left.
    pub fn last(self) -> (item: Option<GreenElementRef<'a>>)
        ensures
            element_view(item) == last_of(self@),
    {
        match self.ext.last() {
            Some((el, _)) => Some(el),
            None => None,
        }
    }

    /// Passes over `n` children from the back and takes the one before them.
    pub fn nth_back(&mut self, n: usize) -> (item: Option<GreenElementRef<'a>>)
        ensures
            element_view(item) == nth_back_of(old(self)@, n as int),
            final(self)@ == without_last(old(self)@, n + 1),
    {
        match self.ext.nth_back(n) {
            Some((el, _)) => Some(el),
            None => None,
        }
    }
}

impl<'a> Clone for Children<'a> {
    fn clone(&self) -> (children: Self)
        ensures
            children@ == self@,
    {
        Children { ext: self.ext.clone() }
    }
}

} // verus!
