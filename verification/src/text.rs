//! Text sizes and text ranges, both counted in bytes of UTF-8 text.

use vstd::prelude::*;

verus! {

/// A number of bytes of text: an offset into a text, or the length of one.
#[derive(Debug, Clone, Copy, PartialEq, Eq, PartialOrd, Ord, Hash, Structural)]
pub struct TextSize {
    raw: u32,
}

impl View for TextSize {
    type V = nat;

    closed spec fn view(&self) -> nat {
        self.raw as nat
    }
}

impl TextSize {
    /// The size of `raw` bytes.
    pub fn new(raw: u32) -> (size: TextSize)
        ensures
            size@ == raw,
    {
        TextSize { raw }
    }

    /// The size of a text, which has to be small enough to be counted.
    pub fn of(text: &str) -> (size: TextSize)
        requires
            vstd::utf8::encode_utf8(text@).len() <= u32::MAX,
        ensures
            size@ == vstd::utf8::encode_utf8(text@).len(),
    {
        TextSize { raw: text.as_bytes().len() as u32 }
    }

    /// The number of bytes.
    pub fn raw(self) -> (raw: u32)
        ensures
            raw == self@,
    {
        self.raw
    }

    /// The sum of two sizes.
    pub fn plus(self, other: TextSize) -> (sum: TextSize)
        requires
            self@ + other@ <= u32::MAX,
        ensures
            sum@ == self@ + other@,
    {
        TextSize { raw: self.raw + other.raw }
    }

    /// A number of bytes fits into 32 bits.
    pub proof fn lemma_view_bounded(self)
        ensures
            self@ <= u32::MAX,
    {
    }

    /// A size is determined by its number of bytes.
    pub proof fn lemma_view_injective()
        ensures
            forall|a: TextSize, b: TextSize| a@ == b@ ==> a == b,
    {
    }
}

/// Where one range lies with respect to another.
#[derive(Debug, Clone, Copy, PartialEq, Eq, Structural)]
pub enum Placement {
    /// It ends where the other one starts, or earlier.
    Before,
    /// The two overlap.
    Overlapping,
    /// It starts where the other one ends, or later.
    After,
}

/// A range of text, from `start` up to but not including `end`.
#[derive(Debug, Clone, Copy, PartialEq, Eq, Hash, Structural)]
pub struct TextRange {
    start: TextSize,
    end: TextSize,
}

impl TextRange {
    /// The offset at which this range starts.
    pub closed spec fn from(self) -> nat {
        self.start@
    }

    /// The offset at which this range ends.
    pub closed spec fn to(self) -> nat {
        self.end@
    }

    #[verifier::type_invariant]
    closed spec fn inv(self) -> bool {
        self.start@ <= self.end@
    }

    /// The range from `start` to `end`.
    pub fn new(start: TextSize, end: TextSize) -> (range: TextRange)
        requires
            start@ <= end@,
        ensures
            range.from() == start@,
            range.to() == end@,
    {
        TextRange { start, end }
    }

    /// The range of length `len` that starts at `offset`.
    pub fn at(offset: TextSize, len: TextSize) -> (range: TextRange)
        requires
            offset@ + len@ <= u32::MAX,
        ensures
            range.from() == offset@,
            range.to() == offset@ + len@,
    {
        TextRange::new(offset, offset.plus(len))
    }

    /// The offset at which this range starts.
    pub fn start(self) -> (start: TextSize)
        ensures
            start@ == self.from(),
            self.from() <= self.to(),
    {
        proof {
            use_type_invariant(&self);
        }
        self.start
    }

    /// The offset at which this range ends.
    pub fn end(self) -> (end: TextSize)
        ensures
            end@ == self.to(),
            self.from() <= self.to(),
    {
        proof {
            use_type_invariant(&self);
        }
        self.end
    }

    /// Whether `other` lies inside this range, its ends included.
    pub fn contains_range(self, other: TextRange) -> (inside: bool)
        ensures
            inside == (self.from() <= other.from() && other.to() <= self.to()),
    {
        self.start.raw <= other.start.raw && other.end.raw <= self.end.raw
    }

    /// Where this range lies with respect to `other`.
    ///
    /// Of the ranges in a list in which each starts where the one before it
    /// ends, those before `other` come first and those after it come last, so
    /// such a list can be searched by halving.
    pub fn ordering(self, other: TextRange) -> (placement: Placement)
        ensures
            placement == (if self.to() <= other.from() {
                Placement::Before
            } else if other.to() <= self.from() {
                Placement::After
            } else {
                Placement::Overlapping
            }),
    {
        if self.end.raw <= other.start.raw {
            Placement::Before
        } else if other.end.raw <= self.start.raw {
            Placement::After
        } else {
            Placement::Overlapping
        }
    }
}

} // verus!
