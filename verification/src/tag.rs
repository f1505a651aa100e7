//! Tags, and words that hold a tag and an offset: the tag takes the low bits
//! of the word, and the offset the bits above them.

use vstd::prelude::*;
use crate::model::ElementTree;
use crate::text::TextSize;

verus! {

/// Says whether a child is a node or a token.
#[derive(Debug, Copy, Clone, PartialEq, Eq, Hash, Structural)]
pub enum ElementTag {
    Node,
    Token,
}

impl ElementTag {
    /// The tag of a child.
    pub open spec fn of(element: ElementTree) -> ElementTag {
        match element {
            ElementTree::Node(_) => ElementTag::Node,
            ElementTree::Token(_) => ElementTag::Token,
        }
    }

    /// The number under which this tag is stored.
    pub open spec fn number(self) -> u32 {
        match self {
            ElementTag::Node => 0,
            ElementTag::Token => 1,
        }
    }

    /// The number under which this tag is stored.
    pub fn to_number(self) -> (number: u32)
        ensures
            number == self.number(),
    {
        match self {
            ElementTag::Node => 0,
            ElementTag::Token => 1,
        }
    }
}

/// How many low bits of a word hold the tag.
pub const TAG_BITS: u32 = 2;

/// The bits of a word that hold the tag.
pub const TAG_MASK: u32 = 3;

/// The offsets below this one leave room for a tag.
pub const REL_OFFSET_LIMIT: u32 = 0x4000_0000;

/// The number of the tag in a word.
pub open spec fn word_tag(word: u32) -> u32 {
    word & TAG_MASK
}

/// The offset in a word.
pub open spec fn word_offset(word: u32) -> u32 {
    word >> TAG_BITS
}

/// A word is made up of its tag and its offset, and of nothing else.
pub proof fn lemma_word_parts(word: u32)
    ensures
        word == word_offset(word) * 4 + word_tag(word),
        word_tag(word) < 4,
        word_offset(word) < REL_OFFSET_LIMIT,
{
    assert(word == (word >> 2) * 4 + (word & 3) && word & 3 < 4 && word >> 2 < 0x4000_0000)
        by (bit_vector);
}

/// Two words that hold the same tag and the same offset are the same word.
pub proof fn lemma_word_determined(a: u32, b: u32)
    requires
        word_tag(a) == word_tag(b),
        word_offset(a) == word_offset(b),
    ensures
        a == b,
{
    lemma_word_parts(a);
    lemma_word_parts(b);
}

/// The word of a child that has been dropped, with all bits set, holds no tag,
/// and the greatest offset.
pub proof fn lemma_dropped_word(tag: ElementTag)
    ensures
        word_tag(u32::MAX) != tag.number(),
        word_offset(u32::MAX) == REL_OFFSET_LIMIT - 1,
{
    assert(u32::MAX & 3 == 3 && u32::MAX >> 2 == 0x3fff_ffff) by (bit_vector);
}

/// The word that holds a tag and an offset.
pub fn pack(tag: ElementTag, rel_offset: TextSize) -> (word: u32)
    requires
        rel_offset@ < REL_OFFSET_LIMIT,
    ensures
        word == rel_offset@ * 4 + tag.number(),
        word_tag(word) == tag.number(),
        word_offset(word) == rel_offset@,
{
    let offset: u32 = rel_offset.raw();
    let number: u32 = tag.to_number();
    assert((offset << 2) <= 0xffff_fffc) by (bit_vector);
    let word: u32 = (offset << TAG_BITS) + number;
    assert(word == offset * 4 + number && word & 3 == number && word >> 2 == offset) by (bit_vector)
        requires
            offset < 0x4000_0000,
            number == 0 || number == 1,
            word == (offset << 2) + number,
    ;
    word
}

/// The tags have the numbers zero and one, and each child has the tag of what it
/// is.
pub proof fn lemma_tag_numbers(element: ElementTree)
    ensures
        ElementTag::Node.number() == 0,
        ElementTag::Token.number() == 1,
        ElementTag::of(element) == ElementTag::Node <==> element is Node,
        ElementTag::of(element) == ElementTag::Token <==> element is Token,
{
}

/// Of each word, the remainder by four is the tag, and the quotient the offset.
pub proof fn lemma_word_split(word: u32)
    ensures
        word_tag(word) == word % 4,
        word_offset(word) == word / 4,
        REL_OFFSET_LIMIT == 0x4000_0000,
{
    assert(word & 3 == word % 4 && word >> 2 == word / 4) by (bit_vector);
}

} // verus!
