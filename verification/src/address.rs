//! Addresses that are written as small offsets from a base address. Both are
//! multiples of one alignment apart, so an offset counts in alignments.

use vstd::prelude::*;

verus! {

/// Whether `align` can be the alignment of a type.
pub open spec fn is_alignment(align: int) -> bool {
    exists|n: nat| #[trigger] vstd::arithmetic::power2::pow2(n) == align
}

/// The address that lies `offset` alignments above `ptr_base`.
pub open spec fn address_at(align: int, ptr_base: int, offset: int) -> int {
    ptr_base + offset * align
}

/// How far `ptr` lies above `ptr_base`, in alignments.
pub open spec fn offset_between(align: int, ptr_base: int, ptr: int) -> int {
    (ptr - ptr_base) / align
}

/// How far `ptr` lies above `ptr_base`, in alignments. The two have to be a
/// whole number of alignments apart, and one that fits.
pub fn ptr_to_offset(align: usize, ptr_base: usize, ptr: usize) -> (offset: i32)
    requires
        is_alignment(align as int),
        (ptr - ptr_base) % (align as int) == 0,
        i32::MIN <= offset_between(align as int, ptr_base as int, ptr as int) <= i32::MAX,
    ensures
        offset == offset_between(align as int, ptr_base as int, ptr as int),
{
    let ghost n = offset_between(align as int, ptr_base as int, ptr as int);
    proof {
        lemma_alignment_positive(align as int);
        vstd::arithmetic::div_mod::lemma_fundamental_div_mod(ptr - ptr_base, align as int);
        assert(align * n == n * align) by (nonlinear_arith);
    }
    if ptr >= ptr_base {
        let count: usize = (ptr - ptr_base) / align;
        count as i32
    } else {
        let count: usize = (ptr_base - ptr) / align;
        proof {
            assert((-n) * align == -(n * align)) by (nonlinear_arith);
            vstd::arithmetic::div_mod::lemma_div_by_multiple(-n, align as int);
        }
        (0 - count as i64) as i32
    }
}

/// Alignments are positive.
pub proof fn lemma_alignment_positive(align: int)
    requires
        is_alignment(align),
    ensures
        align > 0,
{
    let n = choose|n: nat| #[trigger] vstd::arithmetic::power2::pow2(n) == align;
    vstd::arithmetic::power2::lemma_pow2_pos(n);
}

/// The address that lies `offset` alignments above `ptr_base`.
pub fn offset_to_ptr(align: usize, ptr_base: usize, offset: i32) -> (ptr: usize)
    requires
        is_alignment(align as int),
        0 <= address_at(align as int, ptr_base as int, offset as int) <= usize::MAX,
    ensures
        ptr == address_at(align as int, ptr_base as int, offset as int),
{
    if offset >= 0 {
        let count: usize = offset as usize;
        proof {
            assert(count * align >= 0) by (nonlinear_arith);
        }
        ptr_base + count * align
    } else {
        let count: usize = (0 - offset as i64) as usize;
        proof {
            assert(count * align == -(offset * align)) by (nonlinear_arith)
                requires
                    count == -offset,
            ;
        }
        ptr_base - count * align
    }
}

/// An address that was written as an offset is read back as it was.
pub proof fn lemma_address_round_trip(align: int, ptr_base: int, ptr: int)
    requires
        is_alignment(align),
        (ptr - ptr_base) % align == 0,
    ensures
        address_at(align, ptr_base, offset_between(align, ptr_base, ptr)) == ptr,
{
    lemma_alignment_positive(align);
    let n = offset_between(align, ptr_base, ptr);
    vstd::arithmetic::div_mod::lemma_fundamental_div_mod(ptr - ptr_base, align);
    assert(align * n == n * align) by (nonlinear_arith);
}

/// An offset that was turned into an address is found again.
pub proof fn lemma_offset_round_trip(align: int, ptr_base: int, offset: int)
    requires
        is_alignment(align),
    ensures
        (address_at(align, ptr_base, offset) - ptr_base) % align == 0,
        offset_between(align, ptr_base, address_at(align, ptr_base, offset)) == offset,
{
    lemma_alignment_positive(align);
    assert(align * offset == offset * align) by (nonlinear_arith);
    vstd::arithmetic::div_mod::lemma_div_multiples_vanish(offset, align);
    vstd::arithmetic::div_mod::lemma_mod_multiples_basic(offset, align);
}

/// Addresses start at the base, and one alignment lies between an offset and the
/// next.
pub proof fn lemma_address_steps(align: int, ptr_base: int, offset: int)
    ensures
        address_at(align, ptr_base, 0) == ptr_base,
        address_at(align, ptr_base, offset + 1) == address_at(align, ptr_base, offset) + align,
{
    assert((offset + 1) * align == offset * align + align) by (nonlinear_arith);
}

/// The offset between two addresses, in alignments, is how far they are apart.
pub proof fn lemma_offset_is_distance(align: int, ptr_base: int, ptr: int)
    requires
        is_alignment(align),
        (ptr - ptr_base) % align == 0,
    ensures
        ptr_base + align * offset_between(align, ptr_base, ptr) == ptr,
{
    lemma_alignment_positive(align);
    vstd::arithmetic::div_mod::lemma_fundamental_div_mod(ptr - ptr_base, align);
}

/// The alignments are one, and the double of each alignment.
pub proof fn lemma_alignments(align: int)
    ensures
        is_alignment(1),
        is_alignment(align) ==> is_alignment(2 * align),
        is_alignment(align) ==> align == 1 || (align % 2 == 0 && is_alignment(align / 2)),
{
    vstd::arithmetic::power2::lemma2_to64();
    assert(vstd::arithmetic::power2::pow2(0) == 1);
    if is_alignment(align) {
        let n = choose|n: nat| #[trigger] vstd::arithmetic::power2::pow2(n) == align;
        vstd::arithmetic::power2::lemma_pow2_unfold(n + 1);
        assert(vstd::arithmetic::power2::pow2(n + 1) == 2 * align);
        if n > 0 {
            vstd::arithmetic::power2::lemma_pow2_unfold(n);
            assert(vstd::arithmetic::power2::pow2((n - 1) as nat) == align / 2);
        }
    }
}

} // verus!
