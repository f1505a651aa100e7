use green_tree::address::{offset_to_ptr, ptr_to_offset};

#[test]
fn offsets_count_in_alignments() {
    assert_eq!(ptr_to_offset(8, 0x1000, 0x1000), 0);
    assert_eq!(ptr_to_offset(8, 0x1000, 0x1008), 1);
    assert_eq!(ptr_to_offset(8, 0x1000, 0x2000), 0x200);
    assert_eq!(ptr_to_offset(8, 0x1000, 0x0ff8), -1);
    assert_eq!(ptr_to_offset(1, 10, 3), -7);
    assert_eq!(ptr_to_offset(16, 0x1000, 0x1000 - 16 * 5), -5);
}

#[test]
fn addresses_are_found_again() {
    for align in [1usize, 2, 4, 8, 16, 64] {
        let base = 0x10_0000usize;
        for offset in [-3i32, -1, 0, 1, 2, 1000] {
            let ptr = offset_to_ptr(align, base, offset);
            assert_eq!(ptr as i64, base as i64 + offset as i64 * align as i64);
            assert_eq!(ptr_to_offset(align, base, ptr), offset);
        }
    }
}

#[test]
fn base_need_not_be_aligned() {
    assert_eq!(ptr_to_offset(8, 0x1004, 0x1014), 2);
    assert_eq!(ptr_to_offset(8, 0x1004, 0x0ffc), -1);
    assert_eq!(offset_to_ptr(8, 0x1004, -1), 0x0ffc);
}

#[test]
fn farthest_offsets_fit() {
    let base = 1usize << 40;
    assert_eq!(ptr_to_offset(8, base, base + 8 * (i32::MAX as usize)), i32::MAX);
    assert_eq!(ptr_to_offset(8, base, base - 8 * (1usize << 31)), i32::MIN);
    assert_eq!(offset_to_ptr(8, base, i32::MIN), base - 8 * (1usize << 31));
}
