use sized_bitset::convert::To128;
use sized_bitset::convert::To16;
use sized_bitset::convert::To32;
use sized_bitset::convert::To64;
use sized_bitset::convert::To8;
use sized_bitset::SizedBitset;

#[test]
fn from_array_of_ones_is_all_ones() {
    let bitset = SizedBitset::<8>::from_const([true; 8]);
    assert_eq!(bitset.to_u8(), 255);
}

#[test]
fn round_trip_u8() {
    for bits in 0..=255u8 {
        let bitset = SizedBitset::<8>::from_u8(bits);
        assert_eq!(bitset.to_u8(), bits);
    }
}

#[test]
fn round_trip_u16() {
    for bits in [0u16, 1, 2, 255, 256, 0x1234, 0x8000, u16::MAX] {
        let bitset = SizedBitset::<16>::from_u16(bits);
        assert_eq!(bitset.to_u16(), bits);
    }
}

#[test]
fn round_trip_u32() {
    for bits in [0u32, 1, 0xff, 0x1_0000, 0xdead_beef, u32::MAX] {
        let bitset = SizedBitset::<32>::from_u32(bits);
        assert_eq!(bitset.to_u32(), bits);
    }
}

#[test]
fn round_trip_u64() {
    for bits in [0u64, 1, 0xffff_ffff, 0x1234_5678_9abc_def0, u64::MAX] {
        let bitset = SizedBitset::<64>::from_u64(bits);
        assert_eq!(bitset.to_u64(), bits);
    }
}

#[test]
fn round_trip_u128() {
    for bits in [0u128, 1, u64::MAX as u128, 1u128 << 127, u128::MAX] {
        let bitset = SizedBitset::<128>::from_u128(bits);
        assert_eq!(bitset.to_u128(), bits);
    }
}

#[test]
fn to_then_from_restores_cells() {
    for bits in 0..=255u8 {
        let bitset = SizedBitset::<8>::from_u8(bits);
        let rebuilt = SizedBitset::<8>::from_u8(bitset.to_u8());
        for idx in 0..8 {
            assert_eq!(rebuilt.get(idx), bitset.get(idx));
        }
    }
}

#[test]
fn from_narrow_into_wide_pads_with_zeros() {
    let bitset = SizedBitset::<16>::from_u8(0xff);
    assert_eq!(bitset.to_u16(), 0x00ff);
    for idx in 8..16 {
        assert!(!bitset.get(idx));
    }
}

#[test]
fn small_bitset_converts_to_wider_integers() {
    let bitset = SizedBitset::<4>::from_const([false, false, true, true]);
    assert_eq!(bitset.to_u8(), 12);
    assert_eq!(bitset.to_u16(), 12);
    assert_eq!(bitset.to_u32(), 12);
    assert_eq!(bitset.to_u64(), 12);
    assert_eq!(bitset.to_u128(), 12);
}

#[test]
fn low_cell_is_least_significant() {
    let bitset = SizedBitset::<8>::from_u8(0b0000_0001);
    assert!(bitset.get(0));
    for idx in 1..8 {
        assert!(!bitset.get(idx));
    }
}

#[test]
fn rotl_matches_integer_rotation() {
    let example: SizedBitset<8> = SizedBitset::from_u8(0b00011101);
    assert_eq!(example.rotl(2).to_u8(), 0b01110100);
    for bits in 0..=255u8 {
        let bitset = SizedBitset::<8>::from_u8(bits);
        for i in 0..=8usize {
            assert_eq!(bitset.rotl(i).to_u8(), bits.rotate_left(i as u32));
        }
    }
}

#[test]
fn rotr_matches_integer_rotation() {
    let example: SizedBitset<8> = SizedBitset::from_u8(0b00011101);
    assert_eq!(example.rotr(2).to_u8(), 0b01000111);
    for bits in 0..=255u8 {
        let bitset = SizedBitset::<8>::from_u8(bits);
        for i in 0..=8usize {
            assert_eq!(bitset.rotr(i).to_u8(), bits.rotate_right(i as u32));
        }
    }
}

#[test]
fn shl_matches_integer_shift() {
    for bits in 0..=255u8 {
        let bitset = SizedBitset::<8>::from_u8(bits);
        for i in 0..8usize {
            assert_eq!(bitset.shl(i).to_u8(), bits << i);
        }
    }
}

#[test]
fn shr_matches_integer_shift() {
    for bits in 0..=255u8 {
        let bitset = SizedBitset::<8>::from_u8(bits);
        for i in 0..8usize {
            assert_eq!(bitset.shr(i).to_u8(), bits >> i);
        }
    }
}

#[test]
fn shl_assign_matches_integer_shift() {
    for bits in [0u8, 1, 0x55, 0xaa, 0x73, 0xff] {
        for i in 0..8usize {
            let mut bitset = SizedBitset::<8>::from_u8(bits);
            bitset.shl_assign(i);
            assert_eq!(bitset.to_u8(), bits << i);
        }
    }
}

#[test]
fn shr_assign_matches_integer_shift() {
    for bits in [0u8, 1, 0x55, 0xaa, 0x72, 0xff] {
        for i in 0..8usize {
            let mut bitset = SizedBitset::<8>::from_u8(bits);
            bitset.shr_assign(i);
            assert_eq!(bitset.to_u8(), bits >> i);
        }
    }
}

#[test]
fn shift_by_size_or_more_clears() {
    for bits in [0u8, 1, 0x55, 0xff] {
        let bitset = SizedBitset::<8>::from_u8(bits);
        assert!(bitset.shl(8).none());
        assert!(bitset.shl(9).none());
        assert!(bitset.shr(8).none());
        assert!(bitset.shr(9).none());

        let mut left = SizedBitset::<8>::from_u8(bits);
        left.shl_assign(9);
        assert!(left.none());

        let mut right = SizedBitset::<8>::from_u8(bits);
        right.shr_assign(9);
        assert!(right.none());
    }
}

#[test]
fn bitand_matches_integer_and() {
    for lhs in [0u8, 1, 0x0f, 0x55, 0xaa, 0xf3, 0xff] {
        for rhs in [0u8, 1, 0x0f, 0x55, 0xaa, 0xc7, 0xff] {
            let a = SizedBitset::<8>::from_u8(lhs);
            let b = SizedBitset::<8>::from_u8(rhs);
            assert_eq!(a.bitand(&b).to_u8(), lhs & rhs);
            let mut c = SizedBitset::<8>::from_u8(lhs);
            c.bitand_assign(&b);
            assert_eq!(c.to_u8(), lhs & rhs);
        }
    }
}

#[test]
fn bitor_matches_integer_or() {
    for lhs in [0u8, 1, 0x0f, 0x55, 0xaa, 0xf3, 0xff] {
        for rhs in [0u8, 1, 0x0f, 0x55, 0xaa, 0xc7, 0xff] {
            let a = SizedBitset::<8>::from_u8(lhs);
            let b = SizedBitset::<8>::from_u8(rhs);
            assert_eq!(a.bitor(&b).to_u8(), lhs | rhs);
            let mut c = SizedBitset::<8>::from_u8(lhs);
            c.bitor_assign(&b);
            assert_eq!(c.to_u8(), lhs | rhs);
        }
    }
}

#[test]
fn bitxor_matches_integer_xor() {
    for lhs in [0u8, 1, 0x0f, 0x55, 0xaa, 0xf3, 0xff] {
        for rhs in [0u8, 1, 0x0f, 0x55, 0xaa, 0xc7, 0xff] {
            let a = SizedBitset::<8>::from_u8(lhs);
            let b = SizedBitset::<8>::from_u8(rhs);
            assert_eq!(a.bitxor(&b).to_u8(), lhs ^ rhs);
            let mut c = SizedBitset::<8>::from_u8(lhs);
            c.bitxor_assign(&b);
            assert_eq!(c.to_u8(), lhs ^ rhs);
        }
    }
}
