use sized_bitset::convert::To8;
use sized_bitset::ConversionError;
use sized_bitset::SizedBitset;

#[test]
fn from_const() {
    let bitset: SizedBitset<8> =
        SizedBitset::from_const([true, true, true, true, true, true, true, true]);
    for idx in 0..8 {
        assert!(bitset.get(idx));
    }
    let _ = SizedBitset::from_const([true, true, true, true, true, true, true, true]);
}

#[test]
fn default() {
    {
        let bitset: SizedBitset<8> = Default::default();
        for idx in 0..8 {
            assert!(!bitset.get(idx));
        }
    }
    {
        let bitset = SizedBitset::<8>::new();
        for idx in 0..8 {
            assert!(!bitset.get(idx));
        }
    }
}

#[test]
#[should_panic]
fn from_str_error() {
    let _bitset: SizedBitset<8> = SizedBitset::from_str("!?!?").unwrap();
}

#[test]
fn parse_via_std_parse() {
    let bitset: SizedBitset<4> = "1010".parse().unwrap();
    assert!(!bitset.get(0));
    assert!(bitset.get(1));
    assert!(!bitset.get(2));
    assert!(bitset.get(3));
}

#[test]
fn zero_size_bitset() {
    let bitset = SizedBitset::<0>::new();
    assert_eq!(bitset.len(), 0);
    assert!(bitset.none());
    assert!(bitset.all());
    assert!(!bitset.any());
    assert_eq!(bitset.count(), 0);
    assert_eq!(bitset.display(), "");
    let parsed: SizedBitset<0> = SizedBitset::from_str("").unwrap();
    assert_eq!(parsed.display(), "");
}

#[test]
fn single_cell_bitset() {
    let mut bitset = SizedBitset::<1>::new();
    assert_eq!(bitset.display(), "0");
    bitset.set(0);
    assert_eq!(bitset.display(), "1");
    assert_eq!(bitset.rotl(5).display(), "1");
    assert_eq!(bitset.rotr(3).display(), "1");
    assert!(bitset.shl(1).none());
}

#[test]
fn len_is_size() {
    let bitset = SizedBitset::<5>::new();
    assert_eq!(bitset.len(), 5);
}

#[test]
fn try_from_sequence_round_trip() {
    let values = vec![true, false, true, false];
    let bitset: SizedBitset<4> = SizedBitset::try_from_sequence(values.as_slice()).unwrap();
    assert!(bitset.get(0));
    assert!(!bitset.get(1));
    assert!(bitset.get(2));
    assert!(!bitset.get(3));
}

#[test]
fn try_from_sequence_length_mismatch() {
    let values = vec![true, false, true];
    let result: Result<SizedBitset<4>, ConversionError> =
        SizedBitset::try_from_sequence(values.as_slice());
    assert!(matches!(
        result,
        Err(ConversionError::LengthMismatch { expected: 4, actual: 3 })
    ));
}

#[test]
fn parse_length_mismatch() {
    let result: Result<SizedBitset<4>, ConversionError> = SizedBitset::from_str("10101");
    assert!(matches!(
        result,
        Err(ConversionError::LengthMismatch { expected: 4, actual: 5 })
    ));
}

#[test]
fn parse_invalid_character() {
    let result: Result<SizedBitset<2>, ConversionError> = SizedBitset::from_str("12");
    match result {
        Err(ConversionError::InvalidCharacter(text)) => assert_eq!(text, "12"),
        _ => panic!("expected an invalid-character rejection"),
    }
}

#[test]
fn parse_checks_characters_before_length() {
    let result: Result<SizedBitset<4>, ConversionError> = SizedBitset::from_str("10x");
    assert!(matches!(result, Err(ConversionError::InvalidCharacter(_))));
}

#[test]
fn display_renders_most_significant_first() {
    let bitset = SizedBitset::<4>::from_const([false, false, true, true]);
    assert_eq!(bitset.display(), "1100");
}

#[test]
fn to_string_with_custom_characters() {
    let bitset = SizedBitset::<8>::from_u8(0b1100_0011);
    assert_eq!(bitset.to_string_with('!', '?'), "!!????!!");
}

#[test]
fn display_then_parse_returns_original() {
    for bits in 0..=255u8 {
        let bitset = SizedBitset::<8>::from_u8(bits);
        let text = bitset.display();
        let reparsed: SizedBitset<8> = SizedBitset::from_str(text.as_str()).unwrap();
        assert_eq!(reparsed.to_u8(), bits);
    }
}

#[test]
fn parse_then_display_returns_original() {
    for text in ["00000000", "10101010", "11111111", "01000000"] {
        let bitset: SizedBitset<8> = SizedBitset::from_str(text).unwrap();
        assert_eq!(bitset.display(), text);
    }
}

#[test]
fn queries_on_mixed_bits() {
    let bitset = SizedBitset::<4>::from_const([true, false, true, false]);
    assert!(!bitset.all());
    assert!(bitset.any());
    assert!(!bitset.none());
    assert_eq!(bitset.count(), 2);

    let full = SizedBitset::<4>::from_const([true, true, true, true]);
    assert!(full.all());
    assert!(full.any());
    assert!(!full.none());
    assert_eq!(full.count(), 4);

    let empty = SizedBitset::<4>::new();
    assert!(!empty.all());
    assert!(!empty.any());
    assert!(empty.none());
    assert_eq!(empty.count(), 0);
}

#[test]
fn count_matches_ones_in_display() {
    for bits in 0..=255u8 {
        let bitset = SizedBitset::<8>::from_u8(bits);
        let ones = bitset.display().chars().filter(|c| *c == '1').count();
        assert_eq!(bitset.count(), ones);
    }
}

#[test]
fn flip_twice_restores() {
    let mut bitset = SizedBitset::<4>::from_const([true, false, false, true]);
    bitset.flip();
    assert!(!bitset.get(0));
    assert!(bitset.get(1));
    assert!(bitset.get(2));
    assert!(!bitset.get(3));
    bitset.flip();
    assert!(bitset.get(0));
    assert!(!bitset.get(1));
    assert!(!bitset.get(2));
    assert!(bitset.get(3));
}

#[test]
fn flipped_twice_restores() {
    for bits in 0..=255u8 {
        let bitset = SizedBitset::<8>::from_u8(bits);
        assert_eq!(bitset.flipped().flipped().to_u8(), bits);
    }
}

#[test]
fn set_and_reset_single_cells() {
    let mut bitset = SizedBitset::<4>::new();
    bitset.set(1);
    assert!(!bitset.get(0));
    assert!(bitset.get(1));
    assert!(!bitset.get(2));
    assert!(!bitset.get(3));
    bitset.set(3);
    bitset.reset(1);
    assert!(!bitset.get(1));
    assert!(bitset.get(3));
}

#[test]
fn set_all_and_reset_all() {
    let mut bitset = SizedBitset::<4>::new();
    bitset.set_all();
    for idx in 0..4 {
        assert!(bitset.get(idx));
    }
    bitset.reset_all();
    for idx in 0..4 {
        assert!(!bitset.get(idx));
    }
}
