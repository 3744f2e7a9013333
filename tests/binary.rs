use thumb_ooo::binary::{bit_as_bool, briz, hamming_weight, is_32_bit, matches_mask, n_ones};

#[test]
fn binary_test_n_ones() {
    assert_eq!(0, n_ones(0u32));
    assert_eq!(1, n_ones(1u32));
    assert_eq!(3, n_ones(2u32));
    assert_eq!(2147483647, n_ones(31u32));
}

#[test]
fn binary_test_get_bit_range() {
    assert_eq!(briz(0xb084, 12, 15), 0xb);
    assert_eq!(briz(0xb084, 8, 11), 0);
    assert_eq!(briz(0xb084, 4, 7), 8);
    assert_eq!(briz(0xb084, 0, 3), 4);

    assert_eq!(7, briz(0xf345fb3c, 29, 31));
}

#[test]
fn mod_test_n_ones() {
    assert_eq!(0, n_ones(0u32));
    assert_eq!(1, n_ones(1u32));
    assert_eq!(3, n_ones(2u32));
    assert_eq!(2147483647, n_ones(31u32));
}

#[test]
fn mod_test_get_bit_range() {
    let instr = 0xb084;
    assert_eq!(briz(instr, 12, 15), 0xb);
    assert_eq!(briz(instr, 8, 11), 0);
    assert_eq!(briz(instr, 4, 7), 8);
    assert_eq!(briz(instr, 0, 3), 4);
}

#[test]
fn bit_helpers() {
    assert!(bit_as_bool(0x8000_0000, 31));
    assert!(!bit_as_bool(0x8000_0000, 30));
    assert!(is_32_bit(0xf01dff2c));
    assert!(!is_32_bit(0xffff));
    assert!(matches_mask(0b1110_1000_0000_0000, 0b11101 << 11));
    assert!(!matches_mask(0b0110_1000_0000_0000, 0b11101 << 11));
    assert_eq!(hamming_weight(0), 0);
    assert_eq!(hamming_weight(0b1011), 3);
    assert_eq!(hamming_weight(u32::MAX), 32);
}
