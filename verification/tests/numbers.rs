use mev_engine::hexadecimal::{addr, parse_address};
use mev_engine::u256::{read_word, U256};

#[test]
fn addresses_are_read_from_text() {
    let expected = [0xabu8; 20];
    let digits = "abABabABabABabABabABabABabABabABabABabAB";
    assert_eq!(addr(digits), expected);
    assert_eq!(parse_address(&format!("0x{}", digits)), Some(expected));
    // blanks are skipped
    assert_eq!(parse_address(&format!("0x {}\n", digits)), Some(expected));
    assert_eq!(parse_address(&digits[1..]), None);
    assert_eq!(parse_address(&format!("{}ab", digits)), None);
    assert_eq!(parse_address(&format!("0X{}", digits)), None);
    assert_eq!(parse_address("0x"), None);
}

#[test]
fn words_are_read_as_numbers() {
    let mut data = vec![0u8; 40];
    data[39] = 2;
    data[38] = 1;
    assert_eq!(read_word(&data, 8).as_u128(), 258);
    assert_eq!(read_word(&data, 7).as_u128(), 1);
    data[8] = 0x80;
    assert_eq!(read_word(&data, 8).limbs, [258, 0, 0, 0x8000_0000_0000_0000]);
}

#[test]
fn numbers_know_their_size() {
    let small = U256::from_u128(7);
    assert!(small.fits_u64() && small.fits_u128() && !small.is_zero());
    assert_eq!(small.as_u64(), 7);
    assert_eq!(small.to_usize(), Some(7));
    let large = U256::from_u128(u128::MAX);
    assert!(!large.fits_u64() && large.fits_u128());
    assert_eq!(large.as_u128(), u128::MAX);
    assert_eq!(large.to_usize(), None);
    let huge = U256 { limbs: [0, 0, 1, 0] };
    assert!(!huge.fits_u128());
    assert!(U256::zero().is_zero());
    assert!(small.at_most(&small));
    assert!(small.at_most(&large));
    assert!(!huge.at_most(&large));
}
