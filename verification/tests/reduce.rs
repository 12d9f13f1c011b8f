//! The value-reduction boundary: every accepted input type maps to the
//! documented canonical residue.

use rolling_hash::{Prime, Reduce, P57_111, P61_1};

#[test]
fn narrow_unsigned_values_widen_directly() {
    let prime = Prime::new(P61_1).unwrap();
    assert_eq!(0u8.reduce(&prime), 0);
    assert_eq!(255u8.reduce(&prime), 255);
    assert_eq!(65535u16.reduce(&prime), 65535);
    assert_eq!(4_294_967_295u32.reduce(&prime), 4_294_967_295);
}

#[test]
fn wide_unsigned_values_reduce_by_modulus() {
    let prime = Prime::new(P61_1).unwrap();
    assert_eq!(P61_1.reduce(&prime), 0);
    assert_eq!((P61_1 + 9).reduce(&prime), 9);
    assert_eq!(u64::MAX.reduce(&prime), u64::MAX % P61_1);
    let big: u128 = (P61_1 as u128) * 5 + 13;
    assert_eq!(big.reduce(&prime), 13);
    assert_eq!((7usize).reduce(&prime), 7);
}

#[test]
fn signed_values_reinterpret_their_bit_pattern() {
    let prime = Prime::new(P61_1).unwrap();
    assert_eq!((-1i8).reduce(&prime), 255);
    assert_eq!((-1i16).reduce(&prime), 65535);
    assert_eq!((-2i32).reduce(&prime), 4_294_967_294);
    // -1 as u64 is 2^64 - 1, then reduced by the modulus
    assert_eq!((-1i64).reduce(&prime), u64::MAX % P61_1);
    assert_eq!(42i64.reduce(&prime), 42);
    assert_eq!((-1i128).reduce(&prime), (u128::MAX % P61_1 as u128) as u64);
    assert_eq!(5isize.reduce(&prime), 5);
}

#[test]
fn bool_and_char_map_through_their_ordinal() {
    let prime = Prime::new(P57_111).unwrap();
    assert_eq!(true.reduce(&prime), 1);
    assert_eq!(false.reduce(&prime), 0);
    assert_eq!('a'.reduce(&prime), 97);
    assert_eq!('\u{10FFFF}'.reduce(&prime), 0x10FFFF);
}
