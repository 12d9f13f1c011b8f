//! The modular field engine against a wide-arithmetic reference.

use rolling_hash::{
    Prime, P57_111, P57_13, P57_25, P57_49, P57_61, P57_69, P58_27, P58_57, P58_63, P61_1,
};

const ALL_PRIMES: [u64; 10] = [
    P57_111, P57_69, P57_61, P57_49, P57_25, P57_13, P58_63, P58_57, P58_27, P61_1,
];

fn reference_mul_mod(p: u64, a: u64, b: u64) -> u64 {
    (a as u128 * b as u128 % p as u128) as u64
}

#[test]
fn mul_mod_matches_wide_reference_on_all_primes() {
    for &p in ALL_PRIMES.iter() {
        let prime = Prime::new(p).unwrap();
        let samples = [
            0u64,
            1,
            2,
            3,
            0xFFFF,
            0x1234_5678_9ABC,
            p / 2,
            p / 3 + 7,
            p - 2,
            p - 1,
        ];
        for &a in samples.iter() {
            for &b in samples.iter() {
                assert_eq!(prime.mul_mod(a, b), reference_mul_mod(p, a, b));
            }
        }
    }
}

#[test]
fn mul_mod_exact_value() {
    let p = P61_1;
    let prime = Prime::new(p).unwrap();
    // (p - 1)^2 mod p == 1
    assert_eq!(prime.mul_mod(p - 1, p - 1), 1);
    assert_eq!(prime.mul_mod(0, p - 1), 0);
    assert_eq!(prime.mul_mod(1, 12345), 12345);
}

#[test]
fn pow_mod_matches_repeated_mul_mod() {
    for &p in [P57_111, P58_63, P61_1].iter() {
        let prime = Prime::new(p).unwrap();
        for &base in [0u64, 1, 2, 31337, p - 1].iter() {
            let mut expect: u64 = 1;
            for exp in 0..=64u64 {
                assert_eq!(prime.pow_mod(base, exp), expect);
                expect = prime.mul_mod(expect, base);
            }
        }
    }
}

#[test]
fn pow_mod_zero_exponent_is_one() {
    let prime = Prime::new(P57_13).unwrap();
    assert_eq!(prime.pow_mod(0, 0), 1);
    assert_eq!(prime.pow_mod(987654321, 0), 1);
}

#[test]
fn prime_new_accepts_exactly_the_table() {
    for &p in ALL_PRIMES.iter() {
        let prime = Prime::new(p).expect("allow-listed prime must be accepted");
        assert_eq!(prime.value(), p);
    }
}

#[test]
fn prime_new_refuses_other_moduli() {
    assert!(Prime::new(0).is_none());
    assert!(Prime::new(1).is_none());
    assert!(Prime::new(7).is_none());
    // a large prime that is not of the supported shape
    assert!(Prime::new(18_446_744_073_709_551_557).is_none());
    // one off an allow-listed prime
    assert!(Prime::new(P61_1 - 1).is_none());
}
