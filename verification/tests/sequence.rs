//! The incremental hash sequence: growth, direct hashing, and the
//! agreement between the incremental path and the direct fold.

use rolling_hash::{OneWay, Prime, P61_1};

fn sequence_from(values: &[u64], base_count: usize) -> OneWay {
    let prime = Prime::new(P61_1).unwrap();
    let mut s = OneWay::new(prime, base_count).unwrap();
    for &v in values.iter() {
        s.push(v);
    }
    s
}

#[test]
fn new_refuses_bad_base_counts() {
    let prime = Prime::new(P61_1).unwrap();
    assert!(OneWay::new(prime, 0).is_none());
    assert!(OneWay::new(prime, 11).is_none());
    for count in 1..=10usize {
        let s = OneWay::new(prime, count).unwrap();
        assert_eq!(s.base().len(), count);
    }
}

#[test]
fn bases_lie_in_the_documented_range() {
    let prime = Prime::new(P61_1).unwrap();
    let s = OneWay::new(prime, 10).unwrap();
    for &b in s.base().iter() {
        assert!(2 <= b && b <= P61_1 - 2);
    }
}

#[test]
fn len_and_is_empty_track_pushes() {
    let prime = Prime::new(P61_1).unwrap();
    let mut s = OneWay::new(prime, 3).unwrap();
    assert!(s.is_empty());
    assert_eq!(s.len(), 0);
    s.push(42);
    assert!(!s.is_empty());
    assert_eq!(s.len(), 1);
    s.push(0);
    assert_eq!(s.len(), 2);
}

#[test]
fn with_capacity_starts_empty() {
    let prime = Prime::new(P61_1).unwrap();
    let s = OneWay::with_capacity(prime, 2, 100).unwrap();
    assert!(s.is_empty());
    assert!(OneWay::with_capacity(prime, 0, 100).is_none());
}

#[test]
fn reserve_changes_nothing_observable() {
    let mut s = sequence_from(&[1, 2, 3], 2);
    s.reserve(1000);
    assert_eq!(s.len(), 3);
}

#[test]
fn append_drains_and_matches_pushes() {
    let prime = Prime::new(P61_1).unwrap();
    let mut a = OneWay::new(prime, 1).unwrap();
    let mut buf = vec![3u64, 1, 4, 1, 5];
    a.append(&mut buf);
    assert!(buf.is_empty());
    assert_eq!(a.len(), 5);
    // appended contents are searchable exactly like pushed ones
    let found = a.position(&[4, 1, 5]).expect("true occurrence must be found");
    assert_eq!(found.0, 2);
}

#[test]
fn hash_of_single_value_is_the_value() {
    let s = sequence_from(&[], 4);
    // folding one reduced value from zero yields the value itself
    let h = s.hash_slice(&[123456789]);
    assert_eq!(h.len(), 4);
    for &c in h.iter() {
        assert_eq!(c, 123456789);
    }
}

#[test]
fn hash_slice_reduces_raw_values() {
    let s = sequence_from(&[], 2);
    // a raw value at or above the modulus is reduced before folding
    let h1 = s.hash_slice(&[P61_1 + 5, 7]);
    let h2 = s.hash_slice(&[5, 7]);
    assert_eq!(h1, h2);
}

#[test]
fn incremental_window_equals_direct_fold() {
    // the window ending at the sequence's end, for every length k, hashes
    // identically through the incremental path and the direct fold
    let values = [3u64, 1, 4, 1, 5, 9, 2, 6];
    let s = sequence_from(&values, 3);
    for k in 1..=values.len() {
        let mut w = s.windows(k).unwrap();
        let mut last = None;
        while let Some(h) = w.next(&s) {
            last = Some(h);
        }
        let direct = s.hash_slice(&values[values.len() - k..]);
        assert_eq!(last.expect("at least one window"), direct);
    }
}
