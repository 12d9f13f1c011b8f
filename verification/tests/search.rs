//! The search operations, exercised on concrete end-to-end scenarios.

use rolling_hash::{OneWay, Prime, P61_1};

fn sequence_from(values: &[u64], base_count: usize) -> OneWay {
    let prime = Prime::new(P61_1).unwrap();
    let mut s = OneWay::new(prime, base_count).unwrap();
    for &v in values.iter() {
        s.push(v);
    }
    s
}

#[test]
fn pair_needle_found_once() {
    // prime 2^61 - 1, one base, the digit sequence; the needle [1, 5]
    // occurs exactly once, starting at index 3
    let s = sequence_from(&[3, 1, 4, 1, 5, 9, 2, 6], 1);
    let needle = [1u64, 5];
    assert_eq!(s.position(&needle).expect("must be found").0, 3);
    let all = s.positions(&needle);
    assert_eq!(all.len(), 1);
    assert_eq!(all[0].0, 3);
    assert_eq!(s.count(&needle).0, 1);
}

#[test]
fn single_needle_found_at_both_indices() {
    // the needle [1] occurs at indices 1 and 3
    let s = sequence_from(&[3, 1, 4, 1, 5, 9, 2, 6], 1);
    let needle = [1u64];
    let all = s.positions(&needle);
    assert_eq!(all.len(), 2);
    assert_eq!(all[0].0, 1);
    assert_eq!(all[1].0, 3);
    assert_eq!(s.rposition(&needle).expect("must be found").0, 3);
    assert_eq!(s.count(&needle).0, 2);
}

#[test]
fn overlapping_needle_in_appended_run() {
    // appending [7, 7, 7] and searching [7, 7] with two bases matches at
    // both start offsets, and every base's component agrees at each match
    let prime = Prime::new(P61_1).unwrap();
    let mut s = OneWay::new(prime, 2).unwrap();
    let mut buf = vec![7u64, 7, 7];
    s.append(&mut buf);
    let needle = [7u64, 7];
    let all = s.positions(&needle);
    assert_eq!(all.len(), 2);
    assert_eq!(all[0].0, 0);
    assert_eq!(all[1].0, 1);
    assert_eq!(s.count(&needle).0, 2);
    // componentwise agreement of the window hash with the needle's hash
    let target = s.hash_slice(&needle);
    let mut w = s.windows(2).unwrap();
    while let Some(h) = w.next(&s) {
        assert_eq!(h.len(), 2);
        assert_eq!(h, target);
    }
}

#[test]
fn true_occurrences_are_never_missed() {
    let values = [9u64, 8, 7, 9, 8, 7, 9, 8];
    let s = sequence_from(&values, 4);
    for start in 0..values.len() {
        for end in start + 1..=values.len() {
            let needle = &values[start..end];
            let found = s.positions(needle);
            assert!(
                found.iter().any(|m| m.0 == start),
                "occurrence at {} of {:?} missed",
                start,
                needle
            );
            assert!(s.count(needle).0 >= 1);
            assert!(s.position(needle).is_some());
            assert!(s.rposition(needle).is_some());
        }
    }
}

#[test]
fn absent_needle_reports_nothing() {
    let s = sequence_from(&[1, 2, 3, 4, 5], 3);
    let needle = [6u64, 7];
    assert!(s.position(&needle).is_none());
    assert!(s.rposition(&needle).is_none());
    assert!(s.positions(&needle).is_empty());
    assert_eq!(s.count(&needle).0, 0);
}

#[test]
fn needle_longer_than_haystack_reports_nothing() {
    let s = sequence_from(&[1, 2, 3], 2);
    let needle = [1u64, 2, 3, 4];
    assert!(s.position(&needle).is_none());
    assert!(s.rposition(&needle).is_none());
    assert!(s.positions(&needle).is_empty());
    assert_eq!(s.count(&needle).0, 0);
}

#[test]
fn search_on_empty_sequence_reports_nothing() {
    let s = sequence_from(&[], 1);
    let needle = [1u64];
    assert!(s.position(&needle).is_none());
    assert_eq!(s.count(&needle).0, 0);
}

#[test]
fn position_returns_first_rposition_last() {
    let s = sequence_from(&[5, 0, 5, 0, 5], 2);
    let needle = [5u64];
    assert_eq!(s.position(&needle).unwrap().0, 0);
    assert_eq!(s.rposition(&needle).unwrap().0, 4);
    let all = s.positions(&needle);
    let indices: Vec<usize> = all.iter().map(|m| m.0).collect();
    assert_eq!(indices, vec![0, 2, 4]);
}
