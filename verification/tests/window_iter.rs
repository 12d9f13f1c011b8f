//! The window-hash iterator: both directions, their agreement, and the
//! boundary behaviour.

use rolling_hash::{OneWay, Prime, P58_63};

fn sequence_from(values: &[u64], base_count: usize) -> OneWay {
    let prime = Prime::new(P58_63).unwrap();
    let mut s = OneWay::new(prime, base_count).unwrap();
    for &v in values.iter() {
        s.push(v);
    }
    s
}

#[test]
fn zero_window_length_is_rejected() {
    let s = sequence_from(&[1, 2, 3], 1);
    assert!(s.windows(0).is_none());
}

#[test]
fn remaining_counts_windows_exactly() {
    let s = sequence_from(&[10, 20, 30, 40, 50], 2);
    let w = s.windows(2).unwrap();
    assert_eq!(w.remaining(&s), 4);
    let w = s.windows(5).unwrap();
    assert_eq!(w.remaining(&s), 1);
    let w = s.windows(6).unwrap();
    assert_eq!(w.remaining(&s), 0);
}

#[test]
fn oversized_window_yields_nothing() {
    let s = sequence_from(&[10, 20, 30], 3);
    let mut w = s.windows(4).unwrap();
    assert!(w.next(&s).is_none());
    assert!(w.next_back(&s).is_none());
}

#[test]
fn forward_windows_match_direct_folds() {
    let values = [3u64, 1, 4, 1, 5, 9, 2, 6];
    let s = sequence_from(&values, 3);
    let k = 3;
    let mut w = s.windows(k).unwrap();
    for start in 0..=values.len() - k {
        let h = w.next(&s).expect("window expected");
        assert_eq!(h, s.hash_slice(&values[start..start + k]));
    }
    assert!(w.next(&s).is_none());
}

#[test]
fn forward_and_backward_passes_agree_in_reverse_order() {
    let values = [3u64, 1, 4, 1, 5, 9, 2, 6, 5, 3];
    let s = sequence_from(&values, 2);
    for k in 1..=values.len() {
        let mut fwd = Vec::new();
        let mut w = s.windows(k).unwrap();
        while let Some(h) = w.next(&s) {
            fwd.push(h);
        }
        let mut bwd = Vec::new();
        let mut w = s.windows(k).unwrap();
        while let Some(h) = w.next_back(&s) {
            bwd.push(h);
        }
        bwd.reverse();
        assert_eq!(fwd, bwd);
    }
}

#[test]
fn interleaved_passes_meet_in_the_middle() {
    let values = [7u64, 11, 13, 17, 19, 23, 29];
    let s = sequence_from(&values, 2);
    let k = 2;
    let total = values.len() - k + 1;
    let mut w = s.windows(k).unwrap();
    let mut front = 0;
    let mut back = total;
    let mut take_front = true;
    loop {
        if take_front {
            match w.next(&s) {
                Some(h) => {
                    assert_eq!(h, s.hash_slice(&values[front..front + k]));
                    front += 1;
                }
                None => break,
            }
        } else {
            match w.next_back(&s) {
                Some(h) => {
                    back -= 1;
                    assert_eq!(h, s.hash_slice(&values[back..back + k]));
                }
                None => break,
            }
        }
        take_front = !take_front;
    }
    assert_eq!(front, back);
    assert!(w.next(&s).is_none());
    assert!(w.next_back(&s).is_none());
}

#[test]
fn backward_boundary_window_is_the_prefix_hash() {
    // the last backward step yields the window starting at zero, whose
    // hash is the plain prefix hash of the first k values
    let values = [5u64, 6, 7, 8];
    let s = sequence_from(&values, 1);
    let k = 3;
    let mut w = s.windows(k).unwrap();
    let mut last = None;
    while let Some(h) = w.next_back(&s) {
        last = Some(h);
    }
    assert_eq!(last.unwrap(), s.hash_slice(&values[0..k]));
}
