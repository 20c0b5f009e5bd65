use cobalt::config::Timing;
use cobalt::shuffle::{shuffled_indices, ShuffleIterExt, ShuffleIterator};

#[test]
fn shuffled_indices_is_a_permutation() {
    for n in [0usize, 1, 2, 10, 100] {
        let mut v = shuffled_indices(n);
        v.sort();
        assert_eq!(v, (0..n).collect::<Vec<_>>());
    }
}

#[test]
fn shuffle_iterator_hands_out_every_item() {
    let mut it = ShuffleIterator::new(vec![1, 2, 3, 4]);
    let mut out = Vec::new();
    while let Some(x) = it.next() {
        out.push(x);
    }
    out.sort();
    assert_eq!(out, vec![1, 2, 3, 4]);
    let mut it2 = vec!["a", "b"].shuffle();
    let mut out2 = vec![it2.next().unwrap(), it2.next().unwrap()];
    assert!(it2.next().is_none());
    out2.sort();
    assert_eq!(out2, vec!["a", "b"]);
}

#[test]
fn jittered_interval_stays_in_range() {
    let t = Timing { interval: 120, jitter: 10, check_timeout: 30 };
    for _ in 0..200 {
        let s = t.jittered_interval();
        assert!((110..130).contains(&s));
    }
    let fixed = Timing { interval: 60, jitter: 0, check_timeout: 30 };
    assert_eq!(fixed.jittered_interval(), 60);
}

#[test]
fn interval_offset_never_below_zero() {
    let t = Timing { interval: 5, jitter: 10, check_timeout: 30 };
    assert_eq!(t.interval_with_offset(-10), 0);
    assert_eq!(t.interval_with_offset(3), 8);
    assert_eq!(t.interval_with_offset(-5), 0);
}

#[test]
fn shuffle_changes_order() {
    let identity: Vec<usize> = (0..100).collect();
    let moved = (0..5).any(|_| shuffled_indices(100) != identity);
    assert!(moved);
}

#[test]
fn jitter_varies() {
    let t = Timing { interval: 120, jitter: 10, check_timeout: 30 };
    let first = t.jittered_interval();
    let varied = (0..200).any(|_| t.jittered_interval() != first);
    assert!(varied);
}
