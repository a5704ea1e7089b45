use std::collections::HashSet;

use clipforge::catalog::{Motion, TransitionKind};
use clipforge::shuffle::{motions, transitions, Rng};
use clipforge::time::Ticks;

#[test]
fn same_seed_same_result_different_seed_different_result() {
    let idx: Vec<usize> = (0..40).collect();
    let a = transitions(&idx, Ticks::second(), 7);
    assert_eq!(a, transitions(&idx, Ticks::second(), 7));
    assert_ne!(a, transitions(&idx, Ticks::second(), 8));
    assert_eq!(motions(&idx, 3), motions(&idx, 3));
}

#[test]
fn uses_the_whole_pool_over_a_long_run() {
    let idx: Vec<usize> = (0..300).collect();
    let kinds: HashSet<_> = transitions(&idx, Ticks::second(), 1).into_iter().map(|(_, t)| t.kind).collect();
    assert_eq!(kinds.len(), TransitionKind::shuffle_pool().len());
    assert!(!kinds.contains(&TransitionKind::Cut));
    let moves: HashSet<_> = motions(&idx, 1).into_iter().map(|(_, m)| m).collect();
    assert_eq!(moves.len(), Motion::shuffle_pool().len());
    assert!(!moves.contains(&Motion::Still));
}

#[test]
fn empty_input_gives_empty_output() {
    assert!(transitions(&[], Ticks::second(), 1).is_empty());
    assert!(motions(&[], 1).is_empty());
}

#[test]
fn neighbours_never_repeat() {
    for seed in [0_u64, 1, 42, u64::MAX, 0xDEAD_BEEF] {
        for n in [0_usize, 1, 2, 17, 59] {
            let idx: Vec<usize> = (0..n).map(|i| i * 2).collect();
            let t = transitions(&idx, Ticks::from_millis(700), seed);
            assert_eq!(t.len(), n);
            assert!(t.iter().map(|(i, _)| *i).eq(idx.iter().copied()), "indices preserved in order");
            assert!(t.iter().all(|(_, tr)| tr.duration == Ticks::from_millis(700)));
            assert!(t.windows(2).all(|w| w[0].1.kind != w[1].1.kind));
            let m = motions(&idx, seed);
            assert_eq!(m.len(), n);
            assert!(m.windows(2).all(|w| w[0].1 != w[1].1));
        }
    }
}

#[test]
fn splitmix_matches_its_reference_values() {
    let mut r = Rng::new(0);
    assert_eq!(r.next_u64(), 0xE220_A839_7B1D_CDAF);
    assert_eq!(r.next_u64(), 0x6E78_9E6A_A1B9_65F4);
    let mut r = Rng::new(0);
    assert_eq!(r.below(10), (0xE220_A839_7B1D_CDAF_u64 % 10) as usize);
}
