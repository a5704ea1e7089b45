//! Seeded shuffles for bulk "surprise me" edits.
//!
//! The results are concrete per-clip values that go into
//! `Command::SetTransitionEach` / `SetMotionEach`, so undo and redo replay
//! exactly what the user saw. The seed comes from the caller (the app uses
//! the clock), which keeps this module pure and testable.

use vstd::prelude::*;

use crate::catalog::{motion_index, transition_index, Motion, TransitionKind};
use crate::project::Transition;
use crate::time::Ticks;

verus! {

/// SplitMix64: tiny, fast, good enough for picking list items.
#[derive(Clone, Debug)]
pub struct Rng(u64);

impl View for Rng {
    type V = u64;

    closed spec fn view(&self) -> u64 {
        self.0
    }
}

/// The generator's step: the state advances by the golden-ratio constant.
pub open spec fn advance(s: u64) -> u64 {
    s.wrapping_add(0x9E37_79B9_7F4A_7C15)
}

/// SplitMix64's output function.
pub open spec fn mix(z: u64) -> u64 {
    let z = (z ^ (z >> 30u64)).wrapping_mul(0xBF58_476D_1CE4_E5B9);
    let z = (z ^ (z >> 27u64)).wrapping_mul(0x94D0_49BB_1331_11EB);
    z ^ (z >> 31u64)
}

impl Rng {
    pub fn new(seed: u64) -> (r: Rng)
        ensures
            r@ == seed,
    {
        Rng(seed)
    }

    pub fn next_u64(&mut self) -> (v: u64)
        ensures
            final(self)@ == advance(old(self)@),
            v == mix(advance(old(self)@)),
    {
        self.0 = self.0.wrapping_add(0x9E37_79B9_7F4A_7C15);
        let mut z = self.0;
        z = (z ^ (z >> 30u64)).wrapping_mul(0xBF58_476D_1CE4_E5B9);
        z = (z ^ (z >> 27u64)).wrapping_mul(0x94D0_49BB_1331_11EB);
        z ^ (z >> 31u64)
    }

    /// Uniform index in `0..n` (n > 0).
    pub fn below(&mut self, n: usize) -> (v: usize)
        requires
            n > 0,
        ensures
            final(self)@ == advance(old(self)@),
            v == mix(advance(old(self)@)) % (n as u64),
            v < n,
    {
        // Modulo bias is irrelevant for lists of a dozen items.
        (self.next_u64() % n as u64) as usize
    }
}

/// How often a draw that repeats the previous pick is drawn again. The
/// generator's outputs over 2^64 steps are all different, so a pool of two
/// or more never needs that many; past it, the next pool entry is taken.
pub open spec fn retry_cap() -> u64 {
    u64::MAX
}

/// Redraws while `v` repeats `last` (pools of two or more): the state and
/// the pick.
pub open spec fn redraw(s: u64, v: usize, n: usize, last: Option<usize>, tries: u64) -> (u64, usize)
    decreases retry_cap() - tries,
{
    if n > 1 && last == Some(v) {
        if tries < retry_cap() {
            redraw(advance(s), (mix(advance(s)) % (n as u64)) as usize, n, last, (tries + 1) as u64)
        } else {
            (s, if v + 1 < n { (v + 1) as usize } else { 0usize })
        }
    } else {
        (s, v)
    }
}

/// One pick: a draw, redrawn while it repeats `last`.
pub open spec fn draw(s: u64, n: usize, last: Option<usize>) -> (u64, usize) {
    redraw(advance(s), (mix(advance(s)) % (n as u64)) as usize, n, last, 0)
}

/// `count` picks from a pool of `n` entries, each differing from the one
/// before (and the first from `last`): the state afterwards and the picks.
pub open spec fn pick_run_spec(s: u64, n: usize, count: nat, last: Option<usize>) -> (u64, Seq<usize>)
    decreases count,
{
    if count == 0 {
        (s, Seq::empty())
    } else {
        let (s1, v) = draw(s, n, last);
        let (s2, rest) = pick_run_spec(s1, n, (count - 1) as nat, Some(v));
        (s2, seq![v] + rest)
    }
}

proof fn lemma_redraw(s: u64, v: usize, n: usize, last: Option<usize>, tries: u64)
    requires
        v < n,
    ensures
        redraw(s, v, n, last, tries).1 < n,
        n > 1 ==> Some(redraw(s, v, n, last, tries).1) != last,
    decreases retry_cap() - tries,
{
    if n > 1 && last == Some(v) && tries < retry_cap() {
        lemma_redraw(advance(s), (mix(advance(s)) % (n as u64)) as usize, n, last, (tries + 1) as u64);
    }
}

/// Consecutive picks of a run never repeat (with two or more to pick
/// from), and every pick is in the pool.
pub proof fn law_neighbours_never_repeat(s: u64, n: usize, count: nat, last: Option<usize>)
    requires
        n > 0,
    ensures
        pick_run_spec(s, n, count, last).1.len() == count,
        forall|k: int| 0 <= k < count ==> #[trigger] pick_run_spec(s, n, count, last).1[k] < n,
        n > 1 ==> forall|k: int| 0 <= k < count - 1 ==> #[trigger] pick_run_spec(s, n, count, last).1[k] != pick_run_spec(s, n, count, last).1[k + 1],
        n > 1 && count > 0 ==> Some(pick_run_spec(s, n, count, last).1[0]) != last,
    decreases count,
{
    if count > 0 {
        let (s1, v) = draw(s, n, last);
        lemma_redraw(advance(s), (mix(advance(s)) % (n as u64)) as usize, n, last, 0);
        law_neighbours_never_repeat(s1, n, (count - 1) as nat, Some(v));
        let r = pick_run_spec(s, n, count, last).1;
        let rest = pick_run_spec(s1, n, (count - 1) as nat, Some(v)).1;
        assert(r == seq![v] + rest);
        assert forall|k: int| 0 <= k < count implies #[trigger] r[k] < n by {
            if k > 0 {
                assert(r[k] == rest[k - 1]);
            }
        }
        if n > 1 {
            assert forall|k: int| 0 <= k < count - 1 implies #[trigger] r[k] != r[k + 1] by {
                if k > 0 {
                    assert(r[k] == rest[k - 1] && r[k + 1] == rest[k]);
                } else {
                    assert(r[1] == rest[0]);
                }
            }
        }
    }
}

/// Picks `count` pool positions, no two consecutive ones equal (when the
/// pool has more than one entry).
fn pick_run(n: usize, count: usize, previous: Option<usize>, rng: &mut Rng) -> (v: Vec<usize>)
    requires
        n > 0,
    ensures
        (final(rng)@, v@) == pick_run_spec(old(rng)@, n, count as nat, previous),
{
    let mut out: Vec<usize> = Vec::new();
    let mut last = previous;
    let mut k: usize = 0;
    while k < count
        invariant
            k <= count,
            n > 0,
            pick_run_spec(old(rng)@, n, count as nat, previous) == ({
                let (s2, rest) = pick_run_spec(rng@, n, (count - k) as nat, last);
                (s2, out@ + rest)
            }),
        decreases count - k,
    {
        let ghost s0 = rng@;
        let mut v = rng.below(n);
        let mut tries: u64 = 0;
        if n > 1 {
            while last == Some(v) && tries < u64::MAX
                invariant
                    n > 1,
                    v < n,
                    redraw(rng@, v, n, last, tries) == draw(s0, n, last),
                decreases u64::MAX - tries,
            {
                v = rng.below(n);
                tries = tries + 1;
            }
            if last == Some(v) {
                v = if v + 1 < n { v + 1 } else { 0 };
            }
        }
        proof {
            let (s1, w) = draw(s0, n, last);
            assert(rng@ == s1 && v == w);
            let (s2, rest) = pick_run_spec(s1, n, (count - k - 1) as nat, Some(v));
            assert(pick_run_spec(s0, n, (count - k) as nat, last) == (s2, seq![v] + rest));
            assert(out@.push(v) + rest =~= out@ + (seq![v] + rest));
        }
        out.push(v);
        last = Some(v);
        k = k + 1;
    }
    proof {
        assert(out@ + Seq::<usize>::empty() =~= out@);
    }
    out
}

/// A varied transition for each index, all with `duration`. Consecutive
/// indices never get the same kind.
#[verifier::spinoff_prover]
pub fn transitions(indices: &[usize], duration: Ticks, seed: u64) -> (v: Vec<(usize, Transition)>)
    ensures
        v@.len() == indices@.len(),
        forall|k: int| 0 <= k < v@.len() ==> (#[trigger] v@[k]).0 == indices@[k] && v@[k].1.duration == duration
            && transition_index(v@[k].1.kind) == pick_run_spec(seed, 12, indices@.len(), None).1[k] + 1,
        forall|k: int| 0 <= k < v@.len() ==> (#[trigger] v@[k]).1.kind != TransitionKind::Cut,
        forall|k: int| 0 <= k < v@.len() - 1 ==> (#[trigger] v@[k]).1.kind != v@[k + 1].1.kind,
{
    let mut rng = Rng::new(seed);
    let pool = TransitionKind::shuffle_pool();
    let picks = pick_run(pool.len(), indices.len(), None, &mut rng);
    let ghost ps = pick_run_spec(seed, 12, indices@.len(), None).1;
    proof {
        law_neighbours_never_repeat(seed, 12, indices@.len(), None);
        assert(picks@ == ps);
        assert(forall|j: int| 0 <= j < ps.len() - 1 ==> #[trigger] ps[j] != ps[j + 1]);
    }
    let mut out: Vec<(usize, Transition)> = Vec::new();
    let mut k: usize = 0;
    while k < indices.len()
        invariant
            k <= indices@.len(),
            picks@ == ps,
            picks@.len() == indices@.len(),
            forall|j: int| 0 <= j < picks@.len() ==> #[trigger] picks@[j] < 12,
            pool@.len() == 12,
            forall|i: int| 0 <= i < pool@.len() ==> transition_index(#[trigger] pool@[i]) == i + 1,
            out@.len() == k,
            forall|j: int| 0 <= j < k ==> (#[trigger] out@[j]).0 == indices@[j] && out@[j].1.duration == duration
                && transition_index(out@[j].1.kind) == picks@[j] + 1,
            forall|j: int| 0 <= j < k ==> (#[trigger] out@[j]).1.kind != TransitionKind::Cut,
        decreases indices@.len() - k,
    {
        let kind = pool[picks[k]];
        out.push((indices[k], Transition { kind, duration }));
        k = k + 1;
    }
    proof {
        assert forall|j: int| 0 <= j < out@.len() - 1 implies (#[trigger] out@[j]).1.kind != out@[j + 1].1.kind by {
            assert(picks@[j] != picks@[j + 1]);
        }
    }
    out
}

/// A varied movement for each index. Consecutive indices never get the
/// same preset.
pub fn motions(indices: &[usize], seed: u64) -> (v: Vec<(usize, Motion)>)
    ensures
        v@.len() == indices@.len(),
        forall|k: int| 0 <= k < v@.len() ==> (#[trigger] v@[k]).0 == indices@[k]
            && motion_index(v@[k].1) == pick_run_spec(seed ^ 0xA5A5_A5A5_A5A5_A5A5, 6, indices@.len(), None).1[k] + 1,
        forall|k: int| 0 <= k < v@.len() - 1 ==> (#[trigger] v@[k]).1 != v@[k + 1].1,
{
    let mut rng = Rng::new(seed ^ 0xA5A5_A5A5_A5A5_A5A5);
    let pool = Motion::shuffle_pool();
    let picks = pick_run(pool.len(), indices.len(), None, &mut rng);
    let ghost ps = pick_run_spec(seed ^ 0xA5A5_A5A5_A5A5_A5A5, 6, indices@.len(), None).1;
    proof {
        law_neighbours_never_repeat(seed ^ 0xA5A5_A5A5_A5A5_A5A5, 6, indices@.len(), None);
        assert(picks@ == ps);
        assert(forall|j: int| 0 <= j < ps.len() - 1 ==> #[trigger] ps[j] != ps[j + 1]);
    }
    let mut out: Vec<(usize, Motion)> = Vec::new();
    let mut k: usize = 0;
    while k < indices.len()
        invariant
            k <= indices@.len(),
            picks@ == ps,
            picks@.len() == indices@.len(),
            forall|j: int| 0 <= j < picks@.len() ==> #[trigger] picks@[j] < 6,
            pool@.len() == 6,
            forall|i: int| 0 <= i < pool@.len() ==> motion_index(#[trigger] pool@[i]) == i + 1,
            out@.len() == k,
            forall|j: int| 0 <= j < k ==> (#[trigger] out@[j]).0 == indices@[j] && motion_index(out@[j].1) == picks@[j] + 1,
        decreases indices@.len() - k,
    {
        let m = pool[picks[k]];
        out.push((indices[k], m));
        k = k + 1;
    }
    proof {
        assert forall|j: int| 0 <= j < out@.len() - 1 implies (#[trigger] out@[j]).1 != out@[j + 1].1 by {
            assert(picks@[j] != picks@[j + 1]);
        }
    }
    out
}

} // verus!
