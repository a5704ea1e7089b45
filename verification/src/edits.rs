//! The clip-level steps that commands are made of: checking index lists,
//! taking snapshots, and changing the listed clips.

use vstd::prelude::*;

use crate::command::CommandError;
use crate::project::{Caption, Clip, ClipSource};
use crate::semantics::{
    first_failing, meets, names, reason, set_each, snapshot, update_at, updated, Requirement, Update,
};
use crate::sorting::{
    check_indices, first_repeat, isort, lemma_check_indices, sort_indices, strictly_increasing,
    IndexCheck,
};

verus! {

/// What `check_indices` decides, as the result a command returns.
pub open spec fn index_check_result(r: Result<Vec<usize>, CommandError>, c: IndexCheck, len: usize) -> bool {
    match c {
        IndexCheck::Sorted(t) => r matches Ok(v) && v@ == t,
        IndexCheck::Repeated(x) => r matches Err(e) && e@ == crate::command::ErrorModel::DuplicateIndex(x),
        IndexCheck::OutOfRange(x) => r matches Err(e) && e@ == crate::command::ErrorModel::IndexOutOfRange { index: x, len },
    }
}

/// Sorts the indices and checks that none repeats and all are below `len`.
pub fn check_indices_exec(indices: &[usize], len: usize) -> (r: Result<Vec<usize>, CommandError>)
    ensures
        index_check_result(r, check_indices(indices@, len), len),
        r matches Ok(v) ==> strictly_increasing(v@) && forall|i: int| 0 <= i < v@.len() ==> v@[i] < len,
{
    proof {
        lemma_check_indices(indices@, len);
    }
    let t = sort_indices(indices);
    let mut k: usize = 0;
    while t.len() > 0 && k < t.len() - 1
        invariant
            k <= t@.len(),
            t@ == isort(indices@),
            first_repeat(t@, 0) == first_repeat(t@, k as int),
        decreases t@.len() - k,
    {
        if t[k] == t[k + 1] {
            return Err(CommandError::DuplicateIndex(t[k]));
        }
        k = k + 1;
    }
    if t.len() > 0 && t[t.len() - 1] >= len {
        return Err(CommandError::IndexOutOfRange { index: t[t.len() - 1], len });
    }
    Ok(t)
}

/// Copies of the clips at the listed indices, each with its index.
pub fn snapshot_exec(clips: &Vec<Clip>, t: &Vec<usize>) -> (r: Vec<(usize, Clip)>)
    requires
        forall|i: int| 0 <= i < t@.len() ==> t@[i] < clips@.len(),
    ensures
        r@ == snapshot(clips@, t@),
{
    let mut out: Vec<(usize, Clip)> = Vec::new();
    let mut k: usize = 0;
    while k < t.len()
        invariant
            k <= t@.len(),
            forall|i: int| 0 <= i < t@.len() ==> t@[i] < clips@.len(),
            out@ == snapshot(clips@, t@.subrange(0, k as int)),
        decreases t@.len() - k,
    {
        let i = t[k];
        out.push((i, clips[i].clone()));
        k = k + 1;
        proof {
            assert(out@ =~= snapshot(clips@, t@.subrange(0, k as int)));
        }
    }
    proof {
        assert(t@.subrange(0, t@.len() as int) =~= t@);
    }
    out
}

pub fn clone_caption(c: &Option<Caption>) -> (r: Option<Caption>)
    ensures
        r == *c,
{
    match c {
        Some(x) => Some(x.clone()),
        None => None,
    }
}

/// Applies one change to a clip.
pub fn apply_update(c: &mut Clip, u: &Update)
    ensures
        *final(c) == updated(*old(c), *u),
{
    match u {
        Update::Duration(d) => {
            match c.source {
                ClipSource::Photo { .. } => {
                    c.source = ClipSource::Photo { duration: *d };
                },
                ClipSource::Title { background, .. } => {
                    c.source = ClipSource::Title { duration: *d, background };
                },
                ClipSource::Video { .. } => {},
            }
        },
        Update::Fit(f) => {
            c.fit = *f;
        },
        Update::Rotate(r) => {
            c.rotate = *r;
        },
        Update::Transition(t) => {
            c.transition_in = *t;
        },
        Update::Muted(m) => {
            c.muted = *m;
        },
        Update::Volume(p) => {
            c.volume_percent = if *p > 300 {
                300
            } else {
                *p
            };
        },
        Update::Motion(m) => {
            c.motion = *m;
        },
        Update::Background(b) => {
            match c.source {
                ClipSource::Title { duration, .. } => {
                    c.source = ClipSource::Title { duration, background: *b };
                },
                _ => {},
            }
        },
        Update::Caption(cap) => {
            c.caption = clone_caption(cap);
        },
        Update::Replace(n) => {
            *c = n.clone();
        },
    }
}

/// Applies `u` to every listed clip.
pub fn update_at_exec(clips: &mut Vec<Clip>, t: &Vec<usize>, u: &Update)
    requires
        strictly_increasing(t@),
        forall|i: int| 0 <= i < t@.len() ==> t@[i] < old(clips)@.len(),
    ensures
        final(clips)@ == update_at(old(clips)@, t@, *u),
{
    let ghost orig = clips@;
    let n = clips.len();
    let mut k: usize = 0;
    while k < t.len()
        invariant
            k <= t@.len(),
            n == orig.len(),
            strictly_increasing(t@),
            forall|i: int| 0 <= i < t@.len() ==> t@[i] < orig.len(),
            clips@.len() == orig.len(),
            forall|i: int| 0 <= i < orig.len() ==> #[trigger] clips@[i] == (if names(t@.subrange(0, k as int), i) {
                updated(orig[i], *u)
            } else {
                orig[i]
            }),
        decreases t@.len() - k,
    {
        let i = t[k];
        proof {
            if names(t@.subrange(0, k as int), i as int) {
                let j = choose|j: int| 0 <= j < t@.subrange(0, k as int).len() && t@.subrange(0, k as int)[j] == i as int;
                assert(t@[j] < t@[k as int]);
            }
            assert(clips@[i as int] == orig[i as int]);
        }
        let mut c = clips[i].clone();
        apply_update(&mut c, u);
        clips.set(i, c);
        proof {
            assert forall|x: int| 0 <= x < orig.len() implies #[trigger] clips@[x] == (if names(t@.subrange(0, k + 1), x) {
                updated(orig[x], *u)
            } else {
                orig[x]
            }) by {
                let a = t@.subrange(0, k as int);
                let b = t@.subrange(0, k + 1);
                if x == i as int {
                    assert(b[k as int] == i);
                } else {
                    if names(b, x) {
                        let j = choose|j: int| 0 <= j < b.len() && b[j] == x;
                        assert(b[k as int] == i);
                        assert(j != k);
                        assert(a[j] == x);
                    }
                    if names(a, x) {
                        let j = choose|j: int| 0 <= j < a.len() && a[j] == x;
                        assert(b[j] == x);
                    }
                }
            }
        }
        k = k + 1;
    }
    proof {
        assert(t@.subrange(0, t@.len() as int) =~= t@);
        assert(clips@ =~= update_at(orig, t@, *u));
    }
}

/// Applies each `(index, change)` in order.
pub fn set_each_exec(clips: &mut Vec<Clip>, entries: &Vec<(usize, Update)>)
    requires
        forall|k: int| 0 <= k < entries@.len() ==> entries@[k].0 < old(clips)@.len(),
    ensures
        final(clips)@ == set_each(old(clips)@, entries@),
{
    let ghost orig = clips@;
    let mut k: usize = 0;
    while k < entries.len()
        invariant
            k <= entries@.len(),
            forall|j: int| 0 <= j < entries@.len() ==> entries@[j].0 < orig.len(),
            clips@ == set_each(orig, entries@.subrange(0, k as int)),
            clips@.len() == orig.len(),
        decreases entries@.len() - k,
    {
        let i = entries[k].0;
        let mut c = clips[i].clone();
        apply_update(&mut c, &entries[k].1);
        clips.set(i, c);
        proof {
            assert(entries@.subrange(0, k + 1).drop_last() =~= entries@.subrange(0, k as int));
        }
        k = k + 1;
    }
    proof {
        assert(entries@.subrange(0, entries@.len() as int) =~= entries@);
    }
}

/// The first listed clip that does not meet `r`.
pub fn first_failing_exec(clips: &Vec<Clip>, t: &Vec<usize>, r: Requirement) -> (f: Option<usize>)
    requires
        forall|i: int| 0 <= i < t@.len() ==> t@[i] < clips@.len(),
    ensures
        f == first_failing(clips@, t@, r, 0),
{
    let mut k: usize = 0;
    while k < t.len()
        invariant
            k <= t@.len(),
            forall|i: int| 0 <= i < t@.len() ==> t@[i] < clips@.len(),
            first_failing(clips@, t@, r, 0) == first_failing(clips@, t@, r, k as int),
        decreases t@.len() - k,
    {
        let c = &clips[t[k]];
        let ok = match r {
            Requirement::Still => !c.is_video(),
            Requirement::Photo => c.is_photo(),
            Requirement::Title => c.is_title(),
        };
        if !ok {
            return Some(t[k]);
        }
        k = k + 1;
    }
    None
}

/// The message for a requirement that a clip does not meet.
pub fn reason_text(r: Requirement) -> (s: &'static str)
    ensures
        s@ == reason(r),
{
    match r {
        Requirement::Still => "not a photo or title",
        Requirement::Photo => "not a photo",
        Requirement::Title => "not a title card",
    }
}

} // verus!
