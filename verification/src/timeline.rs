//! Timeline maths: where clips sit in time, what plays at a given instant.

use vstd::prelude::*;

use crate::project::{duration_defined, spec_duration, spec_overlap, Clip, ClipSource, Project};
use crate::time::{fits_i64, trunc_div, Ticks};

verus! {

/// Placement of a clip on the timeline.
#[derive(Copy, Clone, Debug, PartialEq, Eq, Structural)]
pub struct Placement {
    pub index: usize,
    pub start: Ticks,
    pub end: Ticks,
}

impl Placement {
    pub fn duration(self) -> (d: Ticks)
        requires
            fits_i64(self.end.0 - self.start.0),
        ensures
            d.0 == self.end.0 - self.start.0,
    {
        self.end.minus(self.start)
    }

    pub fn contains(self, t: Ticks) -> (b: bool)
        ensures
            b == (self.start.0 <= t.0 && t.0 < self.end.0),
    {
        t.0 >= self.start.0 && t.0 < self.end.0
    }
}

pub open spec fn min_int(a: int, b: int) -> int {
    if a <= b {
        a
    } else {
        b
    }
}

pub open spec fn max_int(a: int, b: int) -> int {
    if a >= b {
        a
    } else {
        b
    }
}

/// Effective overlap of clip `i` with its predecessor: its transition,
/// never more than half of either neighbour, so transitions cannot swallow
/// a clip.
pub open spec fn overlap_at(clips: Seq<Clip>, i: int) -> int {
    if i <= 0 {
        0
    } else {
        let wanted = spec_overlap(clips[i].transition_in);
        let cap = min_int(trunc_div(spec_duration(clips[i - 1]), 2), trunc_div(spec_duration(clips[i]), 2));
        max_int(min_int(wanted, cap), 0)
    }
}

/// Where the clips before `k` end: clip `k` starts here, pulled back by
/// its overlap.
pub open spec fn cursor(clips: Seq<Clip>, k: int) -> int
    decreases k, 0int,
{
    if k <= 0 {
        0
    } else {
        start_of(clips, k - 1) + spec_duration(clips[k - 1])
    }
}

pub open spec fn start_of(clips: Seq<Clip>, k: int) -> int
    decreases k, 1int,
{
    if k < 0 {
        0
    } else {
        cursor(clips, k) - overlap_at(clips, k)
    }
}

pub open spec fn end_of(clips: Seq<Clip>, k: int) -> int {
    start_of(clips, k) + spec_duration(clips[k])
}

/// Every clip's duration can be computed and every start and end fits
/// the time type.
pub open spec fn timeline_in_range(clips: Seq<Clip>) -> bool {
    &&& forall|k: int| 0 <= k < clips.len() ==> duration_defined(#[trigger] clips[k])
    &&& forall|k: int| 0 <= k < clips.len() ==> fits_i64(#[trigger] start_of(clips, k)) && fits_i64(end_of(clips, k))
}

pub open spec fn placement_at(clips: Seq<Clip>, k: int) -> Placement {
    Placement { index: k as usize, start: Ticks(start_of(clips, k) as i64), end: Ticks(end_of(clips, k) as i64) }
}

/// Effective overlap of clip `i` with its predecessor (see `overlap_at`).
pub fn effective_overlap(clips: &[Clip], i: usize) -> (o: Ticks)
    requires
        i < clips@.len(),
        duration_defined(clips@[i as int]),
        i > 0 ==> duration_defined(clips@[i - 1]),
    ensures
        o.0 == overlap_at(clips@, i as int),
{
    if i == 0 {
        return Ticks(0);
    }
    let wanted = clips[i].transition_in.overlap();
    let a = clips[i - 1].duration().div_by(2);
    let b = clips[i].duration().div_by(2);
    let cap = a.min(b);
    wanted.min(cap).max(Ticks(0))
}

/// How long the first clip's transition plays in from black (or white) at
/// the very start of the show: its own transition, capped at half the clip
/// like any other overlap.
pub fn opening_overlap(clips: &[Clip]) -> (o: Ticks)
    requires
        clips@.len() > 0 ==> duration_defined(clips@[0]),
    ensures
        o.0 == (if clips@.len() == 0 {
            0
        } else {
            max_int(min_int(spec_overlap(clips@[0].transition_in), trunc_div(spec_duration(clips@[0]), 2)), 0)
        }),
{
    if clips.len() == 0 {
        Ticks(0)
    } else {
        let c = &clips[0];
        c.transition_in.overlap().min(c.duration().div_by(2)).max(Ticks(0))
    }
}

/// Whether every clip's duration and every start and end fit the time
/// type, so that the timeline can be laid out.
pub fn timeline_fits(clips: &[Clip]) -> (b: bool)
    ensures
        b == timeline_in_range(clips@),
{
    let mut cursor_t: i128 = 0;
    let mut i: usize = 0;
    while i < clips.len()
        invariant
            i <= clips@.len(),
            cursor_t == cursor(clips@, i as int),
            fits_i64(cursor_t as int),
            forall|k: int| 0 <= k < i ==> duration_defined(#[trigger] clips@[k]),
            forall|k: int| 0 <= k < i ==> fits_i64(#[trigger] start_of(clips@, k)) && fits_i64(end_of(clips@, k)),
        decreases clips@.len() - i,
    {
        let c = &clips[i];
        match c.source {
            ClipSource::Video { in_point, out_point } => {
                let d = out_point.0 as i128 - in_point.0 as i128;
                if d < i64::MIN as i128 || d > i64::MAX as i128 {
                    proof {
                        assert(!duration_defined(clips@[i as int]));
                    }
                    return false;
                }
            },
            _ => {},
        }
        proof {
            assert(duration_defined(clips@[i as int]));
            if i > 0 {
                assert(duration_defined(clips@[i - 1]));
            }
        }
        let overlap = effective_overlap(clips, i);
        let start: i128 = cursor_t - overlap.0 as i128;
        let end: i128 = start + c.duration().0 as i128;
        proof {
            assert(start == start_of(clips@, i as int));
            assert(end == end_of(clips@, i as int));
        }
        if start < i64::MIN as i128 || start > i64::MAX as i128 || end < i64::MIN as i128 || end > i64::MAX as i128 {
            return false;
        }
        cursor_t = end;
        i = i + 1;
    }
    true
}

/// Start/end of every clip, accounting for transition overlap.
pub fn placements(clips: &[Clip]) -> (v: Vec<Placement>)
    requires
        timeline_in_range(clips@),
    ensures
        v@.len() == clips@.len(),
        forall|k: int| 0 <= k < clips@.len() ==> #[trigger] v@[k] == placement_at(clips@, k),
{
    let mut out: Vec<Placement> = Vec::new();
    let mut cursor_t = Ticks(0);
    let mut i: usize = 0;
    while i < clips.len()
        invariant
            i <= clips@.len(),
            timeline_in_range(clips@),
            out@.len() == i,
            cursor_t.0 == cursor(clips@, i as int),
            forall|k: int| 0 <= k < i ==> #[trigger] out@[k] == placement_at(clips@, k),
        decreases clips@.len() - i,
    {
        proof {
            assert(duration_defined(clips@[i as int]));
            if i > 0 {
                assert(duration_defined(clips@[i - 1]));
            }
            assert(fits_i64(start_of(clips@, i as int)) && fits_i64(end_of(clips@, i as int)));
        }
        let start = cursor_t.minus(effective_overlap(clips, i));
        let end = start.plus(clips[i].duration());
        out.push(Placement { index: i, start, end });
        cursor_t = end;
        i = i + 1;
    }
    out
}

/// Total length of the sequence: where the last clip ends.
pub open spec fn total_length(clips: Seq<Clip>) -> int {
    if clips.len() == 0 {
        0
    } else {
        end_of(clips, clips.len() - 1)
    }
}

pub fn total_duration(clips: &[Clip]) -> (d: Ticks)
    requires
        timeline_in_range(clips@),
    ensures
        d.0 == total_length(clips@),
{
    let p = placements(clips);
    if p.len() == 0 {
        Ticks(0)
    } else {
        p[p.len() - 1].end
    }
}

/// Convenience for [`placements`] on a project.
pub fn project_placements(project: &Project) -> (v: Vec<Placement>)
    requires
        timeline_in_range(project.clips@),
    ensures
        v@.len() == project.clips@.len(),
        forall|k: int| 0 <= k < project.clips@.len() ==> #[trigger] v@[k] == placement_at(project.clips@, k),
{
    placements(project.clips.as_slice())
}

/// What is visible at an instant: the clip that owns it and the time
/// within it, and during a transition the outgoing clip with its local
/// time and the transition's progress as elapsed over length.
#[derive(Copy, Clone, Debug, PartialEq, Eq)]
pub struct FrameAt {
    /// Incoming / current clip and the time within it.
    pub current: (usize, Ticks),
    /// Outgoing clip (index, local time) while a transition is active.
    pub outgoing: Option<(usize, Ticks)>,
    /// Transition progress as `(elapsed, length)`; `(1, 1)` when no
    /// transition is active or it has no length.
    pub progress: (Ticks, Ticks),
}

/// The last clip, below `k`, that starts at or before `t`.
pub open spec fn last_started(clips: Seq<Clip>, t: int, k: int) -> int
    decreases k,
{
    if k <= 0 {
        -1
    } else if start_of(clips, k - 1) <= t {
        k - 1
    } else {
        last_started(clips, t, k - 1)
    }
}

/// What `frame_at` gives for `t`.
pub open spec fn frame_at_spec(clips: Seq<Clip>, t: int) -> Option<FrameAt> {
    let n = clips.len() as int;
    if n == 0 || t < 0 || t >= end_of(clips, n - 1) {
        None
    } else {
        let idx = last_started(clips, t, n);
        let current = (idx as usize, Ticks((t - start_of(clips, idx)) as i64));
        if idx > 0 && t < end_of(clips, idx - 1) {
            let overlap = end_of(clips, idx - 1) - start_of(clips, idx);
            Some(FrameAt {
                current,
                outgoing: Some(((idx - 1) as usize, Ticks((t - start_of(clips, idx - 1)) as i64))),
                progress: if overlap > 0 {
                    (Ticks((t - start_of(clips, idx)) as i64), Ticks(overlap as i64))
                } else {
                    (Ticks(1), Ticks(1))
                },
            })
        } else {
            Some(FrameAt { current, outgoing: None, progress: (Ticks(1), Ticks(1)) })
        }
    }
}

/// With no negative durations, every clip starts no earlier than the one
/// before it, and no earlier than zero.
proof fn lemma_starts(clips: Seq<Clip>, k: int)
    requires
        0 <= k < clips.len(),
        forall|j: int| 0 <= j < clips.len() ==> spec_duration(#[trigger] clips[j]) >= 0,
    ensures
        forall|j: int| 0 <= j <= k ==> 0 <= #[trigger] start_of(clips, j) <= start_of(clips, k),
        forall|j: int| 0 < j <= k ==> #[trigger] start_of(clips, j) <= end_of(clips, j - 1),
    decreases k,
{
    if k > 0 {
        lemma_starts(clips, k - 1);
        assert(spec_duration(clips[k - 1]) >= 0);
        assert(spec_duration(clips[k]) >= 0);
        assert(overlap_at(clips, k) <= spec_duration(clips[k - 1]));
        assert(overlap_at(clips, k) >= 0);
    }
}

proof fn lemma_last_started(clips: Seq<Clip>, t: int, k: int)
    requires
        0 < k <= clips.len(),
        start_of(clips, 0) <= t,
    ensures
        0 <= last_started(clips, t, k) < k,
        start_of(clips, last_started(clips, t, k)) <= t,
        forall|j: int| last_started(clips, t, k) < j < k ==> #[trigger] start_of(clips, j) > t,
    decreases k,
{
    if k > 1 && start_of(clips, k - 1) > t {
        lemma_last_started(clips, t, k - 1);
    }
}

/// The clip that `frame_at_spec` names is one of the clips.
pub proof fn lemma_frame_at_index(clips: Seq<Clip>, t: int)
    ensures
        frame_at_spec(clips, t) matches Some(at) ==> at.current.0 < clips.len(),
{
    let n = clips.len() as int;
    if n > 0 && t >= 0 {
        lemma_last_started(clips, t, n);
    }
}

/// Whether the times `frame_at` computes for `t` fit the time type: the
/// time within the current clip and, during a transition, within the
/// outgoing clip and the transition's length.
pub open spec fn frame_at_fits(clips: Seq<Clip>, t: int) -> bool {
    let n = clips.len() as int;
    (n > 0 && 0 <= t < end_of(clips, n - 1)) ==> {
        let idx = last_started(clips, t, n);
        &&& fits_i64(t - start_of(clips, idx))
        &&& (idx > 0 && t < end_of(clips, idx - 1)) ==> fits_i64(t - start_of(clips, idx - 1)) && fits_i64(
            end_of(clips, idx - 1) - start_of(clips, idx),
        )
    }
}

/// With no negative durations every time `frame_at` computes fits.
pub proof fn lemma_frame_at_fits(clips: Seq<Clip>, t: int)
    requires
        timeline_in_range(clips),
        forall|k: int| 0 <= k < clips.len() ==> spec_duration(#[trigger] clips[k]) >= 0,
        fits_i64(t),
    ensures
        frame_at_fits(clips, t),
{
    let n = clips.len() as int;
    if n > 0 && 0 <= t < end_of(clips, n - 1) {
        assert(start_of(clips, 0) == 0);
        lemma_last_started(clips, t, n);
        lemma_starts(clips, n - 1);
        let idx = last_started(clips, t, n);
        assert(0 <= start_of(clips, idx));
        if idx > 0 {
            assert(0 <= start_of(clips, idx - 1));
            assert(start_of(clips, idx) <= end_of(clips, idx - 1));
            assert(fits_i64(end_of(clips, idx - 1)));
        }
    }
}

/// Resolves the timeline time `t`. Returns `None` for an empty sequence,
/// a negative `t` or `t` beyond the end.
pub fn frame_at(clips: &[Clip], t: Ticks) -> (f: Option<FrameAt>)
    requires
        timeline_in_range(clips@),
        frame_at_fits(clips@, t.0 as int),
    ensures
        f == frame_at_spec(clips@, t.0 as int),
{
    if clips.len() == 0 || t.0 < 0 {
        return None;
    }
    let places = placements(clips);
    let n = places.len();
    if t.0 >= places[n - 1].end.0 {
        return None;
    }
    proof {
        assert(start_of(clips@, 0) == 0);
        lemma_last_started(clips@, t.0 as int, n as int);
    }
    // Latest clip whose start is <= t is the "current" (incoming) clip.
    let mut k: usize = n;
    while k > 0 && places[k - 1].start.0 > t.0
        invariant
            0 <= k <= n,
            n == clips@.len(),
            places@.len() == n,
            forall|j: int| 0 <= j < n ==> #[trigger] places@[j] == placement_at(clips@, j),
            last_started(clips@, t.0 as int, n as int) == last_started(clips@, t.0 as int, k as int),
            timeline_in_range(clips@),
        decreases k,
    {
        k = k - 1;
    }
    proof {
        assert(k > 0) by {
            if k == 0 {
                assert(last_started(clips@, t.0 as int, 0) == -1);
            }
        }
    }
    let idx = k - 1;
    let p = places[idx];
    proof {
        assert(p == placement_at(clips@, idx as int));
        assert(fits_i64(start_of(clips@, idx as int)));
    }
    let current = (idx, t.minus(p.start));
    if idx > 0 {
        let prev = places[idx - 1];
        proof {
            assert(prev == placement_at(clips@, idx - 1));
            assert(fits_i64(end_of(clips@, idx - 1)));
            assert(fits_i64(start_of(clips@, idx - 1)));
        }
        if t.0 < prev.end.0 {
            let overlap = prev.end.minus(p.start);
            let progress = if overlap.0 > 0 {
                (t.minus(p.start), overlap)
            } else {
                (Ticks(1), Ticks(1))
            };
            return Some(FrameAt { current, outgoing: Some((idx - 1, t.minus(prev.start))), progress });
        }
    }
    Some(FrameAt { current, outgoing: None, progress: (Ticks(1), Ticks(1)) })
}

/// What is visible at an instant: nothing for an empty show, a negative
/// time or a time at or past the end; otherwise the current clip is the
/// last one that starts at or before `t`, at `t` minus its start, and while
/// the clip before it has not ended that clip is outgoing, at `t` minus its
/// start, with progress elapsed over length between 0 and 1.
pub proof fn law_frame_at_resolves_current_and_outgoing(clips: Seq<Clip>, t: int)
    requires
        clips.len() <= usize::MAX,
        timeline_in_range(clips),
        frame_at_fits(clips, t),
    ensures
        frame_at_spec(clips, t) is None <==> (clips.len() == 0 || t < 0 || t >= end_of(clips, clips.len() - 1)),
        frame_at_spec(clips, t) matches Some(at) ==> {
            let k = at.current.0 as int;
            &&& 0 <= k < clips.len()
            &&& start_of(clips, k) <= t
            &&& forall|j: int| k < j < clips.len() ==> #[trigger] start_of(clips, j) > t
            &&& at.current.1.0 == (t - start_of(clips, k)) as i64
            &&& (k > 0 && t < end_of(clips, k - 1)) ==> at.outgoing == Some(
                ((k - 1) as usize, Ticks((t - start_of(clips, k - 1)) as i64)),
            ) && 0 <= at.progress.0.0 <= at.progress.1.0
            &&& !(k > 0 && t < end_of(clips, k - 1)) ==> at.outgoing is None && at.progress == (Ticks(1), Ticks(1))
        },
{
    let n = clips.len() as int;
    if n > 0 && 0 <= t < end_of(clips, n - 1) {
        assert(start_of(clips, 0) == 0);
        lemma_last_started(clips, t, n);
        let k = last_started(clips, t, n);
        assert(fits_i64(start_of(clips, k)) && fits_i64(end_of(clips, n - 1)));
        if k > 0 {
            assert(fits_i64(end_of(clips, k - 1)));
        }
    }
}

/// A cut takes no time: a clip entered by a cut starts exactly where the
/// previous clip ends, whatever duration the cut carries.
pub proof fn law_cut_starts_where_previous_ends(clips: Seq<Clip>, k: int)
    requires
        0 < k < clips.len(),
        clips[k].transition_in.kind == crate::catalog::TransitionKind::Cut,
    ensures
        overlap_at(clips, k) == 0,
        start_of(clips, k) == end_of(clips, k - 1),
{
    crate::project::law_cut_has_no_overlap(clips[k].transition_in);
}

} // verus!
