//! What makes sound in a show: whether it has an audio track at all, and
//! which stretch of which video clip plays when playback starts at some
//! instant.

use vstd::prelude::*;

use crate::ids::MediaId;
use crate::music::{playlist_total, song_spans_from, song_spans_spec, spans_from};
use crate::project::{is_video, Clip, ClipSource, Project};
use crate::time::{fits_i64, Ticks};
use crate::timeline::{end_of, placements, start_of, timeline_in_range, total_duration, total_length};

verus! {

/// Gain in percent a clip plays its own sound at: 0 when muted, the volume
/// capped at 300 % otherwise.
pub open spec fn clip_gain(c: Clip) -> int {
    if c.muted {
        0
    } else if c.volume_percent > 300 {
        300
    } else {
        c.volume_percent as int
    }
}

/// Whether some video clip plays its own sound.
pub open spec fn clips_sound(clips: Seq<Clip>) -> bool {
    exists|k: int| 0 <= k < clips.len() && is_video(#[trigger] clips[k]) && clip_gain(clips[k]) > 0
}

/// True if any clip or song would contribute audio: a video clip that is
/// not silenced, or audible music that plays somewhere in the show.
pub fn has_audio(project: &Project) -> (b: bool)
    requires
        timeline_in_range(project.clips@),
        playlist_total(project@) <= i64::MAX,
    ensures
        b == (clips_sound(project.clips@) || (project@.music.volume_percent > 0 && spans_from(
            song_spans_spec(project@, total_length(project.clips@)),
            0,
        ).len() > 0)),
{
    let mut clips = false;
    let mut k: usize = 0;
    while k < project.clips.len()
        invariant
            k <= project.clips@.len(),
            clips == exists|q: int| 0 <= q < k && is_video(#[trigger] project.clips@[q]) && clip_gain(project.clips@[q]) > 0,
        decreases project.clips@.len() - k,
    {
        let c = &project.clips[k];
        if c.is_video() && c.gain_percent() > 0 {
            clips = true;
        }
        k = k + 1;
    }
    let music = project.music.gain_percent() > 0 && song_spans_from(
        project,
        total_duration(project.clips.as_slice()),
        Ticks(0),
    ).len() > 0;
    clips || music
}

/// A stretch of a video clip's sound for playback.
#[derive(Copy, Clone, Debug, PartialEq, Eq, Structural)]
pub struct AudioSegment {
    pub media: MediaId,
    /// Position in the source file where the stretch starts.
    pub source_start: Ticks,
    pub length: Ticks,
    /// Gain in percent.
    pub gain_percent: u16,
}

/// Where clip `i`'s sound stops: where the next clip starts (never before
/// its own start), or its own end for the last clip.
pub open spec fn own_end(clips: Seq<Clip>, i: int) -> int {
    if i + 1 < clips.len() {
        if start_of(clips, i + 1) >= start_of(clips, i) {
            start_of(clips, i + 1)
        } else {
            start_of(clips, i)
        }
    } else {
        end_of(clips, i)
    }
}

/// Where clip `i`'s sound starts when playback starts at `from`.
pub open spec fn begin_at(clips: Seq<Clip>, i: int, from: int) -> int {
    if from >= start_of(clips, i) {
        from
    } else {
        start_of(clips, i)
    }
}

/// The segment clip `i` contributes from `from` on, if any: only video
/// clips that are audible and still have sound ahead.
pub open spec fn segment_at(clips: Seq<Clip>, i: int, from: int) -> Seq<AudioSegment> {
    let c = clips[i];
    match c.source {
        ClipSource::Video { in_point, .. } => if own_end(clips, i) <= from || clip_gain(c) <= 0 {
            Seq::empty()
        } else {
            let begin = begin_at(clips, i, from);
            seq![AudioSegment {
                media: c.media,
                source_start: Ticks((in_point.0 + (begin - start_of(clips, i))) as i64),
                length: Ticks((own_end(clips, i) - begin) as i64),
                gain_percent: clip_gain(c) as u16,
            }]
        },
        _ => Seq::empty(),
    }
}

/// The segments of the first `k` clips, in order.
pub open spec fn segments(clips: Seq<Clip>, k: int, from: int) -> Seq<AudioSegment>
    decreases k,
{
    if k <= 0 {
        Seq::empty()
    } else {
        segments(clips, k - 1, from) + segment_at(clips, k - 1, from)
    }
}

/// Whether every segment's position and length fit the time type.
pub open spec fn segments_fit(clips: Seq<Clip>, from: int) -> bool {
    forall|i: int|
        0 <= i < clips.len() && #[trigger] is_video(clips[i]) ==> fits_i64(
            clips[i].source->in_point.0 + (begin_at(clips, i, from) - start_of(clips, i)),
        ) && fits_i64(own_end(clips, i) - begin_at(clips, i, from))
}

/// Audio to play from timeline time `from` onwards, in order. Only the
/// clip that owns each instant contributes (no cross-fades in preview): a
/// clip owns the time from its start to the next clip's start.
pub fn audio_segments(project: &Project, from: Ticks) -> (v: Vec<AudioSegment>)
    requires
        timeline_in_range(project.clips@),
        segments_fit(project.clips@, from.0 as int),
    ensures
        v@ == segments(project.clips@, project.clips@.len() as int, from.0 as int),
{
    let clips = &project.clips;
    let ghost cs = clips@;
    let places = placements(clips.as_slice());
    let mut out: Vec<AudioSegment> = Vec::new();
    let mut i: usize = 0;
    while i < clips.len()
        invariant
            i <= cs.len(),
            cs == clips@,
            cs == project.clips@,
            timeline_in_range(cs),
            segments_fit(cs, from.0 as int),
            places@.len() == cs.len(),
            forall|k: int| 0 <= k < cs.len() ==> #[trigger] places@[k] == crate::timeline::placement_at(cs, k),
            out@ == segments(cs, i as int, from.0 as int),
        decreases cs.len() - i,
    {
        let c = &clips[i];
        let ghost seg = segment_at(cs, i as int, from.0 as int);
        match c.source {
            ClipSource::Video { in_point, .. } => {
                let p = places[i];
                let own = if i + 1 < places.len() {
                    if places[i + 1].start.0 >= p.start.0 { places[i + 1].start } else { p.start }
                } else {
                    p.end
                };
                let gain = c.gain_percent();
                if own.0 > from.0 && gain > 0 {
                    let begin = if from.0 >= p.start.0 { from } else { p.start };
                    proof {
                        assert(is_video(cs[i as int]));
                        assert(own.0 == own_end(cs, i as int));
                        assert(begin.0 == begin_at(cs, i as int, from.0 as int));
                    }
                    out.push(AudioSegment {
                        media: c.media,
                        source_start: in_point.plus(begin.minus(p.start)),
                        length: own.minus(begin),
                        gain_percent: gain,
                    });
                }
            },
            _ => {},
        }
        proof {
            assert(segments(cs, i + 1, from.0 as int) == segments(cs, i as int, from.0 as int) + seg);
            assert(out@ =~= segments(cs, i + 1, from.0 as int));
        }
        i = i + 1;
    }
    out
}

/// Timeline spans `(start, end)` of the first `k` clips that are videos
/// playing their own sound, in clip order.
pub open spec fn sounding_spans(clips: Seq<Clip>, k: int) -> Seq<(int, int)>
    decreases k,
{
    if k <= 0 {
        Seq::empty()
    } else {
        let before = sounding_spans(clips, k - 1);
        if is_video(clips[k - 1]) && clip_gain(clips[k - 1]) > 0 {
            before.push((start_of(clips, k - 1), end_of(clips, k - 1)))
        } else {
            before
        }
    }
}

/// Where `e` goes in `t` so that starts stay in order and equal starts
/// keep their order: before the first span, from `k` on, that starts later.
pub open spec fn slot_after(t: Seq<(int, int)>, e: (int, int), k: int) -> int
    decreases t.len() - k,
{
    if k < 0 || k >= t.len() {
        t.len() as int
    } else if t[k].0 > e.0 {
        k
    } else {
        slot_after(t, e, k + 1)
    }
}

/// `s` sorted by start, equal starts in their original order.
pub open spec fn sorted_by_start(s: Seq<(int, int)>) -> Seq<(int, int)>
    decreases s.len(),
{
    if s.len() == 0 {
        s
    } else {
        let t = sorted_by_start(s.drop_last());
        t.insert(slot_after(t, s.last(), 0), s.last())
    }
}

/// Spans merged from left to right: a span that starts before the last
/// merged one ends extends it; otherwise it starts a new one.
pub open spec fn merged_spans(s: Seq<(int, int)>) -> Seq<(int, int)>
    decreases s.len(),
{
    if s.len() == 0 {
        s
    } else {
        let m = merged_spans(s.drop_last());
        let e = s.last();
        if m.len() > 0 && e.0 <= m.last().1 {
            m.update(m.len() - 1, (m.last().0, if e.1 > m.last().1 { e.1 } else { m.last().1 }))
        } else {
            m.push(e)
        }
    }
}

/// Timeline intervals where a video clip plays its own sound: merged, in
/// order of their starts.
pub open spec fn sound_intervals_spec(clips: Seq<Clip>) -> Seq<(int, int)> {
    merged_spans(sorted_by_start(sounding_spans(clips, clips.len() as int)))
}

/// A list of tick pairs as integers.
pub open spec fn tick_pairs(v: Seq<(Ticks, Ticks)>) -> Seq<(int, int)> {
    v.map_values(|p: (Ticks, Ticks)| (p.0.0 as int, p.1.0 as int))
}

proof fn lemma_slot_after(t: Seq<(int, int)>, e: (int, int), k: int)
    requires
        0 <= k <= t.len(),
    ensures
        k <= slot_after(t, e, k) <= t.len(),
    decreases t.len() - k,
{
    if k < t.len() && t[k].0 <= e.0 {
        lemma_slot_after(t, e, k + 1);
    }
}

fn slot_after_exec(t: &Vec<(Ticks, Ticks)>, e: (Ticks, Ticks)) -> (k: usize)
    ensures
        k == slot_after(tick_pairs(t@), (e.0.0 as int, e.1.0 as int), 0),
{
    let ghost tv = tick_pairs(t@);
    let ghost ev = (e.0.0 as int, e.1.0 as int);
    let mut k: usize = 0;
    while k < t.len() && !(t[k].0.0 > e.0.0)
        invariant
            k <= t@.len(),
            tv == tick_pairs(t@),
            ev == (e.0.0 as int, e.1.0 as int),
            slot_after(tv, ev, 0) == slot_after(tv, ev, k as int),
        decreases t@.len() - k,
    {
        proof {
            assert(tv[k as int].0 == t@[k as int].0.0);
        }
        k = k + 1;
    }
    k
}

/// Timeline intervals, merged and in order, where a video clip plays its
/// own sound (see `sound_intervals_spec`).
pub fn sound_intervals(project: &Project) -> (v: Vec<(Ticks, Ticks)>)
    requires
        timeline_in_range(project.clips@),
    ensures
        tick_pairs(v@) == sound_intervals_spec(project.clips@),
{
    let clips = &project.clips;
    let places = placements(clips.as_slice());
    let ghost cs = clips@;
    // Spans of the sounding clips, sorted by start as they come in.
    let mut sorted: Vec<(Ticks, Ticks)> = Vec::new();
    let mut i: usize = 0;
    while i < clips.len()
        invariant
            i <= cs.len(),
            cs == clips@,
            places@.len() == cs.len(),
            forall|k: int| 0 <= k < cs.len() ==> #[trigger] places@[k] == crate::timeline::placement_at(cs, k),
            timeline_in_range(cs),
            tick_pairs(sorted@) == sorted_by_start(sounding_spans(cs, i as int)),
        decreases cs.len() - i,
    {
        let c = &clips[i];
        if c.is_video() && c.gain_percent() > 0 {
            let p = places[i];
            let e = (p.start, p.end);
            proof {
                assert(crate::time::fits_i64(start_of(cs, i as int)) && crate::time::fits_i64(end_of(cs, i as int)));
                assert(sounding_spans(cs, i + 1) =~= sounding_spans(cs, i as int).push(
                    (start_of(cs, i as int), end_of(cs, i as int)),
                ));
            }
            let q = slot_after_exec(&sorted, e);
            proof {
                lemma_slot_after(tick_pairs(sorted@), (e.0.0 as int, e.1.0 as int), 0);
            }
            let ghost before = sorted@;
            sorted.insert(q, e);
            proof {
                assert(tick_pairs(sorted@) =~= tick_pairs(before).insert(q as int, (e.0.0 as int, e.1.0 as int)));
                let s1 = sounding_spans(cs, i + 1);
                assert(s1.drop_last() =~= sounding_spans(cs, i as int));
                assert(s1.last() == (e.0.0 as int, e.1.0 as int));
            }
        } else {
            proof {
                assert(sounding_spans(cs, i + 1) == sounding_spans(cs, i as int));
            }
        }
        i = i + 1;
    }
    proof {
        assert(sounding_spans(cs, cs.len() as int) == sounding_spans(cs, i as int));
    }
    let ghost sv = tick_pairs(sorted@);
    let mut merged: Vec<(Ticks, Ticks)> = Vec::new();
    let mut j: usize = 0;
    while j < sorted.len()
        invariant
            j <= sorted@.len(),
            sv == tick_pairs(sorted@),
            tick_pairs(merged@) == merged_spans(sv.take(j as int)),
        decreases sorted@.len() - j,
    {
        let (a, b) = sorted[j];
        proof {
            assert(sv.take(j + 1).drop_last() =~= sv.take(j as int));
            assert(sv.take(j + 1).last() == (a.0 as int, b.0 as int));
        }
        let n = merged.len();
        if n > 0 && a.0 <= merged[n - 1].1.0 {
            let (s0, e0) = merged[n - 1];
            let e1 = if b.0 > e0.0 { b } else { e0 };
            let ghost before = merged@;
            merged.set(n - 1, (s0, e1));
            proof {
                assert(tick_pairs(merged@) =~= tick_pairs(before).update(n - 1, (s0.0 as int, e1.0 as int)));
            }
        } else {
            let ghost before = merged@;
            merged.push((a, b));
            proof {
                assert(tick_pairs(merged@) =~= tick_pairs(before).push((a.0 as int, b.0 as int)));
            }
        }
        j = j + 1;
    }
    proof {
        assert(sv.take(j as int) =~= sv);
    }
    merged
}

/// Merged sound intervals are separated: each ends before the next one
/// starts.
pub proof fn law_sound_intervals_are_separated(clips: Seq<Clip>)
    ensures
        forall|i: int|
            0 <= i < sound_intervals_spec(clips).len() - 1 ==> (#[trigger] sound_intervals_spec(clips)[i]).1
                < sound_intervals_spec(clips)[i + 1].0,
{
    lemma_merged_separated(sorted_by_start(sounding_spans(clips, clips.len() as int)));
}

proof fn lemma_merged_separated(s: Seq<(int, int)>)
    ensures
        forall|i: int| 0 <= i < merged_spans(s).len() - 1 ==> (#[trigger] merged_spans(s)[i]).1 < merged_spans(s)[i + 1].0,
    decreases s.len(),
{
    if s.len() > 0 {
        let d = s.drop_last();
        lemma_merged_separated(d);
        let m = merged_spans(d);
        let r = merged_spans(s);
        assert forall|i: int| 0 <= i < r.len() - 1 implies (#[trigger] r[i]).1 < r[i + 1].0 by {
            if i + 1 < m.len() {
                assert(r[i] == m[i]);
                assert(r[i + 1].0 == m[i + 1].0);
            } else {
                assert(r[i] == m[i]);
            }
        }
    }
}

} // verus!
