//! Which frames an export renders: how many there are, the time of each,
//! and which ones repeat the previous picture so that the renderer and
//! the colour conversion can be skipped.

use vstd::prelude::*;

use crate::catalog::Motion;
use crate::project::{is_photo, spec_duration, spec_overlap, Project};
use crate::time::{fits_i64, trunc_div, Ticks};
use crate::timeline::{
    frame_at, frame_at_spec, lemma_frame_at_fits, lemma_frame_at_index, max_int, min_int, opening_overlap, timeline_in_range,
    total_duration, total_length,
};

verus! {

/// Frames needed to cover a show of length `total` with frames lasting
/// `fd`: rounded up, and none for an empty show.
pub open spec fn frames_to_cover(total: int, fd: int) -> int {
    if total <= 0 {
        0
    } else {
        (total - 1) / fd + 1
    }
}

/// How long the first clip's transition plays in at the start of the show.
pub open spec fn opening_length(clips: Seq<crate::project::Clip>) -> int {
    if clips.len() == 0 {
        0
    } else {
        max_int(min_int(spec_overlap(clips[0].transition_in), trunc_div(spec_duration(clips[0]), 2)), 0)
    }
}

/// The clip whose picture the frame at `t` shows unchanged from frame to
/// frame: a photo without movement showing alone, outside the opening
/// transition. Such frames can be repeated instead of rendered.
pub open spec fn still_key(clips: Seq<crate::project::Clip>, t: int) -> Option<usize> {
    match frame_at_spec(clips, t) {
        None => None,
        Some(at) => {
            let idx = at.current.0;
            let c = clips[idx as int];
            let in_opening = idx == 0 && at.current.1.0 < opening_length(clips);
            if is_photo(c) && c.motion == Motion::Still && at.outgoing is None && !in_opening {
                Some(idx)
            } else {
                None
            }
        },
    }
}

/// What the exporter does for one frame.
#[derive(Debug, PartialEq, Eq)]
pub enum FrameChoice {
    /// The picture is the previous frame's; send that again.
    SameAsPrevious,
    /// Render the show at this timeline time.
    Render(Ticks),
}

/// The frames of a project's export, in order, remembering which still
/// the previous frame showed.
pub struct TimelineFrames {
    len: u64,
    last_key: Option<usize>,
}

/// Whether the clips can be laid out and none runs backwards.
pub open spec fn frames_ready(project: Project) -> bool {
    &&& timeline_in_range(project.clips@)
    &&& forall|k: int| 0 <= k < project.clips@.len() ==> spec_duration(#[trigger] project.clips@[k]) >= 0
}

impl TimelineFrames {
    pub closed spec fn frame_total(&self) -> nat {
        self.len as nat
    }

    /// The still the previous frame showed, if any.
    pub closed spec fn previous(&self) -> Option<usize> {
        self.last_key
    }

    /// The frames of `project`: enough at its frame rate to cover the
    /// show, rounded up.
    pub fn new(project: &Project) -> (f: TimelineFrames)
        requires
            frames_ready(*project),
        ensures
            f.frame_total() == frames_to_cover(
                total_length(project.clips@),
                project.settings.frame_rate.spec_frame_duration(),
            ),
            f.previous() is None,
    {
        let total = total_duration(project.clips.as_slice());
        let fd = project.settings.frame_rate.frame_duration();
        let len: u64 = if total.0 <= 0 {
            0
        } else {
            let n = (total.0 - 1) / fd.0 + 1;
            n as u64
        };
        TimelineFrames { len, last_key: None }
    }

    /// Total number of frames.
    pub fn len(&self) -> (n: u64)
        ensures
            n == self.frame_total(),
    {
        self.len
    }

    pub fn is_empty(&self) -> (b: bool)
        ensures
            b == (self.frame_total() == 0),
    {
        self.len == 0
    }

    /// Decides frame `index`: repeat the previous picture when both show
    /// the same still (see `still_key`), otherwise render at the frame's
    /// time.
    pub fn frame(&mut self, project: &Project, index: u64) -> (c: FrameChoice)
        requires
            frames_ready(*project),
            fits_i64(index * project.settings.frame_rate.spec_frame_duration()),
        ensures
            ({
                let t = index * project.settings.frame_rate.spec_frame_duration();
                let key = still_key(project.clips@, t);
                &&& final(self).frame_total() == old(self).frame_total()
                &&& (key is Some && key == old(self).previous()) ==> c == FrameChoice::SameAsPrevious
                    && final(self).previous() == old(self).previous()
                &&& !(key is Some && key == old(self).previous()) ==> c == FrameChoice::Render(Ticks(t as i64))
                    && final(self).previous() == key
            }),
    {
        let rate = project.settings.frame_rate;
        let fd = rate.frame_duration();
        proof {
            assert(index <= i64::MAX) by {
                assert(index * rate.spec_frame_duration() >= index) by (nonlinear_arith)
                    requires
                        rate.spec_frame_duration() > 0,
                ;
            }
        }
        let t = Ticks::from_frames(index as i64, rate);
        let clips = project.clips.as_slice();
        proof {
            lemma_frame_at_fits(clips@, t.0 as int);
        }
        let key: Option<usize> = match frame_at(clips, t) {
            None => None,
            Some(at) => {
                let (idx, local) = at.current;
                proof {
                    lemma_frame_at_index(clips@, t.0 as int);
                }
                let c = &clips[idx];
                let in_opening = idx == 0 && local.0 < opening_overlap(clips).0;
                let still = c.is_photo() && c.motion == Motion::Still;
                if still && at.outgoing.is_none() && !in_opening {
                    Some(idx)
                } else {
                    None
                }
            },
        };
        if key.is_some() && key == self.last_key {
            return FrameChoice::SameAsPrevious;
        }
        self.last_key = key;
        FrameChoice::Render(t)
    }
}

} // verus!
