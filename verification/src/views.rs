//! View logic behind the editor, library and export screens: keyboard
//! moves along the timeline, grid rows, and the export dialog's options.

use vstd::prelude::*;

use crate::options::{Advanced, Container, ExportOptions, Quality};
use crate::plan::Codec;
use crate::settings::Resolution;
use crate::time::FrameRate;
use crate::digits::push_char;
use crate::strs::chars_of;

verus! {

/// Direction of a keyboard move of the selection.
#[derive(Copy, Clone, Debug, PartialEq, Eq, Structural)]
pub enum Nudge {
    Earlier,
    Later,
}

/// The smallest and largest of `s` below `len`, if any.
pub open spec fn valid_bounds(s: Seq<usize>, len: usize) -> Option<(usize, usize)>
    decreases s.len(),
{
    if s.len() == 0 {
        None
    } else {
        let x = s.last();
        let rest = valid_bounds(s.drop_last(), len);
        if x >= len {
            rest
        } else {
            match rest {
                None => Some((x, x)),
                Some((lo, hi)) => Some((if x < lo { x } else { lo }, if x > hi { x } else { hi })),
            }
        }
    }
}

/// Where a nudge moves the selected clips (the `to` of a move): before the
/// clip preceding the first selected one, or after the clip following the
/// last one; nothing at the edges or without a selected clip in range.
pub open spec fn nudge_spec(len: usize, indices: Seq<usize>, dir: Nudge) -> Option<usize> {
    match valid_bounds(indices, len) {
        None => None,
        Some((first, last)) => match dir {
            Nudge::Earlier => if first == 0 { None } else { Some((first - 1) as usize) },
            Nudge::Later => if last + 1 < len { Some((last + 2) as usize) } else { None },
        },
    }
}

proof fn lemma_valid_bounds(s: Seq<usize>, len: usize)
    ensures
        valid_bounds(s, len) matches Some((lo, hi)) ==> lo <= hi < len,
    decreases s.len(),
{
    if s.len() > 0 {
        lemma_valid_bounds(s.drop_last(), len);
    }
}

pub fn nudge_target(len: usize, indices: &[usize], dir: Nudge) -> (r: Option<usize>)
    ensures
        r == nudge_spec(len, indices@, dir),
{
    let mut bounds: Option<(usize, usize)> = None;
    let mut k: usize = 0;
    while k < indices.len()
        invariant
            k <= indices@.len(),
            bounds == valid_bounds(indices@.take(k as int), len),
        decreases indices@.len() - k,
    {
        let x = indices[k];
        proof {
            assert(indices@.take(k + 1).drop_last() =~= indices@.take(k as int));
            assert(indices@.take(k + 1).last() == x);
        }
        if x < len {
            bounds = match bounds {
                None => Some((x, x)),
                Some((lo, hi)) => Some((if x < lo { x } else { lo }, if x > hi { x } else { hi })),
            };
        }
        k = k + 1;
    }
    proof {
        assert(indices@.take(indices@.len() as int) =~= indices@);
        lemma_valid_bounds(indices@, len);
    }
    match bounds {
        None => None,
        Some((first, last)) => match dir {
            Nudge::Earlier => if first == 0 { None } else { Some(first - 1) },
            Nudge::Later => if last < len - 1 { Some(last + 2) } else { None },
        },
    }
}

/// Next (`forward`) or previous clip for ↑/↓. Without a focused clip, the
/// first or last clip. A stale index is clamped first.
pub open spec fn clip_nav_spec(focus: Option<usize>, len: usize, forward: bool) -> Option<usize> {
    if len == 0 {
        None
    } else {
        let last = (len - 1) as usize;
        Some(match focus {
            None => if forward { 0 } else { last },
            Some(f) => {
                let c = if f < last { f } else { last };
                if forward {
                    if c + 1 < last { (c + 1) as usize } else { last }
                } else {
                    if c > 0 { (c - 1) as usize } else { 0 }
                }
            },
        })
    }
}

pub fn clip_nav(focus: Option<usize>, len: usize, forward: bool) -> (r: Option<usize>)
    ensures
        r == clip_nav_spec(focus, len, forward),
{
    if len == 0 {
        return None;
    }
    let last = len - 1;
    Some(match focus {
        None => if forward { 0 } else { last },
        Some(f) => {
            let c = if f < last { f } else { last };
            if forward {
                if c + 1 < last { c + 1 } else { last }
            } else {
                if c > 0 { c - 1 } else { 0 }
            }
        },
    })
}

/// Rows a grid of `items` needs with `columns` per row (at least one).
pub fn row_count(items: usize, columns: usize) -> (r: usize)
    ensures
        r == (if columns == 0 { items as int } else { (items + columns - 1) / (columns as int) }),
{
    let c = if columns == 0 { 1 } else { columns };
    if items == 0 {
        proof {
            assert((c - 1) / (c as int) == 0) by (nonlinear_arith)
                requires
                    c >= 1,
            ;
        }
        0
    } else {
        proof {
            assert((items - 1) / (c as int) + 1 == (items + c - 1) / (c as int)) by (nonlinear_arith)
                requires
                    c >= 1,
                    items >= 1,
            ;
        }
        (items - 1) / c + 1
    }
}

/// Row of the item at `index` with `columns` per row (at least one).
pub fn row_of(index: usize, columns: usize) -> (r: usize)
    ensures
        r == (if columns == 0 { index as int } else { (index / columns) as int }),
{
    let c = if columns == 0 { 1 } else { columns };
    index / c
}

/// The export dialog's controls as indices. Index 0 of every Advanced
/// list is "Automatic" / "Project".
#[derive(Clone, Copy, Debug, PartialEq, Eq, Structural)]
pub struct DialogState {
    pub resolution: usize,
    pub quality: usize,
    pub youtube: bool,
    pub hdr: bool,
    pub codec: usize,
    pub frame_rate: usize,
    pub video_bitrate: usize,
    pub audio_bitrate: usize,
    pub container: usize,
}

impl Default for DialogState {
    fn default() -> (d: DialogState)
        ensures
            d == (DialogState {
                resolution: 0,
                quality: 0,
                youtube: false,
                hdr: false,
                codec: 0,
                frame_rate: 0,
                video_bitrate: 0,
                audio_bitrate: 0,
                container: 0,
            }),
    {
        DialogState {
            resolution: 0,
            quality: 0,
            youtube: false,
            hdr: false,
            codec: 0,
            frame_rate: 0,
            video_bitrate: 0,
            audio_bitrate: 0,
            container: 0,
        }
    }
}

/// Frame rates (numerator, denominator) offered under Advanced, after
/// "Project".
pub open spec fn offered_rates() -> Seq<(int, int)> {
    seq![(24, 1), (25, 1), (30, 1), (50, 1), (60, 1)]
}

/// Video bitrates (Mbit/s) offered under Advanced, after "Automatic".
pub open spec fn offered_video_mbps() -> Seq<u32> {
    seq![8u32, 12, 16, 20, 35, 50, 80]
}

/// Audio bitrates (kbit/s) offered under Advanced, after "Automatic".
pub open spec fn offered_audio_kbps() -> Seq<u32> {
    seq![128u32, 192, 256, 320, 384]
}

/// Entry `i` of a list behind an "automatic" entry 0.
pub open spec fn pick<T>(list: Seq<T>, i: usize) -> Option<T> {
    if 1 <= i <= list.len() {
        Some(list[i - 1])
    } else {
        None
    }
}

fn rate_at(i: usize) -> (r: Option<FrameRate>)
    ensures
        match pick(offered_rates(), i) {
            None => r is None,
            Some(x) => r matches Some(f) && f.spec_num() == x.0 && f.spec_den() == x.1,
        },
{
    if i == 1 {
        Some(FrameRate::fps_24())
    } else if i == 2 {
        Some(FrameRate::fps_25())
    } else if i == 3 {
        Some(FrameRate::fps_30())
    } else if i == 4 {
        Some(FrameRate::fps_50())
    } else if i == 5 {
        Some(FrameRate::fps_60())
    } else {
        None
    }
}

fn pick_exec(list: &[u32], i: usize) -> (r: Option<u32>)
    ensures
        r == pick(list@, i),
{
    if i >= 1 && i <= list.len() {
        Some(list[i - 1])
    } else {
        None
    }
}

/// What the dialog's controls ask for.
pub fn options(state: &DialogState) -> (o: ExportOptions)
    ensures
        o.resolution == (if state.resolution == 1 { Resolution::Uhd4k } else { Resolution::FullHd }),
        o.quality == (if state.quality == 0 {
            Quality::Good
        } else if state.quality == 2 {
            Quality::Best
        } else {
            Quality::Better
        }),
        o.hdr == state.hdr,
        o.optimize_for_youtube == state.youtube,
        o.advanced.codec == (if state.codec == 1 {
            Some(Codec::H264)
        } else if state.codec == 2 {
            Some(Codec::Hevc)
        } else {
            None
        }),
        match pick(offered_rates(), state.frame_rate) {
            None => o.advanced.frame_rate is None,
            Some(x) => o.advanced.frame_rate matches Some(f) && f.spec_num() == x.0 && f.spec_den() == x.1,
        },
        o.advanced.video_bitrate_kbps == (match pick(offered_video_mbps(), state.video_bitrate) {
            Some(m) => Some((m * 1000) as u32),
            None => None,
        }),
        o.advanced.audio_bitrate_kbps == pick(offered_audio_kbps(), state.audio_bitrate),
        o.advanced.container == (if state.container == 1 { Container::Mov } else { Container::Mp4 }),
{
    let video: [u32; 7] = [8, 12, 16, 20, 35, 50, 80];
    let audio: [u32; 5] = [128, 192, 256, 320, 384];
    proof {
        assert(video@ =~= offered_video_mbps());
        assert(audio@ =~= offered_audio_kbps());
    }
    let video_kbps = match pick_exec(&video, state.video_bitrate) {
        Some(m) => Some(m * 1000),
        None => None,
    };
    ExportOptions {
        resolution: if state.resolution == 1 { Resolution::Uhd4k } else { Resolution::FullHd },
        quality: if state.quality == 0 {
            Quality::Good
        } else if state.quality == 2 {
            Quality::Best
        } else {
            Quality::Better
        },
        hdr: state.hdr,
        optimize_for_youtube: state.youtube,
        advanced: Advanced {
            codec: if state.codec == 1 {
                Some(Codec::H264)
            } else if state.codec == 2 {
                Some(Codec::Hevc)
            } else {
                None
            },
            frame_rate: rate_at(state.frame_rate),
            video_bitrate_kbps: video_kbps,
            audio_bitrate_kbps: pick_exec(&audio, state.audio_bitrate),
            container: if state.container == 1 { Container::Mov } else { Container::Mp4 },
        },
    }
}

/// The marker that project file names carry before their extension.
pub open spec fn project_tag() -> Seq<char> {
    ".clipforge"@
}

/// `s` with every `.clipforge` taken out, left to right.
pub open spec fn untagged(s: Seq<char>) -> Seq<char>
    decreases s.len(),
{
    if s.len() == 0 {
        s
    } else if s.len() >= 10 && s.subrange(0, 10) == project_tag() {
        untagged(s.subrange(10, s.len() as int))
    } else {
        seq![s[0]] + untagged(s.drop_first())
    }
}

/// The file name the export dialog suggests: the project file's stem
/// without `.clipforge`, or `slideshow` for an unsaved project, with the
/// container's extension.
pub open spec fn suggested_name(stem: Option<Seq<char>>, extension: Seq<char>) -> Seq<char> {
    let base = match stem {
        Some(s) => untagged(s),
        None => "slideshow"@,
    };
    base + seq!['.'] + extension
}

/// Whether `.clipforge` starts at `i` in `c`.
fn tag_at(c: &Vec<char>, tag: &Vec<char>, i: usize) -> (b: bool)
    requires
        tag@ == project_tag(),
        i <= c@.len(),
    ensures
        b == (i + 10 <= c@.len() && c@.subrange(i as int, i + 10) == project_tag()),
{
    proof {
        reveal_strlit(".clipforge");
    }
    if c.len() - i < 10 {
        return false;
    }
    let mut k: usize = 0;
    while k < 10
        invariant
            k <= 10,
            i + 10 <= c.len(),
            tag@ == project_tag(),
            tag@.len() == 10,
            forall|j: int| 0 <= j < k ==> c@[i + j] == tag@[j],
        decreases 10 - k,
    {
        if c[i + k] != tag[k] {
            return false;
        }
        k = k + 1;
    }
    proof {
        assert(c@.subrange(i as int, i + 10) =~= project_tag());
    }
    true
}

/// The export file name to suggest (see `suggested_name`); `stem` is the
/// project file's stem, if the project was saved.
pub fn suggested_output_name(stem: Option<&str>, extension: &str) -> (r: String)
    ensures
        r@ == suggested_name(
            match stem {
                Some(s) => Some(s@),
                None => None,
            },
            extension@,
        ),
{
    let mut r = String::new();
    match stem {
        None => {
            let base = chars_of("slideshow");
            let mut k: usize = 0;
            while k < base.len()
                invariant
                    k <= base@.len(),
                    r@ == base@.take(k as int),
                decreases base@.len() - k,
            {
                push_char(&mut r, base[k]);
                proof {
                    assert(base@.take(k + 1) =~= base@.take(k as int).push(base@[k as int]));
                }
                k = k + 1;
            }
            proof {
                assert(base@.take(k as int) =~= base@);
            }
        },
        Some(s) => {
            let c = chars_of(s);
            let tag = chars_of(".clipforge");
            proof {
                reveal_strlit(".clipforge");
                assert(c@.subrange(0, c@.len() as int) =~= c@);
                assert(r@ == Seq::<char>::empty());
                assert(Seq::<char>::empty() + untagged(c@) =~= untagged(c@));
            }
            let mut i: usize = 0;
            while i < c.len()
                invariant
                    i <= c@.len(),
                    c@ == s@,
                    tag@ == project_tag(),
                    r@ + untagged(c@.subrange(i as int, c@.len() as int)) == untagged(c@),
                decreases c@.len() - i,
            {
                let ghost rest = c@.subrange(i as int, c@.len() as int);
                if tag_at(&c, &tag, i) {
                    proof {
                        assert(rest.subrange(0, 10) =~= c@.subrange(i as int, i + 10));
                        assert(rest.subrange(10, rest.len() as int) =~= c@.subrange(i + 10, c@.len() as int));
                    }
                    i = i + 10;
                } else {
                    proof {
                        if rest.len() >= 10 {
                            assert(rest.subrange(0, 10) =~= c@.subrange(i as int, i + 10));
                        }
                        assert(rest.drop_first() =~= c@.subrange(i + 1, c@.len() as int));
                        assert(r@.push(c@[i as int]) + untagged(rest.drop_first()) =~= r@ + (seq![rest[0]] + untagged(rest.drop_first())));
                    }
                    push_char(&mut r, c[i]);
                    i = i + 1;
                }
            }
            proof {
                assert(c@.subrange(i as int, c@.len() as int) =~= Seq::<char>::empty());
                assert(r@ + Seq::<char>::empty() =~= r@);
            }
        },
    }
    push_char(&mut r, '.');
    let e = chars_of(extension);
    let ghost before = r@;
    let mut k: usize = 0;
    while k < e.len()
        invariant
            k <= e@.len(),
            r@ == before + e@.take(k as int),
        decreases e@.len() - k,
    {
        push_char(&mut r, e[k]);
        proof {
            assert(e@.take(k + 1) =~= e@.take(k as int).push(e@[k as int]));
        }
        k = k + 1;
    }
    proof {
        assert(e@.take(k as int) =~= e@);
        reveal_strlit("slideshow");
    }
    r
}

} // verus!
