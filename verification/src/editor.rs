//! What the editor decides that is not drawing: which clips new media
//! become, which clips an action targets, and what the caption controls
//! show and change.

use vstd::prelude::*;

use crate::catalog::{transition_index, CaptionStyle, Motion, RefKind};
use crate::ids::{ClipId, MediaId};
use crate::project::{
    duration_defined, is_photo, is_title, spec_duration, Caption, Clip, ClipSource, MediaRef, Project,
    ProjectSettings,
};
use vstd::string::StrSliceExecFns;
use crate::strs::chars_of;
use crate::time::{trunc_div, Ticks};
use crate::words::string_of;

verus! {

/// The clip new media `r` becomes with the project's defaults: a video
/// with a known length plays whole, anything else is a photo of the default
/// duration; only photos get the default movement.
pub open spec fn clip_for(c: Clip, r: MediaRef, s: ProjectSettings) -> bool {
    let source = match (r.kind, r.duration) {
        (RefKind::Video, Some(d)) => ClipSource::Video { in_point: Ticks(0), out_point: d },
        _ => ClipSource::Photo { duration: s.default_photo_duration },
    };
    &&& c.media == r.id
    &&& c.source == source
    &&& c.fit == s.default_fit
    &&& c.rotate == crate::catalog::Quarter::Upright
    &&& c.transition_in == s.default_transition
    &&& !c.muted
    &&& c.volume_percent == 100
    &&& c.motion == (if source is Photo { s.default_motion } else { Motion::Still })
    &&& c.caption is None
}

/// New clips for `refs` using the project's defaults (each with a fresh
/// random id).
pub fn clips_for(project: &Project, refs: &[MediaRef]) -> (v: Vec<Clip>)
    ensures
        v@.len() == refs@.len(),
        forall|k: int| 0 <= k < refs@.len() ==> clip_for(#[trigger] v@[k], refs@[k], project.settings),
{
    let s = project.settings;
    let mut v: Vec<Clip> = Vec::new();
    let mut k: usize = 0;
    while k < refs.len()
        invariant
            k <= refs@.len(),
            s == project.settings,
            v@.len() == k,
            forall|j: int| 0 <= j < k ==> clip_for(#[trigger] v@[j], refs@[j], s),
        decreases refs@.len() - k,
    {
        let r = &refs[k];
        let mut c = match (r.kind, r.duration) {
            (RefKind::Video, Some(d)) => Clip::video(r.id, d),
            _ => Clip::photo(r.id, s.default_photo_duration),
        };
        c.fit = s.default_fit;
        c.transition_in = s.default_transition;
        if c.is_photo() {
            c.motion = s.default_motion;
        }
        v.push(c);
        k = k + 1;
    }
    v
}

/// Whether position `i` of `clips` is a photo.
pub open spec fn photo_at(clips: Seq<Clip>, i: usize) -> bool {
    i < clips.len() && is_photo(clips[i as int])
}

/// The targets that are photos (motion only applies to photos), in order;
/// stale indices are dropped.
pub fn photo_targets(project: &Project, targets: &[usize]) -> (v: Vec<usize>)
    ensures
        v@ == targets@.filter(|i: usize| photo_at(project.clips@, i)),
{
    let ghost f = |i: usize| photo_at(project.clips@, i);
    let mut v: Vec<usize> = Vec::new();
    let mut k: usize = 0;
    while k < targets.len()
        invariant
            k <= targets@.len(),
            f == (|i: usize| photo_at(project.clips@, i)),
            v@ == targets@.take(k as int).filter(f),
        decreases targets@.len() - k,
    {
        let i = targets[k];
        proof {
            assert(targets@.take(k + 1).drop_last() =~= targets@.take(k as int));
            reveal(Seq::filter);
        }
        if i < project.clips.len() && project.clips[i].is_photo() {
            v.push(i);
        }
        proof {
            assert(targets@.take(k + 1).last() == i);
            assert(v@ =~= targets@.take(k + 1).filter(f));
        }
        k = k + 1;
    }
    proof {
        assert(targets@.take(targets@.len() as int) =~= targets@);
    }
    v
}

/// Whether a transition of `duration` into clip `i` would be shortened:
/// overlaps are capped at half of the clip and, after the first, at half
/// of the clip before it.
pub open spec fn capped_at(clips: Seq<Clip>, i: usize, duration: int) -> bool {
    &&& i < clips.len()
    &&& (duration > trunc_div(spec_duration(clips[i as int]), 2) || (i > 0 && duration > trunc_div(
        spec_duration(clips[i - 1]),
        2,
    )))
}

/// True if a transition of `duration` would be shortened on any target
/// because a clip next to it is too short.
pub fn transition_capped(project: &Project, targets: &[usize], duration: Ticks) -> (b: bool)
    requires
        forall|k: int| 0 <= k < project.clips@.len() ==> duration_defined(#[trigger] project.clips@[k]),
    ensures
        b == exists|j: int| 0 <= j < targets@.len() && capped_at(project.clips@, #[trigger] targets@[j], duration.0 as int),
{
    let clips = &project.clips;
    let mut j: usize = 0;
    while j < targets.len()
        invariant
            j <= targets@.len(),
            clips@ == project.clips@,
            forall|k: int| 0 <= k < clips@.len() ==> duration_defined(#[trigger] clips@[k]),
            forall|q: int| 0 <= q < j ==> !capped_at(clips@, #[trigger] targets@[q], duration.0 as int),
        decreases targets@.len() - j,
    {
        let i = targets[j];
        if i < clips.len() {
            proof {
                assert(duration_defined(clips@[i as int]));
                if i > 0 {
                    assert(duration_defined(clips@[i - 1]));
                }
            }
            let mut cap = clips[i].duration().div_by(2);
            if i > 0 {
                cap = cap.min(clips[i - 1].duration().div_by(2));
            }
            if duration.0 > cap.0 {
                return true;
            }
        }
        j = j + 1;
    }
    false
}

/// What a timeline clip card shows besides its picture.
#[derive(Copy, Clone, Debug, PartialEq, Eq, Structural)]
pub struct ClipFlags {
    /// Position of the transition kind in the picker (0 = cut).
    pub transition: i32,
    /// The clip is a photo with a Ken Burns movement.
    pub moving: bool,
}

pub fn clip_flags(clip: &Clip) -> (f: ClipFlags)
    ensures
        f.transition == transition_index(clip.transition_in.kind),
        f.moving == (is_photo(*clip) && clip.motion != Motion::Still),
{
    ClipFlags {
        transition: clip.transition_in.kind.index() as i32,
        moving: clip.is_photo() && clip.motion != Motion::Still,
    }
}

/// What probing a library item found.
#[derive(Clone, Debug, PartialEq, Eq)]
pub struct MediaFacts {
    pub duration: Option<Ticks>,
    /// Picture size as displayed (after rotation).
    pub display_size: Option<(u32, u32)>,
    pub captured_at_ms: Option<i64>,
}

/// An item of the media library, as far as the editor reads it.
#[derive(Clone, Debug, PartialEq, Eq)]
pub struct LibraryItem {
    pub id: MediaId,
    pub kind: RefKind,
    pub path: String,
    pub fingerprint_hash: u64,
    pub size: u64,
    pub file_name: String,
    /// Whether probing has finished.
    pub probed: bool,
    /// What probing found, if it succeeded.
    pub info: Option<MediaFacts>,
}

/// The project reference for a library item: only probed items, and
/// videos and audio only with a positive duration; photos carry no
/// duration.
pub open spec fn media_ref_spec(r: LibraryItem) -> Option<MediaRef> {
    if !r.probed || r.info is None {
        None
    } else {
        let info = r.info->0;
        let timed = info.duration matches Some(d) && d.0 > 0;
        if r.kind != RefKind::Photo && !timed {
            None
        } else {
            Some(MediaRef {
                id: r.id,
                kind: r.kind,
                path: r.path,
                fingerprint_hash: r.fingerprint_hash,
                size: r.size,
                pixel_size: info.display_size,
                duration: if r.kind == RefKind::Photo { None } else { info.duration },
                captured_at_ms: info.captured_at_ms,
                name: r.file_name,
            })
        }
    }
}

/// Builds a project media reference from a library item (see
/// `media_ref_spec`). Photos and videos with a known duration can be
/// placed on the timeline, audio with one can become a song.
pub fn media_ref_for(record: &LibraryItem) -> (m: Option<MediaRef>)
    ensures
        m == media_ref_spec(*record),
{
    if !record.probed {
        return None;
    }
    let info = match &record.info {
        Some(i) => i,
        None => return None,
    };
    let timed = match info.duration {
        Some(d) => d.0 > 0,
        None => false,
    };
    let photo = record.kind == RefKind::Photo;
    if !photo && !timed {
        return None;
    }
    Some(MediaRef {
        id: record.id,
        kind: record.kind,
        path: record.path.clone(),
        fingerprint_hash: record.fingerprint_hash,
        size: record.size,
        pixel_size: info.display_size,
        duration: if photo { None } else { info.duration },
        captured_at_ms: info.captured_at_ms,
        name: record.file_name.clone(),
    })
}

/// Library items split by where they go: photos and videos become clips,
/// audio becomes songs of the music track. Both keep their order.
pub fn split_songs(refs: Vec<MediaRef>) -> (r: (Vec<MediaRef>, Vec<MediaRef>))
    ensures
        r.0@ == refs@.filter(|m: MediaRef| m.kind != RefKind::Audio),
        r.1@ == refs@.filter(|m: MediaRef| m.kind == RefKind::Audio),
{
    let ghost f = |m: MediaRef| m.kind != RefKind::Audio;
    let ghost g = |m: MediaRef| m.kind == RefKind::Audio;
    let mut clips: Vec<MediaRef> = Vec::new();
    let mut songs: Vec<MediaRef> = Vec::new();
    let mut k: usize = 0;
    while k < refs.len()
        invariant
            k <= refs@.len(),
            f == (|m: MediaRef| m.kind != RefKind::Audio),
            g == (|m: MediaRef| m.kind == RefKind::Audio),
            clips@ == refs@.take(k as int).filter(f),
            songs@ == refs@.take(k as int).filter(g),
        decreases refs@.len() - k,
    {
        let m = refs[k].clone();
        proof {
            assert(refs@.take(k + 1).drop_last() =~= refs@.take(k as int));
            assert(refs@.take(k + 1).last() == m);
            reveal(Seq::filter);
        }
        if m.kind == RefKind::Audio {
            songs.push(m);
        } else {
            clips.push(m);
        }
        proof {
            assert(clips@ =~= refs@.take(k + 1).filter(f));
            assert(songs@ =~= refs@.take(k + 1).filter(g));
        }
        k = k + 1;
    }
    proof {
        assert(refs@.take(refs@.len() as int) =~= refs@);
    }
    (clips, songs)
}

/// Clips the caption controls act on: the selection, or with nothing
/// selected every clip except title cards (their text is the title).
pub fn caption_targets(project: &Project, selected: &[usize]) -> (v: Vec<usize>)
    ensures
        selected@.len() > 0 ==> v@ == selected@,
        selected@.len() == 0 ==> v@ == Seq::new(project.clips@.len(), |i: int| i as usize).filter(
            |i: usize| !is_title(project.clips@[i as int]),
        ),
{
    if selected.len() > 0 {
        let mut v: Vec<usize> = Vec::new();
        let mut k: usize = 0;
        while k < selected.len()
            invariant
                k <= selected@.len(),
                v@ == selected@.take(k as int),
            decreases selected@.len() - k,
        {
            v.push(selected[k]);
            proof {
                assert(v@ =~= selected@.take(k + 1));
            }
            k = k + 1;
        }
        proof {
            assert(selected@.take(selected@.len() as int) =~= selected@);
        }
        return v;
    }
    let ghost all = Seq::new(project.clips@.len(), |i: int| i as usize);
    let ghost f = |i: usize| !is_title(project.clips@[i as int]);
    let mut v: Vec<usize> = Vec::new();
    let mut i: usize = 0;
    while i < project.clips.len()
        invariant
            i <= project.clips@.len(),
            all == Seq::new(project.clips@.len(), |i: int| i as usize),
            f == (|i: usize| !is_title(project.clips@[i as int])),
            v@ == all.take(i as int).filter(f),
        decreases project.clips@.len() - i,
    {
        proof {
            assert(all.take(i + 1).drop_last() =~= all.take(i as int));
            assert(all.take(i + 1).last() == i);
            reveal(Seq::filter);
        }
        if !project.clips[i].is_title() {
            v.push(i);
        }
        proof {
            assert(v@ =~= all.take(i + 1).filter(f));
        }
        i = i + 1;
    }
    proof {
        assert(all.take(project.clips@.len() as int) =~= all);
    }
    v
}

/// The position of the last `c` in `s`, or -1.
pub open spec fn last_index_of(s: Seq<char>, c: char) -> int
    decreases s.len(),
{
    if s.len() == 0 {
        -1
    } else if s.last() == c {
        s.len() - 1
    } else {
        last_index_of(s.drop_last(), c)
    }
}

proof fn lemma_last_index_of(s: Seq<char>, c: char)
    ensures
        -1 <= last_index_of(s, c) < s.len(),
        last_index_of(s, c) >= 0 ==> s[last_index_of(s, c)] == c,
        forall|k: int| last_index_of(s, c) < k < s.len() ==> s[k] != c,
    decreases s.len(),
{
    if s.len() > 0 && s.last() != c {
        lemma_last_index_of(s.drop_last(), c);
        assert forall|k: int| last_index_of(s, c) < k < s.len() implies s[k] != c by {
            if k < s.len() - 1 {
                assert(s.drop_last()[k] == s[k]);
            }
        }
    }
}

/// Whether a path component names no file: empty, `.` or `..`.
pub open spec fn no_name(p: Seq<char>) -> bool {
    p.len() == 0 || p == seq!['.'] || p == seq!['.', '.']
}

/// The last component of a `/`-separated path, skipping empty and `.`
/// components; `None` when there is none or it is `..`.
pub open spec fn file_name_of(s: Seq<char>) -> Option<Seq<char>>
    decreases s.len(),
{
    let i = last_index_of(s, '/');
    let piece = s.skip(i + 1);
    if i < 0 || i >= s.len() {
        if no_name(s) {
            None
        } else {
            Some(s)
        }
    } else if piece.len() == 0 || piece == seq!['.'] {
        file_name_of(s.take(i))
    } else if piece == seq!['.', '.'] {
        None
    } else {
        Some(piece)
    }
}

/// A file name without its extension: without the part from its last dot
/// on, unless that dot starts the name.
pub open spec fn stem(f: Seq<char>) -> Seq<char> {
    let dot = last_index_of(f, '.');
    if dot <= 0 {
        f
    } else {
        f.take(dot)
    }
}

/// A caption from a file name: the stem of its last component, or the
/// whole text when it names no file.
pub open spec fn caption_from_name(name: Seq<char>) -> Seq<char> {
    match file_name_of(name) {
        Some(f) => stem(f),
        None => name,
    }
}

/// Whether `v[a..b]` is empty, `.` or `..`.
fn names_nothing(v: &Vec<char>, a: usize, b: usize) -> (r: bool)
    requires
        a <= b <= v@.len(),
    ensures
        r == no_name(v@.subrange(a as int, b as int)),
{
    let n = b - a;
    let r = n == 0 || (n == 1 && v[a] == '.') || (n == 2 && v[a] == '.' && v[a + 1] == '.');
    proof {
        let p = v@.subrange(a as int, b as int);
        assert(p.len() == n);
        if n >= 1 {
            assert(p[0] == v@[a as int]);
        }
        if n >= 2 {
            assert(p[1] == v@[a + 1]);
        }
        if p == seq!['.'] {
            assert(p[0] == '.');
        }
        if p == seq!['.', '.'] {
            assert(p[0] == '.' && p[1] == '.');
        }
        if n == 1 && v[a as int] == '.' {
            assert(p =~= seq!['.']);
        }
        if n == 2 && v[a as int] == '.' && v[a + 1] == '.' {
            assert(p =~= seq!['.', '.']);
        }
    }
    r
}

/// Where the file name of `v[..end]` lies in `v`, if it has one.
fn file_name_range(v: &Vec<char>, end: usize) -> (r: Option<(usize, usize)>)
    requires
        end <= v@.len(),
    ensures
        match r {
            Some((a, b)) => a <= b <= end && file_name_of(v@.take(end as int)) == Some(
                v@.subrange(a as int, b as int),
            ),
            None => file_name_of(v@.take(end as int)) is None,
        },
    decreases end,
{
    let ghost s = v@.take(end as int);
    let mut j: usize = end;
    while j > 0 && v[j - 1] != '/'
        invariant
            j <= end <= v@.len(),
            forall|k: int| j <= k < end ==> v@[k] != '/',
        decreases j,
    {
        j = j - 1;
    }
    proof {
        lemma_last_index_of(s, '/');
        if j > 0 {
            assert(s[j - 1] == '/');
        }
        assert(last_index_of(s, '/') == j - 1) by {
            let i = last_index_of(s, '/');
            if i > j - 1 {
                assert(s[i] == '/');
            }
            if i < j - 1 {
                assert(s[j - 1] != '/');
            }
        }
        assert(s.skip(j as int) =~= v@.subrange(j as int, end as int));
    }
    if j == 0 {
        if names_nothing(v, 0, end) {
            proof {
                assert(s =~= v@.subrange(0, end as int));
            }
            None
        } else {
            proof {
                assert(s =~= v@.subrange(0, end as int));
            }
            Some((0, end))
        }
    } else {
        let n = end - j;
        if n == 0 || (n == 1 && v[j] == '.') {
            proof {
                let p = v@.subrange(j as int, end as int);
                if n == 1 {
                    assert(p =~= seq!['.']);
                }
                assert(s.take(j - 1) =~= v@.take(j - 1));
            }
            file_name_range(v, j - 1)
        } else if n == 2 && v[j] == '.' && v[j + 1] == '.' {
            proof {
                let p = v@.subrange(j as int, end as int);
                assert(p =~= seq!['.', '.']);
                assert(p != seq!['.']) by {
                    assert(p.len() != seq!['.'].len());
                }
            }
            None
        } else {
            proof {
                let p = v@.subrange(j as int, end as int);
                if p == seq!['.'] {
                    assert(p[0] == '.');
                }
                if p == seq!['.', '.'] {
                    assert(p[0] == '.' && p[1] == '.');
                }
            }
            Some((j, end))
        }
    }
}

/// A caption from a file name: the name without its extension.
pub fn caption_from_file_name(name: &str) -> (r: String)
    ensures
        r@ == caption_from_name(name@),
{
    let v = chars_of(name);
    proof {
        assert(v@.take(v@.len() as int) =~= v@);
    }
    match file_name_range(&v, v.len()) {
        None => string_of(&v, 0, v.len()),
        Some((a, b)) => {
            let ghost f = v@.subrange(a as int, b as int);
            let mut k: usize = b;
            while k > a && v[k - 1] != '.'
                invariant
                    a <= k <= b <= v@.len(),
                    forall|q: int| k <= q < b ==> v@[q] != '.',
                decreases k,
            {
                k = k - 1;
            }
            proof {
                lemma_last_index_of(f, '.');
                let d = last_index_of(f, '.');
                if k > a {
                    assert(f[k - 1 - a] == '.');
                }
                assert(d == k - 1 - a) by {
                    if d > k - 1 - a {
                        assert(f[d] == '.');
                        assert(v@[a + d] == '.');
                    }
                    if d < k - 1 - a {
                        assert(f[k - 1 - a] != '.');
                    }
                }
            }
            if k - a <= 1 {
                string_of(&v, a, b)
            } else {
                proof {
                    assert(f.take(k - 1 - a) =~= v@.subrange(a as int, k - 1));
                }
                string_of(&v, a, k - 1)
            }
        },
    }
}

/// The caption text a clip shows; empty without a caption.
pub open spec fn caption_text_of(c: Clip) -> Seq<char> {
    match c.caption {
        Some(cap) => cap.text@,
        None => Seq::empty(),
    }
}

/// The style a new caption on `c` gets: that of its caption, else `s`.
pub open spec fn style_or(c: Clip, s: CaptionStyle) -> CaptionStyle {
    match c.caption {
        Some(cap) => cap.style,
        None => s,
    }
}

/// Position, from `k` on, of the first target that has a caption, or the
/// number of targets.
pub open spec fn first_captioned(clips: Seq<Clip>, targets: Seq<usize>, k: int) -> int
    decreases targets.len() - k,
{
    if k >= targets.len() || k < 0 {
        targets.len() as int
    } else if clips[targets[k] as int].caption is Some {
        k
    } else {
        first_captioned(clips, targets, k + 1)
    }
}

/// What the caption field shows for the targets.
#[derive(Debug, PartialEq, Eq)]
pub struct CaptionView {
    /// The shared text ("" when none of the targets has a caption).
    pub text: String,
    /// The targets' captions differ; the field shows a placeholder.
    pub mixed: bool,
    /// Style of the first caption among the targets, else the fallback.
    pub style: CaptionStyle,
    /// Some target has a caption (enables "Remove captions").
    pub any: bool,
}

/// The caption field for `targets`: their shared text, or a placeholder
/// when they differ.
pub fn caption_view(project: &Project, targets: &[usize], fallback: CaptionStyle) -> (v: CaptionView)
    requires
        forall|k: int| 0 <= k < targets@.len() ==> #[trigger] targets@[k] < project.clips@.len(),
    ensures
        ({
            let clips = project.clips@;
            let first = if targets@.len() > 0 {
                caption_text_of(clips[targets@[0] as int])
            } else {
                Seq::<char>::empty()
            };
            let fc = first_captioned(clips, targets@, 0);
            &&& v.mixed == exists|k: int|
                0 <= k < targets@.len() && caption_text_of(clips[#[trigger] targets@[k] as int]) != first
            &&& v.text@ == (if v.mixed {
                Seq::<char>::empty()
            } else {
                first
            })
            &&& v.any == (fc < targets@.len())
            &&& v.style == (if fc < targets@.len() {
                style_or(clips[targets@[fc] as int], fallback)
            } else {
                fallback
            })
        }),
{
    let clips = &project.clips;
    let ghost cs = clips@;
    let empty: Vec<char> = Vec::new();
    let first: Vec<char> = if targets.len() > 0 {
        match &clips[targets[0]].caption {
            Some(c) => chars_of(c.text.as_str()),
            None => Vec::new(),
        }
    } else {
        Vec::new()
    };
    let mut mixed = false;
    let mut k: usize = 0;
    while k < targets.len()
        invariant
            k <= targets@.len(),
            cs == project.clips@,
            clips@ == cs,
            forall|q: int| 0 <= q < targets@.len() ==> #[trigger] targets@[q] < cs.len(),
            first@ == (if targets@.len() > 0 {
                caption_text_of(cs[targets@[0] as int])
            } else {
                Seq::<char>::empty()
            }),
            mixed == exists|q: int| 0 <= q < k && caption_text_of(cs[#[trigger] targets@[q] as int]) != first@,
        decreases targets@.len() - k,
    {
        let t = match &clips[targets[k]].caption {
            Some(c) => chars_of(c.text.as_str()),
            None => Vec::new(),
        };
        let same = crate::strs::vec_eq(&t, &first);
        if !same {
            mixed = true;
        }
        proof {
            assert(t@ == caption_text_of(cs[targets@[k as int] as int]));
        }
        k = k + 1;
    }
    let mut fc: usize = 0;
    proof {
        assert(first_captioned(cs, targets@, 0) == first_captioned(cs, targets@, fc as int));
    }
    while fc < targets.len() && clips[targets[fc]].caption.is_none()
        invariant
            fc <= targets@.len(),
            cs == project.clips@,
            clips@ == cs,
            forall|q: int| 0 <= q < targets@.len() ==> #[trigger] targets@[q] < cs.len(),
            first_captioned(cs, targets@, 0) == first_captioned(cs, targets@, fc as int),
        decreases targets@.len() - fc,
    {
        fc = fc + 1;
    }
    let (style, any) = if fc < targets.len() {
        match &clips[targets[fc]].caption {
            Some(c) => (c.style, true),
            None => (fallback, true),
        }
    } else {
        (fallback, false)
    };
    let text = if mixed {
        String::new()
    } else {
        string_of(&first, 0, first.len())
    };
    proof {
        assert(first@.subrange(0, first@.len() as int) =~= first@);
    }
    CaptionView { text, mixed, style, any }
}

/// `e` sets clip `i`'s caption to `text` in `style`, or removes it when
/// `text` is empty.
pub open spec fn text_entry(e: (usize, Option<Caption>), i: usize, text: Seq<char>, style: CaptionStyle) -> bool {
    &&& e.0 == i
    &&& if text.len() == 0 {
        e.1 is None
    } else {
        e.1 is Some && e.1->0.text@ == text && e.1->0.style == style
    }
}

/// Entries that give every target `text` (empty text removes the caption).
/// Existing captions keep their style; new ones get `style`.
pub fn caption_text_entries(project: &Project, targets: &[usize], text: &str, style: CaptionStyle) -> (v: Vec<
    (usize, Option<Caption>),
>)
    requires
        forall|k: int| 0 <= k < targets@.len() ==> #[trigger] targets@[k] < project.clips@.len(),
    ensures
        v@.len() == targets@.len(),
        forall|k: int|
            0 <= k < targets@.len() ==> text_entry(#[trigger] v@[k], targets@[k], text@, style_or(project.clips@[targets@[k] as int], style)),
{
    let empty = text.unicode_len() == 0;
    let mut v: Vec<(usize, Option<Caption>)> = Vec::new();
    let mut k: usize = 0;
    while k < targets.len()
        invariant
            k <= targets@.len(),
            empty == (text@.len() == 0),
            forall|q: int| 0 <= q < targets@.len() ==> #[trigger] targets@[q] < project.clips@.len(),
            v@.len() == k,
            forall|q: int|
                0 <= q < k ==> text_entry(#[trigger] v@[q], targets@[q], text@, style_or(project.clips@[targets@[q] as int], style)),
        decreases targets@.len() - k,
    {
        let i = targets[k];
        let entry = if empty {
            None
        } else {
            let s = match &project.clips[i].caption {
                Some(c) => c.style,
                None => style,
            };
            Some(Caption::new(text.to_owned(), s))
        };
        v.push((i, entry));
        k = k + 1;
    }
    v
}

/// `e` sets clip `i`'s caption to `text` in `style`.
pub open spec fn style_entry(e: (usize, Option<Caption>), i: usize, text: Seq<char>, style: CaptionStyle) -> bool {
    &&& e.0 == i
    &&& e.1 is Some
    &&& e.1->0.text@ == text
    &&& e.1->0.style == style
}

/// The targets whose existing caption has another style than `style`.
pub open spec fn restyled(clips: Seq<Clip>, targets: Seq<usize>, style: CaptionStyle) -> Seq<usize> {
    targets.filter(|i: usize| clips[i as int].caption matches Some(c) && c.style != style)
}

/// Entries that change the style of the targets' existing captions.
pub fn caption_style_entries(project: &Project, targets: &[usize], style: CaptionStyle) -> (v: Vec<
    (usize, Option<Caption>),
>)
    requires
        forall|k: int| 0 <= k < targets@.len() ==> #[trigger] targets@[k] < project.clips@.len(),
    ensures
        v@.len() == restyled(project.clips@, targets@, style).len(),
        forall|k: int|
            0 <= k < v@.len() ==> style_entry(
                #[trigger] v@[k],
                restyled(project.clips@, targets@, style)[k],
                caption_text_of(project.clips@[restyled(project.clips@, targets@, style)[k] as int]),
                style,
            ),
{
    let ghost f = |i: usize| project.clips@[i as int].caption matches Some(c) && c.style != style;
    let mut v: Vec<(usize, Option<Caption>)> = Vec::new();
    let mut k: usize = 0;
    while k < targets.len()
        invariant
            k <= targets@.len(),
            f == (|i: usize| project.clips@[i as int].caption matches Some(c) && c.style != style),
            forall|q: int| 0 <= q < targets@.len() ==> #[trigger] targets@[q] < project.clips@.len(),
            v@.len() == targets@.take(k as int).filter(f).len(),
            forall|q: int|
                0 <= q < v@.len() ==> style_entry(
                    #[trigger] v@[q],
                    targets@.take(k as int).filter(f)[q],
                    caption_text_of(project.clips@[targets@.take(k as int).filter(f)[q] as int]),
                    style,
                ),
        decreases targets@.len() - k,
    {
        let i = targets[k];
        proof {
            assert(targets@.take(k + 1).drop_last() =~= targets@.take(k as int));
            assert(targets@.take(k + 1).last() == i);
            reveal(Seq::filter);
        }
        let ghost old_v = v@;
        let ghost before = targets@.take(k as int).filter(f);
        match &project.clips[i].caption {
            Some(c) => {
                if c.style != style {
                    let t = c.text.clone();
                    proof {
                        assert(t@ == c.text@);
                    }
                    v.push((i, Some(Caption::new(t, style))));
                }
            },
            None => {},
        }
        proof {
            let after = targets@.take(k + 1).filter(f);
            assert(after == if f(i) {
                before.push(i)
            } else {
                before
            });
            assert forall|q: int| 0 <= q < v@.len() implies style_entry(
                #[trigger] v@[q],
                after[q],
                caption_text_of(project.clips@[after[q] as int]),
                style,
            ) by {
                if q < old_v.len() {
                    assert(v@[q] == old_v[q]);
                    assert(after[q] == before[q]);
                }
            }
        }
        k = k + 1;
    }
    proof {
        assert(targets@.take(targets@.len() as int) =~= targets@);
    }
    v
}

/// `e` fills clip `e.0`'s caption from its media with `text_for`: the clip
/// is no title card, its media is known, the text is what `text_for` gave
/// for that media and an existing caption keeps its style.
pub open spec fn fill_entry<F: Fn(&MediaRef) -> Option<String>>(
    p: crate::project::ProjectModel,
    e: (usize, Option<Caption>),
    style: CaptionStyle,
    text_for: F,
) -> bool {
    &&& e.0 < p.clips.len()
    &&& !is_title(p.clips[e.0 as int])
    &&& p.media.contains_key(p.clips[e.0 as int].media.0)
    &&& e.1 is Some
    &&& e.1->0.style == style_or(p.clips[e.0 as int], style)
    &&& call_ensures(text_for, (&p.media[p.clips[e.0 as int].media.0],), Some(e.1->0.text))
}

/// The targets that are not title cards.
pub open spec fn untitled(clips: Seq<Clip>, targets: Seq<usize>) -> Seq<usize> {
    targets.filter(|i: usize| !is_title(clips[i as int]))
}

/// Entries that fill captions from each target's media with `text_for`.
/// Title cards are left out (they have no media); a clip whose media is
/// unknown, or for which `text_for` gives `None` (no date), is skipped.
/// Returns the entries and how many clips were skipped.
pub fn caption_fill_entries<F: Fn(&MediaRef) -> Option<String>>(
    project: &Project,
    targets: &[usize],
    style: CaptionStyle,
    text_for: F,
) -> (r: (Vec<(usize, Option<Caption>)>, usize))
    requires
        forall|k: int| 0 <= k < targets@.len() ==> #[trigger] targets@[k] < project.clips@.len(),
        forall|m: &MediaRef| call_requires(text_for, (m,)),
    ensures
        r.0@.len() + r.1 == untitled(project.clips@, targets@).len(),
        forall|k: int| 0 <= k < r.0@.len() ==> targets@.contains((#[trigger] r.0@[k]).0) && fill_entry(
            project@,
            r.0@[k],
            style,
            text_for,
        ),
{
    let ghost f = |i: usize| !is_title(project.clips@[i as int]);
    let mut entries: Vec<(usize, Option<Caption>)> = Vec::new();
    let mut skipped: usize = 0;
    let mut k: usize = 0;
    while k < targets.len()
        invariant
            k <= targets@.len(),
            f == (|i: usize| !is_title(project.clips@[i as int])),
            forall|q: int| 0 <= q < targets@.len() ==> #[trigger] targets@[q] < project.clips@.len(),
            forall|m: &MediaRef| call_requires(text_for, (m,)),
            entries@.len() + skipped == targets@.take(k as int).filter(f).len(),
            skipped <= k,
            forall|q: int| 0 <= q < entries@.len() ==> targets@.contains((#[trigger] entries@[q]).0) && fill_entry(
                project@,
                entries@[q],
                style,
                text_for,
            ),
        decreases targets@.len() - k,
    {
        let i = targets[k];
        proof {
            assert(targets@.take(k + 1).drop_last() =~= targets@.take(k as int));
            assert(targets@.take(k + 1).last() == i);
            reveal(Seq::filter);
            assert(targets@[k as int] == i);
        }
        let clip = &project.clips[i];
        if !clip.is_title() {
            let text = match project.media_ref(clip.media) {
                Some(m) => text_for(m),
                None => None,
            };
            match text {
                Some(t) => {
                    let s = match &clip.caption {
                        Some(c) => c.style,
                        None => style,
                    };
                    entries.push((i, Some(Caption::new(t, s))));
                },
                None => {
                    skipped = skipped + 1;
                },
            }
        }
        proof {
            assert(targets@.take(k + 1).filter(f).len() == targets@.take(k as int).filter(f).len() + if f(i) {
                1int
            } else {
                0int
            });
        }
        k = k + 1;
    }
    proof {
        assert(targets@.take(targets@.len() as int) =~= targets@);
    }
    (entries, skipped)
}

/// Whether `v` holds `x`.
fn holds_id(v: &Vec<ClipId>, x: ClipId) -> (b: bool)
    ensures
        b == v@.contains(x),
{
    let mut i: usize = 0;
    while i < v.len()
        invariant
            i <= v@.len(),
            forall|k: int| 0 <= k < i ==> v@[k] != x,
        decreases v@.len() - i,
    {
        if v[i] == x {
            return true;
        }
        i = i + 1;
    }
    false
}

/// Position of the first clip with `id` in `clips`, or `clips.len()`.
pub open spec fn position_of(clips: Seq<Clip>, id: ClipId, from: int) -> int
    decreases clips.len() - from,
{
    if from >= clips.len() || from < 0 {
        clips.len() as int
    } else if clips[from].id == id {
        from
    } else {
        position_of(clips, id, from + 1)
    }
}

proof fn lemma_position_of(clips: Seq<Clip>, id: ClipId, from: int)
    requires
        0 <= from <= clips.len(),
    ensures
        from <= position_of(clips, id, from) <= clips.len(),
        position_of(clips, id, from) < clips.len() ==> clips[position_of(clips, id, from)].id == id,
        forall|k: int| from <= k < position_of(clips, id, from) ==> clips[k].id != id,
    decreases clips.len() - from,
{
    if from < clips.len() && clips[from].id != id {
        lemma_position_of(clips, id, from + 1);
    }
}

/// Index of the first clip with `id`.
fn find_clip(clips: &[Clip], id: ClipId) -> (r: Option<usize>)
    ensures
        match r {
            Some(i) => i == position_of(clips@, id, 0) && i < clips@.len(),
            None => position_of(clips@, id, 0) == clips@.len(),
        },
{
    proof {
        lemma_position_of(clips@, id, 0);
    }
    let mut i: usize = 0;
    while i < clips.len()
        invariant
            i <= clips@.len(),
            position_of(clips@, id, 0) == position_of(clips@, id, i as int),
        decreases clips@.len() - i,
    {
        if clips[i].id == id {
            return Some(i);
        }
        i = i + 1;
    }
    None
}

/// The ids of the clips at positions `lo..=hi`.
pub open spec fn clip_range_ids(clips: Seq<Clip>, lo: int, hi: int) -> Set<ClipId> {
    Set::new(|m: ClipId| exists|k: int| lo <= k <= hi && 0 <= k < clips.len() && clips[k].id == m)
}

/// The ids of all clips.
pub open spec fn all_ids(clips: Seq<Clip>) -> Set<ClipId> {
    clip_range_ids(clips, 0, clips.len() - 1)
}

/// Timeline selection with an anchor for shift-clicks and a keyboard focus.
pub struct Selection {
    /// The selected clips; order and repeats carry no meaning.
    pub ids: Vec<ClipId>,
    pub anchor: Option<ClipId>,
    /// Keyboard focus; clicks move it too.
    pub focus: Option<ClipId>,
}

impl View for Selection {
    type V = Set<ClipId>;

    open spec fn view(&self) -> Set<ClipId> {
        Set::new(|m: ClipId| self.ids@.contains(m))
    }
}

impl Selection {
    /// Nothing selected, no anchor, no focus.
    pub fn new() -> (s: Selection)
        ensures
            s@ == Set::<ClipId>::empty(),
            s.anchor is None,
            s.focus is None,
    {
        let s = Selection { ids: Vec::new(), anchor: None, focus: None };
        proof {
            assert(s@ =~= Set::<ClipId>::empty());
        }
        s
    }

    fn add(&mut self, id: ClipId)
        ensures
            final(self)@ == old(self)@.insert(id),
            final(self).anchor == old(self).anchor,
            final(self).focus == old(self).focus,
    {
        let ghost prev = self.ids@;
        if !holds_id(&self.ids, id) {
            self.ids.push(id);
        }
        proof {
            assert forall|m: ClipId| self.ids@.contains(m) <==> prev.contains(m) || m == id by {
                if !prev.contains(id) {
                    vstd::seq_lib::lemma_seq_contains_after_push(prev, id, m);
                }
            }
            assert(self@ =~= old(self)@.insert(id));
        }
    }

    /// Applies a click on `index` with the given modifiers: plain selects
    /// just that clip, shift extends from the anchor (or the clicked clip
    /// when the anchor is gone), toggle flips one clip. Focus follows the
    /// click; a click past the end does nothing.
    pub fn click(&mut self, clips: &[Clip], index: usize, shift: bool, toggle: bool)
        ensures
            index >= clips@.len() ==> final(self)@ == old(self)@ && final(self).anchor == old(self).anchor
                && final(self).focus == old(self).focus,
            index < clips@.len() ==> final(self).focus == Some(clips@[index as int].id),
            index < clips@.len() && shift ==> {
                let a = match old(self).anchor {
                    Some(id) => if position_of(clips@, id, 0) < clips@.len() {
                        position_of(clips@, id, 0)
                    } else {
                        index as int
                    },
                    None => index as int,
                };
                let lo = if a <= index { a } else { index as int };
                let hi = if a <= index { index as int } else { a };
                &&& final(self)@ == (if toggle { old(self)@ } else { Set::<ClipId>::empty() }).union(
                    clip_range_ids(clips@, lo, hi),
                )
                &&& final(self).anchor == old(self).anchor
            },
            index < clips@.len() && !shift && toggle ==> {
                let c = clips@[index as int].id;
                &&& final(self)@ == (if old(self)@.contains(c) {
                    old(self)@.remove(c)
                } else {
                    old(self)@.insert(c)
                })
                &&& final(self).anchor == Some(c)
            },
            index < clips@.len() && !shift && !toggle ==> final(self)@ == set![clips@[index as int].id]
                && final(self).anchor == Some(clips@[index as int].id),
    {
        if index >= clips.len() {
            return;
        }
        let clicked = clips[index].id;
        self.focus = Some(clicked);
        if shift {
            let anchor_idx = match self.anchor {
                Some(a) => match find_clip(clips, a) {
                    Some(i) => i,
                    None => index,
                },
                None => index,
            };
            let (lo, hi) = if anchor_idx <= index { (anchor_idx, index) } else { (index, anchor_idx) };
            let ghost start = if toggle { self@ } else { Set::<ClipId>::empty() };
            if !toggle {
                self.ids = Vec::new();
                proof {
                    assert(self@ =~= Set::<ClipId>::empty());
                }
            }
            let mut k: usize = lo;
            while k <= hi
                invariant
                    lo <= k <= hi + 1,
                    hi < clips@.len(),
                    self@ == start.union(clip_range_ids(clips@, lo as int, k as int - 1)),
                    self.anchor == old(self).anchor,
                    self.focus == Some(clicked),
                decreases hi + 1 - k,
            {
                self.add(clips[k].id);
                proof {
                    assert(clip_range_ids(clips@, lo as int, k as int) =~= clip_range_ids(
                        clips@,
                        lo as int,
                        k as int - 1,
                    ).insert(clips@[k as int].id));
                    assert(self@ =~= start.union(clip_range_ids(clips@, lo as int, k as int)));
                }
                k = k + 1;
            }
        } else if toggle {
            if holds_id(&self.ids, clicked) {
                let mut rest: Vec<ClipId> = Vec::new();
                let mut i: usize = 0;
                while i < self.ids.len()
                    invariant
                        i <= self.ids@.len(),
                        self.ids@ == old(self).ids@,
                        forall|m: ClipId| rest@.contains(m) <==> (exists|k: int| 0 <= k < i && self.ids@[k] == m)
                            && m != clicked,
                    decreases self.ids@.len() - i,
                {
                    let y = self.ids[i];
                    let ghost prev = rest@;
                    if y != clicked {
                        rest.push(y);
                    }
                    proof {
                        assert forall|m: ClipId| rest@.contains(m) <==> (exists|k: int|
                            0 <= k < i + 1 && self.ids@[k] == m) && m != clicked by {
                            if y != clicked {
                                vstd::seq_lib::lemma_seq_contains_after_push(prev, y, m);
                            }
                            if m == y {
                                assert(self.ids@[i as int] == m);
                            }
                            if (exists|k: int| 0 <= k < i + 1 && self.ids@[k] == m) && m != clicked {
                                let k = choose|k: int| 0 <= k < i + 1 && self.ids@[k] == m;
                                if k < i {
                                    assert(exists|k2: int| 0 <= k2 < i && self.ids@[k2] == m);
                                }
                            }
                        }
                    }
                    i = i + 1;
                }
                proof {
                    assert forall|m: ClipId| rest@.contains(m) <==> old(self)@.contains(m) && m != clicked by {
                        if old(self).ids@.contains(m) {
                            let k = choose|k: int| 0 <= k < old(self).ids@.len() && old(self).ids@[k] == m;
                            assert(exists|k2: int| 0 <= k2 < self.ids@.len() && self.ids@[k2] == m);
                        }
                    }
                }
                self.ids = rest;
                proof {
                    assert(self@ =~= old(self)@.remove(clicked));
                }
            } else {
                self.add(clicked);
            }
            self.anchor = Some(clicked);
        } else {
            self.ids = Vec::new();
            self.ids.push(clicked);
            self.anchor = Some(clicked);
            proof {
                assert(self@ =~= set![clicked]) by {
                    assert(self.ids@[0] == clicked);
                }
            }
        }
    }

    /// Selects every clip; anchor and focus stay.
    pub fn select_all(&mut self, clips: &[Clip])
        ensures
            final(self)@ == all_ids(clips@),
            final(self).anchor == old(self).anchor,
            final(self).focus == old(self).focus,
    {
        self.ids = Vec::new();
        proof {
            assert(self@ =~= clip_range_ids(clips@, 0, -1));
        }
        let mut k: usize = 0;
        while k < clips.len()
            invariant
                k <= clips@.len(),
                self@ == clip_range_ids(clips@, 0, k as int - 1),
                self.anchor == old(self).anchor,
                self.focus == old(self).focus,
            decreases clips@.len() - k,
        {
            self.add(clips[k].id);
            proof {
                assert(clip_range_ids(clips@, 0, k as int) =~= clip_range_ids(clips@, 0, k as int - 1).insert(
                    clips@[k as int].id,
                ));
            }
            k = k + 1;
        }
    }

    /// Nothing selected and no anchor; the focus stays.
    pub fn clear(&mut self)
        ensures
            final(self)@ == Set::<ClipId>::empty(),
            final(self).anchor is None,
            final(self).focus == old(self).focus,
    {
        self.ids = Vec::new();
        self.anchor = None;
        proof {
            assert(self@ =~= Set::<ClipId>::empty());
        }
    }

    /// Moves keyboard focus to `index` without touching the selection.
    pub fn set_focus(&mut self, clips: &[Clip], index: usize)
        ensures
            final(self)@ == old(self)@,
            final(self).anchor == old(self).anchor,
            final(self).focus == (if index < clips@.len() { Some(clips@[index as int].id) } else { old(self).focus }),
    {
        if index < clips.len() {
            self.focus = Some(clips[index].id);
        }
    }

    /// Position of the focused clip, if it still exists.
    pub fn focus_index(&self, clips: &[Clip]) -> (r: Option<usize>)
        ensures
            match self.focus {
                None => r is None,
                Some(f) => if position_of(clips@, f, 0) < clips@.len() {
                    r == Some(position_of(clips@, f, 0) as usize)
                } else {
                    r is None
                },
            },
    {
        match self.focus {
            None => None,
            Some(f) => find_clip(clips, f),
        }
    }

    /// Enter: flips the focused clip in or out of the selection.
    pub fn toggle_focused(&mut self, clips: &[Clip])
        ensures
            match old(self).focus {
                Some(f) => if position_of(clips@, f, 0) < clips@.len() {
                    &&& final(self)@ == (if old(self)@.contains(f) {
                        old(self)@.remove(f)
                    } else {
                        old(self)@.insert(f)
                    })
                    &&& final(self).anchor == Some(f)
                    &&& final(self).focus == Some(f)
                } else {
                    final(self)@ == old(self)@ && final(self).anchor == old(self).anchor && final(self).focus == old(
                        self,
                    ).focus
                },
                None => final(self)@ == old(self)@ && final(self).anchor == old(self).anchor && final(self).focus
                    == old(self).focus,
            },
    {
        proof {
            match self.focus {
                Some(f) => lemma_position_of(clips@, f, 0),
                None => {},
            }
        }
        let _n = clips.len();
        match self.focus_index(clips) {
            Some(i) => {
                proof {
                    let f = self.focus->0;
                    lemma_position_of(clips@, f, 0);
                    assert(self.focus == Some(f));
                    assert(position_of(clips@, f, 0) == i as int);
                    assert(clips@[i as int].id == f);
                }
                self.click(clips, i, false, true);
            },
            None => {},
        }
    }

    /// Drops ids of clips that no longer exist, and an anchor or focus on
    /// one.
    pub fn retain_existing(&mut self, clips: &[Clip])
        ensures
            final(self)@ == old(self)@.intersect(all_ids(clips@)),
            final(self).anchor == (match old(self).anchor {
                Some(a) => if all_ids(clips@).contains(a) { Some(a) } else { None },
                None => None,
            }),
            final(self).focus == (match old(self).focus {
                Some(f) => if all_ids(clips@).contains(f) { Some(f) } else { None },
                None => None,
            }),
    {
        let mut kept: Vec<ClipId> = Vec::new();
        let ghost old_ids = self.ids@;
        let mut i: usize = 0;
        while i < self.ids.len()
            invariant
                i <= self.ids@.len(),
                self.ids@ == old_ids,
                forall|m: ClipId| kept@.contains(m) <==> (exists|k: int| 0 <= k < i && old_ids[k] == m)
                    && all_ids(clips@).contains(m),
            decreases self.ids@.len() - i,
        {
            let m = self.ids[i];
            let found = find_clip(clips, m).is_some();
            proof {
                lemma_position_of(clips@, m, 0);
                if found {
                    assert(clips@[position_of(clips@, m, 0)].id == m);
                }
                assert(found == all_ids(clips@).contains(m));
            }
            let ghost prev = kept@;
            if found {
                kept.push(m);
            }
            proof {
                assert forall|x: ClipId| kept@.contains(x) <==> (exists|k: int| 0 <= k < i + 1 && old_ids[k] == x)
                    && all_ids(clips@).contains(x) by {
                    if found {
                        vstd::seq_lib::lemma_seq_contains_after_push(prev, m, x);
                    }
                    if x == m {
                        assert(old_ids[i as int] == x);
                    }
                    if (exists|k: int| 0 <= k < i + 1 && old_ids[k] == x) && all_ids(clips@).contains(x) {
                        let k = choose|k: int| 0 <= k < i + 1 && old_ids[k] == x;
                        if k < i {
                            assert(exists|k2: int| 0 <= k2 < i && old_ids[k2] == x);
                        }
                    }
                }
            }
            i = i + 1;
        }
        self.ids = kept;
        match self.anchor {
            Some(a) => {
                proof {
                    lemma_position_of(clips@, a, 0);
                }
                if find_clip(clips, a).is_none() {
                    self.anchor = None;
                } else {
                    proof {
                        assert(clips@[position_of(clips@, a, 0)].id == a);
                    }
                }
            },
            None => {},
        }
        match self.focus {
            Some(f) => {
                proof {
                    lemma_position_of(clips@, f, 0);
                }
                if find_clip(clips, f).is_none() {
                    self.focus = None;
                } else {
                    proof {
                        assert(clips@[position_of(clips@, f, 0)].id == f);
                    }
                }
            },
            None => {},
        }
        proof {
            assert(self@ =~= old(self)@.intersect(all_ids(clips@))) by {
                assert forall|m: ClipId| self@.contains(m) <==> old(self)@.contains(m) && all_ids(clips@).contains(m) by {
                    if old(self).ids@.contains(m) {
                        let k = choose|k: int| 0 <= k < old_ids.len() && old_ids[k] == m;
                        assert(exists|k2: int| 0 <= k2 < old_ids.len() && old_ids[k2] == m);
                    }
                }
            }
        }
    }

    /// Positions of the selected clips, in timeline order.
    pub fn indices(&self, clips: &[Clip]) -> (v: Vec<usize>)
        ensures
            v@ == Seq::new(clips@.len(), |i: int| i as usize).filter(|i: usize| self@.contains(clips@[i as int].id)),
    {
        let ghost all = Seq::new(clips@.len(), |i: int| i as usize);
        let ghost f = |i: usize| self@.contains(clips@[i as int].id);
        let mut v: Vec<usize> = Vec::new();
        let mut i: usize = 0;
        while i < clips.len()
            invariant
                i <= clips@.len(),
                all == Seq::new(clips@.len(), |i: int| i as usize),
                f == (|i: usize| self@.contains(clips@[i as int].id)),
                v@ == all.take(i as int).filter(f),
            decreases clips@.len() - i,
        {
            proof {
                assert(all.take(i + 1).drop_last() =~= all.take(i as int));
                assert(all.take(i + 1).last() == i);
                reveal(Seq::filter);
            }
            if holds_id(&self.ids, clips[i].id) {
                v.push(i);
            }
            proof {
                assert(v@ =~= all.take(i + 1).filter(f));
            }
            i = i + 1;
        }
        proof {
            assert(all.take(clips@.len() as int) =~= all);
        }
        v
    }

    pub fn is_empty(&self) -> (b: bool)
        ensures
            b == (self@ == Set::<ClipId>::empty()),
    {
        let b = self.ids.len() == 0;
        proof {
            if b {
                assert(self@ =~= Set::<ClipId>::empty());
            } else {
                assert(self@.contains(self.ids@[0]));
            }
        }
        b
    }
}

} // verus!
