//! The project document: settings, referenced media and the clip sequence.
//!
//! Transitions live on the clip they lead *into* (`transition_in`), so
//! inserting or removing a clip never leaves a dangling transition. The
//! first clip's `transition_in` is applied from black.

use vstd::prelude::*;

use std::collections::BTreeMap;
use std::collections::BTreeSet;

use crate::catalog::{CaptionStyle, Fit, Motion, Quarter, RefKind, TitleBackground, TransitionKind};
use crate::digits::{decimal, push_decimal, push_str};
use crate::ids::{uuid_hyphenated, ClipId, MediaId};
use crate::music::{Music, MusicModel, Song, MUSIC_MAX_VOLUME};
use crate::settings::Aspect;
use crate::text::TextItem;
use crate::time::{fits_i64, FrameRate, Ticks};

verus! {

/// Text shown over a clip for as long as the clip is visible. Line breaks
/// in `text` are kept.
#[derive(Debug, PartialEq, Eq, Hash)]
pub struct Caption {
    pub text: String,
    pub style: CaptionStyle,
}

impl Clone for Caption {
    fn clone(&self) -> (r: Self)
        ensures
            r == *self,
    {
        Caption { text: self.text.clone(), style: self.style }
    }
}

impl Caption {
    pub fn new(text: String, style: CaptionStyle) -> (c: Caption)
        ensures
            c.text == text,
            c.style == style,
    {
        Caption { text, style }
    }
}

/// A transition from the previous clip into this one.
#[derive(Copy, Clone, Debug, PartialEq, Eq, Hash, Structural)]
pub struct Transition {
    pub kind: TransitionKind,
    /// Overlap with the previous clip. Ignored (treated as zero) for `Cut`.
    pub duration: Ticks,
}

/// How much a transition overlaps the previous clip.
pub open spec fn spec_overlap(t: Transition) -> int {
    if t.kind == TransitionKind::Cut {
        0
    } else if t.duration.0 > 0 {
        t.duration.0 as int
    } else {
        0
    }
}

impl Transition {
    /// The plain cut.
    pub fn cut() -> (t: Transition)
        ensures
            t.kind == TransitionKind::Cut,
            t.duration.0 == 0,
    {
        Transition { kind: TransitionKind::Cut, duration: Ticks(0) }
    }

    /// How much this transition overlaps the previous clip.
    pub fn overlap(self) -> (o: Ticks)
        ensures
            o.0 == spec_overlap(self),
    {
        match self.kind {
            TransitionKind::Cut => Ticks(0),
            _ => self.duration.max(Ticks(0)),
        }
    }
}

/// Where a clip's frames come from.
#[derive(Copy, Clone, Debug, PartialEq, Eq, Structural)]
pub enum ClipSource {
    /// A still shown for `duration`.
    Photo { duration: Ticks },
    /// A video trimmed to `in_point..out_point` of the source.
    Video { in_point: Ticks, out_point: Ticks },
    /// A title card: a solid background for `duration`; the text is the
    /// clip's caption.
    Title { duration: Ticks, background: TitleBackground },
}

/// One item on the video track.
#[derive(Debug, PartialEq, Eq)]
pub struct Clip {
    pub id: ClipId,
    pub media: MediaId,
    pub source: ClipSource,
    pub fit: Fit,
    pub rotate: Quarter,
    pub transition_in: Transition,
    pub muted: bool,
    /// Audio gain in percent (100 = unchanged). Only meaningful for video.
    pub volume_percent: u16,
    /// Ken Burns movement. Only applied to photos.
    pub motion: Motion,
    /// Text over the clip (the title of a title card).
    pub caption: Option<Caption>,
}

impl Clone for Clip {
    fn clone(&self) -> (r: Self)
        ensures
            r == *self,
    {
        let caption = match &self.caption {
            Some(c) => Some(c.clone()),
            None => None,
        };
        Clip {
            id: self.id,
            media: self.media,
            source: self.source,
            fit: self.fit,
            rotate: self.rotate,
            transition_in: self.transition_in,
            muted: self.muted,
            volume_percent: self.volume_percent,
            motion: self.motion,
            caption,
        }
    }
}

/// Whether computing a clip's duration stays in range (a video's trim
/// range `out - in` must fit an `i64`).
pub open spec fn duration_defined(c: Clip) -> bool {
    match c.source {
        ClipSource::Video { in_point, out_point } => fits_i64(out_point.0 - in_point.0),
        _ => true,
    }
}

/// Time a clip occupies on the timeline (before transition overlap).
pub open spec fn spec_duration(c: Clip) -> int {
    match c.source {
        ClipSource::Photo { duration } => duration.0 as int,
        ClipSource::Title { duration, .. } => duration.0 as int,
        ClipSource::Video { in_point, out_point } => if out_point.0 - in_point.0 > 0 {
            out_point.0 - in_point.0
        } else {
            0
        },
    }
}

pub open spec fn is_photo(c: Clip) -> bool {
    c.source is Photo
}

pub open spec fn is_title(c: Clip) -> bool {
    c.source is Title
}

pub open spec fn is_video(c: Clip) -> bool {
    c.source is Video
}

/// A clip with default look and the given source and media.
pub open spec fn plain_clip(c: Clip, media: MediaId, source: ClipSource) -> bool {
    &&& c.media == media
    &&& c.source == source
    &&& c.fit == Fit::Contain
    &&& c.rotate == Quarter::Upright
    &&& c.transition_in.kind == TransitionKind::Cut
    &&& c.transition_in.duration.0 == 0
    &&& !c.muted
    &&& c.volume_percent == 100
    &&& c.motion == Motion::Still
}

impl Clip {
    /// A photo clip with the given duration (and a fresh random id).
    pub fn photo(media: MediaId, duration: Ticks) -> (c: Clip)
        ensures
            plain_clip(c, media, ClipSource::Photo { duration }),
            c.caption is None,
    {
        Clip {
            id: ClipId::new(),
            media,
            source: ClipSource::Photo { duration },
            fit: Fit::Contain,
            rotate: Quarter::Upright,
            transition_in: Transition::cut(),
            muted: false,
            volume_percent: 100,
            motion: Motion::Still,
            caption: None,
        }
    }

    /// A title card showing `text` (headline style) on `background`.
    pub fn title(text: String, background: TitleBackground, duration: Ticks) -> (c: Clip)
        ensures
            plain_clip(c, MediaId(0), ClipSource::Title { duration, background }),
            c.caption == Some(Caption { text, style: CaptionStyle::Headline }),
    {
        Clip {
            id: ClipId::new(),
            media: MediaId::none(),
            source: ClipSource::Title { duration, background },
            fit: Fit::Contain,
            rotate: Quarter::Upright,
            transition_in: Transition::cut(),
            muted: false,
            volume_percent: 100,
            motion: Motion::Still,
            caption: Some(Caption::new(text, CaptionStyle::Headline)),
        }
    }

    /// A video clip using the whole source.
    pub fn video(media: MediaId, natural_duration: Ticks) -> (c: Clip)
        ensures
            plain_clip(c, media, ClipSource::Video { in_point: Ticks(0), out_point: natural_duration }),
            c.caption is None,
    {
        Clip {
            id: ClipId::new(),
            media,
            source: ClipSource::Video { in_point: Ticks(0), out_point: natural_duration },
            fit: Fit::Contain,
            rotate: Quarter::Upright,
            transition_in: Transition::cut(),
            muted: false,
            volume_percent: 100,
            motion: Motion::Still,
            caption: None,
        }
    }

    /// Audio gain in percent actually applied: 0 when muted, otherwise
    /// the volume capped at 300 %.
    pub fn gain_percent(&self) -> (g: u16)
        ensures
            g == (if self.muted {
                0
            } else if self.volume_percent > 300 {
                300
            } else {
                self.volume_percent
            }),
    {
        if self.muted {
            0
        } else if self.volume_percent > 300 {
            300
        } else {
            self.volume_percent
        }
    }

    /// Time the clip occupies on the timeline (before transition overlap).
    pub fn duration(&self) -> (d: Ticks)
        requires
            duration_defined(*self),
        ensures
            d.0 == spec_duration(*self),
    {
        match self.source {
            ClipSource::Photo { duration } => duration,
            ClipSource::Title { duration, .. } => duration,
            ClipSource::Video { in_point, out_point } => out_point.minus(in_point).max(Ticks(0)),
        }
    }

    pub fn is_photo(&self) -> (b: bool)
        ensures
            b == is_photo(*self),
    {
        match self.source {
            ClipSource::Photo { .. } => true,
            _ => false,
        }
    }

    pub fn is_title(&self) -> (b: bool)
        ensures
            b == is_title(*self),
    {
        match self.source {
            ClipSource::Title { .. } => true,
            _ => false,
        }
    }

    pub fn is_video(&self) -> (b: bool)
        ensures
            b == is_video(*self),
    {
        match self.source {
            ClipSource::Video { .. } => true,
            _ => false,
        }
    }

    /// Photos and title cards: clips with a free duration.
    pub fn is_still(&self) -> (b: bool)
        ensures
            b == !is_video(*self),
    {
        !self.is_video()
    }
}

/// Everything the project needs to know about a media item without asking
/// the library, so a project file is self-describing and relinkable.
#[derive(Debug, PartialEq, Eq)]
pub struct MediaRef {
    pub id: MediaId,
    pub kind: RefKind,
    /// Last known location, for relinking and display.
    pub path: String,
    /// Content fingerprint (hash) and size, matching the library's.
    pub fingerprint_hash: u64,
    pub size: u64,
    /// Displayed pixel size (after rotation). `None` for audio.
    pub pixel_size: Option<(u32, u32)>,
    /// Natural duration for video and audio.
    pub duration: Option<Ticks>,
    /// Capture time in Unix milliseconds, for sorting by date.
    pub captured_at_ms: Option<i64>,
    /// Display name (file name at link time).
    pub name: String,
}

impl Clone for MediaRef {
    fn clone(&self) -> (r: Self)
        ensures
            r == *self,
    {
        MediaRef {
            id: self.id,
            kind: self.kind,
            path: self.path.clone(),
            fingerprint_hash: self.fingerprint_hash,
            size: self.size,
            pixel_size: self.pixel_size,
            duration: self.duration,
            captured_at_ms: self.captured_at_ms,
            name: self.name.clone(),
        }
    }
}

/// Project-wide settings.
#[derive(Copy, Clone, Debug, PartialEq, Eq)]
pub struct ProjectSettings {
    pub aspect: Aspect,
    pub frame_rate: FrameRate,
    /// Duration new photos get when added.
    pub default_photo_duration: Ticks,
    /// Transition new clips get when added.
    pub default_transition: Transition,
    /// Fit new clips get when added.
    pub default_fit: Fit,
    /// Ken Burns movement new photos get when added.
    pub default_motion: Motion,
}

impl ProjectSettings {
    /// Landscape, 30 fps, four-second photos, cuts, contain, no movement.
    pub fn default_settings() -> (s: ProjectSettings)
        ensures
            s.aspect == Aspect::Landscape16x9,
            s.frame_rate.spec_num() == 30 && s.frame_rate.spec_den() == 1,
            s.default_photo_duration.0 == 4 * crate::time::FLICKS_PER_SECOND,
            s.default_transition.kind == TransitionKind::Cut,
            s.default_transition.duration.0 == 0,
            s.default_fit == Fit::Contain,
            s.default_motion == Motion::Still,
    {
        ProjectSettings {
            aspect: Aspect::Landscape16x9,
            frame_rate: FrameRate::default_rate(),
            default_photo_duration: Ticks::from_seconds(4),
            default_transition: Transition::cut(),
            default_fit: Fit::Contain,
            default_motion: Motion::Still,
        }
    }
}

/// The document. Mutated only through [`crate::command::Command`].
#[derive(Debug, PartialEq, Eq)]
pub struct Project {
    pub version: u32,
    pub name: String,
    pub settings: ProjectSettings,
    /// Media referenced by clips and songs, keyed by the media id's value
    /// (and possibly some no longer referenced; pruned on save).
    pub media: BTreeMap<u128, MediaRef>,
    pub clips: Vec<Clip>,
    /// Background music.
    pub music: Music,
    /// The text track.
    pub texts: Vec<TextItem>,
}

/// The document as values.
#[verifier::ext_equal]
pub struct ProjectModel {
    pub version: u32,
    pub name: Seq<char>,
    pub settings: ProjectSettings,
    pub media: Map<u128, MediaRef>,
    pub clips: Seq<Clip>,
    pub music: MusicModel,
    pub texts: Seq<TextItem>,
}

impl View for Project {
    type V = ProjectModel;

    open spec fn view(&self) -> ProjectModel {
        ProjectModel {
            version: self.version,
            name: self.name@,
            settings: self.settings,
            media: self.media@,
            clips: self.clips@,
            music: self.music@,
            texts: self.texts@,
        }
    }
}

/// Index of the first song whose media is not in `media`, searching from
/// `from`.
pub open spec fn first_unknown_song(songs: Seq<Song>, media: Map<u128, MediaRef>, from: int) -> Option<int>
    decreases songs.len() - from,
{
    if from < 0 || from >= songs.len() {
        None
    } else if !media.contains_key(songs[from].media.0) {
        Some(from)
    } else {
        first_unknown_song(songs, media, from + 1)
    }
}

/// Whether two songs share an id.
pub open spec fn songs_share_id(songs: Seq<Song>) -> bool {
    exists|i: int, j: int| 0 <= i < j < songs.len() && songs[i].id == songs[j].id
}

/// The first problem with the music track, if any (the message that
/// `Project::validate_music` reports).
pub open spec fn music_problem(p: ProjectModel) -> Option<Seq<char>> {
    let songs = p.music.songs;
    match first_unknown_song(songs, p.media, 0) {
        Some(i) => Some("song "@ + decimal(i as nat) + " references unknown media "@
            + uuid_hyphenated(songs[i].media.0)),
        None => if songs_share_id(songs) {
            Some("duplicate song ids"@)
        } else if p.music.volume_percent > MUSIC_MAX_VOLUME {
            Some("music volume out of range"@)
        } else if p.music.fade_in.0 < 0 || p.music.fade_out.0 < 0 {
            Some("negative music fade"@)
        } else {
            None
        },
    }
}


/// What is wrong with the clip at `i`, as `Project::validate` reports it.
pub open spec fn clip_problem(p: ProjectModel, i: int) -> Option<Seq<char>> {
    let c = p.clips[i];
    let at = "clip "@ + decimal(i as nat);
    if !is_title(c) && !p.media.contains_key(c.media.0) {
        Some(at + " references unknown media "@ + uuid_hyphenated(c.media.0))
    } else {
        let source_problem = match c.source {
            ClipSource::Photo { duration } => if duration.0 <= 0 {
                Some(at + " has non-positive duration"@)
            } else {
                None
            },
            ClipSource::Title { duration, .. } => if duration.0 <= 0 {
                Some(at + " has non-positive duration"@)
            } else {
                None
            },
            ClipSource::Video { in_point, out_point } => if in_point.0 < 0 || out_point.0 <= in_point.0 {
                Some(at + " has an invalid trim range"@)
            } else if p.media.contains_key(c.media.0) && (p.media[c.media.0].duration matches Some(natural)
                && out_point.0 > natural.0) {
                Some(at + " out point exceeds source duration"@)
            } else {
                None
            },
        };
        match source_problem {
            Some(m) => Some(m),
            None => if c.transition_in.duration.0 < 0 {
                Some(at + " has a negative transition"@)
            } else {
                None
            },
        }
    }
}

/// The first clip problem at or after `from`.
pub open spec fn first_clip_problem(p: ProjectModel, from: int) -> Option<Seq<char>>
    decreases p.clips.len() - from,
{
    if from < 0 || from >= p.clips.len() {
        None
    } else {
        match clip_problem(p, from) {
            Some(m) => Some(m),
            None => first_clip_problem(p, from + 1),
        }
    }
}

/// Whether two clips share an id.
pub open spec fn clip_ids_repeat(clips: Seq<Clip>) -> bool {
    exists|i: int, j: int| 0 <= i < j < clips.len() && clips[i].id == clips[j].id
}

/// The first structural problem of a project, as `Project::validate`
/// reports it: a clip's, then repeated clip ids, then the music track's.
pub open spec fn project_problem(p: ProjectModel) -> Option<Seq<char>> {
    match first_clip_problem(p, 0) {
        Some(m) => Some(m),
        None => if clip_ids_repeat(p.clips) {
            Some("duplicate clip ids"@)
        } else {
            music_problem(p)
        },
    }
}

/// The media ids clips and songs refer to.
pub open spec fn used_media(p: ProjectModel) -> Set<u128> {
    Set::new(|k: u128| (exists|i: int| 0 <= i < p.clips.len() && p.clips[i].media.0 == k)
        || (exists|j: int| 0 <= j < p.music.songs.len() && p.music.songs[j].media.0 == k))
}

proof fn lemma_first_unknown_song(songs: Seq<Song>, media: Map<u128, MediaRef>, from: int)
    requires
        0 <= from <= songs.len(),
    ensures
        match first_unknown_song(songs, media, from) {
            Some(i) => from <= i < songs.len() && !media.contains_key(songs[i].media.0)
                && forall|k: int| from <= k < i ==> media.contains_key(#[trigger] songs[k].media.0),
            None => forall|k: int| from <= k < songs.len() ==> media.contains_key(#[trigger] songs[k].media.0),
        },
    decreases songs.len() - from,
{
    if from < songs.len() && media.contains_key(songs[from].media.0) {
        lemma_first_unknown_song(songs, media, from + 1);
    }
}

impl Clone for Project {
    fn clone(&self) -> (p: Project)
        ensures
            p.version == self.version,
            p.settings == self.settings,
            p.clips@ == self.clips@,
            p.music@ == self.music@,
            p.name@ == self.name@,
            p@ == self@,
    {
        let mut clips: Vec<Clip> = Vec::new();
        let mut i: usize = 0;
        while i < self.clips.len()
            invariant
                i <= self.clips@.len(),
                clips@ == self.clips@.take(i as int),
            decreases self.clips@.len() - i,
        {
            clips.push(self.clips[i].clone());
            proof {
                assert(clips@ =~= self.clips@.take(i + 1));
            }
            i = i + 1;
        }
        proof {
            assert(self.clips@.take(self.clips@.len() as int) =~= self.clips@);
        }
        let texts = self.texts.clone();
        proof {
            assert forall|k: int| 0 <= k < texts@.len() implies texts@[k] == self.texts@[k] by {
                assert(cloned::<TextItem>(self.texts[k], texts[k]));
            }
            assert(texts@ =~= self.texts@);
        }
        Project {
            version: self.version,
            name: self.name.clone(),
            settings: self.settings,
            media: self.media.clone(),
            clips,
            music: self.music.clone(),
            texts,
        }
    }
}

impl Project {
    /// An empty project with default settings.
    pub fn new() -> (p: Project)
        ensures
            p.version == crate::PROJECT_FORMAT_VERSION,
            p@.name.len() == 0,
            p@.media == Map::<u128, MediaRef>::empty(),
            p@.clips.len() == 0,
            p@.texts.len() == 0,
            p@.music.songs.len() == 0,
            p@.music.volume_percent == 100,
            p@.music.fade_in.0 == 0,
            p@.music.fade_out.0 == crate::music::default_fade_out(),
            p@.music.looped && p@.music.duck,
            p.settings.aspect == Aspect::Landscape16x9,
            p.settings.frame_rate.spec_num() == 30 && p.settings.frame_rate.spec_den() == 1,
            p.settings.default_photo_duration.0 == 4 * crate::time::FLICKS_PER_SECOND,
            p.settings.default_transition.kind == TransitionKind::Cut,
            p.settings.default_transition.duration.0 == 0,
            p.settings.default_fit == Fit::Contain,
            p.settings.default_motion == Motion::Still,
    {
        Project {
            version: crate::PROJECT_FORMAT_VERSION,
            name: String::new(),
            settings: ProjectSettings::default_settings(),
            media: BTreeMap::new(),
            clips: Vec::new(),
            music: Music::default_music(),
            texts: Vec::new(),
        }
    }

    /// The media reference with `id`, if the project has one.
    pub fn media_ref(&self, id: MediaId) -> (r: Option<&MediaRef>)
        ensures
            match r {
                Some(m) => self@.media.contains_key(id.0) && *m == self@.media[id.0],
                None => !self@.media.contains_key(id.0),
            },
    {
        broadcast use vstd::std_specs::btree::group_btree_axioms;
        proof {
            crate::keys::lemma_u128_keys_ordered();
        }
        self.media.get(&id.0)
    }

    /// Index of the first clip with `id`.
    pub fn index_of(&self, id: ClipId) -> (r: Option<usize>)
        ensures
            match r {
                Some(i) => i < self@.clips.len() && self@.clips[i as int].id == id
                    && forall|k: int| 0 <= k < i ==> self@.clips[k].id != id,
                None => forall|k: int| 0 <= k < self@.clips.len() ==> self@.clips[k].id != id,
            },
    {
        let mut i: usize = 0;
        while i < self.clips.len()
            invariant
                i <= self@.clips.len(),
                forall|k: int| 0 <= k < i ==> self@.clips[k].id != id,
            decreases self@.clips.len() - i,
        {
            if self.clips[i].id == id {
                return Some(i);
            }
            i = i + 1;
        }
        None
    }

    /// Drops media entries no clip or song refers to.
    pub fn prune_media(&mut self)
        ensures
            final(self)@ == (ProjectModel { media: old(self)@.media.restrict(used_media(old(self)@)), ..old(self)@ }),
    {
        broadcast use vstd::std_specs::btree::group_btree_axioms;
        proof {
            crate::keys::lemma_u128_keys_ordered();
        }
        let ghost p = self@;
        let mut kept: BTreeMap<u128, MediaRef> = BTreeMap::new();
        let mut i: usize = 0;
        while i < self.clips.len()
            invariant
                self@ == p,
                i <= p.clips.len(),
                crate::keys::u128_keys_ordered(),
                kept@ == p.media.restrict(Set::new(|k: u128| exists|a: int| 0 <= a < i && p.clips[a].media.0 == k)),
            decreases p.clips.len() - i,
        {
            let id = self.clips[i].media.0;
            match self.media.get(&id) {
                Some(m) => {
                    kept.insert(id, m.clone());
                },
                None => {},
            }
            proof {
                assert(kept@ =~= p.media.restrict(Set::new(|k: u128| exists|a: int| 0 <= a < i + 1 && p.clips[a].media.0 == k))) by {
                    assert forall|k: u128| #[trigger] kept@.contains_key(k) implies (exists|a: int| 0 <= a < i + 1 && p.clips[a].media.0 == k) by {
                        if k != id {
                            let a = choose|a: int| 0 <= a < i && p.clips[a].media.0 == k;
                            assert(0 <= a < i + 1);
                        } else {
                            assert(p.clips[i as int].media.0 == k);
                        }
                    }
                    assert forall|k: u128| p.media.contains_key(k) && (exists|a: int| 0 <= a < i + 1 && p.clips[a].media.0 == k) implies #[trigger] kept@.contains_key(k) by {
                        let a = choose|a: int| 0 <= a < i + 1 && p.clips[a].media.0 == k;
                        if a < i {
                            assert(exists|b: int| 0 <= b < i && p.clips[b].media.0 == k);
                        }
                    }
                }
            }
            i = i + 1;
        }
        let mut j: usize = 0;
        while j < self.music.songs.len()
            invariant
                self@ == p,
                j <= p.music.songs.len(),
                crate::keys::u128_keys_ordered(),
                kept@ == p.media.restrict(Set::new(|k: u128| (exists|a: int| 0 <= a < p.clips.len() && p.clips[a].media.0 == k)
                    || (exists|b: int| 0 <= b < j && p.music.songs[b].media.0 == k))),
            decreases p.music.songs.len() - j,
        {
            let id = self.music.songs[j].media.0;
            match self.media.get(&id) {
                Some(m) => {
                    kept.insert(id, m.clone());
                },
                None => {},
            }
            proof {
                let before = Set::new(|k: u128| (exists|a: int| 0 <= a < p.clips.len() && p.clips[a].media.0 == k)
                    || (exists|b: int| 0 <= b < j && p.music.songs[b].media.0 == k));
                let after = Set::new(|k: u128| (exists|a: int| 0 <= a < p.clips.len() && p.clips[a].media.0 == k)
                    || (exists|b: int| 0 <= b < j + 1 && p.music.songs[b].media.0 == k));
                assert(kept@ =~= p.media.restrict(after)) by {
                    assert forall|k: u128| #[trigger] kept@.contains_key(k) implies after.contains(k) by {
                        if k != id {
                            assert(before.contains(k));
                            if exists|b: int| 0 <= b < j && p.music.songs[b].media.0 == k {
                                let b = choose|b: int| 0 <= b < j && p.music.songs[b].media.0 == k;
                                assert(0 <= b < j + 1);
                            }
                        } else {
                            assert(p.music.songs[j as int].media.0 == k);
                        }
                    }
                    assert forall|k: u128| p.media.contains_key(k) && after.contains(k) implies #[trigger] kept@.contains_key(k) by {
                        if !(exists|a: int| 0 <= a < p.clips.len() && p.clips[a].media.0 == k) {
                            let b = choose|b: int| 0 <= b < j + 1 && p.music.songs[b].media.0 == k;
                            if b < j {
                                assert(before.contains(k));
                            }
                        } else {
                            assert(before.contains(k));
                        }
                    }
                }
            }
            j = j + 1;
        }
        self.media = kept;
        proof {
            assert(self@ =~= (ProjectModel { media: p.media.restrict(used_media(p)), ..p }));
        }
    }

    /// Checks structural invariants (see `project_problem`). Used by tests
    /// and after loading.
    pub fn validate(&self) -> (r: Result<(), String>)
        ensures
            match project_problem(self@) {
                None => r is Ok,
                Some(msg) => r matches Err(e) && e@ == msg,
            },
    {
        broadcast use vstd::std_specs::btree::group_btree_axioms;
        proof {
            crate::keys::lemma_u128_keys_ordered();
        }
        let mut i: usize = 0;
        while i < self.clips.len()
            invariant
                i <= self@.clips.len(),
                crate::keys::u128_keys_ordered(),
                first_clip_problem(self@, 0) == first_clip_problem(self@, i as int),
            decreases self@.clips.len() - i,
        {
            match self.clip_problem_exec(i) {
                Some(msg) => {
                    return Err(msg);
                },
                None => {},
            }
            i = i + 1;
        }
        let mut a: usize = 0;
        while a < self.clips.len()
            invariant
                a <= self@.clips.len(),
                first_clip_problem(self@, 0) is None,
                forall|x: int, y: int| 0 <= x < y < self@.clips.len() && x < a ==> self@.clips[x].id != self@.clips[y].id,
            decreases self@.clips.len() - a,
        {
            let mut b: usize = a + 1;
            while b < self.clips.len()
                invariant
                    a < self@.clips.len(),
                    a + 1 <= b <= self@.clips.len(),
                    first_clip_problem(self@, 0) is None,
                    forall|x: int, y: int| 0 <= x < y < self@.clips.len() && x < a ==> self@.clips[x].id != self@.clips[y].id,
                    forall|y: int| a < y < b ==> self@.clips[a as int].id != self@.clips[y].id,
                decreases self@.clips.len() - b,
            {
                if self.clips[a].id == self.clips[b].id {
                    proof {
                        assert(clip_ids_repeat(self@.clips));
                    }
                    let mut msg = String::new();
                    push_str(&mut msg, "duplicate clip ids");
                    return Err(msg);
                }
                b = b + 1;
            }
            a = a + 1;
        }
        proof {
            assert(!clip_ids_repeat(self@.clips));
        }
        self.validate_music()
    }

    fn clip_problem_exec(&self, i: usize) -> (r: Option<String>)
        requires
            i < self@.clips.len(),
            crate::keys::u128_keys_ordered(),
        ensures
            match clip_problem(self@, i as int) {
                None => r is None,
                Some(m) => r matches Some(x) && x@ == m,
            },
    {
        broadcast use vstd::std_specs::btree::group_btree_axioms;
        let c = &self.clips[i];
        let mut at = String::new();
        push_str(&mut at, "clip ");
        push_decimal(&mut at, i as u64);
        if !c.is_title() && !self.media.contains_key(&c.media.0) {
            push_str(&mut at, " references unknown media ");
            let id_text = c.media.to_text();
            push_str(&mut at, id_text.as_str());
            return Some(at);
        }
        match c.source {
            ClipSource::Photo { duration } => if duration.0 <= 0 {
                push_str(&mut at, " has non-positive duration");
                return Some(at);
            },
            ClipSource::Title { duration, .. } => if duration.0 <= 0 {
                push_str(&mut at, " has non-positive duration");
                return Some(at);
            },
            ClipSource::Video { in_point, out_point } => {
                if in_point.0 < 0 || out_point.0 <= in_point.0 {
                    push_str(&mut at, " has an invalid trim range");
                    return Some(at);
                }
                match self.media.get(&c.media.0) {
                    Some(m) => match m.duration {
                        Some(natural) => if out_point.0 > natural.0 {
                            push_str(&mut at, " out point exceeds source duration");
                            return Some(at);
                        },
                        None => {},
                    },
                    None => {},
                }
            },
        }
        if c.transition_in.duration.0 < 0 {
            push_str(&mut at, " has a negative transition");
            return Some(at);
        }
        None
    }

    /// Checks the music track alone (used by `SetMusic`): every song's
    /// media is known, song ids are distinct, the volume is at most 200 %
    /// and no fade is negative.
    pub fn validate_music(&self) -> (r: Result<(), String>)
        ensures
            match music_problem(self@) {
                None => r is Ok,
                Some(msg) => r matches Err(e) && e@ == msg,
            },
    {
        broadcast use vstd::std_specs::btree::group_btree_axioms;
        proof {
            crate::keys::lemma_u128_keys_ordered();
        }
        let songs = &self.music.songs;
        let mut i: usize = 0;
        while i < songs.len()
            invariant
                songs@ == self@.music.songs,
                i <= songs@.len(),
                forall|k: int| 0 <= k < i ==> self@.media.contains_key(#[trigger] songs@[k].media.0),
            decreases songs@.len() - i,
        {
            if !self.media.contains_key(&songs[i].media.0) {
                proof {
                    lemma_first_unknown_song(songs@, self@.media, 0);
                    match first_unknown_song(songs@, self@.media, 0) {
                        Some(j) => {
                            if j < i {
                                assert(self@.media.contains_key(songs@[j].media.0));
                            }
                            if j > i {
                                assert(self@.media.contains_key(songs@[i as int].media.0));
                            }
                        },
                        None => {
                            assert(self@.media.contains_key(songs@[i as int].media.0));
                        },
                    }
                    assert(first_unknown_song(songs@, self@.media, 0) == Some(i as int));
                }
                let mut msg = String::new();
                push_str(&mut msg, "song ");
                push_decimal(&mut msg, i as u64);
                push_str(&mut msg, " references unknown media ");
                let id_text = songs[i].media.to_text();
                push_str(&mut msg, id_text.as_str());
                proof {
                    assert(msg@ =~= "song "@ + decimal(i as nat) + " references unknown media "@
                        + uuid_hyphenated(songs@[i as int].media.0));
                }
                return Err(msg);
            }
            i = i + 1;
        }
        proof {
            lemma_first_unknown_song(songs@, self@.media, 0);
            if let Some(x) = first_unknown_song(songs@, self@.media, 0) {
                assert(self@.media.contains_key(songs@[x].media.0));
            }
            assert(first_unknown_song(songs@, self@.media, 0) is None);
        }
        let mut seen: BTreeSet<u128> = BTreeSet::new();
        let mut j: usize = 0;
        while j < songs.len()
            invariant
                songs@ == self@.music.songs,
                j <= songs@.len(),
                first_unknown_song(songs@, self@.media, 0) is None,
                seen@ == Set::new(|v: u128| exists|k: int| 0 <= k < j && songs@[k].id.0 == v),
                forall|a: int, b: int| 0 <= a < b < j ==> songs@[a].id != songs@[b].id,
            decreases songs@.len() - j,
        {
            let fresh = seen.insert(songs[j].id.0);
            if !fresh {
                proof {
                    let k = choose|k: int| 0 <= k < j && songs@[k].id.0 == songs@[j as int].id.0;
                    assert(songs@[k].id == songs@[j as int].id);
                    assert(songs_share_id(songs@));
                }
                let mut msg = String::new();
                push_str(&mut msg, "duplicate song ids");
                return Err(msg);
            }
            proof {
                assert(seen@ =~= Set::new(|v: u128| exists|k: int| 0 <= k < j + 1 && songs@[k].id.0 == v)) by {
                    assert forall|v: u128| seen@.contains(v) implies (exists|k: int| 0 <= k < j + 1 && songs@[k].id.0 == v) by {
                        if v == songs@[j as int].id.0 {
                            assert(songs@[j as int].id.0 == v);
                        } else {
                            let k = choose|k: int| 0 <= k < j && songs@[k].id.0 == v;
                            assert(0 <= k < j + 1 && songs@[k].id.0 == v);
                        }
                    }
                }
                assert forall|a: int, b: int| 0 <= a < b < j + 1 implies songs@[a].id != songs@[b].id by {
                    if b == j {
                        if songs@[a].id == songs@[b].id {
                            assert(seen@.contains(songs@[a].id.0)) by {
                                assert(0 <= a < j && songs@[a].id.0 == songs@[a].id.0);
                            }
                        }
                    }
                }
            }
            j = j + 1;
        }
        proof {
            assert(!songs_share_id(songs@));
        }
        if self.music.volume_percent > MUSIC_MAX_VOLUME {
            let mut msg = String::new();
            push_str(&mut msg, "music volume out of range");
            return Err(msg);
        }
        if self.music.fade_in.0 < 0 || self.music.fade_out.0 < 0 {
            let mut msg = String::new();
            push_str(&mut msg, "negative music fade");
            return Err(msg);
        }
        Ok(())
    }
}

/// A cut never overlaps the previous clip, whatever duration it carries.
pub proof fn law_cut_has_no_overlap(t: Transition)
    requires
        t.kind == TransitionKind::Cut,
    ensures
        spec_overlap(t) == 0,
{
}

} // verus!
