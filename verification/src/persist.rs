//! What saving and loading a project decide, around the JSON itself:
//! which copy is written, which files are refused, and how captions from
//! older files become text items.

use vstd::prelude::*;

use crate::project::{
    clip_problem, first_clip_problem, first_unknown_song, music_problem, project_problem, spec_duration, used_media,
    Project, ProjectModel,
};
use crate::strs::{chars_of, text_eq};
use crate::text::{TextAlign, TextItem, TextMotion, Font};
use crate::time::{Ticks, FLICKS_PER_MILLI};
use crate::timeline::{end_of, placements, start_of, timeline_in_range};
use crate::words::{is_space, space};

verus! {

/// Why a parsed project file cannot be opened.
#[derive(Debug, PartialEq, Eq)]
pub enum LoadError {
    /// Saved by a newer build.
    TooNew { found: u32, supported: u32 },
    /// Inconsistent; the message names the first problem.
    Invalid(String),
}

/// A caption as older files stored it on a clip.
pub struct LegacyCaption {
    /// Index of the clip it was on.
    pub clip: usize,
    pub text: String,
    /// Preset name.
    pub style: String,
}

impl View for LegacyCaption {
    type V = (usize, Seq<char>, Seq<char>);

    open spec fn view(&self) -> (usize, Seq<char>, Seq<char>) {
        (self.clip, self.text@, self.style@)
    }
}

/// Whether a text holds nothing but white space.
pub open spec fn blank(s: Seq<char>) -> bool {
    forall|i: int| 0 <= i < s.len() ==> is_space(#[trigger] s[i])
}

/// Whether an old caption survives as a text item: it is on an existing
/// clip, says something, and the item over that clip's span is valid.
pub open spec fn caption_kept(c: (usize, Seq<char>, Seq<char>), clips: Seq<crate::project::Clip>) -> bool {
    &&& c.0 < clips.len()
    &&& !blank(c.1)
    &&& spec_duration(clips[c.0 as int]) >= 200 * FLICKS_PER_MILLI
    &&& start_of(clips, c.0 as int) >= 0
}

/// The old captions that become text items, in order.
pub open spec fn kept_captions(cs: Seq<(usize, Seq<char>, Seq<char>)>, clips: Seq<crate::project::Clip>) -> Seq<
    (usize, Seq<char>, Seq<char>),
>
    decreases cs.len(),
{
    if cs.len() == 0 {
        Seq::empty()
    } else {
        let rest = kept_captions(cs.drop_last(), clips);
        if caption_kept(cs.last(), clips) {
            rest.push(cs.last())
        } else {
            rest
        }
    }
}

/// The text item an old caption becomes: its text over the clip's span,
/// with the look closest to the old preset. Only the id is free.
pub open spec fn legacy_text(t: TextItem, c: (usize, Seq<char>, Seq<char>), clips: Seq<crate::project::Clip>) -> bool {
    let start = start_of(clips, c.0 as int);
    legacy_look(t, c.1, c.2, start, end_of(clips, c.0 as int) - start)
}

/// `t` shows `text` from `start` for `duration` in the look of the old
/// preset `style` (`headline`, `banner`, `corner`, anything else the
/// classic lower third).
pub open spec fn legacy_look(t: TextItem, text: Seq<char>, style: Seq<char>, start: int, duration: int) -> bool {
    &&& t.text@ == text
    &&& t.start.0 == start
    &&& t.duration.0 == duration
    &&& t.style.font == Font::Inter
    &&& !t.style.italic
    &&& t.style.color@ == seq![255u8, 255u8, 255u8, 255u8]
    &&& t.enter.kind == TextMotion::Fade && t.enter.duration.0 == 500 * FLICKS_PER_MILLI
    &&& t.exit.kind == TextMotion::Fade && t.exit.duration.0 == 500 * FLICKS_PER_MILLI
    &&& if style == "headline"@ {
        &&& t.x == 5_000 && t.y == 5_000 && t.width == 8_000
        &&& t.style.size == 1_000 && t.style.bold && t.style.shadow
        &&& t.style.background is None && t.style.align == TextAlign::Center
    } else if style == "banner"@ {
        &&& t.x == 5_000 && t.y == 8_600 && t.width == 9_000
        &&& t.style.size == 440 && !t.style.bold && !t.style.shadow
        &&& t.style.background matches Some(b) && b@ == seq![0u8, 0u8, 0u8, 150u8]
        &&& t.style.align == TextAlign::Center
    } else if style == "corner"@ {
        &&& t.x == 2_800 && t.y == 9_000 && t.width == 5_000
        &&& t.style.size == 340 && !t.style.bold && t.style.shadow
        &&& t.style.background is None && t.style.align == TextAlign::Left
    } else {
        &&& t.x == 5_000 && t.y == 8_500 && t.width == 8_000
        &&& t.style.size == 520 && t.style.bold && t.style.shadow
        &&& t.style.background is None && t.style.align == TextAlign::Center
    }
}

/// `texts` is `before` followed by one item per kept caption.
pub open spec fn texts_from_captions(
    texts: Seq<TextItem>,
    before: Seq<TextItem>,
    cs: Seq<(usize, Seq<char>, Seq<char>)>,
    clips: Seq<crate::project::Clip>,
) -> bool {
    let kept = kept_captions(cs, clips);
    &&& texts.len() == before.len() + kept.len()
    &&& forall|j: int| 0 <= j < before.len() ==> #[trigger] texts[j] == before[j]
    &&& forall|j: int| 0 <= j < kept.len() ==> legacy_text(#[trigger] texts[before.len() + j], kept[j], clips)
}

/// Whether every character of `s` is white space.
fn is_blank(s: &str) -> (b: bool)
    ensures
        b == blank(s@),
{
    let v = chars_of(s);
    let mut i: usize = 0;
    while i < v.len()
        invariant
            i <= v@.len(),
            v@ == s@,
            forall|k: int| 0 <= k < i ==> is_space(#[trigger] v@[k]),
        decreases v@.len() - i,
    {
        if !space(v[i]) {
            return false;
        }
        i = i + 1;
    }
    true
}

/// The item for one old caption over a span, styled after its preset.
fn legacy_item(c: &LegacyCaption, start: Ticks, duration: Ticks) -> (t: TextItem)
    ensures
        legacy_look(t, c.text@, c.style@, start.0 as int, duration.0 as int),
{
    proof {
        reveal_strlit("headline");
        reveal_strlit("banner");
        reveal_strlit("corner");
    }
    let mut t = TextItem::new(c.text.clone(), start, duration);
    if text_eq(c.style.as_str(), "headline") {
        t.style.size = 1_000;
        t.style.bold = true;
    } else if text_eq(c.style.as_str(), "banner") {
        t.y = 8_600;
        t.width = 9_000;
        t.style.size = 440;
        t.style.shadow = false;
        t.style.background = Some([0, 0, 0, 150]);
    } else if text_eq(c.style.as_str(), "corner") {
        t.x = 2_800;
        t.y = 9_000;
        t.width = 5_000;
        t.style.size = 340;
        t.style.align = TextAlign::Left;
    } else {
        t.y = 8_500;
        t.style.size = 520;
        t.style.bold = true;
    }
    t
}

/// The captions as values.
pub open spec fn caption_views(cs: Seq<LegacyCaption>) -> Seq<(usize, Seq<char>, Seq<char>)> {
    cs.map_values(|c: LegacyCaption| c@)
}

/// Turns old per-clip captions into text items over the same span (see
/// `kept_captions` and `legacy_text`); nothing else changes.
pub fn captions_to_texts(project: &mut Project, captions: Vec<LegacyCaption>)
    requires
        timeline_in_range(old(project).clips@),
    ensures
        final(project)@ == (ProjectModel { texts: final(project)@.texts, ..old(project)@ }),
        texts_from_captions(final(project)@.texts, old(project)@.texts, caption_views(captions@), old(project)@.clips),
{
    let ghost before = project@;
    let ghost cs = caption_views(captions@);
    let ghost clips = project@.clips;
    let places = placements(project.clips.as_slice());
    let mut i: usize = 0;
    proof {
        assert(cs.take(0) =~= Seq::<(usize, Seq<char>, Seq<char>)>::empty());
    }
    while i < captions.len()
        invariant
            i <= captions@.len(),
            cs == caption_views(captions@),
            clips == before.clips,
            places@.len() == clips.len(),
            forall|k: int| 0 <= k < clips.len() ==> #[trigger] places@[k] == crate::timeline::placement_at(clips, k),
            timeline_in_range(clips),
            project@ == (ProjectModel { texts: project@.texts, ..before }),
            texts_from_captions(project@.texts, before.texts, cs.take(i as int), clips),
        decreases captions@.len() - i,
    {
        let c = &captions[i];
        let ghost cv = cs[i as int];
        let ghost n0 = project@.texts.len();
        proof {
            assert(cs.take(i + 1).drop_last() =~= cs.take(i as int));
            assert(cs.take(i + 1).last() == cv);
            assert(cv == c@);
        }
        if c.clip < places.len() && !is_blank(c.text.as_str()) {
            let place = places[c.clip];
            proof {
                let k = c.clip as int;
                assert(crate::project::duration_defined(clips[k]));
                assert(crate::time::fits_i64(start_of(clips, k)) && crate::time::fits_i64(end_of(clips, k)));
                assert(end_of(clips, k) - start_of(clips, k) == spec_duration(clips[k]));
                assert(crate::time::fits_i64(spec_duration(clips[k])));
            }
            let t = legacy_item(c, place.start, place.end.minus(place.start));
            let ok = t.validate().is_ok();
            proof {
                assert(ok == caption_kept(cv, clips));
            }
            if ok {
                project.texts.push(t);
                proof {
                    let kept = kept_captions(cs.take(i + 1), clips);
                    assert(kept == kept_captions(cs.take(i as int), clips).push(cv));
                    assert forall|j: int| 0 <= j < kept.len() implies legacy_text(
                        #[trigger] project@.texts[before.texts.len() + j],
                        kept[j],
                        clips,
                    ) by {
                        if j < kept.len() - 1 {
                            assert(kept[j] == kept_captions(cs.take(i as int), clips)[j]);
                        }
                    }
                }
            } else {
                proof {
                    assert(kept_captions(cs.take(i + 1), clips) == kept_captions(cs.take(i as int), clips));
                }
            }
        } else {
            proof {
                assert(!caption_kept(cv, clips));
                assert(kept_captions(cs.take(i + 1), clips) == kept_captions(cs.take(i as int), clips));
            }
        }
        i = i + 1;
    }
    proof {
        assert(cs.take(captions@.len() as int) =~= cs);
    }
}

/// The copy of `p` that is written to disk: the current format version,
/// and no media that nothing refers to.
pub open spec fn saved_copy(p: ProjectModel) -> ProjectModel {
    ProjectModel { version: crate::PROJECT_FORMAT_VERSION, media: p.media.restrict(used_media(p)), ..p }
}

proof fn lemma_first_clip_problem_pruned(p: ProjectModel, from: int)
    requires
        0 <= from,
    ensures
        first_clip_problem(saved_copy(p), from) == first_clip_problem(p, from),
    decreases p.clips.len() - from,
{
    let q = saved_copy(p);
    if from < p.clips.len() {
        let c = p.clips[from];
        assert(used_media(p).contains(c.media.0));
        assert(q.media.contains_key(c.media.0) == p.media.contains_key(c.media.0));
        if p.media.contains_key(c.media.0) {
            assert(q.media[c.media.0] == p.media[c.media.0]);
        }
        assert(clip_problem(q, from) == clip_problem(p, from));
        lemma_first_clip_problem_pruned(p, from + 1);
    }
}

proof fn lemma_first_unknown_song_pruned(p: ProjectModel, from: int)
    requires
        0 <= from,
    ensures
        first_unknown_song(p.music.songs, saved_copy(p).media, from) == first_unknown_song(
            p.music.songs,
            p.media,
            from,
        ),
    decreases p.music.songs.len() - from,
{
    if from < p.music.songs.len() {
        let m = p.music.songs[from].media.0;
        assert(used_media(p).contains(m));
        lemma_first_unknown_song_pruned(p, from + 1);
    }
}

/// Saving keeps a project's validity: the copy written to disk has exactly
/// the problem, if any, that the project has at the current version; and
/// loading it with no old captions leaves its texts as they are.
pub proof fn law_saved_copy_loads_back(p: ProjectModel)
    ensures
        project_problem(saved_copy(p)) == project_problem(ProjectModel { version: crate::PROJECT_FORMAT_VERSION, ..p }),
        forall|t: Seq<TextItem>| #[trigger] texts_from_captions(t, p.texts, Seq::empty(), p.clips) ==> t == p.texts,
{
    let v = ProjectModel { version: crate::PROJECT_FORMAT_VERSION, ..p };
    lemma_first_clip_problem_pruned(p, 0);
    lemma_first_clip_problem_pruned(v, 0);
    assert(saved_copy(v) == saved_copy(p)) by {
        assert(used_media(v) =~= used_media(p));
    }
    lemma_first_unknown_song_pruned(p, 0);
    assert(music_problem(saved_copy(p)) == music_problem(v));
    assert forall|t: Seq<TextItem>| #[trigger] texts_from_captions(t, p.texts, Seq::empty(), p.clips) implies t
        == p.texts by {
        assert(kept_captions(Seq::<(usize, Seq<char>, Seq<char>)>::empty(), p.clips).len() == 0);
        assert(t =~= p.texts);
    }
}

impl Project {
    /// The copy that is written to disk: the current format version, and
    /// no media that nothing refers to.
    pub fn for_saving(&self) -> (p: Project)
        ensures
            p@ == saved_copy(self@),
    {
        let mut copy = self.clone();
        copy.version = crate::PROJECT_FORMAT_VERSION;
        proof {
            assert(used_media(copy@) == used_media(self@)) by {
                assert(used_media(copy@) =~= used_media(self@));
            }
        }
        copy.prune_media();
        copy
    }

    /// Accepts a parsed project file: refuses one written by a newer
    /// build, upgrades the version, checks it (see `Project::validate`)
    /// and turns old per-clip captions into text items.
    pub fn finish_load(self, captions: Vec<LegacyCaption>) -> (r: Result<Project, LoadError>)
        requires
            timeline_in_range(self.clips@),
        ensures
            self.version > crate::PROJECT_FORMAT_VERSION ==> r == Err::<Project, LoadError>(
                LoadError::TooNew { found: self.version, supported: crate::PROJECT_FORMAT_VERSION },
            ),
            self.version <= crate::PROJECT_FORMAT_VERSION ==> match project_problem(
                ProjectModel { version: crate::PROJECT_FORMAT_VERSION, ..self@ },
            ) {
                Some(m) => r matches Err(LoadError::Invalid(e)) && e@ == m,
                None => r matches Ok(p) && p@ == (ProjectModel {
                    version: crate::PROJECT_FORMAT_VERSION,
                    texts: p@.texts,
                    ..self@
                }) && texts_from_captions(p@.texts, self@.texts, caption_views(captions@), self@.clips),
            },
    {
        if self.version > crate::PROJECT_FORMAT_VERSION {
            return Err(LoadError::TooNew { found: self.version, supported: crate::PROJECT_FORMAT_VERSION });
        }
        let mut p = self;
        p.version = crate::PROJECT_FORMAT_VERSION;
        match p.validate() {
            Err(m) => return Err(LoadError::Invalid(m)),
            Ok(()) => {},
        }
        captions_to_texts(&mut p, captions);
        Ok(p)
    }
}

} // verus!
