//! Commands: the only way to change a [`Project`]. Each `apply` returns the
//! inverse command, which is what undo replays.

use vstd::prelude::*;

use crate::catalog::{Fit, Motion, Quarter, TitleBackground};
use crate::edits::{
    apply_update, check_indices_exec, clone_caption, first_failing_exec, index_check_result,
    reason_text, set_each_exec, snapshot_exec, update_at_exec,
};
use crate::music::{Music, MusicModel};
use crate::project::{
    is_title, Caption, Clip, ClipSource, MediaRef, Project, ProjectModel, ProjectSettings, Transition,
};
use crate::semantics::{
    any_negative_transition, apply_fuel, apply_model, depth, lemma_fuel, lemma_max_depth, max_depth, rollback, run_batch,
    caption_updates, clip_defect, entry_indices, first_failing, first_insert_defect, insert_all,
    insert_defect, insert_outcome, merge_media, motion_updates, remove_all, remove_outcome,
    replace_updates, set_each, set_each_outcome, set_field_outcome, snapshot, transition_updates,
    update_at, Outcome, Requirement, Update,
};
use crate::sorting::{check_indices, lemma_check_indices, sort_by_index, sort_entries, IndexCheck};
use crate::time::Ticks;

verus! {

/// Error for a command that cannot be applied to the current project.
#[derive(Debug, PartialEq, Eq)]
pub enum CommandError {
    IndexOutOfRange { index: usize, len: usize },
    DuplicateIndex(usize),
    BadPermutation,
    NonPositiveDuration,
    InvalidTrim,
    NotApplicable { index: usize, reason: &'static str },
    UnknownMedia,
    InvalidMusic(String),
}

/// A command error as values.
pub enum ErrorModel {
    IndexOutOfRange { index: usize, len: usize },
    DuplicateIndex(usize),
    BadPermutation,
    NonPositiveDuration,
    InvalidTrim,
    NotApplicable { index: usize, reason: Seq<char> },
    UnknownMedia,
    InvalidMusic(Seq<char>),
}

impl View for CommandError {
    type V = ErrorModel;

    open spec fn view(&self) -> ErrorModel {
        match self {
            CommandError::IndexOutOfRange { index, len } => ErrorModel::IndexOutOfRange { index: *index, len: *len },
            CommandError::DuplicateIndex(i) => ErrorModel::DuplicateIndex(*i),
            CommandError::BadPermutation => ErrorModel::BadPermutation,
            CommandError::NonPositiveDuration => ErrorModel::NonPositiveDuration,
            CommandError::InvalidTrim => ErrorModel::InvalidTrim,
            CommandError::NotApplicable { index, reason } => ErrorModel::NotApplicable { index: *index, reason: reason@ },
            CommandError::UnknownMedia => ErrorModel::UnknownMedia,
            CommandError::InvalidMusic(m) => ErrorModel::InvalidMusic(m@),
        }
    }
}

/// Where a command's clips came from, for undo labels in the UI.
#[derive(Copy, Clone, Debug, PartialEq, Eq, Structural)]
pub enum CommandLabel {
    Insert,
    Remove,
    Reorder,
    Duration,
    Fit,
    Rotate,
    Transition,
    Trim,
    Mute,
    Motion,
    Music,
    Caption,
    Title,
    Settings,
}

#[derive(Debug, PartialEq, Eq)]
pub enum Command {
    /// Inserts clips so that each ends up at its given index (ascending).
    /// `media` is merged into the project's media table first.
    InsertClips { entries: Vec<(usize, Clip)>, media: Vec<MediaRef> },
    /// Removes the clips at these indices.
    RemoveClips { indices: Vec<usize> },
    /// Reorders all clips: `order[new_index] = old_index`.
    Reorder { order: Vec<usize> },
    /// Sets the duration of photo clips and title cards. Video clips in
    /// the selection are rejected.
    SetPhotoDuration { indices: Vec<usize>, duration: Ticks },
    /// Sets the trim range of a video clip.
    SetTrim { index: usize, in_point: Ticks, out_point: Ticks },
    SetFit { indices: Vec<usize>, fit: Fit },
    SetRotate { indices: Vec<usize>, rotate: Quarter },
    SetTransition { indices: Vec<usize>, transition: Transition },
    SetMuted { indices: Vec<usize>, muted: bool },
    /// Sets the audio gain in percent (0–300).
    SetVolume { indices: Vec<usize>, percent: u16 },
    /// Sets the same Ken Burns movement on photo clips.
    SetMotion { indices: Vec<usize>, motion: Motion },
    /// Sets an individual transition per clip (shuffle). One undo step.
    SetTransitionEach { entries: Vec<(usize, Transition)> },
    /// Sets an individual movement per photo clip (shuffle). One undo step.
    SetMotionEach { entries: Vec<(usize, Motion)> },
    SetSettings { settings: ProjectSettings },
    /// Sets (or with `None` removes) the caption of each listed clip. One
    /// undo step for typing, style changes, auto-fill and removal.
    SetCaptions { entries: Vec<(usize, Option<Caption>)> },
    /// Sets the background of title cards.
    SetTitleBackground { indices: Vec<usize>, background: TitleBackground },
    /// Replaces the music track (songs and their settings). `media` is
    /// merged into the project's media table first.
    SetMusic { music: Music, media: Vec<MediaRef> },
    /// Replays several commands as one undo step.
    Batch { commands: Vec<Command> },
    /// Restores per-clip values (inverse of the bulk setters).
    RestoreClips { entries: Vec<(usize, Clip)> },
}

/// A command as values.
pub enum CommandModel {
    InsertClips { entries: Seq<(usize, Clip)>, media: Seq<MediaRef> },
    RemoveClips { indices: Seq<usize> },
    Reorder { order: Seq<usize> },
    SetPhotoDuration { indices: Seq<usize>, duration: Ticks },
    SetTrim { index: usize, in_point: Ticks, out_point: Ticks },
    SetFit { indices: Seq<usize>, fit: Fit },
    SetRotate { indices: Seq<usize>, rotate: Quarter },
    SetTransition { indices: Seq<usize>, transition: Transition },
    SetMuted { indices: Seq<usize>, muted: bool },
    SetVolume { indices: Seq<usize>, percent: u16 },
    SetMotion { indices: Seq<usize>, motion: Motion },
    SetTransitionEach { entries: Seq<(usize, Transition)> },
    SetMotionEach { entries: Seq<(usize, Motion)> },
    SetSettings { settings: ProjectSettings },
    SetCaptions { entries: Seq<(usize, Option<Caption>)> },
    SetTitleBackground { indices: Seq<usize>, background: TitleBackground },
    SetMusic { music: MusicModel, media: Seq<MediaRef> },
    Batch { commands: Seq<CommandModel> },
    RestoreClips { entries: Seq<(usize, Clip)> },
}

pub open spec fn command_model(c: Command) -> CommandModel
    decreases c, 0nat,
{
    match c {
        Command::InsertClips { entries, media } => CommandModel::InsertClips { entries: entries@, media: media@ },
        Command::RemoveClips { indices } => CommandModel::RemoveClips { indices: indices@ },
        Command::Reorder { order } => CommandModel::Reorder { order: order@ },
        Command::SetPhotoDuration { indices, duration } => CommandModel::SetPhotoDuration { indices: indices@, duration },
        Command::SetTrim { index, in_point, out_point } => CommandModel::SetTrim { index, in_point, out_point },
        Command::SetFit { indices, fit } => CommandModel::SetFit { indices: indices@, fit },
        Command::SetRotate { indices, rotate } => CommandModel::SetRotate { indices: indices@, rotate },
        Command::SetTransition { indices, transition } => CommandModel::SetTransition { indices: indices@, transition },
        Command::SetMuted { indices, muted } => CommandModel::SetMuted { indices: indices@, muted },
        Command::SetVolume { indices, percent } => CommandModel::SetVolume { indices: indices@, percent },
        Command::SetMotion { indices, motion } => CommandModel::SetMotion { indices: indices@, motion },
        Command::SetTransitionEach { entries } => CommandModel::SetTransitionEach { entries: entries@ },
        Command::SetMotionEach { entries } => CommandModel::SetMotionEach { entries: entries@ },
        Command::SetSettings { settings } => CommandModel::SetSettings { settings },
        Command::SetCaptions { entries } => CommandModel::SetCaptions { entries: entries@ },
        Command::SetTitleBackground { indices, background } => CommandModel::SetTitleBackground { indices: indices@, background },
        Command::SetMusic { music, media } => CommandModel::SetMusic { music: music@, media: media@ },
        Command::Batch { commands } => CommandModel::Batch { commands: commands_model(commands@) },
        Command::RestoreClips { entries } => CommandModel::RestoreClips { entries: entries@ },
    }
}

pub open spec fn commands_model(s: Seq<Command>) -> Seq<CommandModel>
    decreases s, 1nat,
{
    if s.len() == 0 {
        Seq::empty()
    } else {
        commands_model(s.drop_last()).push(command_model(s.last()))
    }
}

impl View for Command {
    type V = CommandModel;

    open spec fn view(&self) -> CommandModel {
        command_model(*self)
    }
}

/// A command's result as values.
pub open spec fn result_model(r: Result<Command, CommandError>) -> Result<CommandModel, ErrorModel> {
    match r {
        Ok(c) => Ok(c@),
        Err(e) => Err(e@),
    }
}

/// Merges `refs` into the project's media table, in order.
fn merge_media_exec(project: &mut Project, refs: &Vec<MediaRef>)
    ensures
        final(project)@ == (ProjectModel { media: merge_media(old(project)@.media, refs@), ..old(project)@ }),
{
    broadcast use vstd::std_specs::btree::group_btree_axioms;
    proof {
        crate::keys::lemma_u128_keys_ordered();
    }
    let ghost orig = project@;
    let mut k: usize = 0;
    while k < refs.len()
        invariant
            k <= refs@.len(),
            crate::keys::u128_keys_ordered(),
            project@ == (ProjectModel { media: merge_media(orig.media, refs@.subrange(0, k as int)), ..orig }),
        decreases refs@.len() - k,
    {
        let m = refs[k].clone();
        project.media.insert(m.id.0, m);
        proof {
            assert(refs@.subrange(0, k + 1).drop_last() =~= refs@.subrange(0, k as int));
        }
        k = k + 1;
    }
    proof {
        assert(refs@.subrange(0, refs@.len() as int) =~= refs@);
    }
}

/// Why a clip cannot be inserted, looking at the clip alone.
fn check_clip(c: &Clip) -> (r: Result<(), CommandError>)
    ensures
        match clip_defect(*c) {
            Some(e) => r matches Err(x) && x@ == e,
            None => r is Ok,
        },
{
    match c.source {
        ClipSource::Photo { duration } => if duration.0 <= 0 {
            return Err(CommandError::NonPositiveDuration);
        },
        ClipSource::Title { duration, .. } => if duration.0 <= 0 {
            return Err(CommandError::NonPositiveDuration);
        },
        ClipSource::Video { in_point, out_point } => if in_point.0 < 0 || out_point.0 <= in_point.0 {
            return Err(CommandError::InvalidTrim);
        },
    }
    Ok(())
}

fn insert_clips(project: &mut Project, entries: Vec<(usize, Clip)>, refs: Vec<MediaRef>) -> (r: Result<Command, CommandError>)
    ensures
        (final(project)@, result_model(r)) == insert_outcome(old(project)@, entries@, refs@),
{
    broadcast use vstd::std_specs::btree::group_btree_axioms;
    proof {
        crate::keys::lemma_u128_keys_ordered();
    }
    let ghost p0 = project@;
    let sorted = sort_by_index(entries);
    merge_media_exec(project, &refs);
    let ghost media = project@.media;
    let mut k: usize = 0;
    while k < sorted.len()
        invariant
            k <= sorted@.len(),
            sorted@ == sort_entries(entries@),
            media == project@.media,
            project@ == (ProjectModel { media: merge_media(p0.media, refs@), ..p0 }),
            p0 == old(project)@,
            crate::keys::u128_keys_ordered(),
            first_insert_defect(sorted@, media, 0) == first_insert_defect(sorted@, media, k as int),
        decreases sorted@.len() - k,
    {
        let c = &sorted[k].1;
        if !c.is_title() && !project.media.contains_key(&c.media.0) {
            proof {
                assert(first_insert_defect(sorted@, media, k as int) == Some(ErrorModel::UnknownMedia));
            }
            return Err(CommandError::UnknownMedia);
        }
        match check_clip(c) {
            Err(e) => {
                proof {
                    assert(first_insert_defect(sorted@, media, k as int) == Some(e@));
                }
                return Err(e);
            },
            Ok(()) => {},
        }
        proof {
            assert(insert_defect(*c, media) is None);
        }
        k = k + 1;
    }
    let ghost p1 = project@;
    proof {
        assert(sorted@.subrange(0, sorted@.len() as int) =~= sorted@);
        assert(first_insert_defect(sorted@, media, sorted@.len() as int) is None);
        crate::semantics::lemma_insert_all_overflow(p1.clips, sorted@);
    }
    // Every index is checked before anything is inserted, so a failure
    // leaves the clips as they were.
    let len0 = project.clips.len();
    let mut k: usize = 0;
    while k < sorted.len()
        invariant
            k <= sorted@.len(),
            p1 == project@,
            len0 == p1.clips.len(),
            sorted@ == sort_entries(entries@),
            p1 == (ProjectModel { media: merge_media(p0.media, refs@), ..p0 }),
            p0 == old(project)@,
            first_insert_defect(sorted@, p1.media, 0) is None,
            insert_all(p1.clips, sorted@).1 == crate::semantics::first_overflow(sorted@, len0 as int, 0),
            crate::semantics::first_overflow(sorted@, len0 as int, 0) == crate::semantics::first_overflow(
                sorted@,
                len0 as int,
                k as int,
            ),
        decreases sorted@.len() - k,
    {
        let i = sorted[k].0;
        if i >= k && i - k > len0 {
            proof {
                assert(i > len0 + k);
            }
            return Err(CommandError::IndexOutOfRange { index: i, len: len0 + k });
        }
        k = k + 1;
    }
    let mut indices: Vec<usize> = Vec::new();
    let mut k: usize = 0;
    while k < sorted.len()
        invariant
            k <= sorted@.len(),
            sorted@ == sort_entries(entries@),
            p1 == (ProjectModel { media: merge_media(p0.media, refs@), ..p0 }),
            p0 == old(project)@,
            first_insert_defect(sorted@, p1.media, 0) is None,
            insert_all(p1.clips, sorted@).1 is None,
            project@ == with_clips_model(p1, project@.clips),
            insert_all(p1.clips, sorted@) == insert_all(project@.clips, sorted@.subrange(k as int, sorted@.len() as int)),
            indices@ == entry_indices(sorted@.subrange(0, k as int)),
        decreases sorted@.len() - k,
    {
        let i = sorted[k].0;
        proof {
            assert(sorted@.subrange(k as int, sorted@.len() as int).drop_first() =~= sorted@.subrange(k + 1, sorted@.len() as int));
        }
        if i > project.clips.len() {
            return Err(CommandError::IndexOutOfRange { index: i, len: project.clips.len() });
        }
        project.clips.insert(i, sorted[k].1.clone());
        indices.push(i);
        k = k + 1;
        proof {
            assert(indices@ =~= entry_indices(sorted@.subrange(0, k as int)));
        }
    }
    proof {
        assert(sorted@.subrange(0, sorted@.len() as int) =~= sorted@);
        assert(sorted@.subrange(sorted@.len() as int, sorted@.len() as int) =~= Seq::<(usize, Clip)>::empty());
    }
    Ok(Command::RemoveClips { indices })
}

pub open spec fn with_clips_model(p: ProjectModel, clips: Seq<Clip>) -> ProjectModel {
    ProjectModel { clips, ..p }
}

/// In a strictly increasing list of indices below `len`, the entry at
/// position `j` leaves room for the `n - 1 - j` larger ones.
proof fn lemma_strict_bound(t: Seq<usize>, len: int, j: int)
    requires
        crate::sorting::strictly_increasing(t),
        forall|i: int| 0 <= i < t.len() ==> t[i] < len,
        0 <= j < t.len(),
    ensures
        t[j] + (t.len() - j) <= len,
    decreases t.len() - j,
{
    if j + 1 < t.len() {
        lemma_strict_bound(t, len, j + 1);
        assert(t[j] < t[j + 1]);
    }
}

fn remove_clips(project: &mut Project, indices: Vec<usize>) -> (r: Result<Command, CommandError>)
    ensures
        (final(project)@, result_model(r)) == remove_outcome(old(project)@, indices@),
{
    let ghost p0 = project@;
    let t = match check_indices_exec(indices.as_slice(), project.clips.len()) {
        Ok(t) => t,
        Err(e) => {
            return Err(e);
        },
    };
    let removed = snapshot_exec(&project.clips, &t);
    let n = t.len();
    let mut k: usize = n;
    proof {
        assert(t@.subrange(0, n as int) =~= t@);
    }
    while k > 0
        invariant
            k <= n,
            n == t@.len(),
            p0 == old(project)@,
            crate::sorting::strictly_increasing(t@),
            forall|i: int| 0 <= i < t@.len() ==> t@[i] < p0.clips.len(),
            project@ == with_clips_model(p0, project@.clips),
            project@.clips.len() == p0.clips.len() - (n - k),
            remove_all(p0.clips, t@) == remove_all(project@.clips, t@.subrange(0, k as int)),
        decreases k,
    {
        proof {
            lemma_strict_bound(t@, p0.clips.len() as int, k - 1);
            assert(t@.subrange(0, k as int).drop_last() =~= t@.subrange(0, k - 1));
        }
        k = k - 1;
        project.clips.remove(t[k]);
    }
    proof {
        assert(t@.subrange(0, 0) =~= Seq::<usize>::empty());
    }
    Ok(Command::InsertClips { entries: removed, media: Vec::new() })
}

fn reorder_clips(project: &mut Project, order: Vec<usize>) -> (r: Result<Command, CommandError>)
    ensures
        (final(project)@, result_model(r)) == crate::semantics::reorder_outcome(old(project)@, order@),
{
    let ghost p0 = project@;
    let len = project.clips.len();
    if order.len() != len {
        return Err(CommandError::BadPermutation);
    }
    let mut seen: Vec<bool> = vec![false; len];
    let mut k: usize = 0;
    while k < len
        invariant
            k <= len,
            len == order@.len(),
            seen@.len() == len,
            forall|x: int| 0 <= x < len ==> (#[trigger] seen@[x] <==> exists|j: int| 0 <= j < k && order@[j] == x),
            forall|j: int| 0 <= j < k ==> order@[j] < len,
            forall|i: int, j: int| 0 <= i < j < k ==> order@[i] != order@[j],
        decreases len - k,
    {
        let o = order[k];
        if o >= len || seen[o] {
            proof {
                if o < len {
                    let j = choose|j: int| 0 <= j < k && order@[j] == o;
                    assert(order@[j] == order@[k as int]);
                }
                assert(!crate::semantics::is_permutation(order@, len as nat));
            }
            return Err(CommandError::BadPermutation);
        }
        seen.set(o, true);
        proof {
            assert forall|x: int| 0 <= x < len implies (#[trigger] seen@[x] <==> exists|j: int| 0 <= j < k + 1 && order@[j] == x) by {
                if x == o as int {
                    assert(order@[k as int] == x);
                } else if seen@[x] {
                    let j = choose|j: int| 0 <= j < k && order@[j] == x;
                    assert(0 <= j < k + 1 && order@[j] == x);
                } else {
                    if exists|j: int| 0 <= j < k + 1 && order@[j] == x {
                        let j = choose|j: int| 0 <= j < k + 1 && order@[j] == x;
                        assert(j != k);
                    }
                }
            }
            assert forall|i: int, j: int| 0 <= i < j < k + 1 implies order@[i] != order@[j] by {
                if j == k && order@[i] == order@[j] {
                    assert(seen@[order@[i] as int]) by {
                        assert(0 <= i < k && order@[i] == order@[i]);
                    }
                }
            }
        }
        k = k + 1;
    }
    let mut clips: Vec<Clip> = Vec::new();
    let mut inverse: Vec<usize> = vec![0; len];
    let mut i: usize = 0;
    while i < len
        invariant
            i <= len,
            len == order@.len(),
            len == p0.clips.len(),
            p0 == project@,
            crate::semantics::is_permutation(order@, len as nat),
            clips@ =~= Seq::new(i as nat, |m: int| p0.clips[order@[m] as int]),
            inverse@.len() == len,
            forall|x: int| 0 <= x < len ==> #[trigger] inverse@[x] == (if exists|m: int| 0 <= m < i && order@[m] == x {
                (choose|m: int| 0 <= m < i && order@[m] == x) as usize
            } else {
                0usize
            }),
        decreases len - i,
    {
        let o = order[i];
        clips.push(project.clips[o].clone());
        inverse.set(o, i);
        proof {
            assert forall|x: int| 0 <= x < len implies #[trigger] inverse@[x] == (if exists|m: int| 0 <= m < i + 1 && order@[m] == x {
                (choose|m: int| 0 <= m < i + 1 && order@[m] == x) as usize
            } else {
                0usize
            }) by {
                if x == o as int {
                    assert(order@[i as int] == x);
                    let m = choose|m: int| 0 <= m < i + 1 && order@[m] == x;
                    if m != i {
                        assert(order@[m] != order@[i as int]);
                    }
                } else {
                    if exists|m: int| 0 <= m < i + 1 && order@[m] == x {
                        let m = choose|m: int| 0 <= m < i + 1 && order@[m] == x;
                        assert(m != i);
                        assert(0 <= m < i && order@[m] == x);
                        let m2 = choose|m2: int| 0 <= m2 < i && order@[m2] == x;
                        if m2 != m {
                            assert(order@[m2] != order@[m]);
                        }
                    } else {
                        assert(!exists|m: int| 0 <= m < i && order@[m] == x);
                    }
                }
            }
        }
        i = i + 1;
    }
    proof {
        assert forall|x: int| 0 <= x < len implies #[trigger] inverse@[x] == crate::semantics::inverse_order(order@)[x] by {
            if exists|m: int| 0 <= m < len && order@[m] == x {
                let m = choose|m: int| 0 <= m < len && order@[m] == x;
                let m2 = choose|m2: int| 0 <= m2 < order@.len() && order@[m2] == x;
                if m != m2 {
                    if m < m2 {
                        assert(order@[m] != order@[m2]);
                    } else {
                        assert(order@[m2] != order@[m]);
                    }
                }
            }
        }
        assert(inverse@ =~= crate::semantics::inverse_order(order@));
    }
    project.clips = clips;
    Ok(Command::Reorder { order: inverse })
}

fn set_field(project: &mut Project, indices: Vec<usize>, req: Option<Requirement>, u: Update) -> (r: Result<Command, CommandError>)
    ensures
        (final(project)@, result_model(r)) == set_field_outcome(old(project)@, indices@, req, u),
{
    let t = match check_indices_exec(indices.as_slice(), project.clips.len()) {
        Ok(t) => t,
        Err(e) => {
            return Err(e);
        },
    };
    if let Some(rq) = req {
        if let Some(k) = first_failing_exec(&project.clips, &t, rq) {
            return Err(CommandError::NotApplicable { index: k, reason: reason_text(rq) });
        }
    }
    let before = snapshot_exec(&project.clips, &t);
    update_at_exec(&mut project.clips, &t, &u);
    Ok(Command::RestoreClips { entries: before })
}

fn entry_indices_exec(entries: &Vec<(usize, Update)>) -> (v: Vec<usize>)
    ensures
        v@ == entry_indices(entries@),
{
    let mut v: Vec<usize> = Vec::new();
    let mut k: usize = 0;
    while k < entries.len()
        invariant
            k <= entries@.len(),
            v@ =~= entry_indices(entries@.subrange(0, k as int)),
        decreases entries@.len() - k,
    {
        v.push(entries[k].0);
        k = k + 1;
    }
    proof {
        assert(entries@.subrange(0, entries@.len() as int) =~= entries@);
    }
    v
}

fn set_each_field(project: &mut Project, entries: Vec<(usize, Update)>, req: Option<Requirement>) -> (r: Result<Command, CommandError>)
    ensures
        (final(project)@, result_model(r)) == set_each_outcome(old(project)@, entries@, req),
{
    let idx = entry_indices_exec(&entries);
    proof {
        lemma_check_indices(idx@, project.clips@.len() as usize);
    }
    let t = match check_indices_exec(idx.as_slice(), project.clips.len()) {
        Ok(t) => t,
        Err(e) => {
            return Err(e);
        },
    };
    if let Some(rq) = req {
        if let Some(k) = first_failing_exec(&project.clips, &t, rq) {
            return Err(CommandError::NotApplicable { index: k, reason: reason_text(rq) });
        }
    }
    let before = snapshot_exec(&project.clips, &t);
    proof {
        assert forall|k: int| 0 <= k < entries@.len() implies entries@[k].0 < project@.clips.len() by {
            assert(idx@[k] == entries@[k].0);
            assert(idx@.contains(entries@[k].0));
            assert(t@.contains(entries@[k].0));
        }
    }
    set_each_exec(&mut project.clips, &entries);
    Ok(Command::RestoreClips { entries: before })
}

fn transition_entries(entries: &Vec<(usize, Transition)>) -> (v: Vec<(usize, Update)>)
    ensures
        v@ == transition_updates(entries@),
{
    let mut v: Vec<(usize, Update)> = Vec::new();
    let mut k: usize = 0;
    while k < entries.len()
        invariant
            k <= entries@.len(),
            v@ =~= transition_updates(entries@.subrange(0, k as int)),
        decreases entries@.len() - k,
    {
        v.push((entries[k].0, Update::Transition(entries[k].1)));
        k = k + 1;
    }
    proof {
        assert(entries@.subrange(0, entries@.len() as int) =~= entries@);
    }
    v
}

fn motion_entries(entries: &Vec<(usize, Motion)>) -> (v: Vec<(usize, Update)>)
    ensures
        v@ == motion_updates(entries@),
{
    let mut v: Vec<(usize, Update)> = Vec::new();
    let mut k: usize = 0;
    while k < entries.len()
        invariant
            k <= entries@.len(),
            v@ =~= motion_updates(entries@.subrange(0, k as int)),
        decreases entries@.len() - k,
    {
        v.push((entries[k].0, Update::Motion(entries[k].1)));
        k = k + 1;
    }
    proof {
        assert(entries@.subrange(0, entries@.len() as int) =~= entries@);
    }
    v
}

fn caption_entries(entries: &Vec<(usize, Option<Caption>)>) -> (v: Vec<(usize, Update)>)
    ensures
        v@ == caption_updates(entries@),
{
    let mut v: Vec<(usize, Update)> = Vec::new();
    let mut k: usize = 0;
    while k < entries.len()
        invariant
            k <= entries@.len(),
            v@ =~= caption_updates(entries@.subrange(0, k as int)),
        decreases entries@.len() - k,
    {
        v.push((entries[k].0, Update::Caption(clone_caption(&entries[k].1))));
        k = k + 1;
    }
    proof {
        assert(entries@.subrange(0, entries@.len() as int) =~= entries@);
    }
    v
}

fn replace_entries(entries: &Vec<(usize, Clip)>) -> (v: Vec<(usize, Update)>)
    ensures
        v@ == replace_updates(entries@),
{
    let mut v: Vec<(usize, Update)> = Vec::new();
    let mut k: usize = 0;
    while k < entries.len()
        invariant
            k <= entries@.len(),
            v@ =~= replace_updates(entries@.subrange(0, k as int)),
        decreases entries@.len() - k,
    {
        v.push((entries[k].0, Update::Replace(entries[k].1.clone())));
        k = k + 1;
    }
    proof {
        assert(entries@.subrange(0, entries@.len() as int) =~= entries@);
    }
    v
}

fn set_trim(project: &mut Project, index: usize, in_point: Ticks, out_point: Ticks) -> (r: Result<Command, CommandError>)
    ensures
        (final(project)@, result_model(r)) == crate::semantics::trim_outcome(old(project)@, index, in_point, out_point),
{
    broadcast use vstd::std_specs::btree::group_btree_axioms;
    proof {
        crate::keys::lemma_u128_keys_ordered();
    }
    let len = project.clips.len();
    if index >= len {
        return Err(CommandError::IndexOutOfRange { index, len });
    }
    if in_point.0 < 0 || out_point.0 <= in_point.0 {
        return Err(CommandError::InvalidTrim);
    }
    if !project.clips[index].is_video() {
        return Err(CommandError::NotApplicable { index, reason: "not a video" });
    }
    match project.media.get(&project.clips[index].media.0) {
        Some(m) => match m.duration {
            Some(natural) => if out_point.0 > natural.0 {
                return Err(CommandError::InvalidTrim);
            },
            None => {},
        },
        None => {},
    }
    let old_clip = project.clips[index].clone();
    let mut c = project.clips[index].clone();
    c.source = ClipSource::Video { in_point, out_point };
    project.clips.set(index, c);
    let mut before: Vec<(usize, Clip)> = Vec::new();
    before.push((index, old_clip));
    proof {
        assert(before@ =~= seq![(index, old(project)@.clips[index as int])]);
    }
    Ok(Command::RestoreClips { entries: before })
}

fn set_music(project: &mut Project, music: Music, refs: Vec<MediaRef>) -> (r: Result<Command, CommandError>)
    ensures
        (final(project)@, result_model(r)) == crate::semantics::music_outcome(old(project)@, music@, refs@),
{
    merge_media_exec(project, &refs);
    let mut before = music;
    std::mem::swap(&mut project.music, &mut before);
    match project.validate_music() {
        Err(msg) => {
            project.music = before;
            Err(CommandError::InvalidMusic(msg))
        },
        Ok(()) => Ok(Command::SetMusic { music: before, media: Vec::new() }),
    }
}

fn restore_clips(project: &mut Project, entries: Vec<(usize, Clip)>) -> (r: Result<Command, CommandError>)
    ensures
        (final(project)@, result_model(r)) == crate::semantics::restore_outcome(old(project)@, entries@),
{
    let len = project.clips.len();
    let mut k: usize = 0;
    while k < entries.len()
        invariant
            k <= entries@.len(),
            len == project@.clips.len(),
            crate::semantics::first_out_of_range(entries@, len as nat, 0)
                == crate::semantics::first_out_of_range(entries@, len as nat, k as int),
        decreases entries@.len() - k,
    {
        if entries[k].0 >= len {
            return Err(CommandError::IndexOutOfRange { index: entries[k].0, len });
        }
        k = k + 1;
    }
    let updates = replace_entries(&entries);
    let idx = entry_indices_exec(&updates);
    proof {
        assert(idx@ =~= entry_indices(entries@));
        assert forall|j: int| 0 <= j < entries@.len() implies entries@[j].0 < len by {
            if entries@[j].0 >= len {
                lemma_first_out_of_range(entries@, len as nat, 0, j);
            }
        }
    }
    let before = snapshot_exec(&project.clips, &idx);
    set_each_exec(&mut project.clips, &updates);
    Ok(Command::RestoreClips { entries: before })
}

proof fn lemma_first_out_of_range<T>(entries: Seq<(usize, T)>, len: nat, from: int, j: int)
    requires
        0 <= from <= j < entries.len(),
        entries[j].0 >= len,
    ensures
        crate::semantics::first_out_of_range(entries, len, from) is Some,
    decreases j - from,
{
    if entries[from].0 < len {
        lemma_first_out_of_range(entries, len, from + 1, j);
    }
}

proof fn lemma_commands_model(s: Seq<Command>)
    ensures
        commands_model(s).len() == s.len(),
        forall|i: int| 0 <= i < s.len() ==> #[trigger] commands_model(s)[i] == s[i]@,
    decreases s.len(),
{
    if s.len() > 0 {
        lemma_commands_model(s.drop_last());
        assert forall|i: int| 0 <= i < s.len() implies #[trigger] commands_model(s)[i] == s[i]@ by {
            if i < s.len() - 1 {
                assert(s.drop_last()[i] == s[i]);
            }
        }
    }
}

/// Once a command in a batch has failed, the commands after it are not
/// run.
proof fn lemma_run_batch_stops(cmds: Seq<CommandModel>, p: ProjectModel, f: nat, k: int)
    requires
        0 <= k < cmds.len(),
        run_batch(cmds.subrange(0, k + 1), p, f).2 is Some,
    ensures
        run_batch(cmds, p, f) == run_batch(cmds.subrange(0, k + 1), p, f),
    decreases cmds.len(),
{
    if cmds.len() == k + 1 {
        assert(cmds.subrange(0, k + 1) =~= cmds);
    } else {
        assert(cmds.drop_last().subrange(0, k + 1) =~= cmds.subrange(0, k + 1));
        lemma_run_batch_stops(cmds.drop_last(), p, f, k);
    }
}

/// The label of a command (a batch takes the label of its first command).
pub open spec fn command_label(c: CommandModel) -> CommandLabel
    decreases c,
{
    match c {
        CommandModel::InsertClips { .. } => CommandLabel::Insert,
        CommandModel::RemoveClips { .. } => CommandLabel::Remove,
        CommandModel::Reorder { .. } => CommandLabel::Reorder,
        CommandModel::SetPhotoDuration { .. } => CommandLabel::Duration,
        CommandModel::SetTrim { .. } => CommandLabel::Trim,
        CommandModel::SetFit { .. } => CommandLabel::Fit,
        CommandModel::SetRotate { .. } => CommandLabel::Rotate,
        CommandModel::SetTransition { .. } => CommandLabel::Transition,
        CommandModel::SetMuted { .. } => CommandLabel::Mute,
        CommandModel::SetVolume { .. } => CommandLabel::Mute,
        CommandModel::SetMotion { .. } => CommandLabel::Motion,
        CommandModel::SetMotionEach { .. } => CommandLabel::Motion,
        CommandModel::SetTransitionEach { .. } => CommandLabel::Transition,
        CommandModel::SetSettings { .. } => CommandLabel::Settings,
        CommandModel::SetMusic { .. } => CommandLabel::Music,
        CommandModel::SetCaptions { .. } => CommandLabel::Caption,
        CommandModel::SetTitleBackground { .. } => CommandLabel::Title,
        CommandModel::Batch { commands } => if commands.len() == 0 {
            CommandLabel::Settings
        } else {
            command_label(commands[0])
        },
        CommandModel::RestoreClips { .. } => CommandLabel::Fit,
    }
}

impl Command {
    /// The label the UI shows for undoing this command.
    pub fn label(&self) -> (l: CommandLabel)
        ensures
            l == command_label(self@),
        decreases depth(self@),
    {
        match self {
            Command::InsertClips { .. } => CommandLabel::Insert,
            Command::RemoveClips { .. } => CommandLabel::Remove,
            Command::Reorder { .. } => CommandLabel::Reorder,
            Command::SetPhotoDuration { .. } => CommandLabel::Duration,
            Command::SetTrim { .. } => CommandLabel::Trim,
            Command::SetFit { .. } => CommandLabel::Fit,
            Command::SetRotate { .. } => CommandLabel::Rotate,
            Command::SetTransition { .. } => CommandLabel::Transition,
            Command::SetMuted { .. } | Command::SetVolume { .. } => CommandLabel::Mute,
            Command::SetMotion { .. } | Command::SetMotionEach { .. } => CommandLabel::Motion,
            Command::SetTransitionEach { .. } => CommandLabel::Transition,
            Command::SetSettings { .. } => CommandLabel::Settings,
            Command::SetMusic { .. } => CommandLabel::Music,
            Command::SetCaptions { .. } => CommandLabel::Caption,
            Command::SetTitleBackground { .. } => CommandLabel::Title,
            Command::Batch { commands } => {
                proof {
                    lemma_commands_model(commands@);
                    lemma_max_depth(commands_model(commands@), 0);
                }
                if commands.len() == 0 {
                    CommandLabel::Settings
                } else {
                    proof {
                        assert(depth(commands_model(commands@)[0]) <= max_depth(commands_model(commands@)));
                    }
                    commands[0].label()
                }
            },
            Command::RestoreClips { .. } => CommandLabel::Fit,
        }
    }

    /// Applies the command, returning its inverse.
    pub fn apply(self, project: &mut Project) -> (r: Result<Command, CommandError>)
        ensures
            (final(project)@, result_model(r)) == apply_model(self@, old(project)@),
            r matches Ok(inv) ==> depth(inv@) <= depth(self@),
            r is Err && failure_rolls_back(self@, old(project)@) ==> final(project)@ == crate::undo::with_media(
                old(project)@,
                final(project)@.media,
            ),
        decreases depth(self@), 2nat,
    {
        proof {
            lemma_fuel(self@, old(project)@, depth(self@));
            lemma_failure_rolls_back(self@, old(project)@);
        }
        let ghost whole = self@;
        match self {
            Command::InsertClips { entries, media } => insert_clips(project, entries, media),
            Command::RemoveClips { indices } => remove_clips(project, indices),
            Command::Reorder { order } => reorder_clips(project, order),
            Command::SetPhotoDuration { indices, duration } => {
                if duration.0 <= 0 {
                    return Err(CommandError::NonPositiveDuration);
                }
                set_field(project, indices, Some(Requirement::Still), Update::Duration(duration))
            },
            Command::SetTrim { index, in_point, out_point } => set_trim(project, index, in_point, out_point),
            Command::SetFit { indices, fit } => set_field(project, indices, None, Update::Fit(fit)),
            Command::SetRotate { indices, rotate } => set_field(project, indices, None, Update::Rotate(rotate)),
            Command::SetTransition { indices, transition } => {
                if transition.duration.0 < 0 {
                    return Err(CommandError::NonPositiveDuration);
                }
                set_field(project, indices, None, Update::Transition(transition))
            },
            Command::SetMuted { indices, muted } => set_field(project, indices, None, Update::Muted(muted)),
            Command::SetVolume { indices, percent } => set_field(project, indices, None, Update::Volume(percent)),
            Command::SetMotion { indices, motion } => set_field(project, indices, Some(Requirement::Photo), Update::Motion(motion)),
            Command::SetTransitionEach { entries } => {
                let mut k: usize = 0;
                while k < entries.len()
                    invariant
                        k <= entries@.len(),
                        forall|j: int| 0 <= j < k ==> entries@[j].1.duration.0 >= 0,
                        whole == (CommandModel::SetTransitionEach { entries: entries@ }),
                        whole == self@,
                        project@ == old(project)@,
                        depth(whole) == 0,
                    decreases entries@.len() - k,
                {
                    if entries[k].1.duration.0 < 0 {
                        proof {
                            assert(any_negative_transition(entries@));
                        }
                        return Err(CommandError::NonPositiveDuration);
                    }
                    k = k + 1;
                }
                let updates = transition_entries(&entries);
                set_each_field(project, updates, None)
            },
            Command::SetMotionEach { entries } => {
                let updates = motion_entries(&entries);
                set_each_field(project, updates, Some(Requirement::Photo))
            },
            Command::SetSettings { settings } => {
                let before = project.settings;
                project.settings = settings;
                Ok(Command::SetSettings { settings: before })
            },
            Command::SetCaptions { entries } => {
                let updates = caption_entries(&entries);
                set_each_field(project, updates, None)
            },
            Command::SetTitleBackground { indices, background } => set_field(
                project,
                indices,
                Some(Requirement::Title),
                Update::Background(background),
            ),
            Command::SetMusic { music, media } => set_music(project, music, media),
            Command::Batch { commands } => apply_batch(commands, project),
            Command::RestoreClips { entries } => restore_clips(project, entries),
        }
    }
}

/// Runs the commands of a batch in order; on the first failure, undoes
/// what was applied so far and returns that failure.
fn apply_batch(commands: Vec<Command>, project: &mut Project) -> (r: Result<Command, CommandError>)
    ensures
        (final(project)@, result_model(r)) == apply_fuel(
            CommandModel::Batch { commands: commands_model(commands@) },
            old(project)@,
            max_depth(commands_model(commands@)) + 1,
        ),
        r matches Ok(inv) ==> depth(inv@) <= max_depth(commands_model(commands@)) + 1,
    decreases max_depth(commands_model(commands@)) + 1, 1nat,
{
    let ghost cmds = commands_model(commands@);
    let ghost m = max_depth(cmds);
    let ghost p0 = project@;
    proof {
        lemma_commands_model(commands@);
        lemma_max_depth(cmds, m);
    }
    let n = commands.len();
    let mut rest = commands;
    let mut rev: Vec<Command> = Vec::new();
    while rest.len() > 0
        invariant
            rest@.len() + rev@.len() == n,
            forall|j: int| 0 <= j < rest@.len() ==> rest@[j] == commands@[j],
            forall|j: int| 0 <= j < rev@.len() ==> rev@[j] == commands@[n - 1 - j],
        decreases rest@.len(),
    {
        let c = rest.pop().unwrap();
        rev.push(c);
    }
    let mut inverses: Vec<Command> = Vec::new();
    let mut k: usize = 0;
    proof {
        lemma_commands_model(inverses@);
        assert(cmds.subrange(0, 0) =~= Seq::<CommandModel>::empty());
    }
    while k < n
        invariant
            k <= n,
            n == commands@.len(),
            cmds == commands_model(commands@),
            cmds.len() == n,
            rev@.len() == n - k,
            forall|j: int| 0 <= j < rev@.len() ==> rev@[j] == commands@[n - 1 - j],
            forall|i: int| 0 <= i < n ==> #[trigger] cmds[i] == commands@[i]@,
            forall|i: int| 0 <= i < n ==> depth(#[trigger] cmds[i]) <= m,
            m == max_depth(cmds),
            p0 == old(project)@,
            (project@, commands_model(inverses@), None::<ErrorModel>) == run_batch(cmds.subrange(0, k as int), p0, m),
            forall|i: int| 0 <= i < inverses@.len() ==> depth(#[trigger] inverses@[i]@) <= m,
            inverses@.len() == k,
        decreases n - k,
    {
        let c = rev.pop().unwrap();
        proof {
            assert(c == commands@[k as int]);
            assert(cmds.subrange(0, k + 1).drop_last() =~= cmds.subrange(0, k as int));
            assert(cmds.subrange(0, k + 1).last() == c@);
            lemma_fuel(c@, project@, m);
        }
        match c.apply(project) {
            Ok(inv) => {
                proof {
                    lemma_commands_model(inverses@);
                }
                let ghost before = inverses@;
                inverses.push(inv);
                proof {
                    assert(inverses@.drop_last() =~= before);
                    assert(commands_model(inverses@) == commands_model(before).push(inv@));
                }
            },
            Err(e) => {
                proof {
                    lemma_run_batch_stops(cmds, p0, m, k as int);
                }
                roll_back(inverses, project, Ghost(m));
                return Err(e);
            },
        }
        k = k + 1;
    }
    proof {
        assert(cmds.subrange(0, n as int) =~= cmds);
        lemma_commands_model(inverses@);
    }
    let mut out: Vec<Command> = Vec::new();
    let ghost invs = inverses@;
    while inverses.len() > 0
        invariant
            out@.len() + inverses@.len() == invs.len(),
            forall|j: int| 0 <= j < inverses@.len() ==> inverses@[j] == invs[j],
            forall|j: int| 0 <= j < out@.len() ==> out@[j] == invs[invs.len() - 1 - j],
        decreases inverses@.len(),
    {
        let c = inverses.pop().unwrap();
        out.push(c);
    }
    proof {
        lemma_commands_model(out@);
        lemma_commands_model(invs);
        assert(commands_model(out@) =~= commands_model(invs).reverse());
        let v = commands_model(out@);
        lemma_max_depth(v, m);
        assert forall|i: int| 0 <= i < v.len() implies depth(#[trigger] v[i]) <= m by {
            assert(v[i] == invs[invs.len() - 1 - i]@);
        }
    }
    Ok(Command::Batch { commands: out })
}

/// Applies the inverses last first, ignoring their errors.
fn roll_back(inverses: Vec<Command>, project: &mut Project, Ghost(m): Ghost<nat>)
    requires
        forall|i: int| 0 <= i < inverses@.len() ==> depth(#[trigger] inverses@[i]@) <= m,
    ensures
        final(project)@ == rollback(commands_model(inverses@), old(project)@, m),
    decreases m + 1, 0nat,
{
    let ghost p_err = project@;
    let ghost invs = commands_model(inverses@);
    let mut inverses = inverses;
    while inverses.len() > 0
        invariant
            forall|i: int| 0 <= i < inverses@.len() ==> depth(#[trigger] inverses@[i]@) <= m,
            rollback(invs, p_err, m) == rollback(commands_model(inverses@), project@, m),
        decreases inverses@.len(),
    {
        let ghost before = inverses@;
        let ghost p = project@;
        let inv = inverses.pop().unwrap();
        proof {
            assert(before.drop_last() =~= inverses@);
            assert(inv == before[before.len() - 1]);
            assert(depth(inv@) <= m);
            assert(commands_model(before) == commands_model(inverses@).push(inv@));
            assert(commands_model(before).drop_last() =~= commands_model(inverses@));
            lemma_fuel(inv@, p, m);
        }
        let _ = inv.apply(project);
    }
    proof {
        assert(commands_model(inverses@) =~= Seq::<CommandModel>::empty());
    }
}

/// When a failed command is known to leave the project as it was (but
/// for media it added): always, except for a batch, which rolls back what
/// it had done when its project is restorable and its commands are
/// admitted by `command_ok`.
pub open spec fn failure_rolls_back(c: CommandModel, p: ProjectModel) -> bool {
    !(c is Batch) || (crate::undo::restorable(p) && crate::undo::command_ok(c, p.media) && p.clips.len()
        + crate::undo::inserted(c) <= usize::MAX)
}

proof fn lemma_failure_rolls_back(c: CommandModel, p: ProjectModel)
    ensures
        apply_model(c, p).1 is Err && failure_rolls_back(c, p) ==> apply_model(c, p).0 == crate::undo::with_media(
            p,
            apply_model(c, p).0.media,
        ),
{
    if apply_model(c, p).1 is Err && failure_rolls_back(c, p) {
        if c is Batch {
            crate::undo::lemma_failure_changes_nothing(c, p, p.media);
        } else {
            crate::undo::lemma_plain_failure(c, p);
        }
    }
}

} // verus!
