//! What applying a command does, stated over values: the resulting
//! project and either the inverse command or the error.

use vstd::prelude::*;

use crate::catalog::{Fit, Motion, Quarter, TitleBackground};
use crate::command::{CommandModel, ErrorModel};
use crate::music::MusicModel;
use crate::project::{
    is_photo, is_title, is_video, music_problem, Caption, Clip, ClipSource, MediaRef, ProjectModel,
    Transition,
};
use crate::sorting::{check_indices, sort_entries, IndexCheck};
use crate::time::Ticks;

verus! {

/// `refs` merged into `m`, later entries replacing earlier ones with the
/// same id.
pub open spec fn merge_media(m: Map<u128, MediaRef>, refs: Seq<MediaRef>) -> Map<u128, MediaRef>
    decreases refs.len(),
{
    if refs.len() == 0 {
        m
    } else {
        merge_media(m, refs.drop_last()).insert(refs.last().id.0, refs.last())
    }
}

/// Why a clip cannot be inserted, looking at the clip alone.
pub open spec fn clip_defect(c: Clip) -> Option<ErrorModel> {
    match c.source {
        ClipSource::Photo { duration } => if duration.0 <= 0 {
            Some(ErrorModel::NonPositiveDuration)
        } else {
            None
        },
        ClipSource::Title { duration, .. } => if duration.0 <= 0 {
            Some(ErrorModel::NonPositiveDuration)
        } else {
            None
        },
        ClipSource::Video { in_point, out_point } => if in_point.0 < 0 || out_point.0 <= in_point.0 {
            Some(ErrorModel::InvalidTrim)
        } else {
            None
        },
    }
}

/// Why a clip cannot be inserted into a project with `media`.
pub open spec fn insert_defect(c: Clip, media: Map<u128, MediaRef>) -> Option<ErrorModel> {
    if !is_title(c) && !media.contains_key(c.media.0) {
        Some(ErrorModel::UnknownMedia)
    } else {
        clip_defect(c)
    }
}

/// The first defect among `entries[from..]`.
pub open spec fn first_insert_defect(entries: Seq<(usize, Clip)>, media: Map<u128, MediaRef>, from: int) -> Option<ErrorModel>
    decreases entries.len() - from,
{
    if from < 0 || from >= entries.len() {
        None
    } else {
        match insert_defect(entries[from].1, media) {
            Some(e) => Some(e),
            None => first_insert_defect(entries, media, from + 1),
        }
    }
}

/// Inserts the entries one after the other, each at its index; stops at
/// the first index beyond the end.
pub open spec fn insert_all(clips: Seq<Clip>, entries: Seq<(usize, Clip)>) -> (Seq<Clip>, Option<ErrorModel>)
    decreases entries.len(),
{
    if entries.len() == 0 {
        (clips, None)
    } else {
        let (i, c) = entries[0];
        if i > clips.len() {
            (clips, Some(ErrorModel::IndexOutOfRange { index: i, len: clips.len() as usize }))
        } else {
            insert_all(clips.insert(i as int, c), entries.drop_first())
        }
    }
}

/// The error `insert_all` stops with, found without inserting: the first
/// entry from `k` on whose index is past the length there would be by
/// then (`n` plus the entries before it).
pub open spec fn first_overflow(entries: Seq<(usize, Clip)>, n: int, k: int) -> Option<ErrorModel>
    decreases entries.len() - k,
{
    if k < 0 || k >= entries.len() {
        None
    } else if entries[k].0 > n + k {
        Some(ErrorModel::IndexOutOfRange { index: entries[k].0, len: (n + k) as usize })
    } else {
        first_overflow(entries, n, k + 1)
    }
}

proof fn lemma_first_overflow_shift(entries: Seq<(usize, Clip)>, n: int, k: int)
    requires
        0 <= k,
        entries.len() > 0,
    ensures
        first_overflow(entries, n, k + 1) == first_overflow(entries.drop_first(), n + 1, k),
    decreases entries.len() - k,
{
    if k + 1 < entries.len() {
        assert(entries.drop_first()[k] == entries[k + 1]);
        lemma_first_overflow_shift(entries, n, k + 1);
    }
}

/// `insert_all` fails exactly with `first_overflow`.
pub proof fn lemma_insert_all_overflow(clips: Seq<Clip>, entries: Seq<(usize, Clip)>)
    ensures
        insert_all(clips, entries).1 == first_overflow(entries, clips.len() as int, 0),
    decreases entries.len(),
{
    if entries.len() > 0 {
        let (i, c) = entries[0];
        if i <= clips.len() {
            lemma_insert_all_overflow(clips.insert(i as int, c), entries.drop_first());
            lemma_first_overflow_shift(entries, clips.len() as int, 0);
        }
    }
}

/// Removes the clips at the (ascending) indices `t`, highest first.
pub open spec fn remove_all(clips: Seq<Clip>, t: Seq<usize>) -> Seq<Clip>
    decreases t.len(),
{
    if t.len() == 0 {
        clips
    } else {
        remove_all(clips.remove(t.last() as int), t.drop_last())
    }
}

/// The clips at `indices`, each with its index.
pub open spec fn snapshot(clips: Seq<Clip>, indices: Seq<usize>) -> Seq<(usize, Clip)> {
    Seq::new(indices.len(), |k: int| (indices[k], clips[indices[k] as int]))
}

/// A change to one clip.
pub enum Update {
    Duration(Ticks),
    Fit(Fit),
    Rotate(Quarter),
    Transition(Transition),
    Muted(bool),
    Volume(u16),
    Motion(Motion),
    Background(TitleBackground),
    Caption(Option<Caption>),
    Replace(Clip),
}

/// The clip after a change.
pub open spec fn updated(c: Clip, u: Update) -> Clip {
    match u {
        Update::Duration(d) => with_duration(c, d),
        Update::Fit(fit) => Clip { fit, ..c },
        Update::Rotate(rotate) => Clip { rotate, ..c },
        Update::Transition(t) => Clip { transition_in: t, ..c },
        Update::Muted(muted) => Clip { muted, ..c },
        Update::Volume(percent) => Clip { volume_percent: capped_volume(percent), ..c },
        Update::Motion(motion) => Clip { motion, ..c },
        Update::Background(b) => with_background(c, b),
        Update::Caption(caption) => Clip { caption, ..c },
        Update::Replace(n) => n,
    }
}

/// Whether `t` lists the position `i`.
pub open spec fn names(t: Seq<usize>, i: int) -> bool {
    exists|k: int| 0 <= k < t.len() && t[k] == i
}

/// Applies `u` to the clips whose index is listed in `t`.
pub open spec fn update_at(clips: Seq<Clip>, t: Seq<usize>, u: Update) -> Seq<Clip> {
    Seq::new(clips.len(), |i: int| if names(t, i) { updated(clips[i], u) } else { clips[i] })
}

/// Applies each `(index, change)` in order.
pub open spec fn set_each(clips: Seq<Clip>, entries: Seq<(usize, Update)>) -> Seq<Clip>
    decreases entries.len(),
{
    if entries.len() == 0 {
        clips
    } else {
        let prev = set_each(clips, entries.drop_last());
        let (i, u) = entries.last();
        prev.update(i as int, updated(prev[i as int], u))
    }
}

/// What a command may require of the clips it changes.
#[derive(Copy, Clone)]
pub enum Requirement {
    /// A photo or a title card.
    Still,
    Photo,
    Title,
}

pub open spec fn meets(c: Clip, r: Requirement) -> bool {
    match r {
        Requirement::Still => !is_video(c),
        Requirement::Photo => is_photo(c),
        Requirement::Title => is_title(c),
    }
}

/// The message for a clip that does not meet a requirement.
pub open spec fn reason(r: Requirement) -> Seq<char> {
    match r {
        Requirement::Still => "not a photo or title"@,
        Requirement::Photo => "not a photo"@,
        Requirement::Title => "not a title card"@,
    }
}

/// The index of the first listed clip (from position `from`) that does not
/// meet `r`, if any.
pub open spec fn first_failing(clips: Seq<Clip>, t: Seq<usize>, r: Requirement, from: int) -> Option<usize>
    decreases t.len() - from,
{
    if from < 0 || from >= t.len() {
        None
    } else if !meets(clips[t[from] as int], r) {
        Some(t[from])
    } else {
        first_failing(clips, t, r, from + 1)
    }
}

pub open spec fn transition_updates(entries: Seq<(usize, Transition)>) -> Seq<(usize, Update)> {
    Seq::new(entries.len(), |k: int| (entries[k].0, Update::Transition(entries[k].1)))
}

pub open spec fn motion_updates(entries: Seq<(usize, Motion)>) -> Seq<(usize, Update)> {
    Seq::new(entries.len(), |k: int| (entries[k].0, Update::Motion(entries[k].1)))
}

pub open spec fn caption_updates(entries: Seq<(usize, Option<Caption>)>) -> Seq<(usize, Update)> {
    Seq::new(entries.len(), |k: int| (entries[k].0, Update::Caption(entries[k].1)))
}

pub open spec fn replace_updates(entries: Seq<(usize, Clip)>) -> Seq<(usize, Update)> {
    Seq::new(entries.len(), |k: int| (entries[k].0, Update::Replace(entries[k].1)))
}

/// The index of the first entry at or beyond `len`, if any.
pub open spec fn first_out_of_range<T>(entries: Seq<(usize, T)>, len: nat, from: int) -> Option<usize>
    decreases entries.len() - from,
{
    if from < 0 || from >= entries.len() {
        None
    } else if entries[from].0 >= len {
        Some(entries[from].0)
    } else {
        first_out_of_range(entries, len, from + 1)
    }
}

pub open spec fn entry_indices<T>(entries: Seq<(usize, T)>) -> Seq<usize> {
    Seq::new(entries.len(), |k: int| entries[k].0)
}

/// Whether `order` lists every index below `len` exactly once.
pub open spec fn is_permutation(order: Seq<usize>, len: nat) -> bool {
    &&& order.len() == len
    &&& forall|i: int| 0 <= i < order.len() ==> order[i] < len
    &&& forall|i: int, j: int| 0 <= i < j < order.len() ==> order[i] != order[j]
}

/// The permutation that undoes `order`.
pub open spec fn inverse_order(order: Seq<usize>) -> Seq<usize> {
    Seq::new(
        order.len(),
        |j: int|
            if exists|i: int| 0 <= i < order.len() && order[i] == j {
                (choose|i: int| 0 <= i < order.len() && order[i] == j) as usize
            } else {
                0usize
            },
    )
}

pub open spec fn with_duration(c: Clip, d: Ticks) -> Clip {
    match c.source {
        ClipSource::Photo { .. } => Clip { source: ClipSource::Photo { duration: d }, ..c },
        ClipSource::Title { background, .. } => Clip { source: ClipSource::Title { duration: d, background }, ..c },
        ClipSource::Video { .. } => c,
    }
}

pub open spec fn with_background(c: Clip, b: TitleBackground) -> Clip {
    match c.source {
        ClipSource::Title { duration, .. } => Clip { source: ClipSource::Title { duration, background: b }, ..c },
        _ => c,
    }
}

pub open spec fn capped_volume(percent: u16) -> u16 {
    if percent > 300 {
        300
    } else {
        percent
    }
}

/// The outcome of applying a command: the project afterwards and the
/// inverse command or the error.
pub type Outcome = (ProjectModel, Result<CommandModel, ErrorModel>);

pub open spec fn with_clips(p: ProjectModel, clips: Seq<Clip>) -> ProjectModel {
    ProjectModel { clips, ..p }
}

/// Applies one change to the listed clips after checking the indices
/// and, if given, a requirement on the clips.
pub open spec fn set_field_outcome(p: ProjectModel, indices: Seq<usize>, req: Option<Requirement>, u: Update) -> Outcome {
    match check_indices(indices, p.clips.len() as usize) {
        IndexCheck::Repeated(x) => (p, Err(ErrorModel::DuplicateIndex(x))),
        IndexCheck::OutOfRange(x) => (p, Err(ErrorModel::IndexOutOfRange { index: x, len: p.clips.len() as usize })),
        IndexCheck::Sorted(t) => match req {
            Some(r) if first_failing(p.clips, t, r, 0) is Some => (
                p,
                Err(ErrorModel::NotApplicable { index: first_failing(p.clips, t, r, 0)->0, reason: reason(r) }),
            ),
            _ => (
                with_clips(p, update_at(p.clips, t, u)),
                Ok(CommandModel::RestoreClips { entries: snapshot(p.clips, t) }),
            ),
        },
    }
}

/// Applies one change per listed clip after checking the indices and, if
/// given, a requirement on the clips.
pub open spec fn set_each_outcome(p: ProjectModel, entries: Seq<(usize, Update)>, req: Option<Requirement>) -> Outcome {
    match check_indices(entry_indices(entries), p.clips.len() as usize) {
        IndexCheck::Repeated(x) => (p, Err(ErrorModel::DuplicateIndex(x))),
        IndexCheck::OutOfRange(x) => (p, Err(ErrorModel::IndexOutOfRange { index: x, len: p.clips.len() as usize })),
        IndexCheck::Sorted(t) => match req {
            Some(r) if first_failing(p.clips, t, r, 0) is Some => (
                p,
                Err(ErrorModel::NotApplicable { index: first_failing(p.clips, t, r, 0)->0, reason: reason(r) }),
            ),
            _ => (
                with_clips(p, set_each(p.clips, entries)),
                Ok(CommandModel::RestoreClips { entries: snapshot(p.clips, t) }),
            ),
        },
    }
}

pub open spec fn insert_outcome(p: ProjectModel, entries: Seq<(usize, Clip)>, refs: Seq<MediaRef>) -> Outcome {
    let sorted = sort_entries(entries);
    let media = merge_media(p.media, refs);
    let p1 = ProjectModel { media, ..p };
    match first_insert_defect(sorted, media, 0) {
        Some(e) => (p1, Err(e)),
        None => {
            let (clips, err) = insert_all(p.clips, sorted);
            match err {
                Some(e) => (p1, Err(e)),
                None => (
                    with_clips(p1, clips),
                    Ok(CommandModel::RemoveClips { indices: entry_indices(sorted) }),
                ),
            }
        },
    }
}

pub open spec fn remove_outcome(p: ProjectModel, indices: Seq<usize>) -> Outcome {
    match check_indices(indices, p.clips.len() as usize) {
        IndexCheck::Repeated(x) => (p, Err(ErrorModel::DuplicateIndex(x))),
        IndexCheck::OutOfRange(x) => (p, Err(ErrorModel::IndexOutOfRange { index: x, len: p.clips.len() as usize })),
        IndexCheck::Sorted(t) => (
            with_clips(p, remove_all(p.clips, t)),
            Ok(CommandModel::InsertClips { entries: snapshot(p.clips, t), media: Seq::empty() }),
        ),
    }
}

pub open spec fn reorder_outcome(p: ProjectModel, order: Seq<usize>) -> Outcome {
    if !is_permutation(order, p.clips.len()) {
        (p, Err(ErrorModel::BadPermutation))
    } else {
        (
            with_clips(p, Seq::new(order.len(), |i: int| p.clips[order[i] as int])),
            Ok(CommandModel::Reorder { order: inverse_order(order) }),
        )
    }
}

pub open spec fn trim_outcome(p: ProjectModel, index: usize, in_point: Ticks, out_point: Ticks) -> Outcome {
    let len = p.clips.len();
    if index >= len {
        (p, Err(ErrorModel::IndexOutOfRange { index, len: len as usize }))
    } else if in_point.0 < 0 || out_point.0 <= in_point.0 {
        (p, Err(ErrorModel::InvalidTrim))
    } else if !is_video(p.clips[index as int]) {
        (p, Err(ErrorModel::NotApplicable { index, reason: "not a video"@ }))
    } else if p.media.contains_key(p.clips[index as int].media.0)
        && (p.media[p.clips[index as int].media.0].duration matches Some(natural) && out_point.0 > natural.0) {
        (p, Err(ErrorModel::InvalidTrim))
    } else {
        let c = p.clips[index as int];
        (
            with_clips(p, p.clips.update(index as int, Clip { source: ClipSource::Video { in_point, out_point }, ..c })),
            Ok(CommandModel::RestoreClips { entries: seq![(index, c)] }),
        )
    }
}

pub open spec fn music_outcome(p: ProjectModel, music: MusicModel, refs: Seq<MediaRef>) -> Outcome {
    let media = merge_media(p.media, refs);
    let p1 = ProjectModel { media, music, ..p };
    match music_problem(p1) {
        Some(msg) => (ProjectModel { media, ..p }, Err(ErrorModel::InvalidMusic(msg))),
        None => (p1, Ok(CommandModel::SetMusic { music: p.music, media: Seq::empty() })),
    }
}

pub open spec fn restore_outcome(p: ProjectModel, entries: Seq<(usize, Clip)>) -> Outcome {
    match first_out_of_range(entries, p.clips.len(), 0) {
        Some(i) => (p, Err(ErrorModel::IndexOutOfRange { index: i, len: p.clips.len() as usize })),
        None => (
            with_clips(p, set_each(p.clips, replace_updates(entries))),
            Ok(CommandModel::RestoreClips { entries: snapshot(p.clips, entry_indices(entries)) }),
        ),
    }
}

pub open spec fn any_negative_transition(entries: Seq<(usize, Transition)>) -> bool {
    exists|k: int| 0 <= k < entries.len() && entries[k].1.duration.0 < 0
}

/// Nesting depth of batches.
pub open spec fn depth(c: CommandModel) -> nat
    decreases c, 0nat,
{
    match c {
        CommandModel::Batch { commands } => 1 + max_depth(commands),
        _ => 0,
    }
}

pub open spec fn max_depth(s: Seq<CommandModel>) -> nat
    decreases s, 1nat,
{
    if s.len() == 0 {
        0
    } else {
        let a = max_depth(s.drop_last());
        let b = depth(s.last());
        if a >= b {
            a
        } else {
            b
        }
    }
}

/// Applies `c` to `p`; batches may nest up to `fuel` levels.
pub open spec fn apply_fuel(c: CommandModel, p: ProjectModel, fuel: nat) -> Outcome
    decreases fuel, 0nat,
{
    match c {
        CommandModel::InsertClips { entries, media } => insert_outcome(p, entries, media),
        CommandModel::RemoveClips { indices } => remove_outcome(p, indices),
        CommandModel::Reorder { order } => reorder_outcome(p, order),
        CommandModel::SetPhotoDuration { indices, duration } => if duration.0 <= 0 {
            (p, Err(ErrorModel::NonPositiveDuration))
        } else {
            set_field_outcome(p, indices, Some(Requirement::Still), Update::Duration(duration))
        },
        CommandModel::SetTrim { index, in_point, out_point } => trim_outcome(p, index, in_point, out_point),
        CommandModel::SetFit { indices, fit } => set_field_outcome(p, indices, None, Update::Fit(fit)),
        CommandModel::SetRotate { indices, rotate } => set_field_outcome(p, indices, None, Update::Rotate(rotate)),
        CommandModel::SetTransition { indices, transition } => if transition.duration.0 < 0 {
            (p, Err(ErrorModel::NonPositiveDuration))
        } else {
            set_field_outcome(p, indices, None, Update::Transition(transition))
        },
        CommandModel::SetMuted { indices, muted } => set_field_outcome(p, indices, None, Update::Muted(muted)),
        CommandModel::SetVolume { indices, percent } => set_field_outcome(p, indices, None, Update::Volume(percent)),
        CommandModel::SetMotion { indices, motion } => set_field_outcome(
            p,
            indices,
            Some(Requirement::Photo),
            Update::Motion(motion),
        ),
        CommandModel::SetTransitionEach { entries } => if any_negative_transition(entries) {
            (p, Err(ErrorModel::NonPositiveDuration))
        } else {
            set_each_outcome(p, transition_updates(entries), None)
        },
        CommandModel::SetMotionEach { entries } => set_each_outcome(p, motion_updates(entries), Some(Requirement::Photo)),
        CommandModel::SetSettings { settings } => (
            ProjectModel { settings, ..p },
            Ok(CommandModel::SetSettings { settings: p.settings }),
        ),
        CommandModel::SetCaptions { entries } => set_each_outcome(p, caption_updates(entries), None),
        CommandModel::SetTitleBackground { indices, background } => set_field_outcome(
            p,
            indices,
            Some(Requirement::Title),
            Update::Background(background),
        ),
        CommandModel::SetMusic { music, media } => music_outcome(p, music, media),
        CommandModel::Batch { commands } => if fuel == 0 {
            (p, Err(ErrorModel::BadPermutation))
        } else {
            let (p1, invs, err) = run_batch(commands, p, (fuel - 1) as nat);
            match err {
                Some(e) => (rollback(invs, p1, (fuel - 1) as nat), Err(e)),
                None => (p1, Ok(CommandModel::Batch { commands: invs.reverse() })),
            }
        },
        CommandModel::RestoreClips { entries } => restore_outcome(p, entries),
    }
}

/// Applies the commands in order until one fails: the project, the
/// inverses of the commands that succeeded, and the error.
pub open spec fn run_batch(cmds: Seq<CommandModel>, p: ProjectModel, fuel: nat) -> (ProjectModel, Seq<CommandModel>, Option<ErrorModel>)
    decreases fuel, cmds.len() + 1,
{
    if cmds.len() == 0 {
        (p, Seq::empty(), None)
    } else {
        let (p1, invs, err) = run_batch(cmds.drop_last(), p, fuel);
        if err is Some {
            (p1, invs, err)
        } else {
            let (p2, r) = apply_fuel(cmds.last(), p1, fuel);
            match r {
                Ok(inv) => (p2, invs.push(inv), None),
                Err(e) => (p2, invs, Some(e)),
            }
        }
    }
}

/// Applies the inverses last first, ignoring their errors.
pub open spec fn rollback(invs: Seq<CommandModel>, p: ProjectModel, fuel: nat) -> ProjectModel
    decreases fuel, invs.len() + 1,
{
    if invs.len() == 0 {
        p
    } else {
        rollback(invs.drop_last(), apply_fuel(invs.last(), p, fuel).0, fuel)
    }
}

/// What applying `c` to `p` does.
pub open spec fn apply_model(c: CommandModel, p: ProjectModel) -> Outcome {
    apply_fuel(c, p, depth(c))
}

/// Every command in `s` is at most `max_depth(s)` deep, and a bound on
/// all of them bounds `max_depth(s)`.
pub proof fn lemma_max_depth(s: Seq<CommandModel>, m: nat)
    ensures
        forall|i: int| 0 <= i < s.len() ==> depth(#[trigger] s[i]) <= max_depth(s),
        (forall|i: int| 0 <= i < s.len() ==> depth(#[trigger] s[i]) <= m) ==> max_depth(s) <= m,
    decreases s.len(),
{
    if s.len() > 0 {
        lemma_max_depth(s.drop_last(), m);
        assert forall|i: int| 0 <= i < s.len() implies depth(#[trigger] s[i]) <= max_depth(s) by {
            if i < s.len() - 1 {
                assert(s[i] == s.drop_last()[i]);
            }
        }
        if forall|i: int| 0 <= i < s.len() ==> depth(#[trigger] s[i]) <= m {
            assert forall|i: int| 0 <= i < s.drop_last().len() implies depth(#[trigger] s.drop_last()[i]) <= m by {
                assert(s.drop_last()[i] == s[i]);
            }
        }
    }
}

/// Extra fuel does not change what a command does, and its inverse is
/// never deeper than the command.
pub proof fn lemma_fuel(c: CommandModel, p: ProjectModel, f: nat)
    requires
        depth(c) <= f,
    ensures
        apply_fuel(c, p, f) == apply_fuel(c, p, depth(c)),
        apply_fuel(c, p, f).1 matches Ok(inv) ==> depth(inv) <= depth(c),
    decreases f, 0nat,
{
    if let CommandModel::Batch { commands } = c {
        let m = max_depth(commands);
        lemma_run_batch(commands, p, (f - 1) as nat, m);
        let (p1, invs, err) = run_batch(commands, p, m);
        if err is Some {
            lemma_rollback(invs, p1, (f - 1) as nat, m);
        } else {
            lemma_max_depth(invs.reverse(), m);
            assert forall|i: int| 0 <= i < invs.reverse().len() implies depth(#[trigger] invs.reverse()[i]) <= m by {
                assert(invs.reverse()[i] == invs[invs.len() - 1 - i]);
            }
        }
    }
}

/// A batch run gives the same result with any fuel from the commands'
/// depth on, and its inverses are no deeper than that.
pub proof fn lemma_run_batch(cmds: Seq<CommandModel>, p: ProjectModel, g: nat, m: nat)
    requires
        m == max_depth(cmds),
        m <= g,
    ensures
        run_batch(cmds, p, g) == run_batch(cmds, p, m),
        forall|i: int| 0 <= i < run_batch(cmds, p, m).1.len() ==> depth(#[trigger] run_batch(cmds, p, m).1[i]) <= m,
    decreases g, cmds.len() + 1,
{
    lemma_max_depth(cmds, m);
    if cmds.len() > 0 {
        let rest = cmds.drop_last();
        let mr = max_depth(rest);
        lemma_max_depth(rest, m);
        assert forall|i: int| 0 <= i < rest.len() implies depth(#[trigger] rest[i]) <= m by {
            assert(rest[i] == cmds[i]);
        }
        lemma_run_batch(rest, p, g, mr);
        lemma_run_batch(rest, p, m, mr);
        let (p1, invs, err) = run_batch(rest, p, mr);
        if err is None {
            let last = cmds.last();
            assert(depth(last) <= m) by {
                assert(last == cmds[cmds.len() - 1]);
            }
            lemma_fuel(last, p1, g);
            lemma_fuel(last, p1, m);
            let r = apply_fuel(last, p1, m).1;
            if let Ok(inv) = r {
                let v = invs.push(inv);
                assert forall|i: int| 0 <= i < v.len() implies depth(#[trigger] v[i]) <= m by {
                    if i < invs.len() {
                        assert(v[i] == invs[i]);
                    }
                }
            }
        }
    }
}

/// Rolling back commands no deeper than `m` gives the same result with
/// any fuel from `m` on.
pub proof fn lemma_rollback(invs: Seq<CommandModel>, p: ProjectModel, g: nat, m: nat)
    requires
        m <= g,
        forall|i: int| 0 <= i < invs.len() ==> depth(#[trigger] invs[i]) <= m,
    ensures
        rollback(invs, p, g) == rollback(invs, p, m),
    decreases g, invs.len() + 1,
{
    if invs.len() > 0 {
        let last = invs.last();
        assert(depth(last) <= m) by {
            assert(last == invs[invs.len() - 1]);
        }
        lemma_fuel(last, p, g);
        lemma_fuel(last, p, m);
        let p1 = apply_fuel(last, p, m).0;
        assert forall|i: int| 0 <= i < invs.drop_last().len() implies depth(#[trigger] invs.drop_last()[i]) <= m by {
            assert(invs.drop_last()[i] == invs[i]);
        }
        lemma_rollback(invs.drop_last(), p1, g, m);
    }
}

} // verus!
