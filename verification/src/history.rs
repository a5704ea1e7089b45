//! Undo / redo stacks.

use vstd::prelude::*;

use crate::command::{command_label, result_model, Command, CommandError, CommandLabel, CommandModel, ErrorModel};
use crate::project::{Project, ProjectModel};
use crate::semantics::{apply_model, names};
use crate::undo::{command_ok, inserted, lemma_inverse_ok, lemma_restore_round_trip, lemma_undo, restorable, with_media};

verus! {

/// Applies commands to a project and remembers how to undo them.
pub struct History {
    undo: Vec<(CommandLabel, Command)>,
    /// Merge group of the top undo entry (see [`History::apply_merging`]).
    merge: Option<u64>,
    redo: Vec<(CommandLabel, Command)>,
    /// Number of applied commands since the last `mark_saved`.
    dirty: i64,
}

/// A history as values.
#[verifier::ext_equal]
pub struct HistoryModel {
    pub undo: Seq<(CommandLabel, CommandModel)>,
    pub merge: Option<u64>,
    pub redo: Seq<(CommandLabel, CommandModel)>,
    pub dirty: i64,
}

pub open spec fn entries_model(s: Seq<(CommandLabel, Command)>) -> Seq<(CommandLabel, CommandModel)> {
    s.map_values(|e: (CommandLabel, Command)| (e.0, e.1@))
}

impl View for History {
    type V = HistoryModel;

    closed spec fn view(&self) -> HistoryModel {
        HistoryModel {
            undo: entries_model(self.undo@),
            merge: self.merge,
            redo: entries_model(self.redo@),
            dirty: self.dirty,
        }
    }
}

/// The empty history.
pub open spec fn empty_history() -> HistoryModel {
    HistoryModel { undo: Seq::empty(), merge: None, redo: Seq::empty(), dirty: 0 }
}

/// Applying `c`: the history and project afterwards, and the error if it
/// failed.
pub open spec fn history_apply(h: HistoryModel, p: ProjectModel, c: CommandModel) -> (HistoryModel, ProjectModel, Option<ErrorModel>) {
    let (p1, r) = apply_model(c, p);
    match r {
        Ok(inv) => (
            HistoryModel {
                undo: h.undo.push((command_label(c), inv)),
                redo: Seq::empty(),
                dirty: h.dirty.wrapping_add(1),
                merge: None,
            },
            p1,
            None,
        ),
        Err(e) => (h, p1, Some(e)),
    }
}

/// Whether `apply_merging` with `group` folds the command into the top
/// undo step.
pub open spec fn merges(h: HistoryModel, group: u64) -> bool {
    h.merge == Some(group) && h.redo.len() == 0 && h.undo.len() > 0
}

pub open spec fn history_apply_merging(h: HistoryModel, p: ProjectModel, c: CommandModel, group: u64) -> (HistoryModel, ProjectModel, Option<ErrorModel>) {
    if merges(h, group) {
        let (p1, r) = apply_model(c, p);
        match r {
            Ok(_) => (h, p1, None),
            Err(e) => (h, p1, Some(e)),
        }
    } else {
        let (h1, p1, e) = history_apply(h, p, c);
        match e {
            None => (HistoryModel { merge: Some(group), ..h1 }, p1, None),
            Some(e) => (h1, p1, Some(e)),
        }
    }
}

/// Undoing: the top undo entry's command is applied; on success it moves,
/// inverted, to the redo stack. A failed undo drops the entry.
pub open spec fn history_undo(h: HistoryModel, p: ProjectModel) -> (HistoryModel, ProjectModel, Option<CommandLabel>) {
    let h0 = HistoryModel { merge: None, ..h };
    if h.undo.len() == 0 {
        (h0, p, None)
    } else {
        let (label, inverse) = h.undo.last();
        let (p1, r) = apply_model(inverse, p);
        match r {
            Ok(redo) => (
                HistoryModel {
                    undo: h.undo.drop_last(),
                    redo: h.redo.push((label, redo)),
                    dirty: h.dirty.wrapping_sub(1),
                    merge: None,
                },
                p1,
                Some(label),
            ),
            Err(_) => (HistoryModel { undo: h.undo.drop_last(), ..h0 }, p1, None),
        }
    }
}

/// Redoing: the mirror image of undoing.
pub open spec fn history_redo(h: HistoryModel, p: ProjectModel) -> (HistoryModel, ProjectModel, Option<CommandLabel>) {
    let h0 = HistoryModel { merge: None, ..h };
    if h.redo.len() == 0 {
        (h0, p, None)
    } else {
        let (label, cmd) = h.redo.last();
        let (p1, r) = apply_model(cmd, p);
        match r {
            Ok(inverse) => (
                HistoryModel {
                    redo: h.redo.drop_last(),
                    undo: h.undo.push((label, inverse)),
                    dirty: h.dirty.wrapping_add(1),
                    merge: None,
                },
                p1,
                Some(label),
            ),
            Err(_) => (HistoryModel { redo: h.redo.drop_last(), ..h0 }, p1, None),
        }
    }
}

proof fn lemma_entries_push(s: Seq<(CommandLabel, Command)>, e: (CommandLabel, Command))
    ensures
        entries_model(s.push(e)) == entries_model(s).push((e.0, e.1@)),
{
    assert(entries_model(s.push(e)) =~= entries_model(s).push((e.0, e.1@)));
}

proof fn lemma_entries_drop_last(s: Seq<(CommandLabel, Command)>)
    requires
        s.len() > 0,
    ensures
        entries_model(s.drop_last()) == entries_model(s).drop_last(),
        entries_model(s).last() == (s.last().0, s.last().1@),
{
    assert(entries_model(s.drop_last()) =~= entries_model(s).drop_last());
}

impl History {
    pub fn new() -> (h: History)
        ensures
            h@ == empty_history(),
    {
        let h = History { undo: Vec::new(), merge: None, redo: Vec::new(), dirty: 0 };
        proof {
            assert(h@ =~= empty_history());
        }
        h
    }

    /// Applies `command`; on success clears the redo stack.
    pub fn apply(&mut self, project: &mut Project, command: Command) -> (r: Result<(), CommandError>)
        ensures
            (final(self)@, final(project)@) == ({
                let (h, p, _) = history_apply(old(self)@, old(project)@, command@);
                (h, p)
            }),
            match history_apply(old(self)@, old(project)@, command@).2 {
                None => r is Ok,
                Some(e) => r matches Err(x) && x@ == e,
            },
            r is Err ==> final(self)@ == old(self)@,
            r is Err && crate::command::failure_rolls_back(command@, old(project)@) ==> final(project)@ == with_media(
                old(project)@,
                final(project)@.media,
            ),
    {
        let label = command.label();
        let ghost c = command@;
        match command.apply(project) {
            Ok(inverse) => {
                proof {
                    lemma_entries_push(self.undo@, (label, inverse));
                }
                self.undo.push((label, inverse));
                self.redo.clear();
                self.dirty = self.dirty.wrapping_add(1);
                self.merge = None;
                proof {
                    assert(entries_model(self.redo@) =~= Seq::<(CommandLabel, CommandModel)>::empty());
                }
                Ok(())
            },
            Err(e) => Err(e),
        }
    }

    /// Like [`History::apply`], but consecutive commands with the same
    /// `group` form one undo step (typing into one text field). The first
    /// command's inverse is kept; later inverses are dropped. Any other
    /// command, an undo, a save or [`History::seal`] ends the group.
    pub fn apply_merging(&mut self, project: &mut Project, command: Command, group: u64) -> (r: Result<(), CommandError>)
        ensures
            (final(self)@, final(project)@) == ({
                let (h, p, _) = history_apply_merging(old(self)@, old(project)@, command@, group);
                (h, p)
            }),
            match history_apply_merging(old(self)@, old(project)@, command@, group).2 {
                None => r is Ok,
                Some(e) => r matches Err(x) && x@ == e,
            },
            r is Err ==> final(self)@ == old(self)@,
            r is Err && crate::command::failure_rolls_back(command@, old(project)@) ==> final(project)@ == with_media(
                old(project)@,
                final(project)@.media,
            ),
    {
        if self.merge == Some(group) && self.redo.len() == 0 && self.undo.len() > 0 {
            proof {
                assert(merges(self@, group));
            }
            match command.apply(project) {
                Ok(_) => return Ok(()),
                Err(e) => return Err(e),
            }
        }
        proof {
            assert(!merges(self@, group));
        }
        match self.apply(project, command) {
            Ok(()) => {
                self.merge = Some(group);
                Ok(())
            },
            Err(e) => Err(e),
        }
    }

    /// Ends the current merge group; the next edit starts a new undo step.
    pub fn seal(&mut self)
        ensures
            final(self)@ == (HistoryModel { merge: None, ..old(self)@ }),
    {
        self.merge = None;
    }

    /// Undoes the last command. Returns its label, or `None` if nothing to undo.
    pub fn undo(&mut self, project: &mut Project) -> (l: Option<CommandLabel>)
        ensures
            (final(self)@, final(project)@, l) == history_undo(old(self)@, old(project)@),
    {
        self.merge = None;
        if self.undo.len() == 0 {
            return None;
        }
        proof {
            lemma_entries_drop_last(self.undo@);
        }
        let (label, inverse) = self.undo.pop().unwrap();
        match inverse.apply(project) {
            Ok(redo) => {
                proof {
                    lemma_entries_push(self.redo@, (label, redo));
                }
                self.redo.push((label, redo));
                self.dirty = self.dirty.wrapping_sub(1);
                Some(label)
            },
            Err(_) => None,
        }
    }

    pub fn redo(&mut self, project: &mut Project) -> (l: Option<CommandLabel>)
        ensures
            (final(self)@, final(project)@, l) == history_redo(old(self)@, old(project)@),
    {
        self.merge = None;
        if self.redo.len() == 0 {
            return None;
        }
        proof {
            lemma_entries_drop_last(self.redo@);
        }
        let (label, cmd) = self.redo.pop().unwrap();
        match cmd.apply(project) {
            Ok(inverse) => {
                proof {
                    lemma_entries_push(self.undo@, (label, inverse));
                }
                self.undo.push((label, inverse));
                self.dirty = self.dirty.wrapping_add(1);
                Some(label)
            },
            Err(_) => None,
        }
    }

    pub fn can_undo(&self) -> (b: bool)
        ensures
            b == (self@.undo.len() > 0),
    {
        self.undo.len() > 0
    }

    pub fn can_redo(&self) -> (b: bool)
        ensures
            b == (self@.redo.len() > 0),
    {
        self.redo.len() > 0
    }

    pub fn undo_label(&self) -> (l: Option<CommandLabel>)
        ensures
            l == (if self@.undo.len() > 0 { Some(self@.undo.last().0) } else { None::<CommandLabel> }),
    {
        if self.undo.len() > 0 {
            proof {
                lemma_entries_drop_last(self.undo@);
            }
            Some(self.undo[self.undo.len() - 1].0)
        } else {
            None
        }
    }

    pub fn redo_label(&self) -> (l: Option<CommandLabel>)
        ensures
            l == (if self@.redo.len() > 0 { Some(self@.redo.last().0) } else { None::<CommandLabel> }),
    {
        if self.redo.len() > 0 {
            proof {
                lemma_entries_drop_last(self.redo@);
            }
            Some(self.redo[self.redo.len() - 1].0)
        } else {
            None
        }
    }

    /// True if the project differs from the last saved state.
    pub fn is_dirty(&self) -> (b: bool)
        ensures
            b == (self@.dirty != 0),
    {
        self.dirty != 0
    }

    pub fn mark_saved(&mut self)
        ensures
            final(self)@ == (HistoryModel { dirty: 0, merge: None, ..old(self)@ }),
    {
        self.dirty = 0;
        // An edit merged after a save must count as a change.
        self.merge = None;
    }

    /// Forgets everything (new/open project).
    pub fn clear(&mut self)
        ensures
            final(self)@ == empty_history(),
    {
        self.undo.clear();
        self.redo.clear();
        self.dirty = 0;
        self.merge = None;
        proof {
            assert(self@ =~= empty_history());
        }
    }
}

/// Undo right after a successful apply gives back the project (its media
/// table only grew) and the history as it was, with the command waiting
/// on the redo stack. A restore needs nothing more; any other command a
/// project whose clips could all be inserted again and whose music is
/// valid, and, inside batches and insertions, positions listed once and
/// restored clips that could be inserted.
pub proof fn law_undo_after_apply(h: HistoryModel, p: ProjectModel, c: CommandModel)
    requires
        c is RestoreClips || (restorable(p) && command_ok(c, p.media)),
        p.clips.len() + inserted(c) <= usize::MAX,
        history_apply(h, p, c).2 is None,
    ensures
        ({
            let (h1, p1, _) = history_apply(h, p, c);
            let (h2, p2, l) = history_undo(h1, p1);
            &&& p2 == with_media(p, p1.media)
            &&& l == Some(command_label(c))
            &&& h2.undo == h.undo
            &&& h2.dirty == h.dirty
            &&& h2.redo.len() == 1
            &&& h2.merge is None
        }),
{
    let (p1, r) = apply_model(c, p);
    if let CommandModel::RestoreClips { entries } = c {
        lemma_restore_round_trip(p, entries);
        assert(with_media(p, p1.media) == p);
    } else {
        lemma_undo(c, p, p.media, p1.media);
    }
    let h1 = history_apply(h, p, c).0;
    assert(h1.undo.drop_last() =~= h.undo);
    let d = h.dirty;
    assert(d.wrapping_add(1).wrapping_sub(1) == d) by (bit_vector);
}

/// Redo right after undoing a successful apply repeats the command: the
/// project is again what the command made of it, and the history is back
/// to one more undo step than before, with nothing to redo.
pub proof fn law_redo_after_undo(h: HistoryModel, p: ProjectModel, c: CommandModel)
    requires
        c is RestoreClips || (restorable(p) && command_ok(c, p.media)),
        p.clips.len() + inserted(c) <= usize::MAX,
        history_apply(h, p, c).2 is None,
    ensures
        ({
            let (h1, p1, _) = history_apply(h, p, c);
            let (h2, p2, _) = history_undo(h1, p1);
            let (h3, p3, l) = history_redo(h2, p2);
            &&& p3 == p1
            &&& l == Some(command_label(c))
            &&& h3.undo.len() == h.undo.len() + 1
            &&& h3.undo.drop_last() == h.undo
            &&& h3.undo.last().0 == command_label(c)
            &&& h3.redo.len() == 0
            &&& h3.dirty == h1.dirty
            &&& h3.merge is None
        }),
{
    let (p1, r) = apply_model(c, p);
    let inv = r->Ok_0;
    let p2 = apply_model(inv, p1).0;
    if let CommandModel::RestoreClips { entries } = c {
        lemma_restore_round_trip(p, entries);
        let snap = crate::semantics::snapshot(p.clips, crate::semantics::entry_indices(entries));
        lemma_restore_round_trip(p1, snap);
    } else {
        lemma_undo(c, p, p.media, p1.media);
        lemma_inverse_ok(c, p, p.media);
        assert(with_media(p1, p1.media) == p1);
        lemma_undo(inv, p1, p1.media, p2.media);
        assert(with_media(p2, p1.media) == p2);
    }
    let h1 = history_apply(h, p, c).0;
    assert(h1.undo.drop_last() =~= h.undo);
    let h2 = history_undo(h1, p1).0;
    let h3 = history_redo(h2, p2).0;
    assert(h3.undo.drop_last() =~= h.undo);
    let d = h.dirty;
    assert(d.wrapping_add(1).wrapping_sub(1) == d) by (bit_vector);
}

/// One call on a history, for reasoning about sequences of calls.
pub enum HistoryCall {
    Apply(CommandModel),
    ApplyMerging(CommandModel, u64),
    Undo,
    Redo,
    Seal,
}

/// The history and project after one call, and how the count of unsaved
/// steps moves: +1 for a successful apply that is not merged and for a
/// redo, -1 for an undo, 0 otherwise.
pub open spec fn history_step(h: HistoryModel, p: ProjectModel, call: HistoryCall) -> (HistoryModel, ProjectModel, int) {
    match call {
        HistoryCall::Apply(c) => {
            let (h1, p1, e) = history_apply(h, p, c);
            (h1, p1, if e is None { 1int } else { 0int })
        },
        HistoryCall::ApplyMerging(c, g) => {
            let (h1, p1, e) = history_apply_merging(h, p, c, g);
            (h1, p1, if e is None && !merges(h, g) { 1int } else { 0int })
        },
        HistoryCall::Undo => {
            let (h1, p1, l) = history_undo(h, p);
            (h1, p1, if l is Some { -1int } else { 0int })
        },
        HistoryCall::Redo => {
            let (h1, p1, l) = history_redo(h, p);
            (h1, p1, if l is Some { 1int } else { 0int })
        },
        HistoryCall::Seal => (HistoryModel { merge: None, ..h }, p, 0int),
    }
}

/// The history and project after the calls in order, and the net count of
/// unsaved steps they made.
pub open spec fn history_run(h: HistoryModel, p: ProjectModel, calls: Seq<HistoryCall>) -> (HistoryModel, ProjectModel, int)
    decreases calls.len(),
{
    if calls.len() == 0 {
        (h, p, 0int)
    } else {
        let (h1, p1, n1) = history_run(h, p, calls.drop_last());
        let (h2, p2, d) = history_step(h1, p1, calls.last());
        (h2, p2, n1 + d)
    }
}

/// The dirty marker counts: after any calls since a save (or a new
/// history), the history is dirty exactly when successful applies that
/// opened a step, plus redos, minus undos, is not zero.
pub proof fn law_dirty_counts_steps(h: HistoryModel, p: ProjectModel, calls: Seq<HistoryCall>)
    requires
        h.dirty == 0,
        calls.len() <= i64::MAX,
    ensures
        history_run(h, p, calls).0.dirty == history_run(h, p, calls).2,
        (history_run(h, p, calls).0.dirty != 0) <==> (history_run(h, p, calls).2 != 0),
{
    lemma_run_dirty(h, p, calls);
}

proof fn lemma_run_dirty(h: HistoryModel, p: ProjectModel, calls: Seq<HistoryCall>)
    requires
        h.dirty == 0,
        calls.len() <= i64::MAX,
    ensures
        history_run(h, p, calls).0.dirty == history_run(h, p, calls).2,
        -(calls.len() as int) <= history_run(h, p, calls).2 <= calls.len(),
    decreases calls.len(),
{
    if calls.len() > 0 {
        lemma_run_dirty(h, p, calls.drop_last());
        let (h1, p1, n1) = history_run(h, p, calls.drop_last());
        let d = h1.dirty;
        assert(i64::MIN < d < i64::MAX);
        assert(d.wrapping_add(1) == d + 1) by (bit_vector)
            requires
                d < i64::MAX,
        ;
        assert(d.wrapping_sub(1) == d - 1) by (bit_vector)
            requires
                d > i64::MIN,
        ;
    }
}

/// The history and project after `apply_merging` with `group` of each
/// command in turn.
pub open spec fn merged_run(h: HistoryModel, p: ProjectModel, cs: Seq<CommandModel>, group: u64) -> (HistoryModel, ProjectModel)
    decreases cs.len(),
{
    if cs.len() == 0 {
        (h, p)
    } else {
        let (h1, p1) = merged_run(h, p, cs.drop_last(), group);
        let (h2, p2, _) = history_apply_merging(h1, p1, cs.last(), group);
        (h2, p2)
    }
}

/// A merge group is one undo step: once `apply_merging` has opened a step
/// for `group`, further commands of the group (whether they succeed or
/// not) add no step and leave the redo stack empty and the dirty count as
/// it was; one undo then takes the whole group off and names the first
/// command.
pub proof fn law_merge_group_is_one_step(h: HistoryModel, p: ProjectModel, first: CommandModel, rest: Seq<CommandModel>, group: u64)
    requires
        history_apply_merging(h, p, first, group).2 is None,
        !merges(h, group),
    ensures
        ({
            let (h1, p1, _) = history_apply_merging(h, p, first, group);
            let (hn, pn) = merged_run(h1, p1, rest, group);
            &&& hn == h1
            &&& hn.undo.len() == h.undo.len() + 1
            &&& hn.undo.drop_last() == h.undo
            &&& hn.undo.last().0 == command_label(first)
            &&& hn.redo.len() == 0
            &&& history_undo(hn, pn).0.undo == h.undo
            &&& history_undo(hn, pn).2 is Some ==> history_undo(hn, pn).2 == Some(command_label(first))
        }),
{
    let (h1, p1, _) = history_apply_merging(h, p, first, group);
    assert(h1.undo.drop_last() =~= h.undo);
    lemma_merged_run_keeps(h1, p1, rest, group);
}

proof fn lemma_merged_run_keeps(h: HistoryModel, p: ProjectModel, cs: Seq<CommandModel>, group: u64)
    requires
        merges(h, group),
    ensures
        merged_run(h, p, cs, group).0 == h,
    decreases cs.len(),
{
    if cs.len() > 0 {
        lemma_merged_run_keeps(h, p, cs.drop_last(), group);
    }
}

/// Whether `c` changes nothing but clips at positions that `t` lists:
/// on any project it keeps the number of clips, every other clip, and all
/// else.
pub open spec fn changes_only_at(c: CommandModel, t: Seq<usize>) -> bool {
    forall|q: ProjectModel| {
        let q1 = #[trigger] apply_model(c, q).0;
        &&& q1 == (ProjectModel { clips: q1.clips, ..q })
        &&& q1.clips.len() == q.clips.len()
        &&& forall|j: int| 0 <= j < q.clips.len() && !names(t, j) ==> #[trigger] q1.clips[j] == q.clips[j]
    }
}

proof fn lemma_group_stays_at(h: HistoryModel, q: ProjectModel, p: ProjectModel, cs: Seq<CommandModel>, t: Seq<usize>, group: u64)
    requires
        merges(h, group),
        forall|k: int| 0 <= k < cs.len() ==> changes_only_at(#[trigger] cs[k], t),
        q == (ProjectModel { clips: q.clips, ..p }),
        q.clips.len() == p.clips.len(),
        forall|j: int| 0 <= j < p.clips.len() && !names(t, j) ==> #[trigger] q.clips[j] == p.clips[j],
    ensures
        ({
            let qn = merged_run(h, q, cs, group).1;
            &&& qn == (ProjectModel { clips: qn.clips, ..p })
            &&& qn.clips.len() == p.clips.len()
            &&& forall|j: int| 0 <= j < p.clips.len() && !names(t, j) ==> #[trigger] qn.clips[j] == p.clips[j]
        }),
    decreases cs.len(),
{
    if cs.len() > 0 {
        let d = cs.drop_last();
        assert forall|k: int| 0 <= k < d.len() implies changes_only_at(#[trigger] d[k], t) by {
            assert(d[k] == cs[k]);
        }
        lemma_group_stays_at(h, q, p, d, t, group);
        lemma_merged_run_keeps(h, q, d, group);
        let c = cs.last();
        assert(changes_only_at(c, t)) by {
            assert(c == cs[cs.len() - 1]);
        }
        let qk = merged_run(h, q, d, group).1;
        let q1 = apply_model(c, qk).0;
        assert(q1 == ProjectModel { clips: q1.clips, ..qk });
        assert forall|j: int| 0 <= j < p.clips.len() && !names(t, j) implies #[trigger] q1.clips[j] == p.clips[j] by {
            assert(q1.clips[j] == qk.clips[j]);
        }
    }
}

/// One undo after a merge group gives back the project from before the
/// group, when every command of the group changes only the clips the
/// first one put its inverse on (typing into one field of the same
/// clips): the undo names the first command.
pub proof fn law_merge_group_undoes_to_the_start(
    h: HistoryModel,
    p: ProjectModel,
    first: CommandModel,
    rest: Seq<CommandModel>,
    group: u64,
    t: Seq<usize>,
)
    requires
        history_apply_merging(h, p, first, group).2 is None,
        !merges(h, group),
        apply_model(first, p).1 == Ok::<CommandModel, ErrorModel>(
            CommandModel::RestoreClips { entries: crate::semantics::snapshot(p.clips, t) },
        ),
        forall|i: int| 0 <= i < t.len() ==> #[trigger] t[i] < p.clips.len(),
        changes_only_at(first, t),
        forall|k: int| 0 <= k < rest.len() ==> changes_only_at(#[trigger] rest[k], t),
    ensures
        ({
            let (h1, p1, _) = history_apply_merging(h, p, first, group);
            let (hn, pn) = merged_run(h1, p1, rest, group);
            &&& history_undo(hn, pn).1 == p
            &&& history_undo(hn, pn).2 == Some(command_label(first))
        }),
{
    let (h1, p1, _) = history_apply_merging(h, p, first, group);
    lemma_merged_run_keeps(h1, p1, rest, group);
    let p1m = apply_model(first, p).0;
    assert(p1 == p1m);
    lemma_group_stays_at(h1, p1, p, rest, t, group);
    let pn = merged_run(h1, p1, rest, group).1;
    let snap = crate::semantics::snapshot(p.clips, t);
    crate::undo::lemma_out_of_range(snap, pn.clips.len(), 0);
    crate::undo::lemma_restore_snapshot(pn.clips, p.clips, t);
    let back = crate::semantics::set_each(pn.clips, crate::semantics::replace_updates(snap));
    assert(back =~= p.clips);
}

} // verus!
