//! Why undo works: facts about the sequence operations that commands are
//! made of, and the laws that tie a command to its inverse.

use vstd::prelude::*;

use crate::command::{CommandModel, ErrorModel};
use crate::project::{first_unknown_song, music_problem, Clip, ClipSource, MediaRef, ProjectModel};
use crate::semantics::{
    apply_fuel, apply_model, caption_updates, depth, lemma_fuel, lemma_max_depth, lemma_run_batch,
    max_depth, motion_updates, run_batch, transition_updates, entry_indices, first_insert_defect, first_out_of_range,
    insert_all, insert_defect, insert_outcome, inverse_order, is_permutation, merge_media,
    music_outcome, names, remove_all, remove_outcome, reorder_outcome, replace_updates,
    restore_outcome, set_each, set_each_outcome, set_field_outcome, snapshot, trim_outcome,
    update_at, updated, with_clips, Requirement, Update,
};
use crate::sorting::{
    check_indices, entry_slot, first_repeat, isort, lemma_check_indices, lemma_isort,
    lemma_strict_when_no_repeat, slot, sort_entries, strictly_increasing, IndexCheck,
};
use crate::time::Ticks;

verus! {

proof fn lemma_entry_slot<T>(t: Seq<(usize, T)>, k: usize)
    ensures
        entry_slot(t, k) == slot(entry_indices(t), k),
    decreases t.len(),
{
    if t.len() > 0 {
        assert(entry_indices(t.drop_first()) =~= entry_indices(t).drop_first());
        lemma_entry_slot(t.drop_first(), k);
    }
}

/// Sorting entries sorts their indices the same way.
proof fn lemma_sort_entries_indices<T>(s: Seq<(usize, T)>)
    ensures
        entry_indices(sort_entries(s)) == isort(entry_indices(s)),
        sort_entries(s).len() == s.len(),
    decreases s.len(),
{
    if s.len() > 0 {
        lemma_sort_entries_indices(s.drop_last());
        let t = sort_entries(s.drop_last());
        assert(entry_indices(s.drop_last()) =~= entry_indices(s).drop_last());
        lemma_entry_slot(t, s.last().0);
        crate::sorting::lemma_isort(entry_indices(s.drop_last()));
        let p = entry_slot(t, s.last().0);
        lemma_slot_bound(entry_indices(t), s.last().0);
        assert(entry_indices(t.insert(p, s.last())) =~= entry_indices(t).insert(p, s.last().0));
    }
}

proof fn lemma_slot_bound(s: Seq<usize>, x: usize)
    ensures
        0 <= slot(s, x) <= s.len(),
        (forall|i: int| 0 <= i < s.len() ==> s[i] <= x) ==> slot(s, x) == s.len(),
    decreases s.len(),
{
    if s.len() > 0 && s[0] <= x {
        lemma_slot_bound(s.drop_first(), x);
        if forall|i: int| 0 <= i < s.len() ==> s[i] <= x {
            assert forall|i: int| 0 <= i < s.drop_first().len() implies s.drop_first()[i] <= x by {
                assert(s.drop_first()[i] == s[i + 1]);
            }
        }
    }
}

/// Entries whose indices already increase are left as they are.
pub proof fn lemma_sort_entries_sorted<T>(s: Seq<(usize, T)>)
    requires
        strictly_increasing(entry_indices(s)),
    ensures
        sort_entries(s) == s,
    decreases s.len(),
{
    if s.len() > 0 {
        let d = s.drop_last();
        assert(entry_indices(d) =~= entry_indices(s).drop_last());
        lemma_sort_entries_sorted(d);
        lemma_entry_slot(d, s.last().0);
        assert forall|i: int| 0 <= i < entry_indices(d).len() implies entry_indices(d)[i] <= s.last().0 by {
            assert(entry_indices(s)[i] < entry_indices(s)[s.len() - 1]);
        }
        lemma_slot_bound(entry_indices(d), s.last().0);
        assert(d.insert(d.len() as int, s.last()) =~= s);
    }
}

/// An increasing list sorts to itself and repeats nothing.
pub proof fn lemma_isort_increasing(t: Seq<usize>)
    requires
        strictly_increasing(t),
    ensures
        isort(t) == t,
        first_repeat(t, 0) is None,
    decreases t.len(),
{
    if t.len() > 0 {
        let d = t.drop_last();
        lemma_isort_increasing(d);
        assert forall|i: int| 0 <= i < d.len() implies d[i] <= t.last() by {
            assert(t[i] < t[t.len() - 1]);
        }
        lemma_slot_bound(d, t.last());
        assert(d.insert(d.len() as int, t.last()) =~= t);
    }
    lemma_no_repeat(t, 0);
}

proof fn lemma_no_repeat(t: Seq<usize>, from: int)
    requires
        strictly_increasing(t),
        0 <= from,
    ensures
        first_repeat(t, from) is None,
    decreases t.len() - from,
{
    if from + 1 < t.len() {
        assert(t[from] < t[from + 1]);
        lemma_no_repeat(t, from + 1);
    }
}

/// What inserting entries one by one leaves, when it succeeds: every
/// index was at most the length at its turn.
proof fn lemma_insert_all_len(c: Seq<Clip>, e: Seq<(usize, Clip)>)
    requires
        insert_all(c, e).1 is None,
    ensures
        insert_all(c, e).0.len() == c.len() + e.len(),
        forall|k: int| 0 <= k < e.len() ==> #[trigger] e[k].0 <= c.len() + k,
    decreases e.len(),
{
    if e.len() > 0 {
        let (i, x) = e[0];
        lemma_insert_all_len(c.insert(i as int, x), e.drop_first());
        assert forall|k: int| 0 <= k < e.len() implies #[trigger] e[k].0 <= c.len() + k by {
            if k > 0 {
                assert(e[k] == e.drop_first()[k - 1]);
            }
        }
    }
}

/// Removing increasing indices highest first is removing the later ones
/// and then the first.
proof fn lemma_remove_front(x: Seq<Clip>, t: Seq<usize>)
    requires
        strictly_increasing(t),
        t.len() > 0,
        forall|i: int| 0 <= i < t.len() ==> t[i] < x.len(),
    ensures
        remove_all(x, t) == remove_all(x, t.drop_first()).remove(t[0] as int),
        remove_all(x, t.drop_first()).len() == x.len() - (t.len() - 1),
    decreases t.len(),
{
    if t.len() == 1 {
        assert(t.drop_first() =~= Seq::<usize>::empty());
        assert(t.drop_last() =~= Seq::<usize>::empty());
        assert(t.last() == t[0]);
        assert(remove_all(x, t) == remove_all(x.remove(t[0] as int), Seq::<usize>::empty()));
    } else {
        let last = t.last();
        let x1 = x.remove(last as int);
        let d = t.drop_last();
        assert forall|i: int| 0 <= i < d.len() implies d[i] < x1.len() by {
            assert(t[i] < t[t.len() - 1]);
        }
        lemma_remove_front(x1, d);
        let f = t.drop_first();
        assert(f.last() == last);
        assert(f.drop_last() =~= d.drop_first());
        assert(d[0] == t[0]);
        assert(remove_all(x, f) == remove_all(x.remove(f.last() as int), f.drop_last()));
        assert(remove_all(x, t) == remove_all(x1, d));
    }
}

/// Removing increasing indices keeps what lies below the first of them.
proof fn lemma_remove_keeps_below(x: Seq<Clip>, t: Seq<usize>, j: int)
    requires
        strictly_increasing(t),
        forall|i: int| 0 <= i < t.len() ==> t[i] < x.len(),
        forall|i: int| 0 <= i < t.len() ==> j < t[i],
        0 <= j < x.len(),
    ensures
        j < remove_all(x, t).len(),
        remove_all(x, t)[j] == x[j],
        remove_all(x, t).len() == x.len() - t.len(),
    decreases t.len(),
{
    if t.len() > 0 {
        let last = t.last();
        let d = t.drop_last();
        assert(j < last);
        assert forall|i: int| 0 <= i < d.len() implies d[i] < x.len() - 1 by {
            assert(t[i] < t[t.len() - 1]);
        }
        lemma_remove_keeps_below(x.remove(last as int), d, j);
    }
}

/// Inserting at increasing indices and then removing those indices gives
/// back what there was.
pub proof fn lemma_insert_then_remove(c: Seq<Clip>, e: Seq<(usize, Clip)>)
    requires
        strictly_increasing(entry_indices(e)),
        insert_all(c, e).1 is None,
    ensures
        remove_all(insert_all(c, e).0, entry_indices(e)) == c,
        forall|k: int| 0 <= k < e.len() ==> #[trigger] e[k].0 < insert_all(c, e).0.len(),
    decreases e.len(),
{
    lemma_insert_all_len(c, e);
    if e.len() > 0 {
        let (i, x) = e[0];
        let c1 = c.insert(i as int, x);
        let rest = e.drop_first();
        let t = entry_indices(e);
        assert(entry_indices(rest) =~= t.drop_first());
        lemma_insert_then_remove(c1, rest);
        let r = insert_all(c, e).0;
        assert forall|k: int| 0 <= k < e.len() implies #[trigger] e[k].0 < r.len() by {
            assert(e[k].0 <= c.len() + k);
        }
        assert forall|k: int| 0 <= k < t.len() implies t[k] < r.len() by {
            assert(t[k] == e[k].0);
        }
        lemma_remove_front(r, t);
        assert(c1.remove(i as int) =~= c);
    } else {
        assert(entry_indices(e) =~= Seq::<usize>::empty());
    }
}

/// Removing increasing indices and inserting back what was there gives
/// back the clips.
pub proof fn lemma_remove_then_insert(c: Seq<Clip>, t: Seq<usize>)
    requires
        strictly_increasing(t),
        forall|i: int| 0 <= i < t.len() ==> t[i] < c.len(),
    ensures
        insert_all(remove_all(c, t), snapshot(c, t)) == (c, None::<crate::command::ErrorModel>),
    decreases t.len(),
{
    if t.len() == 0 {
        assert(snapshot(c, t) =~= Seq::<(usize, Clip)>::empty());
    } else {
        let t0 = t[0];
        let rest = t.drop_first();
        lemma_remove_then_insert(c, rest);
        lemma_remove_front(c, t);
        let r1 = remove_all(c, rest);
        lemma_remove_keeps_below(c, rest, t0 as int);
        lemma_strict_bound(t, c.len() as int, 0);
        let r = remove_all(c, t);
        assert(r == r1.remove(t0 as int));
        assert(r.insert(t0 as int, c[t0 as int]) =~= r1);
        assert(snapshot(c, t).drop_first() =~= snapshot(c, rest));
        assert(snapshot(c, t)[0] == (t0, c[t0 as int]));
    }
}

/// In a strictly increasing list of indices below `len`, the entry at
/// position `j` leaves room for the `n - 1 - j` larger ones.
pub proof fn lemma_strict_bound(t: Seq<usize>, len: int, j: int)
    requires
        strictly_increasing(t),
        forall|i: int| 0 <= i < t.len() ==> t[i] < len,
        0 <= j < t.len(),
    ensures
        t[j] + (t.len() - j) <= len,
    decreases t.len() - j,
{
    if j + 1 < t.len() {
        lemma_strict_bound(t, len, j + 1);
        assert(t[j] < t[j + 1]);
    }
}

/// Changing clips one entry at a time leaves the length and every clip
/// that no entry names.
pub proof fn lemma_set_each_elsewhere(c: Seq<Clip>, e: Seq<(usize, Update)>)
    requires
        forall|k: int| 0 <= k < e.len() ==> #[trigger] e[k].0 < c.len(),
    ensures
        set_each(c, e).len() == c.len(),
        forall|j: int| 0 <= j < c.len() && !names(entry_indices(e), j) ==> #[trigger] set_each(c, e)[j] == c[j],
    decreases e.len(),
{
    if e.len() > 0 {
        let d = e.drop_last();
        assert forall|k: int| 0 <= k < d.len() implies #[trigger] d[k].0 < c.len() by {
            assert(d[k] == e[k]);
        }
        lemma_set_each_elsewhere(c, d);
        assert forall|j: int| 0 <= j < c.len() && !names(entry_indices(e), j) implies #[trigger] set_each(c, e)[j] == c[j] by {
            assert(entry_indices(e)[e.len() - 1] == e.last().0);
            if names(entry_indices(d), j) {
                let k = choose|k: int| 0 <= k < entry_indices(d).len() && entry_indices(d)[k] == j;
                assert(entry_indices(e)[k] == j);
            }
        }
    }
}

/// Putting back the clips `c` had at some indices: those indices hold
/// `c`'s clips again, the others are left.
pub proof fn lemma_restore_snapshot(x: Seq<Clip>, c: Seq<Clip>, t: Seq<usize>)
    requires
        x.len() == c.len(),
        forall|k: int| 0 <= k < t.len() ==> #[trigger] t[k] < c.len(),
    ensures
        set_each(x, replace_updates(snapshot(c, t))).len() == c.len(),
        forall|j: int| 0 <= j < c.len() ==> #[trigger] set_each(x, replace_updates(snapshot(c, t)))[j]
            == if names(t, j) { c[j] } else { x[j] },
    decreases t.len(),
{
    if t.len() > 0 {
        let d = t.drop_last();
        let e = replace_updates(snapshot(c, t));
        assert(e.drop_last() =~= replace_updates(snapshot(c, d)));
        lemma_restore_snapshot(x, c, d);
        let prev = set_each(x, e.drop_last());
        let i = t.last();
        assert(e.last() == (i, Update::Replace(c[i as int])));
        assert(set_each(x, e) == prev.update(i as int, updated(prev[i as int], Update::Replace(c[i as int]))));
        assert forall|j: int| 0 <= j < c.len() implies #[trigger] set_each(x, e)[j]
            == if names(t, j) { c[j] } else { x[j] } by {
            if j != i {
                assert(names(t, j) == names(d, j)) by {
                    if names(t, j) {
                        let k = choose|k: int| 0 <= k < t.len() && t[k] == j;
                        assert(k != t.len() - 1);
                        assert(d[k] == j);
                    }
                    if names(d, j) {
                        let k = choose|k: int| 0 <= k < d.len() && d[k] == j;
                        assert(t[k] == j);
                    }
                }
            } else {
                assert(t[t.len() - 1] == i);
            }
        }
    }
}

/// Whether `j` occurs in `order`.
spec fn listed(order: Seq<usize>, j: int) -> bool {
    exists|i: int| 0 <= i < order.len() && order[i] == j
}

/// Applying a permutation and then its inverse gives back the clips, and
/// the inverse is itself a permutation.
pub proof fn lemma_inverse_order(order: Seq<usize>, c: Seq<Clip>)
    requires
        is_permutation(order, c.len()),
    ensures
        is_permutation(inverse_order(order), c.len()),
        ({
            let once = Seq::new(order.len(), |i: int| c[order[i] as int]);
            let inv = inverse_order(order);
            Seq::new(inv.len(), |i: int| once[inv[i] as int]) == c
        }),
{
    let n = order.len();
    let ints = order.map_values(|x: usize| x as int);
    assert(ints.no_duplicates()) by {
        assert forall|i: int, j: int| 0 <= i < n && 0 <= j < n && i != j implies ints[i] != ints[j] by {
            if i < j {
                assert(order[i] != order[j]);
            } else {
                assert(order[j] != order[i]);
            }
        }
    }
    ints.unique_seq_to_set();
    vstd::set_lib::lemma_int_range(0, n as int);
    let range = vstd::set_lib::set_int_range(0, n as int);
    assert(ints.to_set().subset_of(range)) by {
        assert forall|v: int| ints.to_set().contains(v) implies range.contains(v) by {
            let i = choose|i: int| 0 <= i < ints.len() && ints[i] == v;
            assert(order[i] < n);
        }
    }
    vstd::set_lib::lemma_len_subset(ints.to_set(), range);
    vstd::set_lib::lemma_subset_equality(ints.to_set(), range);
    assert forall|j: int| 0 <= j < n implies #[trigger] listed(order, j) by {
        assert(range.contains(j));
        assert(ints.to_set().contains(j));
        let i = choose|i: int| 0 <= i < ints.len() && ints[i] == j;
        assert(order[i] == j);
    }
    if n > 0 {
        assert(listed(order, n - 1));
        let i = choose|i: int| 0 <= i < order.len() && order[i] == n - 1;
        assert(n - 1 <= usize::MAX);
    }
    let inv = inverse_order(order);
    assert forall|j: int| 0 <= j < n implies #[trigger] inv[j] < n && order[inv[j] as int] == j by {
        assert(listed(order, j));
        let i = choose|i: int| 0 <= i < order.len() && order[i] == j;
        assert(inv[j] == i as usize);
    }
    assert forall|a: int, b: int| 0 <= a < b < inv.len() implies inv[a] != inv[b] by {
        assert(order[inv[a] as int] == a);
        assert(order[inv[b] as int] == b);
    }
    let once = Seq::new(order.len(), |i: int| c[order[i] as int]);
    assert(Seq::new(inv.len(), |i: int| once[inv[i] as int]) =~= c);
}

/// Every key of `a` is a key of `b`.
pub open spec fn media_within(a: Map<u128, MediaRef>, b: Map<u128, MediaRef>) -> bool {
    forall|k: u128| a.contains_key(k) ==> #[trigger] b.contains_key(k)
}

/// `p` with another media table.
pub open spec fn with_media(p: ProjectModel, media: Map<u128, MediaRef>) -> ProjectModel {
    ProjectModel { media, ..p }
}

/// Every clip could be inserted again as it is.
pub open spec fn clips_insertable(clips: Seq<Clip>, media: Map<u128, MediaRef>) -> bool {
    forall|i: int| 0 <= i < clips.len() ==> #[trigger] insert_defect(clips[i], media) is None
}

/// A project in which every command can be undone: each clip could be
/// inserted again, and the music track is valid.
pub open spec fn restorable(p: ProjectModel) -> bool {
    clips_insertable(p.clips, p.media) && music_problem(p) is None
}

/// No index is listed twice.
pub open spec fn indices_distinct(s: Seq<usize>) -> bool {
    first_repeat(isort(s), 0) is None
}

/// What undo needs of a command, given the media its clips may name: an
/// insertion lists each position once, and clips put back by a restore
/// could be inserted.
pub open spec fn command_ok(c: CommandModel, media: Map<u128, MediaRef>) -> bool
    decreases c, 0nat,
{
    match c {
        CommandModel::InsertClips { entries, .. } => indices_distinct(entry_indices(entries)),
        CommandModel::RestoreClips { entries } => forall|k: int|
            0 <= k < entries.len() ==> #[trigger] insert_defect(entries[k].1, media) is None,
        CommandModel::Batch { commands } => commands_ok(commands, media),
        _ => true,
    }
}

/// `command_ok` for each command of a batch.
pub open spec fn commands_ok(s: Seq<CommandModel>, media: Map<u128, MediaRef>) -> bool
    decreases s, 1nat,
{
    if s.len() == 0 {
        true
    } else {
        commands_ok(s.drop_last(), media) && command_ok(s.last(), media)
    }
}

proof fn lemma_commands_ok(s: Seq<CommandModel>, media: Map<u128, MediaRef>)
    requires
        commands_ok(s, media),
    ensures
        forall|k: int| 0 <= k < s.len() ==> #[trigger] command_ok(s[k], media),
    decreases s.len(),
{
    if s.len() > 0 {
        lemma_commands_ok(s.drop_last(), media);
        assert forall|k: int| 0 <= k < s.len() implies #[trigger] command_ok(s[k], media) by {
            if k < s.len() - 1 {
                assert(s[k] == s.drop_last()[k]);
            }
        }
    }
}

proof fn lemma_defect_within(c: Clip, a: Map<u128, MediaRef>, b: Map<u128, MediaRef>)
    requires
        media_within(a, b),
        insert_defect(c, a) is None,
    ensures
        insert_defect(c, b) is None,
{
    if !crate::project::is_title(c) {
        assert(a.contains_key(c.media.0));
    }
}

proof fn lemma_insertable_within(clips: Seq<Clip>, a: Map<u128, MediaRef>, b: Map<u128, MediaRef>)
    requires
        media_within(a, b),
        clips_insertable(clips, a),
    ensures
        clips_insertable(clips, b),
{
    assert forall|i: int| 0 <= i < clips.len() implies #[trigger] insert_defect(clips[i], b) is None by {
        lemma_defect_within(clips[i], a, b);
    }
}

proof fn lemma_merge_within(m: Map<u128, MediaRef>, refs: Seq<MediaRef>)
    ensures
        media_within(m, merge_media(m, refs)),
    decreases refs.len(),
{
    if refs.len() > 0 {
        lemma_merge_within(m, refs.drop_last());
    }
}

proof fn lemma_first_unknown_within(songs: Seq<crate::music::Song>, a: Map<u128, MediaRef>, b: Map<u128, MediaRef>, from: int)
    requires
        media_within(a, b),
        first_unknown_song(songs, a, from) is None,
    ensures
        first_unknown_song(songs, b, from) is None,
    decreases songs.len() - from,
{
    if 0 <= from < songs.len() {
        assert(a.contains_key(songs[from].media.0));
        lemma_first_unknown_within(songs, a, b, from + 1);
    }
}

/// A valid music track stays valid when the media table grows.
proof fn lemma_music_within(p: ProjectModel, b: Map<u128, MediaRef>)
    requires
        music_problem(p) is None,
        media_within(p.media, b),
    ensures
        music_problem(with_media(p, b)) is None,
{
    lemma_first_unknown_within(p.music.songs, p.media, b, 0);
}

pub proof fn lemma_out_of_range<T>(e: Seq<(usize, T)>, len: nat, from: int)
    requires
        0 <= from,
    ensures
        first_out_of_range(e, len, from) is None <==> forall|k: int| from <= k < e.len() ==> #[trigger] e[k].0 < len,
    decreases e.len() - from,
{
    if from < e.len() {
        lemma_out_of_range(e, len, from + 1);
    }
}

proof fn lemma_insert_defects(e: Seq<(usize, Clip)>, media: Map<u128, MediaRef>, from: int)
    requires
        0 <= from,
    ensures
        first_insert_defect(e, media, from) is None <==> forall|k: int| from <= k < e.len() ==> #[trigger] insert_defect(e[k].1, media) is None,
    decreases e.len() - from,
{
    if from < e.len() {
        lemma_insert_defects(e, media, from + 1);
    }
}

/// The changes that keep a clip insertable.
pub open spec fn harmless(u: Update, media: Map<u128, MediaRef>) -> bool {
    match u {
        Update::Duration(d) => d.0 > 0,
        Update::Replace(n) => insert_defect(n, media) is None,
        _ => true,
    }
}

proof fn lemma_updated_ok(c: Clip, u: Update, media: Map<u128, MediaRef>)
    requires
        insert_defect(c, media) is None,
        harmless(u, media),
    ensures
        insert_defect(updated(c, u), media) is None,
{
}

proof fn lemma_update_at_ok(c: Seq<Clip>, t: Seq<usize>, u: Update, media: Map<u128, MediaRef>)
    requires
        clips_insertable(c, media),
        harmless(u, media),
    ensures
        clips_insertable(update_at(c, t, u), media),
{
    assert forall|i: int| 0 <= i < c.len() implies #[trigger] insert_defect(update_at(c, t, u)[i], media) is None by {
        lemma_updated_ok(c[i], u, media);
    }
}

proof fn lemma_set_each_ok(c: Seq<Clip>, e: Seq<(usize, Update)>, media: Map<u128, MediaRef>)
    requires
        clips_insertable(c, media),
        forall|k: int| 0 <= k < e.len() ==> #[trigger] e[k].0 < c.len(),
        forall|k: int| 0 <= k < e.len() ==> harmless(#[trigger] e[k].1, media),
    ensures
        clips_insertable(set_each(c, e), media),
        set_each(c, e).len() == c.len(),
    decreases e.len(),
{
    if e.len() > 0 {
        let d = e.drop_last();
        assert forall|k: int| 0 <= k < d.len() implies #[trigger] d[k].0 < c.len() && harmless(d[k].1, media) by {
            assert(d[k] == e[k]);
        }
        lemma_set_each_ok(c, d, media);
        let prev = set_each(c, d);
        let (i, u) = e.last();
        assert(e.last() == e[e.len() - 1]);
        lemma_updated_ok(prev[i as int], u, media);
        assert forall|j: int| 0 <= j < c.len() implies #[trigger] insert_defect(set_each(c, e)[j], media) is None by {
            if j != i {
                assert(set_each(c, e)[j] == prev[j]);
            }
        }
    }
}

proof fn lemma_insert_all_ok(c: Seq<Clip>, e: Seq<(usize, Clip)>, media: Map<u128, MediaRef>)
    requires
        clips_insertable(c, media),
        forall|k: int| 0 <= k < e.len() ==> #[trigger] insert_defect(e[k].1, media) is None,
    ensures
        clips_insertable(insert_all(c, e).0, media),
    decreases e.len(),
{
    if e.len() > 0 {
        let (i, x) = e[0];
        if i <= c.len() {
            let c1 = c.insert(i as int, x);
            assert forall|j: int| 0 <= j < c1.len() implies #[trigger] insert_defect(c1[j], media) is None by {
                if j < i {
                    assert(c1[j] == c[j]);
                } else if j > i {
                    assert(c1[j] == c[j - 1]);
                }
            }
            assert forall|k: int| 0 <= k < e.drop_first().len() implies #[trigger] insert_defect(e.drop_first()[k].1, media) is None by {
                assert(e.drop_first()[k] == e[k + 1]);
            }
            lemma_insert_all_ok(c1, e.drop_first(), media);
        }
    }
}

proof fn lemma_remove_all_ok(c: Seq<Clip>, t: Seq<usize>, media: Map<u128, MediaRef>)
    requires
        clips_insertable(c, media),
        strictly_increasing(t),
        forall|i: int| 0 <= i < t.len() ==> t[i] < c.len(),
    ensures
        clips_insertable(remove_all(c, t), media),
    decreases t.len(),
{
    if t.len() > 0 {
        let last = t.last();
        let c1 = c.remove(last as int);
        assert forall|j: int| 0 <= j < c1.len() implies #[trigger] insert_defect(c1[j], media) is None by {
            if j < last {
                assert(c1[j] == c[j]);
            } else {
                assert(c1[j] == c[j + 1]);
            }
        }
        let d = t.drop_last();
        assert forall|i: int| 0 <= i < d.len() implies d[i] < c1.len() by {
            assert(t[i] < t[t.len() - 1]);
        }
        lemma_remove_all_ok(c1, d, media);
    }
}

/// What one undo step gives: the media table only grew, the project is
/// still restorable, and the inverse, applied with any larger media
/// table, succeeds and gives back the project with that table.
pub open spec fn undone_by(p: ProjectModel, p1: ProjectModel, inv: CommandModel, big: Map<u128, MediaRef>) -> bool {
    &&& media_within(p.media, p1.media)
    &&& restorable(p1)
    &&& apply_model(inv, with_media(p1, big)).0 == with_media(p, big)
    &&& apply_model(inv, with_media(p1, big)).1 is Ok
}

proof fn lemma_sorted_names(indices: Seq<usize>, len: usize)
    requires
        check_indices(indices, len) is Sorted,
    ensures
        forall|j: int| #[trigger] names(check_indices(indices, len)->Sorted_0, j) <==> names(indices, j),
        strictly_increasing(check_indices(indices, len)->Sorted_0),
        forall|i: int| 0 <= i < check_indices(indices, len)->Sorted_0.len() ==> #[trigger] check_indices(indices, len)->Sorted_0[i] < len,
        forall|i: int| 0 <= i < indices.len() ==> #[trigger] indices[i] < len,
{
    lemma_check_indices(indices, len);
    let t = check_indices(indices, len)->Sorted_0;
    assert forall|j: int| #[trigger] names(t, j) <==> names(indices, j) by {
        if names(t, j) {
            let k = choose|k: int| 0 <= k < t.len() && t[k] == j;
            assert(t.contains(t[k]));
            assert(indices.contains(t[k]));
        }
        if names(indices, j) {
            let k = choose|k: int| 0 <= k < indices.len() && indices[k] == j;
            assert(indices.contains(indices[k]));
            assert(t.contains(indices[k]));
        }
    }
    assert forall|i: int| 0 <= i < indices.len() implies #[trigger] indices[i] < len by {
        assert(indices.contains(indices[i]));
        assert(t.contains(indices[i]));
    }
}

proof fn lemma_undo_set_field(p: ProjectModel, indices: Seq<usize>, req: Option<Requirement>, u: Update, big: Map<u128, MediaRef>)
    requires
        restorable(p),
        harmless(u, p.media),
        set_field_outcome(p, indices, req, u).1 is Ok,
        media_within(p.media, big),
    ensures
        undone_by(p, set_field_outcome(p, indices, req, u).0, set_field_outcome(p, indices, req, u).1->Ok_0, big),
{
    let len = p.clips.len() as usize;
    lemma_sorted_names(indices, len);
    let t = check_indices(indices, len)->Sorted_0;
    let c = p.clips;
    let x = update_at(c, t, u);
    let snap = snapshot(c, t);
    lemma_out_of_range(snap, x.len(), 0);
    lemma_restore_snapshot(x, c, t);
    assert(set_each(x, replace_updates(snap)) =~= c);
    lemma_update_at_ok(c, t, u, p.media);
}

proof fn lemma_undo_set_each(p: ProjectModel, e: Seq<(usize, Update)>, req: Option<Requirement>, big: Map<u128, MediaRef>)
    requires
        restorable(p),
        forall|k: int| 0 <= k < e.len() ==> harmless(#[trigger] e[k].1, p.media),
        set_each_outcome(p, e, req).1 is Ok,
        media_within(p.media, big),
    ensures
        undone_by(p, set_each_outcome(p, e, req).0, set_each_outcome(p, e, req).1->Ok_0, big),
{
    let len = p.clips.len() as usize;
    let ei = entry_indices(e);
    lemma_sorted_names(ei, len);
    let t = check_indices(ei, len)->Sorted_0;
    let c = p.clips;
    assert forall|k: int| 0 <= k < e.len() implies #[trigger] e[k].0 < c.len() by {
        assert(ei[k] == e[k].0);
    }
    lemma_set_each_elsewhere(c, e);
    let x = set_each(c, e);
    let snap = snapshot(c, t);
    lemma_out_of_range(snap, x.len(), 0);
    lemma_restore_snapshot(x, c, t);
    assert(set_each(x, replace_updates(snap)) =~= c);
    lemma_set_each_ok(c, e, p.media);
}

proof fn lemma_undo_restore(p: ProjectModel, entries: Seq<(usize, Clip)>, big: Map<u128, MediaRef>)
    requires
        restorable(p),
        forall|k: int| 0 <= k < entries.len() ==> #[trigger] insert_defect(entries[k].1, p.media) is None,
        restore_outcome(p, entries).1 is Ok,
        media_within(p.media, big),
    ensures
        undone_by(p, restore_outcome(p, entries).0, restore_outcome(p, entries).1->Ok_0, big),
{
    let c = p.clips;
    let ei = entry_indices(entries);
    let e = replace_updates(entries);
    lemma_out_of_range(entries, c.len(), 0);
    assert(entry_indices(e) =~= ei);
    assert forall|k: int| 0 <= k < e.len() implies #[trigger] e[k].0 < c.len() && harmless(e[k].1, p.media) by {
        assert(e[k].0 == entries[k].0);
        assert(insert_defect(entries[k].1, p.media) is None);
    }
    lemma_set_each_elsewhere(c, e);
    let x = set_each(c, e);
    let snap = snapshot(c, ei);
    lemma_out_of_range(snap, x.len(), 0);
    lemma_restore_snapshot(x, c, ei);
    assert(set_each(x, replace_updates(snap)) =~= c);
    lemma_set_each_ok(c, e, p.media);
}

proof fn lemma_undo_trim(p: ProjectModel, index: usize, in_point: Ticks, out_point: Ticks, big: Map<u128, MediaRef>)
    requires
        restorable(p),
        trim_outcome(p, index, in_point, out_point).1 is Ok,
        media_within(p.media, big),
    ensures
        undone_by(p, trim_outcome(p, index, in_point, out_point).0, trim_outcome(p, index, in_point, out_point).1->Ok_0, big),
{
    let c = p.clips;
    let ci = c[index as int];
    let x = c.update(index as int, Clip { source: ClipSource::Video { in_point, out_point }, ..ci });
    let snap = seq![(index, ci)];
    lemma_out_of_range(snap, x.len(), 0);
    let e = replace_updates(snap);
    assert(e.drop_last() =~= Seq::<(usize, Update)>::empty());
    assert(e.last() == (index, Update::Replace(ci)));
    assert(set_each(x, e.drop_last()) == x);
    assert(x.update(index as int, ci) =~= c);
    assert(set_each(x, e) =~= c);
    assert(insert_defect(ci, p.media) is None);
    assert forall|i: int| 0 <= i < x.len() implies #[trigger] insert_defect(x[i], p.media) is None by {
        if i != index {
            assert(x[i] == c[i]);
        }
    }
}

proof fn lemma_undo_music(p: ProjectModel, music: crate::music::MusicModel, refs: Seq<MediaRef>, big: Map<u128, MediaRef>)
    requires
        restorable(p),
        music_outcome(p, music, refs).1 is Ok,
        media_within(music_outcome(p, music, refs).0.media, big),
    ensures
        undone_by(p, music_outcome(p, music, refs).0, music_outcome(p, music, refs).1->Ok_0, big),
{
    let media = merge_media(p.media, refs);
    lemma_merge_within(p.media, refs);
    lemma_music_within(p, big);
    assert(merge_media(big, Seq::<MediaRef>::empty()) == big);
    lemma_insertable_within(p.clips, p.media, media);
    assert(with_media(p, big) == ProjectModel { media: big, music: p.music, ..with_media(music_outcome(p, music, refs).0, big) });
}

proof fn lemma_undo_insert(p: ProjectModel, entries: Seq<(usize, Clip)>, refs: Seq<MediaRef>, big: Map<u128, MediaRef>)
    requires
        restorable(p),
        indices_distinct(entry_indices(entries)),
        insert_outcome(p, entries, refs).1 is Ok,
        insert_outcome(p, entries, refs).0.clips.len() <= usize::MAX,
        media_within(insert_outcome(p, entries, refs).0.media, big),
    ensures
        undone_by(p, insert_outcome(p, entries, refs).0, insert_outcome(p, entries, refs).1->Ok_0, big),
{
    let sorted = sort_entries(entries);
    let media = merge_media(p.media, refs);
    lemma_merge_within(p.media, refs);
    lemma_sort_entries_indices(entries);
    lemma_isort(entry_indices(entries));
    lemma_strict_when_no_repeat(isort(entry_indices(entries)));
    let t = entry_indices(sorted);
    lemma_insert_then_remove(p.clips, sorted);
    let clips = insert_all(p.clips, sorted).0;
    lemma_isort_increasing(t);
    assert forall|i: int| 0 <= i < t.len() implies #[trigger] t[i] < clips.len() by {
        assert(t[i] == sorted[i].0);
    }
    if t.len() > 0 {
        assert(t.last() < clips.len());
    }
    assert(check_indices(t, clips.len() as usize) == IndexCheck::Sorted(t));
    lemma_insert_defects(sorted, media, 0);
    lemma_insertable_within(p.clips, p.media, media);
    lemma_insert_all_ok(p.clips, sorted, media);
    lemma_music_within(p, media);
}

proof fn lemma_undo_remove(p: ProjectModel, indices: Seq<usize>, big: Map<u128, MediaRef>)
    requires
        restorable(p),
        remove_outcome(p, indices).1 is Ok,
        media_within(p.media, big),
    ensures
        undone_by(p, remove_outcome(p, indices).0, remove_outcome(p, indices).1->Ok_0, big),
{
    let len = p.clips.len() as usize;
    lemma_sorted_names(indices, len);
    let t = check_indices(indices, len)->Sorted_0;
    let c = p.clips;
    let snap = snapshot(c, t);
    assert(entry_indices(snap) =~= t);
    lemma_sort_entries_sorted(snap);
    assert(merge_media(big, Seq::<MediaRef>::empty()) == big);
    assert forall|k: int| 0 <= k < snap.len() implies #[trigger] insert_defect(snap[k].1, big) is None by {
        assert(insert_defect(c[t[k] as int], p.media) is None);
        lemma_defect_within(c[t[k] as int], p.media, big);
    }
    lemma_insert_defects(snap, big, 0);
    lemma_remove_then_insert(c, t);
    lemma_remove_all_ok(c, t, p.media);
}

proof fn lemma_undo_reorder(p: ProjectModel, order: Seq<usize>, big: Map<u128, MediaRef>)
    requires
        restorable(p),
        reorder_outcome(p, order).1 is Ok,
        media_within(p.media, big),
    ensures
        undone_by(p, reorder_outcome(p, order).0, reorder_outcome(p, order).1->Ok_0, big),
{
    let c = p.clips;
    lemma_inverse_order(order, c);
    let once = Seq::new(order.len(), |i: int| c[order[i] as int]);
    assert forall|i: int| 0 <= i < once.len() implies #[trigger] insert_defect(once[i], p.media) is None by {
        assert(insert_defect(c[order[i] as int], p.media) is None);
    }
}

/// How many clips a command inserts, counting those in batches.
pub open spec fn inserted(c: CommandModel) -> nat
    decreases c, 0nat,
{
    match c {
        CommandModel::InsertClips { entries, .. } => entries.len(),
        CommandModel::Batch { commands } => inserted_all(commands),
        _ => 0,
    }
}

/// `inserted` summed over the commands of a batch.
pub open spec fn inserted_all(s: Seq<CommandModel>) -> nat
    decreases s, 1nat,
{
    if s.len() == 0 {
        0
    } else {
        inserted_all(s.drop_last()) + inserted(s.last())
    }
}

proof fn lemma_remove_all_len(c: Seq<Clip>, t: Seq<usize>)
    requires
        strictly_increasing(t),
        forall|i: int| 0 <= i < t.len() ==> t[i] < c.len(),
    ensures
        remove_all(c, t).len() + t.len() == c.len(),
    decreases t.len(),
{
    if t.len() > 0 {
        let d = t.drop_last();
        assert forall|i: int| 0 <= i < d.len() implies d[i] < c.len() - 1 by {
            assert(t[i] < t[t.len() - 1]);
        }
        lemma_remove_all_len(c.remove(t.last() as int), d);
    }
}

/// Running `a` and then `b` is running `a + b`.
proof fn lemma_run_append(a: Seq<CommandModel>, b: Seq<CommandModel>, p: ProjectModel, f: nat)
    requires
        run_batch(a, p, f).2 is None,
    ensures
        run_batch(a + b, p, f) == ({
            let (p1, i1, e1) = run_batch(a, p, f);
            let (p2, i2, e2) = run_batch(b, p1, f);
            (p2, i1 + i2, e2)
        }),
    decreases b.len(),
{
    let r1 = run_batch(a, p, f);
    if b.len() == 0 {
        assert(a + b =~= a);
        assert(r1.1 + Seq::<CommandModel>::empty() =~= r1.1);
    } else {
        assert((a + b).drop_last() =~= a + b.drop_last());
        assert((a + b).last() == b.last());
        lemma_run_append(a, b.drop_last(), p, f);
        let r2 = run_batch(b.drop_last(), r1.0, f);
        if r2.2 is None {
            let (p3, r) = apply_fuel(b.last(), r2.0, f);
            if let Ok(inv) = r {
                assert((r1.1 + r2.1).push(inv) =~= r1.1 + r2.1.push(inv));
            }
        }
    }
}

/// The law of undo for one command: in a restorable project, when a
/// command that `command_ok` admits succeeds, its inverse succeeds on the
/// result and gives back the project as it was, but for the media table,
/// which only grew (any larger table may stand in for it). The result is
/// restorable again, and holds no more clips than the command inserted.
pub proof fn lemma_undo(c: CommandModel, p: ProjectModel, m0: Map<u128, MediaRef>, big: Map<u128, MediaRef>)
    requires
        restorable(p),
        command_ok(c, m0),
        media_within(m0, p.media),
        p.clips.len() + inserted(c) <= usize::MAX,
        apply_model(c, p).1 is Ok,
        media_within(apply_model(c, p).0.media, big),
    ensures
        undone_by(p, apply_model(c, p).0, apply_model(c, p).1->Ok_0, big),
        apply_model(c, p).0.clips.len() <= p.clips.len() + inserted(c),
    decreases depth(c), 1nat, 0nat,
{
    let p1 = apply_model(c, p).0;
    assert(media_within(p.media, big) && media_within(p.media, p1.media)) by {
        lemma_media_grows(c, p);
    }
    match c {
        CommandModel::InsertClips { entries, media } => {
            let sorted = sort_entries(entries);
            lemma_sort_entries_indices(entries);
            lemma_insert_all_len(p.clips, sorted);
            lemma_undo_insert(p, entries, media, big);
        },
        CommandModel::RemoveClips { indices } => {
            let len = p.clips.len() as usize;
            lemma_sorted_names(indices, len);
            lemma_remove_all_len(p.clips, check_indices(indices, len)->Sorted_0);
            lemma_undo_remove(p, indices, big);
        },
        CommandModel::Reorder { order } => lemma_undo_reorder(p, order, big),
        CommandModel::SetPhotoDuration { indices, duration } => lemma_undo_set_field(
            p,
            indices,
            Some(Requirement::Still),
            Update::Duration(duration),
            big,
        ),
        CommandModel::SetTrim { index, in_point, out_point } => lemma_undo_trim(p, index, in_point, out_point, big),
        CommandModel::SetFit { indices, fit } => lemma_undo_set_field(p, indices, None, Update::Fit(fit), big),
        CommandModel::SetRotate { indices, rotate } => lemma_undo_set_field(p, indices, None, Update::Rotate(rotate), big),
        CommandModel::SetTransition { indices, transition } => lemma_undo_set_field(
            p,
            indices,
            None,
            Update::Transition(transition),
            big,
        ),
        CommandModel::SetMuted { indices, muted } => lemma_undo_set_field(p, indices, None, Update::Muted(muted), big),
        CommandModel::SetVolume { indices, percent } => lemma_undo_set_field(p, indices, None, Update::Volume(percent), big),
        CommandModel::SetMotion { indices, motion } => lemma_undo_set_field(
            p,
            indices,
            Some(Requirement::Photo),
            Update::Motion(motion),
            big,
        ),
        CommandModel::SetTransitionEach { entries } => {
            let e = transition_updates(entries);
            assert forall|k: int| 0 <= k < e.len() implies harmless(#[trigger] e[k].1, p.media) by {}
            lemma_undo_set_each(p, e, None, big);
            lemma_set_each_size(p, e, None);
        },
        CommandModel::SetMotionEach { entries } => {
            let e = motion_updates(entries);
            assert forall|k: int| 0 <= k < e.len() implies harmless(#[trigger] e[k].1, p.media) by {}
            lemma_undo_set_each(p, e, Some(Requirement::Photo), big);
            lemma_set_each_size(p, e, Some(Requirement::Photo));
        },
        CommandModel::SetSettings { settings } => {},
        CommandModel::SetCaptions { entries } => {
            let e = caption_updates(entries);
            assert forall|k: int| 0 <= k < e.len() implies harmless(#[trigger] e[k].1, p.media) by {}
            lemma_undo_set_each(p, e, None, big);
            lemma_set_each_size(p, e, None);
        },
        CommandModel::SetTitleBackground { indices, background } => lemma_undo_set_field(
            p,
            indices,
            Some(Requirement::Title),
            Update::Background(background),
            big,
        ),
        CommandModel::SetMusic { music, media } => lemma_undo_music(p, music, media, big),
        CommandModel::Batch { commands } => {
            let md = max_depth(commands);
            lemma_max_depth(commands, md);
            let (pn, invs, err) = run_batch(commands, p, md);
            lemma_undo_run(commands, p, m0, big, md);
            let r = invs.reverse();
            let mi = max_depth(r);
            lemma_max_depth(r, md);
            assert forall|i: int| 0 <= i < r.len() implies depth(#[trigger] r[i]) <= md by {
                assert(r[i] == invs[invs.len() - 1 - i]);
            }
            lemma_run_batch(r, with_media(pn, big), md, mi);
        },
        CommandModel::RestoreClips { entries } => {
            assert forall|k: int| 0 <= k < entries.len() implies #[trigger] insert_defect(entries[k].1, p.media) is None by {
                lemma_defect_within(entries[k].1, m0, p.media);
            }
            lemma_undo_restore(p, entries, big);
            lemma_out_of_range(entries, p.clips.len(), 0);
            lemma_set_each_elsewhere(p.clips, replace_updates(entries));
        },
    }
}

proof fn lemma_set_each_size(p: ProjectModel, e: Seq<(usize, Update)>, req: Option<Requirement>)
    requires
        set_each_outcome(p, e, req).1 is Ok,
    ensures
        set_each_outcome(p, e, req).0.clips.len() == p.clips.len(),
{
    let len = p.clips.len() as usize;
    let ei = entry_indices(e);
    lemma_sorted_names(ei, len);
    assert forall|k: int| 0 <= k < e.len() implies #[trigger] e[k].0 < p.clips.len() by {
        assert(ei[k] == e[k].0);
    }
    lemma_set_each_elsewhere(p.clips, e);
}

/// The media table never loses a key.
proof fn lemma_media_grows(c: CommandModel, p: ProjectModel)
    ensures
        media_within(p.media, apply_model(c, p).0.media),
{
    lemma_media_grows_fuel(c, p, depth(c));
}

proof fn lemma_media_grows_fuel(c: CommandModel, p: ProjectModel, f: nat)
    ensures
        media_within(p.media, apply_fuel(c, p, f).0.media),
    decreases f, 0nat, 0nat,
{
    match c {
        CommandModel::InsertClips { entries, media } => lemma_merge_within(p.media, media),
        CommandModel::SetMusic { music, media } => lemma_merge_within(p.media, media),
        CommandModel::Batch { commands } => {
            if f > 0 {
                lemma_media_grows_run(commands, p, (f - 1) as nat);
                let (p1, invs, err) = run_batch(commands, p, (f - 1) as nat);
                if err is Some {
                    lemma_media_grows_rollback(invs, p1, (f - 1) as nat);
                }
            }
        },
        _ => {},
    }
}

proof fn lemma_media_grows_run(cmds: Seq<CommandModel>, p: ProjectModel, f: nat)
    ensures
        media_within(p.media, run_batch(cmds, p, f).0.media),
    decreases f, 1nat, cmds.len(),
{
    if cmds.len() > 0 {
        lemma_media_grows_run(cmds.drop_last(), p, f);
        let (p1, invs, err) = run_batch(cmds.drop_last(), p, f);
        if err is None {
            lemma_media_grows_fuel(cmds.last(), p1, f);
        }
    }
}

proof fn lemma_media_grows_rollback(invs: Seq<CommandModel>, p: ProjectModel, f: nat)
    ensures
        media_within(p.media, crate::semantics::rollback(invs, p, f).media),
    decreases f, 1nat, invs.len(),
{
    if invs.len() > 0 {
        lemma_media_grows_fuel(invs.last(), p, f);
        lemma_media_grows_rollback(invs.drop_last(), apply_fuel(invs.last(), p, f).0, f);
    }
}

/// The law of undo for a sequence of commands applied one after the
/// other (as a batch runs them, with fuel `f` for nested batches): when
/// all succeed, their inverses, run last first, succeed and give back the
/// project, but for the media table, which only grew.
pub proof fn lemma_undo_run(cmds: Seq<CommandModel>, p: ProjectModel, m0: Map<u128, MediaRef>, big: Map<u128, MediaRef>, f: nat)
    requires
        forall|k: int| 0 <= k < cmds.len() ==> depth(#[trigger] cmds[k]) <= f,
        restorable(p),
        commands_ok(cmds, m0),
        media_within(m0, p.media),
        p.clips.len() + inserted_all(cmds) <= usize::MAX,
        run_batch(cmds, p, f).2 is None,
        media_within(run_batch(cmds, p, f).0.media, big),
    ensures
        media_within(p.media, run_batch(cmds, p, f).0.media),
        restorable(run_batch(cmds, p, f).0),
        run_batch(cmds, p, f).0.clips.len() <= p.clips.len() + inserted_all(cmds),
        forall|i: int| 0 <= i < run_batch(cmds, p, f).1.len() ==> depth(#[trigger] run_batch(cmds, p, f).1[i]) <= f,
        run_batch(run_batch(cmds, p, f).1.reverse(), with_media(run_batch(cmds, p, f).0, big), f).0 == with_media(p, big),
        run_batch(run_batch(cmds, p, f).1.reverse(), with_media(run_batch(cmds, p, f).0, big), f).2 is None,
    decreases f, 2nat, cmds.len(),
{
    if cmds.len() == 0 {
        assert(run_batch(cmds, p, f).1.reverse() =~= Seq::<CommandModel>::empty());
    } else {
        let d = cmds.drop_last();
        let c = cmds.last();
        assert forall|k: int| 0 <= k < d.len() implies depth(#[trigger] d[k]) <= f by {
            assert(d[k] == cmds[k]);
        }
        assert(depth(c) <= f) by {
            assert(c == cmds[cmds.len() - 1]);
        }
        let (pk, invs_d, err_d) = run_batch(d, p, f);
        assert(err_d is None);
        lemma_undo_run(d, p, m0, pk.media, f);
        lemma_fuel(c, pk, f);
        let pn = apply_fuel(c, pk, f).0;
        let inv = apply_fuel(c, pk, f).1->Ok_0;
        lemma_undo(c, pk, m0, big);
        lemma_undo_run(d, p, m0, big, f);
        let invs = invs_d.push(inv);
        assert(invs.reverse() =~= seq![inv] + invs_d.reverse());
        let q = with_media(pn, big);
        lemma_fuel(inv, q, f);
        assert(depth(inv) <= f);
        assert(seq![inv].drop_last() =~= Seq::<CommandModel>::empty());
        assert(seq![inv].last() == inv);
        assert(run_batch(seq![inv].drop_last(), q, f) == (q, Seq::<CommandModel>::empty(), None::<ErrorModel>));
        assert(apply_fuel(inv, q, f).1 is Ok);
        assert(apply_fuel(inv, q, f).0 == with_media(pk, big));
        assert(run_batch(seq![inv], q, f).0 == with_media(pk, big));
        assert(run_batch(seq![inv], q, f).2 is None);
        lemma_run_append(seq![inv], invs_d.reverse(), q, f);
        assert forall|i: int| 0 <= i < invs.len() implies depth(#[trigger] invs[i]) <= f by {
            if i < invs_d.len() {
                assert(invs[i] == invs_d[i]);
            }
        }
    }
}

proof fn lemma_run_prefix_ok(a: Seq<CommandModel>, b: Seq<CommandModel>, p: ProjectModel, f: nat)
    requires
        run_batch(a + b, p, f).2 is None,
    ensures
        run_batch(a, p, f).2 is None,
    decreases b.len(),
{
    if b.len() == 0 {
        assert(a + b =~= a);
    } else {
        assert((a + b).drop_last() =~= a + b.drop_last());
        lemma_run_prefix_ok(a, b.drop_last(), p, f);
    }
}

/// Rolling back inverses that all succeed is running them last first.
proof fn lemma_rollback_run(invs: Seq<CommandModel>, q: ProjectModel, f: nat)
    requires
        run_batch(invs.reverse(), q, f).2 is None,
    ensures
        crate::semantics::rollback(invs, q, f) == run_batch(invs.reverse(), q, f).0,
    decreases invs.len(),
{
    if invs.len() == 0 {
        assert(invs.reverse() =~= Seq::<CommandModel>::empty());
    } else {
        let last = invs.last();
        let rest = invs.drop_last();
        assert(invs.reverse() =~= seq![last] + rest.reverse());
        lemma_run_prefix_ok(seq![last], rest.reverse(), q, f);
        assert(seq![last].drop_last() =~= Seq::<CommandModel>::empty());
        assert(seq![last].last() == last);
        assert(run_batch(seq![last].drop_last(), q, f) == (q, Seq::<CommandModel>::empty(), None::<ErrorModel>));
        lemma_run_append(seq![last], rest.reverse(), q, f);
        lemma_rollback_run(rest, apply_fuel(last, q, f).0, f);
    }
}

/// A command that fails leaves the project as it was, but for the media
/// table, which only grew: a failed insertion inserts nothing, and a
/// failing batch undoes the commands it had applied.
#[verifier::spinoff_prover]
#[verifier::rlimit(40)]
pub proof fn lemma_failure_changes_nothing(c: CommandModel, p: ProjectModel, m0: Map<u128, MediaRef>)
    requires
        restorable(p),
        command_ok(c, m0),
        media_within(m0, p.media),
        p.clips.len() + inserted(c) <= usize::MAX,
        apply_model(c, p).1 is Err,
    ensures
        apply_model(c, p).0 == with_media(p, apply_model(c, p).0.media),
    decreases depth(c), 1nat, 0nat,
{
    if let CommandModel::Batch { commands } = c {
        let md = max_depth(commands);
        lemma_max_depth(commands, md);
        lemma_failed_run(commands, p, m0, md);
    }
}

proof fn lemma_failed_run(cmds: Seq<CommandModel>, p: ProjectModel, m0: Map<u128, MediaRef>, f: nat)
    requires
        forall|k: int| 0 <= k < cmds.len() ==> depth(#[trigger] cmds[k]) <= f,
        restorable(p),
        commands_ok(cmds, m0),
        media_within(m0, p.media),
        p.clips.len() + inserted_all(cmds) <= usize::MAX,
        run_batch(cmds, p, f).2 is Some,
    ensures
        crate::semantics::rollback(run_batch(cmds, p, f).1, run_batch(cmds, p, f).0, f)
            == with_media(p, run_batch(cmds, p, f).0.media),
    decreases f, 2nat, cmds.len(),
{
    let d = cmds.drop_last();
    let c = cmds.last();
    assert forall|k: int| 0 <= k < d.len() implies depth(#[trigger] d[k]) <= f by {
        assert(d[k] == cmds[k]);
    }
    assert(depth(c) <= f) by {
        assert(c == cmds[cmds.len() - 1]);
    }
    let (pk, invs, err) = run_batch(d, p, f);
    if err is Some {
        lemma_failed_run(d, p, m0, f);
    } else {
        lemma_fuel(c, pk, f);
        lemma_undo_run(d, p, m0, pk.media, f);
        lemma_failure_changes_nothing(c, pk, m0);
        let p1 = apply_fuel(c, pk, f).0;
        lemma_media_grows(c, pk);
        lemma_undo_run(d, p, m0, p1.media, f);
        lemma_rollback_run(invs, p1, f);
    }
}

/// `command_ok` still holds with a larger media table.
proof fn lemma_ok_within(c: CommandModel, a: Map<u128, MediaRef>, b: Map<u128, MediaRef>)
    requires
        command_ok(c, a),
        media_within(a, b),
    ensures
        command_ok(c, b),
    decreases c, 0nat,
{
    match c {
        CommandModel::RestoreClips { entries } => {
            assert forall|k: int| 0 <= k < entries.len() implies #[trigger] insert_defect(entries[k].1, b) is None by {
                lemma_defect_within(entries[k].1, a, b);
            }
        },
        CommandModel::Batch { commands } => lemma_oks_within(commands, a, b),
        _ => {},
    }
}

proof fn lemma_oks_within(s: Seq<CommandModel>, a: Map<u128, MediaRef>, b: Map<u128, MediaRef>)
    requires
        commands_ok(s, a),
        media_within(a, b),
    ensures
        commands_ok(s, b),
    decreases s, 1nat,
{
    if s.len() > 0 {
        lemma_oks_within(s.drop_last(), a, b);
        lemma_ok_within(s.last(), a, b);
    }
}

proof fn lemma_oks_all(s: Seq<CommandModel>, media: Map<u128, MediaRef>)
    requires
        forall|k: int| 0 <= k < s.len() ==> #[trigger] command_ok(s[k], media),
    ensures
        commands_ok(s, media),
    decreases s.len(),
{
    if s.len() > 0 {
        let d = s.drop_last();
        assert forall|k: int| 0 <= k < d.len() implies #[trigger] command_ok(d[k], media) by {
            assert(d[k] == s[k]);
        }
        lemma_oks_all(d, media);
        assert(command_ok(s[s.len() - 1], media));
    }
}

proof fn lemma_inserted_append(a: Seq<CommandModel>, b: Seq<CommandModel>)
    ensures
        inserted_all(a + b) == inserted_all(a) + inserted_all(b),
    decreases b.len(),
{
    if b.len() == 0 {
        assert(a + b =~= a);
    } else {
        assert((a + b).drop_last() =~= a + b.drop_last());
        assert((a + b).last() == b.last());
        lemma_inserted_append(a, b.drop_last());
    }
}

proof fn lemma_inserted_reverse(s: Seq<CommandModel>)
    ensures
        inserted_all(s.reverse()) == inserted_all(s),
    decreases s.len(),
{
    if s.len() > 0 {
        let d = s.drop_last();
        lemma_inserted_reverse(d);
        assert(s.reverse() =~= seq![s.last()] + d.reverse());
        lemma_inserted_append(seq![s.last()], d.reverse());
        let one = seq![s.last()];
        assert(one.drop_last() =~= Seq::<CommandModel>::empty());
        assert(one.last() == s.last());
        assert(inserted_all(one.drop_last()) == 0);
        assert(inserted_all(one) == inserted(s.last()));
        assert(inserted_all(s) == inserted_all(d) + inserted(s.last()));
    }
}

/// Clips of a restorable project, put back by a restore, are admitted.
proof fn lemma_snapshot_ok(p: ProjectModel, t: Seq<usize>, big: Map<u128, MediaRef>)
    requires
        restorable(p),
        media_within(p.media, big),
        forall|i: int| 0 <= i < t.len() ==> #[trigger] t[i] < p.clips.len(),
    ensures
        command_ok(CommandModel::RestoreClips { entries: snapshot(p.clips, t) }, big),
{
    let e = snapshot(p.clips, t);
    assert forall|k: int| 0 <= k < e.len() implies #[trigger] insert_defect(e[k].1, big) is None by {
        assert(t[k] < p.clips.len());
        assert(insert_defect(p.clips[t[k] as int], p.media) is None);
        lemma_defect_within(p.clips[t[k] as int], p.media, big);
    }
}

proof fn lemma_set_field_inverse_ok(p: ProjectModel, indices: Seq<usize>, req: Option<Requirement>, u: Update, big: Map<u128, MediaRef>)
    requires
        restorable(p),
        media_within(p.media, big),
        set_field_outcome(p, indices, req, u).1 is Ok,
    ensures
        command_ok(set_field_outcome(p, indices, req, u).1->Ok_0, big),
{
    lemma_sorted_names(indices, p.clips.len() as usize);
    lemma_snapshot_ok(p, check_indices(indices, p.clips.len() as usize)->Sorted_0, big);
}

proof fn lemma_set_each_inverse_ok(p: ProjectModel, e: Seq<(usize, Update)>, req: Option<Requirement>, big: Map<u128, MediaRef>)
    requires
        restorable(p),
        media_within(p.media, big),
        set_each_outcome(p, e, req).1 is Ok,
    ensures
        command_ok(set_each_outcome(p, e, req).1->Ok_0, big),
{
    lemma_sorted_names(entry_indices(e), p.clips.len() as usize);
    lemma_snapshot_ok(p, check_indices(entry_indices(e), p.clips.len() as usize)->Sorted_0, big);
}

/// What undo needs of the inverse that a command hands back: `command_ok`
/// admits it with the media table afterwards, and it inserts no more
/// clips than the command left room for.
pub proof fn lemma_inverse_ok(c: CommandModel, p: ProjectModel, m0: Map<u128, MediaRef>)
    requires
        restorable(p),
        command_ok(c, m0),
        media_within(m0, p.media),
        p.clips.len() + inserted(c) <= usize::MAX,
        apply_model(c, p).1 is Ok,
    ensures
        command_ok(apply_model(c, p).1->Ok_0, apply_model(c, p).0.media),
        apply_model(c, p).0.clips.len() + inserted(apply_model(c, p).1->Ok_0) <= p.clips.len() + inserted(c),
    decreases depth(c), 1nat, 0nat,
{
    let p1 = apply_model(c, p).0;
    lemma_media_grows(c, p);
    lemma_undo(c, p, m0, p1.media);
    let big = p1.media;
    match c {
        CommandModel::RemoveClips { indices } => {
            let len = p.clips.len() as usize;
            lemma_sorted_names(indices, len);
            let t = check_indices(indices, len)->Sorted_0;
            lemma_remove_all_len(p.clips, t);
            lemma_isort_increasing(t);
            assert(entry_indices(snapshot(p.clips, t)) =~= t);
        },
        CommandModel::SetPhotoDuration { indices, duration } => lemma_set_field_inverse_ok(
            p,
            indices,
            Some(Requirement::Still),
            Update::Duration(duration),
            big,
        ),
        CommandModel::SetTrim { index, in_point, out_point } => lemma_snapshot_ok(p, seq![index], big),
        CommandModel::SetFit { indices, fit } => lemma_set_field_inverse_ok(p, indices, None, Update::Fit(fit), big),
        CommandModel::SetRotate { indices, rotate } => lemma_set_field_inverse_ok(
            p,
            indices,
            None,
            Update::Rotate(rotate),
            big,
        ),
        CommandModel::SetTransition { indices, transition } => lemma_set_field_inverse_ok(
            p,
            indices,
            None,
            Update::Transition(transition),
            big,
        ),
        CommandModel::SetMuted { indices, muted } => lemma_set_field_inverse_ok(p, indices, None, Update::Muted(muted), big),
        CommandModel::SetVolume { indices, percent } => lemma_set_field_inverse_ok(
            p,
            indices,
            None,
            Update::Volume(percent),
            big,
        ),
        CommandModel::SetMotion { indices, motion } => lemma_set_field_inverse_ok(
            p,
            indices,
            Some(Requirement::Photo),
            Update::Motion(motion),
            big,
        ),
        CommandModel::SetTransitionEach { entries } => lemma_set_each_inverse_ok(p, transition_updates(entries), None, big),
        CommandModel::SetMotionEach { entries } => lemma_set_each_inverse_ok(
            p,
            motion_updates(entries),
            Some(Requirement::Photo),
            big,
        ),
        CommandModel::SetCaptions { entries } => lemma_set_each_inverse_ok(p, caption_updates(entries), None, big),
        CommandModel::SetTitleBackground { indices, background } => lemma_set_field_inverse_ok(
            p,
            indices,
            Some(Requirement::Title),
            Update::Background(background),
            big,
        ),
        CommandModel::RestoreClips { entries } => {
            lemma_out_of_range(entries, p.clips.len(), 0);
            let ei = entry_indices(entries);
            assert forall|i: int| 0 <= i < ei.len() implies #[trigger] ei[i] < p.clips.len() by {
                assert(ei[i] == entries[i].0);
            }
            lemma_snapshot_ok(p, ei, big);
        },
        CommandModel::Batch { commands } => {
            let md = max_depth(commands);
            lemma_max_depth(commands, md);
            lemma_inverse_ok_run(commands, p, m0, md);
            let invs = run_batch(commands, p, md).1;
            let r = invs.reverse();
            assert forall|k: int| 0 <= k < r.len() implies #[trigger] command_ok(r[k], big) by {
                assert(r[k] == invs[invs.len() - 1 - k]);
            }
            lemma_oks_all(r, big);
            lemma_inserted_reverse(invs);
        },
        _ => {},
    }
}

/// `lemma_inverse_ok` for a sequence of commands run one after the other.
proof fn lemma_inverse_ok_run(cmds: Seq<CommandModel>, p: ProjectModel, m0: Map<u128, MediaRef>, f: nat)
    requires
        forall|k: int| 0 <= k < cmds.len() ==> depth(#[trigger] cmds[k]) <= f,
        restorable(p),
        commands_ok(cmds, m0),
        media_within(m0, p.media),
        p.clips.len() + inserted_all(cmds) <= usize::MAX,
        run_batch(cmds, p, f).2 is None,
    ensures
        forall|i: int|
            0 <= i < run_batch(cmds, p, f).1.len() ==> #[trigger] command_ok(
                run_batch(cmds, p, f).1[i],
                run_batch(cmds, p, f).0.media,
            ),
        run_batch(cmds, p, f).0.clips.len() + inserted_all(run_batch(cmds, p, f).1) <= p.clips.len() + inserted_all(cmds),
    decreases f, 2nat, cmds.len(),
{
    if cmds.len() > 0 {
        let d = cmds.drop_last();
        let c = cmds.last();
        assert forall|k: int| 0 <= k < d.len() implies depth(#[trigger] d[k]) <= f by {
            assert(d[k] == cmds[k]);
        }
        assert(depth(c) <= f) by {
            assert(c == cmds[cmds.len() - 1]);
        }
        let (pk, invs_d, err_d) = run_batch(d, p, f);
        lemma_inverse_ok_run(d, p, m0, f);
        lemma_undo_run(d, p, m0, pk.media, f);
        lemma_fuel(c, pk, f);
        lemma_inverse_ok(c, pk, m0);
        lemma_media_grows(c, pk);
        let pn = apply_model(c, pk).0;
        let inv = apply_model(c, pk).1->Ok_0;
        let invs = invs_d.push(inv);
        assert(invs.drop_last() =~= invs_d);
        assert forall|i: int| 0 <= i < invs.len() implies #[trigger] command_ok(invs[i], pn.media) by {
            if i < invs_d.len() {
                assert(invs[i] == invs_d[i]);
                lemma_ok_within(invs_d[i], pk.media, pn.media);
            }
        }
    }
}

/// Any command but a batch that fails leaves the project as it was, but
/// for the media table.
pub proof fn lemma_plain_failure(c: CommandModel, p: ProjectModel)
    requires
        !(c is Batch),
    ensures
        apply_model(c, p).1 is Err ==> apply_model(c, p).0 == with_media(p, apply_model(c, p).0.media),
{
}

/// A restore's inverse puts back the clips it replaced, and nothing else
/// changes.
pub proof fn lemma_restore_round_trip(p: ProjectModel, entries: Seq<(usize, Clip)>)
    requires
        restore_outcome(p, entries).1 is Ok,
    ensures
        restore_outcome(p, entries).0.media == p.media,
        restore_outcome(p, entries).1 == Ok::<CommandModel, ErrorModel>(
            CommandModel::RestoreClips { entries: snapshot(p.clips, entry_indices(entries)) },
        ),
        restore_outcome(restore_outcome(p, entries).0, snapshot(p.clips, entry_indices(entries))).0 == p,
        restore_outcome(restore_outcome(p, entries).0, snapshot(p.clips, entry_indices(entries))).1 is Ok,
{
    let c = p.clips;
    let ei = entry_indices(entries);
    let e = replace_updates(entries);
    lemma_out_of_range(entries, c.len(), 0);
    assert(entry_indices(e) =~= ei);
    assert forall|k: int| 0 <= k < e.len() implies #[trigger] e[k].0 < c.len() by {
        assert(e[k].0 == entries[k].0);
    }
    lemma_set_each_elsewhere(c, e);
    let x = set_each(c, e);
    let snap = snapshot(c, ei);
    assert forall|k: int| 0 <= k < ei.len() implies #[trigger] ei[k] < c.len() by {
        assert(ei[k] == entries[k].0);
    }
    lemma_out_of_range(snap, x.len(), 0);
    lemma_restore_snapshot(x, c, ei);
    assert(set_each(x, replace_updates(snap)) =~= c);
}

} // verus!
