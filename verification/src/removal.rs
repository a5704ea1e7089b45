//! What removing clips does, stated over the indices as given: which
//! error comes for which list, and which clips stay.

use vstd::prelude::*;

use crate::command::{CommandModel, ErrorModel};
use crate::project::{Clip, ProjectModel};
use crate::semantics::{apply_model, remove_all};
use crate::sorting::{check_indices, first_repeat, isort, lemma_check_indices, lemma_isort, sorted, strictly_increasing};

verus! {

/// Whether `x` is listed more than once.
pub open spec fn listed_twice(s: Seq<usize>, x: usize) -> bool {
    s.to_multiset().count(x) >= 2
}

/// The clips of `c` below position `k` whose positions `named` does not
/// list, in order.
pub open spec fn kept_clips(c: Seq<Clip>, named: Seq<usize>, k: int) -> Seq<Clip>
    decreases k,
{
    if k <= 0 {
        Seq::empty()
    } else if named.contains((k - 1) as usize) {
        kept_clips(c, named, k - 1)
    } else {
        kept_clips(c, named, k - 1).push(c[k - 1])
    }
}

proof fn lemma_count_push(s: Seq<usize>, a: usize, x: usize)
    ensures
        s.push(a).to_multiset().count(x) == s.to_multiset().count(x) + (if a == x { 1int } else { 0int }),
{
    broadcast use vstd::seq_lib::group_to_multiset_ensures;
}

/// In a sorted list a value is listed twice exactly when it sits at two
/// neighbouring positions.
proof fn lemma_sorted_twice(t: Seq<usize>, x: usize)
    requires
        sorted(t),
    ensures
        listed_twice(t, x) <==> exists|m: int| 0 <= m && m + 1 < t.len() && t[m] == x && #[trigger] t[m + 1] == x,
    decreases t.len(),
{
    broadcast use vstd::seq_lib::group_to_multiset_ensures;
    if t.len() > 0 {
        let d = t.drop_last();
        let e = t.last();
        assert(d.push(e) =~= t);
        assert(sorted(d));
        lemma_sorted_twice(d, x);
        lemma_count_push(d, e, x);
        if listed_twice(t, x) {
            if !listed_twice(d, x) {
                assert(e == x);
                assert(d.to_multiset().count(x) > 0);
                assert(d.contains(x));
                let p = choose|p: int| 0 <= p < d.len() && d[p] == x;
                assert(t[p] <= t[d.len() - 1] <= t[t.len() - 1]);
                let m = t.len() - 2;
                assert(t[m] == x && t[m + 1] == x);
            } else {
                let m = choose|m: int| 0 <= m && m + 1 < d.len() && d[m] == x && #[trigger] d[m + 1] == x;
                assert(t[m] == x && t[m + 1] == x);
            }
        }
        if exists|m: int| 0 <= m && m + 1 < t.len() && t[m] == x && #[trigger] t[m + 1] == x {
            let m = choose|m: int| 0 <= m && m + 1 < t.len() && t[m] == x && #[trigger] t[m + 1] == x;
            if m + 1 < d.len() {
                assert(d[m] == x && d[m + 1] == x);
            } else {
                assert(d[m] == x);
                assert(d.contains(x));
            }
        }
    }
}

proof fn lemma_first_repeat_least(t: Seq<usize>, from: int)
    requires
        0 <= from,
        sorted(t),
    ensures
        first_repeat(t, from) matches Some(k) ==> from <= k && k + 1 < t.len() && t[k] == t[k + 1] && forall|m: int|
            from <= m && m + 1 < t.len() && t[m] == #[trigger] t[m + 1] ==> t[k] <= t[m],
        first_repeat(t, from) is None ==> forall|m: int| from <= m && m + 1 < t.len() ==> t[m] != #[trigger] t[m + 1],
    decreases t.len() - from,
{
    if !(from < 0 || from + 1 >= t.len()) && t[from] != t[from + 1] {
        lemma_first_repeat_least(t, from + 1);
    }
}

/// Positions below `m` in `c.remove(m)` are kept as in `c`, and the
/// positions past `m` move down by one; `m` is not named in `rest`.
proof fn lemma_kept_remove(c: Seq<Clip>, rest: Seq<usize>, m: usize, k: int)
    requires
        0 <= k <= c.len() - 1,
        c.len() <= usize::MAX,
        m < c.len(),
        forall|i: int| 0 <= i < rest.len() ==> rest[i] < m,
    ensures
        k < m ==> kept_clips(c.remove(m as int), rest, k) == kept_clips(c, rest.push(m), k),
        k >= m ==> kept_clips(c.remove(m as int), rest, k) == kept_clips(c, rest.push(m), k + 1),
    decreases k,
{
    let t = rest.push(m);
    if k > 0 {
        lemma_kept_remove(c, rest, m, k - 1);
        let j = k - 1;
        if k < m {
            assert(c.remove(m as int)[j] == c[j]);
            assert((j as usize) as int == j);
            assert(rest.contains(j as usize) <==> t.contains(j as usize)) by {
                if t.contains(j as usize) {
                    let i = choose|i: int| 0 <= i < t.len() && t[i] == j as usize;
                    if i < rest.len() {
                        assert(rest[i] == t[i]);
                    }
                }
                if rest.contains(j as usize) {
                    let i = choose|i: int| 0 <= i < rest.len() && rest[i] == j as usize;
                    assert(t[i] == rest[i]);
                }
            }
        } else if k == m {
            assert(t[rest.len() as int] == m);
            assert(t.contains(m));
            assert(kept_clips(c, t, k + 1) == kept_clips(c, t, k));
            assert(c.remove(m as int)[j] == c[j]);
            assert((j as usize) as int == j && (k as usize) as int == k && (k as usize) == m);
            assert(rest.contains(j as usize) <==> t.contains(j as usize)) by {
                if t.contains(j as usize) {
                    let i = choose|i: int| 0 <= i < t.len() && t[i] == j as usize;
                    if i < rest.len() {
                        assert(rest[i] == t[i]);
                    }
                }
                if rest.contains(j as usize) {
                    let i = choose|i: int| 0 <= i < rest.len() && rest[i] == j as usize;
                    assert(t[i] == rest[i]);
                }
            }
            assert(kept_clips(c.remove(m as int), rest, k) == kept_clips(c, t, k));
            assert(kept_clips(c.remove(m as int), rest, k) == kept_clips(c, t, k + 1));
        } else {
            assert((j as usize) as int == j && (k as usize) as int == k);
            assert(!rest.contains(j as usize)) by {
                if rest.contains(j as usize) {
                    let i = choose|i: int| 0 <= i < rest.len() && rest[i] == j as usize;
                    assert(rest[i] < m);
                }
            }
            assert(!t.contains(k as usize)) by {
                if t.contains(k as usize) {
                    let i = choose|i: int| 0 <= i < t.len() && t[i] == k as usize;
                    if i < rest.len() {
                        assert(rest[i] == t[i]);
                        assert(rest[i] < m);
                    } else {
                        assert(t[i] == m);
                    }
                }
            }
            assert(c.remove(m as int)[j] == c[k]);
            assert(kept_clips(c.remove(m as int), rest, k) == kept_clips(c, t, k + 1));
        }
    } else {
        if m == 0 {
            assert(t[rest.len() as int] == 0);
            assert(t.contains(0usize));
            assert(((1int - 1) as usize) == 0usize);
            assert(kept_clips(c, t, 1) == kept_clips(c, t, 0));
            assert(kept_clips(c.remove(m as int), rest, 0) == kept_clips(c, t, 1));
        }
    }
}

/// Removing the positions of a strictly increasing list keeps the other
/// clips in order.
proof fn lemma_remove_all_kept(c: Seq<Clip>, t: Seq<usize>)
    requires
        strictly_increasing(t),
        c.len() <= usize::MAX,
        forall|i: int| 0 <= i < t.len() ==> t[i] < c.len(),
    ensures
        remove_all(c, t) == kept_clips(c, t, c.len() as int),
    decreases t.len(),
{
    if t.len() == 0 {
        lemma_kept_none(c, t, c.len() as int);
    } else {
        let m = t.last();
        let rest = t.drop_last();
        assert(rest.push(m) =~= t);
        assert forall|i: int| 0 <= i < rest.len() implies rest[i] < m by {
            assert(t[i] < t[t.len() - 1]);
        }
        assert forall|i: int| 0 <= i < rest.len() implies rest[i] < c.len() - 1 by {
            assert(t[i] < t[t.len() - 1]);
        }
        assert(strictly_increasing(rest));
        lemma_remove_all_kept(c.remove(m as int), rest);
        lemma_kept_remove(c, rest, m, c.len() - 1);
    }
}

proof fn lemma_kept_none(c: Seq<Clip>, t: Seq<usize>, k: int)
    requires
        t.len() == 0,
        0 <= k <= c.len(),
    ensures
        kept_clips(c, t, k) == c.take(k),
    decreases k,
{
    if k > 0 {
        lemma_kept_none(c, t, k - 1);
        assert(c.take(k) =~= c.take(k - 1).push(c[k - 1]));
    } else {
        assert(c.take(0) =~= Seq::<Clip>::empty());
    }
}

/// Removing clips: with an index listed twice the error names the
/// smallest such index; otherwise with an index past the end the error
/// names the largest index; otherwise the clips at the listed positions go
/// and the rest keep their order.
pub proof fn law_remove_clips(p: ProjectModel, indices: Seq<usize>)
    requires
        p.clips.len() <= usize::MAX,
    ensures
        ({
            let (p1, r) = apply_model(CommandModel::RemoveClips { indices }, p);
            let len = p.clips.len() as usize;
            &&& (exists|x: usize| listed_twice(indices, x)) ==> (r matches Err(ErrorModel::DuplicateIndex(d))
                && listed_twice(indices, d) && forall|y: usize| #[trigger] listed_twice(indices, y) ==> d <= y)
            &&& (!exists|x: usize| listed_twice(indices, x)) && (exists|i: int| 0 <= i < indices.len() && indices[i]
                >= len) ==> (r matches Err(ErrorModel::IndexOutOfRange { index, len: l }) && l == len && indices.contains(
                index,
            ) && forall|i: int| 0 <= i < indices.len() ==> #[trigger] indices[i] <= index)
            &&& (!exists|x: usize| listed_twice(indices, x)) && (forall|i: int| 0 <= i < indices.len() ==> #[trigger] indices[i]
                < len) ==> (r is Ok && p1 == ProjectModel { clips: kept_clips(p.clips, indices, p.clips.len() as int), ..p })
        }),
{
    broadcast use vstd::seq_lib::group_to_multiset_ensures;
    let len = p.clips.len() as usize;
    let t = isort(indices);
    lemma_isort(indices);
    lemma_first_repeat_least(t, 0);
    assert forall|x: usize| listed_twice(indices, x) <==> listed_twice(t, x) by {}
    assert forall|x: usize| #![trigger listed_twice(t, x)] listed_twice(t, x) <==> exists|m: int|
        0 <= m && m + 1 < t.len() && t[m] == x && #[trigger] t[m + 1] == x by {
        lemma_sorted_twice(t, x);
    }
    assert forall|x: usize| indices.contains(x) <==> t.contains(x) by {
        assert(indices.contains(x) <==> indices.to_multiset().count(x) > 0);
        assert(t.contains(x) <==> t.to_multiset().count(x) > 0);
    }
    match first_repeat(t, 0) {
        Some(k) => {
            let d = t[k];
            assert(listed_twice(t, d));
            assert forall|y: usize| #[trigger] listed_twice(indices, y) implies d <= y by {
                assert(listed_twice(t, y));
                let m = choose|m: int| 0 <= m && m + 1 < t.len() && t[m] == y && #[trigger] t[m + 1] == y;
            }
        },
        None => {
            assert forall|x: usize| !listed_twice(indices, x) by {
                if listed_twice(t, x) {
                    let m = choose|m: int| 0 <= m && m + 1 < t.len() && t[m] == x && #[trigger] t[m + 1] == x;
                }
            }
            if t.len() > 0 {
                let top = t.last();
                assert(t.contains(top));
                assert forall|i: int| 0 <= i < indices.len() implies #[trigger] indices[i] <= top by {
                    assert(indices.contains(indices[i]));
                    assert(t.contains(indices[i]));
                    let j = choose|j: int| 0 <= j < t.len() && t[j] == indices[i];
                }
                if top >= len {
                    assert(indices.contains(top));
                } else {
                    assert forall|i: int| 0 <= i < indices.len() implies #[trigger] indices[i] < len by {}
                }
            } else {
                assert(indices.len() == 0);
            }
            if forall|i: int| 0 <= i < indices.len() ==> #[trigger] indices[i] < len {
                lemma_check_indices(indices, len);
                assert(check_indices(indices, len) is Sorted);
                lemma_remove_all_kept(p.clips, t);
                lemma_kept_same(p.clips, t, indices, p.clips.len() as int);
            }
        },
    }
}

proof fn lemma_kept_same(c: Seq<Clip>, a: Seq<usize>, b: Seq<usize>, k: int)
    requires
        forall|x: usize| a.contains(x) <==> b.contains(x),
    ensures
        kept_clips(c, a, k) == kept_clips(c, b, k),
    decreases k,
{
    if k > 0 {
        lemma_kept_same(c, a, b, k - 1);
    }
}

} // verus!
