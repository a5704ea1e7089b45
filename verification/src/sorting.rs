//! Stable insertion sorts for index lists and `(index, value)` entries,
//! and the checks commands make on index lists.

use vstd::prelude::*;

verus! {

/// Where `x` goes in `s`: the first position holding a larger value (the
/// end if there is none), so equal values keep their order.
pub open spec fn slot(s: Seq<usize>, x: usize) -> int
    decreases s.len(),
{
    if s.len() == 0 {
        0
    } else if s[0] > x {
        0
    } else {
        1 + slot(s.drop_first(), x)
    }
}

/// `s` sorted ascending by insertion, in input order.
pub open spec fn isort(s: Seq<usize>) -> Seq<usize>
    decreases s.len(),
{
    if s.len() == 0 {
        Seq::empty()
    } else {
        let t = isort(s.drop_last());
        t.insert(slot(t, s.last()), s.last())
    }
}

/// Where an entry with index `k` goes among `s`: after every entry whose
/// index is not larger.
pub open spec fn entry_slot<T>(s: Seq<(usize, T)>, k: usize) -> int
    decreases s.len(),
{
    if s.len() == 0 {
        0
    } else if s[0].0 > k {
        0
    } else {
        1 + entry_slot(s.drop_first(), k)
    }
}

/// Entries sorted by index, stably (entries with equal indices keep their
/// order).
pub open spec fn sort_entries<T>(s: Seq<(usize, T)>) -> Seq<(usize, T)>
    decreases s.len(),
{
    if s.len() == 0 {
        Seq::empty()
    } else {
        let t = sort_entries(s.drop_last());
        t.insert(entry_slot(t, s.last().0), s.last())
    }
}

pub open spec fn sorted(s: Seq<usize>) -> bool {
    forall|i: int, j: int| 0 <= i < j < s.len() ==> s[i] <= s[j]
}

pub open spec fn strictly_increasing(s: Seq<usize>) -> bool {
    forall|i: int, j: int| 0 <= i < j < s.len() ==> s[i] < s[j]
}

proof fn lemma_slot(s: Seq<usize>, x: usize)
    ensures
        0 <= slot(s, x) <= s.len(),
        forall|i: int| 0 <= i < slot(s, x) ==> s[i] <= x,
        slot(s, x) < s.len() ==> s[slot(s, x)] > x,
    decreases s.len(),
{
    if s.len() > 0 && s[0] <= x {
        lemma_slot(s.drop_first(), x);
        assert forall|i: int| 0 <= i < slot(s, x) implies s[i] <= x by {
            if i > 0 {
                assert(s[i] == s.drop_first()[i - 1]);
            }
        }
    }
}

/// Insertion sort yields an ascending permutation of its input.
pub proof fn lemma_isort(s: Seq<usize>)
    ensures
        sorted(isort(s)),
        isort(s).to_multiset() == s.to_multiset(),
        isort(s).len() == s.len(),
    decreases s.len(),
{
    if s.len() > 0 {
        let t = isort(s.drop_last());
        lemma_isort(s.drop_last());
        let x = s.last();
        let p = slot(t, x);
        lemma_slot(t, x);
        let r = t.insert(p, x);
        assert forall|i: int, j: int| 0 <= i < j < r.len() implies r[i] <= r[j] by {
            if j < p {
                assert(r[i] == t[i] && r[j] == t[j]);
            } else if j == p {
                assert(r[i] == t[i]);
            } else if i < p {
                assert(r[i] == t[i] && r[j] == t[j - 1]);
                assert(t[i] <= x);
                if p < t.len() {
                    assert(t[p] > x);
                }
            } else if i == p {
                assert(r[j] == t[j - 1]);
                assert(t[p] > x);
                assert(t[p] <= t[j - 1]);
            } else {
                assert(r[i] == t[i - 1] && r[j] == t[j - 1]);
            }
        }
        broadcast use vstd::seq_lib::group_to_multiset_ensures;
        assert(r.to_multiset() == t.to_multiset().insert(x));
        assert(s =~= s.drop_last().push(x));
        assert(s.to_multiset() == s.drop_last().to_multiset().insert(x));
    } else {
        assert(s =~= Seq::<usize>::empty());
        assert(isort(s) =~= Seq::<usize>::empty());
    }
}

/// The first position `k >= from` where a sorted list repeats a value.
pub open spec fn first_repeat(s: Seq<usize>, from: int) -> Option<int>
    decreases s.len() - from,
{
    if from < 0 || from + 1 >= s.len() {
        None
    } else if s[from] == s[from + 1] {
        Some(from)
    } else {
        first_repeat(s, from + 1)
    }
}

proof fn lemma_first_repeat(s: Seq<usize>, from: int)
    requires
        0 <= from,
    ensures
        match first_repeat(s, from) {
            Some(k) => from <= k && k + 1 < s.len() && s[k] == s[k + 1]
                && forall|m: int| from <= m < k ==> #[trigger] s[m] != s[m + 1],
            None => forall|m: int| from <= m && m + 1 < s.len() ==> #[trigger] s[m] != s[m + 1],
        },
    decreases s.len() - from,
{
    if from + 1 < s.len() && s[from] != s[from + 1] {
        lemma_first_repeat(s, from + 1);
    }
}

/// The outcome of checking a list of clip indices against a sequence of
/// `len` clips: the indices sorted, or the first repeated index, or the
/// largest index when it is out of range.
pub enum IndexCheck {
    Sorted(Seq<usize>),
    Repeated(usize),
    OutOfRange(usize),
}

pub open spec fn check_indices(indices: Seq<usize>, len: usize) -> IndexCheck {
    let t = isort(indices);
    match first_repeat(t, 0) {
        Some(k) => IndexCheck::Repeated(t[k]),
        None => if t.len() > 0 && t.last() >= len {
            IndexCheck::OutOfRange(t.last())
        } else {
            IndexCheck::Sorted(t)
        },
    }
}

/// When the check passes, the result is strictly increasing, in range,
/// and holds exactly the given indices.
pub proof fn lemma_check_indices(indices: Seq<usize>, len: usize)
    ensures
        check_indices(indices, len) matches IndexCheck::Sorted(t) ==> {
            &&& strictly_increasing(t)
            &&& forall|i: int| 0 <= i < t.len() ==> t[i] < len
            &&& t.to_multiset() == indices.to_multiset()
            &&& t.len() == indices.len()
            &&& forall|x: usize| t.contains(x) <==> indices.contains(x)
        },
{
    let t = isort(indices);
    lemma_isort(indices);
    lemma_first_repeat(t, 0);
    if let IndexCheck::Sorted(u) = check_indices(indices, len) {
        assert(u == t);
        assert forall|i: int, j: int| 0 <= i < j < t.len() implies t[i] < t[j] by {
            assert(t[i] <= t[j]);
            if t[i] == t[j] {
                assert(t[i] <= t[i + 1] && t[i + 1] <= t[j]);
                assert(t[i] != t[i + 1]);
            }
        }
        assert forall|i: int| 0 <= i < t.len() implies t[i] < len by {
            assert(t[i] <= t.last());
        }
        assert forall|x: usize| t.contains(x) <==> indices.contains(x) by {
            broadcast use vstd::seq_lib::group_to_multiset_ensures;
            assert(t.contains(x) <==> t.to_multiset().count(x) > 0);
            assert(indices.contains(x) <==> indices.to_multiset().count(x) > 0);
        }
    }
}

/// A sorted list in which no value follows itself increases strictly.
pub proof fn lemma_strict_when_no_repeat(t: Seq<usize>)
    requires
        sorted(t),
        first_repeat(t, 0) is None,
    ensures
        strictly_increasing(t),
{
    lemma_first_repeat(t, 0);
    assert forall|i: int, j: int| 0 <= i < j < t.len() implies t[i] < t[j] by {
        assert(t[i] <= t[j]);
        if t[i] == t[j] {
            assert(t[i] <= t[i + 1] && t[i + 1] <= t[j]);
            assert(t[i] != t[i + 1]);
        }
    }
}

/// Sorts a copy of `s` ascending.
pub fn sort_indices(s: &[usize]) -> (r: Vec<usize>)
    ensures
        r@ == isort(s@),
{
    let mut out: Vec<usize> = Vec::new();
    let mut i: usize = 0;
    while i < s.len()
        invariant
            i <= s@.len(),
            out@ == isort(s@.subrange(0, i as int)),
        decreases s@.len() - i,
    {
        let x = s[i];
        let mut p: usize = 0;
        proof {
            assert(out@.subrange(0, out@.len() as int) =~= out@);
        }
        while p < out.len() && out[p] <= x
            invariant
                p <= out@.len(),
                slot(out@, x) == p + slot(out@.subrange(p as int, out@.len() as int), x),
            decreases out@.len() - p,
        {
            proof {
                let rest = out@.subrange(p as int, out@.len() as int);
                assert(rest.drop_first() =~= out@.subrange(p + 1, out@.len() as int));
            }
            p = p + 1;
        }
        proof {
            let rest = out@.subrange(p as int, out@.len() as int);
            assert(slot(rest, x) == 0);
            assert(s@.subrange(0, i + 1).drop_last() =~= s@.subrange(0, i as int));
            assert(s@.subrange(0, i + 1).last() == x);
        }
        out.insert(p, x);
        i = i + 1;
    }
    proof {
        assert(s@.subrange(0, s@.len() as int) =~= s@);
    }
    out
}

/// Sorts entries by their index, stably.
pub fn sort_by_index<T>(entries: Vec<(usize, T)>) -> (r: Vec<(usize, T)>)
    ensures
        r@ == sort_entries(entries@),
{
    let ghost orig = entries@;
    let mut entries = entries;
    let mut rev: Vec<(usize, T)> = Vec::new();
    while entries.len() > 0
        invariant
            entries@ + rev@.reverse() == orig,
        decreases entries@.len(),
    {
        let ghost before = entries@;
        let e = entries.pop().unwrap();
        proof {
            assert(before == entries@.push(e));
            assert(rev@.push(e).reverse() =~= seq![e] + rev@.reverse());
        }
        rev.push(e);
        proof {
            assert(entries@ + rev@.reverse() =~= orig);
        }
    }
    proof {
        assert(rev@.reverse() =~= orig);
    }
    let mut out: Vec<(usize, T)> = Vec::new();
    let mut i: usize = 0;
    let n = rev.len();
    while rev.len() > 0
        invariant
            n == orig.len(),
            i + rev@.len() == n,
            rev@.reverse() == orig.subrange(i as int, n as int),
            out@ == sort_entries(orig.subrange(0, i as int)),
        decreases rev@.len(),
    {
        let ghost before = rev@;
        let e = rev.pop().unwrap();
        proof {
            assert(before == rev@.push(e));
            let r = rev@.reverse();
            let a = seq![e] + r;
            let b = orig.subrange(i as int, n as int);
            assert(before.reverse() =~= a);
            assert(a == b);
            assert(a[0] == e);
            assert(b[0] == orig[i as int]);
            assert(e == orig[i as int]);
            assert(r =~= a.subrange(1, a.len() as int));
            assert(b.subrange(1, b.len() as int) =~= orig.subrange(i + 1, n as int));
            assert(rev@.reverse() =~= orig.subrange(i + 1, n as int));
        }
        let k = e.0;
        let mut p: usize = 0;
        proof {
            assert(out@.subrange(0, out@.len() as int) =~= out@);
        }
        while p < out.len() && out[p].0 <= k
            invariant
                p <= out@.len(),
                entry_slot(out@, k) == p + entry_slot(out@.subrange(p as int, out@.len() as int), k),
            decreases out@.len() - p,
        {
            proof {
                let rest = out@.subrange(p as int, out@.len() as int);
                assert(rest.drop_first() =~= out@.subrange(p + 1, out@.len() as int));
            }
            p = p + 1;
        }
        proof {
            let rest = out@.subrange(p as int, out@.len() as int);
            assert(entry_slot(rest, k) == 0);
            assert(orig.subrange(0, i + 1).drop_last() =~= orig.subrange(0, i as int));
            assert(orig.subrange(0, i + 1).last() == e);
        }
        out.insert(p, e);
        i = i + 1;
    }
    proof {
        assert(orig.subrange(0, n as int) =~= orig);
    }
    out
}

} // verus!
