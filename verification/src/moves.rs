//! Moving a selection of clips as one block.

use vstd::prelude::*;

use crate::command::{Command, CommandModel};
use crate::semantics::{is_permutation, names};

verus! {

/// The positions below `n` that are listed in `indices` (`want == true`)
/// or not listed (`want == false`), ascending.
pub open spec fn select(n: nat, indices: Seq<usize>, want: bool) -> Seq<usize>
    decreases n,
{
    if n == 0 {
        Seq::empty()
    } else {
        let rest = select((n - 1) as nat, indices, want);
        if names(indices, n - 1) == want {
            rest.push((n - 1) as usize)
        } else {
            rest
        }
    }
}

/// The order that puts the listed clips, in their order, before the clip
/// now at `to`: the staying clips before `to`, the moving ones, the
/// staying ones from `to` on.
pub open spec fn move_order(len: nat, indices: Seq<usize>, to: nat) -> Seq<usize> {
    let moving = select(len, indices, true);
    let staying = select(len, indices, false);
    let split = select(to, indices, false).len();
    staying.subrange(0, split as int) + moving + staying.subrange(split as int, staying.len() as int)
}

pub open spec fn is_identity(order: Seq<usize>) -> bool {
    forall|i: int| 0 <= i < order.len() ==> order[i] == i
}

/// What `move_clips` returns: nothing when no listed index is below `len`,
/// when `to` is beyond the end, or when nothing would move.
pub open spec fn move_result(len: nat, indices: Seq<usize>, to: nat) -> Option<CommandModel> {
    if select(len, indices, true).len() == 0 || to > len {
        None
    } else if is_identity(move_order(len, indices, to)) {
        None
    } else {
        Some(CommandModel::Reorder { order: move_order(len, indices, to) })
    }
}

proof fn lemma_select(n: nat, indices: Seq<usize>, want: bool)
    requires
        n <= usize::MAX + 1,
    ensures
        crate::sorting::strictly_increasing(select(n, indices, want)),
        forall|i: int| 0 <= i < select(n, indices, want).len() ==> #[trigger] select(n, indices, want)[i] < n,
        forall|i: int| 0 <= i < select(n, indices, want).len() ==> names(indices, #[trigger] select(n, indices, want)[i] as int) == want,
        forall|x: int| 0 <= x < n && names(indices, x) == want ==> #[trigger] names(select(n, indices, want), x),
        select(n, indices, true).len() + select(n, indices, false).len() == n,
    decreases n,
{
    if n > 0 {
        let m = (n - 1) as nat;
        lemma_select(m, indices, want);
        lemma_select(m, indices, !want);
        let s = select(n, indices, want);
        let r = select(m, indices, want);
        assert forall|x: int| 0 <= x < n && names(indices, x) == want implies #[trigger] names(s, x) by {
            if x < m {
                assert(names(r, x));
                let k = choose|k: int| 0 <= k < r.len() && r[k] == x;
                assert(s[k] == x);
            } else {
                assert(s[s.len() - 1] == x);
            }
        }
    }
}

/// Selecting up to `to` gives the start of selecting up to `len`.
proof fn lemma_select_prefix(to: nat, len: nat, indices: Seq<usize>, want: bool)
    requires
        to <= len,
    ensures
        select(to, indices, want).len() <= select(len, indices, want).len(),
        select(to, indices, want) == select(len, indices, want).subrange(0, select(to, indices, want).len() as int),
    decreases len - to,
{
    if to < len {
        lemma_select_prefix(to, (len - 1) as nat, indices, want);
        let a = select((len - 1) as nat, indices, want);
        let b = select(len, indices, want);
        let k = select(to, indices, want).len() as int;
        assert(b.subrange(0, k) =~= a.subrange(0, k));
    }
}

/// A move always yields a permutation of the clip positions.
pub proof fn law_move_is_permutation(len: usize, indices: Seq<usize>, to: usize)
    requires
        to <= len,
    ensures
        is_permutation(move_order(len as nat, indices, to as nat), len as nat),
{
    let mv = select(len as nat, indices, true);
    let st = select(len as nat, indices, false);
    lemma_select(len as nat, indices, true);
    lemma_select(len as nat, indices, false);
    lemma_select_prefix(to as nat, len as nat, indices, false);
    let split = select(to as nat, indices, false).len() as int;
    let a = st.subrange(0, split);
    let b = st.subrange(split, st.len() as int);
    let order = move_order(len as nat, indices, to as nat);
    assert(order == a + mv + b);
    assert forall|i: int| 0 <= i < order.len() implies order[i] < len by {
        if i < a.len() {
            assert(order[i] == st[i]);
        } else if i < a.len() + mv.len() {
            assert(order[i] == mv[i - a.len()]);
        } else {
            assert(order[i] == st[i - mv.len()]);
        }
    }
    assert forall|i: int, j: int| 0 <= i < j < order.len() implies order[i] != order[j] by {
        let in_mv_i = a.len() <= i < a.len() + mv.len();
        let in_mv_j = a.len() <= j < a.len() + mv.len();
        let si = if i < a.len() { i } else { i - mv.len() };
        let sj = if j < a.len() { j } else { j - mv.len() };
        if in_mv_i && in_mv_j {
            assert(order[i] == mv[i - a.len()] && order[j] == mv[j - a.len()]);
        } else if in_mv_i {
            assert(order[i] == mv[i - a.len()] && order[j] == st[sj]);
            assert(names(indices, mv[i - a.len()] as int) == true);
            assert(names(indices, st[sj] as int) == false);
        } else if in_mv_j {
            assert(order[j] == mv[j - a.len()] && order[i] == st[si]);
            assert(names(indices, mv[j - a.len()] as int) == true);
            assert(names(indices, st[si] as int) == false);
        } else {
            assert(order[i] == st[si] && order[j] == st[sj]);
            assert(si < sj);
        }
    }
}

/// What a move does to the order: the listed positions (those in range)
/// form one block in ascending order; every other position keeps its
/// ascending order around it; before the block come exactly the other
/// positions below `to`.
pub proof fn law_move_keeps_a_block(len: usize, indices: Seq<usize>, to: usize)
    requires
        to <= len,
    ensures
        ({
            let order = move_order(len as nat, indices, to as nat);
            let mv = select(len as nat, indices, true);
            let st = select(len as nat, indices, false);
            let k = select(to as nat, indices, false).len() as int;
            &&& crate::sorting::strictly_increasing(mv)
            &&& forall|x: int| 0 <= x < len ==> (names(indices, x) <==> #[trigger] names(mv, x))
            &&& order.subrange(k, k + mv.len()) == mv
            &&& crate::sorting::strictly_increasing(st)
            &&& forall|x: int| 0 <= x < len ==> (!names(indices, x) <==> #[trigger] names(st, x))
            &&& order.subrange(0, k) + order.subrange(k + mv.len(), order.len() as int) == st
            &&& order.subrange(0, k) == select(to as nat, indices, false)
        }),
{
    let mv = select(len as nat, indices, true);
    let st = select(len as nat, indices, false);
    lemma_select(len as nat, indices, true);
    lemma_select(len as nat, indices, false);
    lemma_select_prefix(to as nat, len as nat, indices, false);
    let k = select(to as nat, indices, false).len() as int;
    let order = move_order(len as nat, indices, to as nat);
    let a = st.subrange(0, k);
    let b = st.subrange(k, st.len() as int);
    assert(order == a + mv + b);
    assert(order.subrange(k, k + mv.len()) =~= mv);
    assert(order.subrange(0, k) =~= a);
    assert(order.subrange(k + mv.len(), order.len() as int) =~= b);
    assert(a + b =~= st);
    assert forall|x: int| 0 <= x < len implies (names(indices, x) <==> #[trigger] names(mv, x)) by {
        if names(mv, x) {
            let i = choose|i: int| 0 <= i < mv.len() && mv[i] == x;
        }
    }
    assert forall|x: int| 0 <= x < len implies (!names(indices, x) <==> #[trigger] names(st, x)) by {
        if names(st, x) {
            let i = choose|i: int| 0 <= i < st.len() && st[i] == x;
        }
    }
}

impl Command {
    /// Builds a `Reorder` that moves `indices` (any order) so that they sit,
    /// in their current relative order, before the clip currently at `to`
    /// (`to == len` appends). Returns `None` if nothing would change.
    pub fn move_clips(len: usize, indices: &[usize], to: usize) -> (r: Option<Command>)
        ensures
            match move_result(len as nat, indices@, to as nat) {
                None => r is None,
                Some(c) => r matches Some(x) && x@ == c,
            },
    {
        let mut mark: Vec<bool> = vec![false; len];
        let mut j: usize = 0;
        while j < indices.len()
            invariant
                j <= indices@.len(),
                mark@.len() == len,
                forall|x: int| 0 <= x < len ==> (#[trigger] mark@[x] <==> names(indices@.subrange(0, j as int), x)),
            decreases indices@.len() - j,
        {
            let i = indices[j];
            if i < len {
                mark.set(i, true);
            }
            proof {
                let a = indices@.subrange(0, j as int);
                let b = indices@.subrange(0, j + 1);
                assert forall|x: int| 0 <= x < len implies (#[trigger] mark@[x] <==> names(b, x)) by {
                    assert(b[j as int] == i);
                    if names(a, x) {
                        let k = choose|k: int| 0 <= k < a.len() && a[k] == x;
                        assert(b[k] == x);
                    }
                    if names(b, x) && x != i {
                        let k = choose|k: int| 0 <= k < b.len() && b[k] == x;
                        assert(k != j);
                        assert(a[k] == x);
                    }
                }
            }
            j = j + 1;
        }
        proof {
            assert(indices@.subrange(0, indices@.len() as int) =~= indices@);
        }
        let mut moving: Vec<usize> = Vec::new();
        let mut staying: Vec<usize> = Vec::new();
        let mut split: usize = 0;
        let mut i: usize = 0;
        while i < len
            invariant
                i <= len,
                mark@.len() == len,
                forall|x: int| 0 <= x < len ==> (#[trigger] mark@[x] <==> names(indices@, x)),
                moving@ == select(i as nat, indices@, true),
                staying@ == select(i as nat, indices@, false),
                split == select(if i < to { i as nat } else { to as nat }, indices@, false).len(),
                split <= staying@.len(),
            decreases len - i,
        {
            proof {
                lemma_select(i as nat, indices@, true);
                if i < to {
                    lemma_select_prefix(i as nat, (i + 1) as nat, indices@, false);
                } else {
                    lemma_select_prefix(to as nat, (i + 1) as nat, indices@, false);
                }
            }
            if mark[i] {
                moving.push(i);
            } else {
                staying.push(i);
                if i < to {
                    split = split + 1;
                }
            }
            i = i + 1;
        }
        if moving.len() == 0 || to > len {
            return None;
        }
        proof {
            lemma_select_prefix(to as nat, len as nat, indices@, false);
        }
        let ghost target = move_order(len as nat, indices@, to as nat);
        let mut order: Vec<usize> = Vec::new();
        let mut k: usize = 0;
        while k < split
            invariant
                k <= split,
                split <= staying@.len(),
                order@ == staying@.subrange(0, k as int),
            decreases split - k,
        {
            order.push(staying[k]);
            proof {
                assert(order@ =~= staying@.subrange(0, k + 1));
            }
            k = k + 1;
        }
        let mut k: usize = 0;
        while k < moving.len()
            invariant
                k <= moving@.len(),
                split <= staying@.len(),
                order@ == staying@.subrange(0, split as int) + moving@.subrange(0, k as int),
            decreases moving@.len() - k,
        {
            order.push(moving[k]);
            proof {
                assert(order@ =~= staying@.subrange(0, split as int) + moving@.subrange(0, k + 1));
            }
            k = k + 1;
        }
        let mut k: usize = split;
        proof {
            assert(moving@.subrange(0, moving@.len() as int) =~= moving@);
            assert(staying@.subrange(split as int, split as int) =~= Seq::<usize>::empty());
        }
        while k < staying.len()
            invariant
                split <= k <= staying@.len(),
                order@ == staying@.subrange(0, split as int) + moving@ + staying@.subrange(split as int, k as int),
            decreases staying@.len() - k,
        {
            order.push(staying[k]);
            proof {
                assert(order@ =~= staying@.subrange(0, split as int) + moving@ + staying@.subrange(split as int, k + 1));
            }
            k = k + 1;
        }
        proof {
            assert(order@ =~= target);
        }
        let mut same = true;
        let mut k: usize = 0;
        while k < order.len()
            invariant
                k <= order@.len(),
                same == forall|x: int| 0 <= x < k ==> order@[x] == x,
            decreases order@.len() - k,
        {
            if order[k] != k {
                same = false;
            }
            k = k + 1;
        }
        if same {
            None
        } else {
            Some(Command::Reorder { order })
        }
    }
}

} // verus!
