//! The order in which background jobs run: a queue of waiting jobs kept
//! by priority, then by submission order. The bodies and the threads that
//! run them live with the application; this decides who goes next.

use vstd::prelude::*;

use crate::jobs::{JobId, Priority};

verus! {

/// Priority as a number: lower runs first.
pub open spec fn rank(p: Priority) -> int {
    match p {
        Priority::Interactive => 0,
        Priority::Soon => 1,
        Priority::Background => 2,
        Priority::Idle => 3,
    }
}

/// Whether a waiting job `a` runs before `b`: higher priority first, then
/// the one submitted earlier.
pub open spec fn runs_before(a: (u64, Priority), b: (u64, Priority)) -> bool {
    rank(a.1) < rank(b.1) || (rank(a.1) == rank(b.1) && a.0 < b.0)
}

/// The first position, from `k` on, where `e` runs before the waiting job
/// there, or the end.
pub open spec fn slot_for(s: Seq<(u64, Priority)>, e: (u64, Priority), k: int) -> int
    decreases s.len() - k,
{
    if k >= s.len() || k < 0 {
        s.len() as int
    } else if runs_before(e, s[k]) {
        k
    } else {
        slot_for(s, e, k + 1)
    }
}

/// `s` with `e` put where it runs.
pub open spec fn enqueue(s: Seq<(u64, Priority)>, e: (u64, Priority)) -> Seq<(u64, Priority)> {
    s.insert(slot_for(s, e, 0), e)
}

/// The waiting jobs in the order they will run, each once, all submitted
/// before `next`.
pub open spec fn well_ordered(s: Seq<(u64, Priority)>, next: u64) -> bool {
    &&& forall|a: int, b: int| 0 <= a < b < s.len() ==> runs_before(#[trigger] s[a], #[trigger] s[b])
    &&& forall|a: int, b: int| 0 <= a < b < s.len() ==> (#[trigger] s[a]).0 != (#[trigger] s[b]).0
    &&& forall|a: int| 0 <= a < s.len() ==> 1 <= (#[trigger] s[a]).0 < next
}

/// Jobs waiting to start.
pub struct JobQueue {
    waiting: Vec<(u64, Priority)>,
    next: u64,
}

impl View for JobQueue {
    /// The waiting jobs (id, priority) in the order they will run, and the
    /// id the next submission gets.
    type V = (Seq<(u64, Priority)>, u64);

    closed spec fn view(&self) -> (Seq<(u64, Priority)>, u64) {
        (self.waiting@, self.next)
    }
}

proof fn lemma_slot(s: Seq<(u64, Priority)>, e: (u64, Priority), k: int)
    requires
        0 <= k <= s.len(),
    ensures
        k <= slot_for(s, e, k) <= s.len(),
        forall|q: int| k <= q < slot_for(s, e, k) ==> !runs_before(e, #[trigger] s[q]),
        slot_for(s, e, k) < s.len() ==> runs_before(e, s[slot_for(s, e, k)]),
    decreases s.len() - k,
{
    if k < s.len() && !runs_before(e, s[k]) {
        lemma_slot(s, e, k + 1);
    }
}

proof fn lemma_enqueue(s: Seq<(u64, Priority)>, e: (u64, Priority), next: u64)
    requires
        well_ordered(s, next),
        1 <= e.0 < next,
        forall|a: int| 0 <= a < s.len() ==> (#[trigger] s[a]).0 != e.0,
    ensures
        well_ordered(enqueue(s, e), next),
        enqueue(s, e).len() == s.len() + 1,
{
    lemma_slot(s, e, 0);
    let p = slot_for(s, e, 0);
    let t = enqueue(s, e);
    assert forall|a: int, b: int| 0 <= a < b < t.len() implies runs_before(#[trigger] t[a], #[trigger] t[b]) by {
        if b < p {
            assert(t[a] == s[a] && t[b] == s[b]);
        } else if b == p {
            assert(t[a] == s[a]);
            assert(!runs_before(e, s[a]));
            assert(s[a].0 != e.0);
        } else if a < p {
            assert(t[a] == s[a] && t[b] == s[b - 1]);
        } else if a == p {
            assert(t[b] == s[b - 1]);
            assert(runs_before(e, s[p]));
            if b - 1 > p {
                assert(runs_before(s[p], s[b - 1]));
            }
        } else {
            assert(t[a] == s[a - 1] && t[b] == s[b - 1]);
        }
    }
    assert forall|a: int, b: int| 0 <= a < b < t.len() implies (#[trigger] t[a]).0 != (#[trigger] t[b]).0 by {
        if a < p {
            assert(t[a] == s[a]);
        } else if a > p {
            assert(t[a] == s[a - 1]);
        }
        if b < p {
            assert(t[b] == s[b]);
        } else if b > p {
            assert(t[b] == s[b - 1]);
        }
    }
    assert forall|a: int| 0 <= a < t.len() implies 1 <= (#[trigger] t[a]).0 < next by {
        if a < p {
            assert(t[a] == s[a]);
        } else if a > p {
            assert(t[a] == s[a - 1]);
        }
    }
}

proof fn lemma_remove(s: Seq<(u64, Priority)>, i: int, next: u64)
    requires
        well_ordered(s, next),
        0 <= i < s.len(),
    ensures
        well_ordered(s.remove(i), next),
        forall|a: int| 0 <= a < s.remove(i).len() ==> (#[trigger] s.remove(i)[a]).0 != s[i].0,
{
    let t = s.remove(i);
    assert forall|a: int, b: int| 0 <= a < b < t.len() implies runs_before(#[trigger] t[a], #[trigger] t[b]) by {
        let a2 = if a < i { a } else { a + 1 };
        let b2 = if b < i { b } else { b + 1 };
        assert(t[a] == s[a2] && t[b] == s[b2]);
    }
    assert forall|a: int, b: int| 0 <= a < b < t.len() implies (#[trigger] t[a]).0 != (#[trigger] t[b]).0 by {
        let a2 = if a < i { a } else { a + 1 };
        let b2 = if b < i { b } else { b + 1 };
        assert(t[a] == s[a2] && t[b] == s[b2]);
    }
    assert forall|a: int| 0 <= a < t.len() implies 1 <= (#[trigger] t[a]).0 < next by {
        let a2 = if a < i { a } else { a + 1 };
        assert(t[a] == s[a2]);
    }
    assert forall|a: int| 0 <= a < t.len() implies (#[trigger] t[a]).0 != s[i].0 by {
        let a2 = if a < i { a } else { a + 1 };
        assert(t[a] == s[a2]);
    }
}

impl JobQueue {
    /// Whether the queue is in run order with distinct ids.
    pub closed spec fn wf(&self) -> bool {
        well_ordered(self.waiting@, self.next) && self.next >= 1
    }

    /// An empty queue; the first job gets id 1.
    pub fn new() -> (q: JobQueue)
        ensures
            q.wf(),
            q@ == (Seq::<(u64, Priority)>::empty(), 1u64),
    {
        JobQueue { waiting: Vec::new(), next: 1 }
    }

    /// Position of the waiting job `id`.
    fn find(&self, id: JobId) -> (r: Option<usize>)
        ensures
            match r {
                Some(i) => i < self@.0.len() && self@.0[i as int].0 == id.0,
                None => forall|a: int| 0 <= a < self@.0.len() ==> (#[trigger] self@.0[a]).0 != id.0,
            },
    {
        let mut i: usize = 0;
        while i < self.waiting.len()
            invariant
                i <= self.waiting@.len(),
                forall|a: int| 0 <= a < i ==> (#[trigger] self.waiting@[a]).0 != id.0,
            decreases self.waiting@.len() - i,
        {
            if self.waiting[i].0 == id.0 {
                return Some(i);
            }
            i = i + 1;
        }
        None
    }

    fn put(&mut self, e: (u64, Priority))
        requires
            old(self).wf(),
            1 <= e.0 < old(self).next,
            forall|a: int| 0 <= a < old(self)@.0.len() ==> (#[trigger] old(self)@.0[a]).0 != e.0,
        ensures
            final(self).wf(),
            final(self)@ == (enqueue(old(self)@.0, e), old(self)@.1),
    {
        proof {
            assert forall|a: int| 0 <= a < self.waiting@.len() implies (#[trigger] self.waiting@[a]).0 != e.0 by {
                assert(old(self)@.0[a] == self.waiting@[a]);
            }
            lemma_slot(self.waiting@, e, 0);
            lemma_enqueue(self.waiting@, e, self.next);
        }
        let mut p: usize = 0;
        while p < self.waiting.len() && !before_exec(e, self.waiting[p])
            invariant
                p <= self.waiting@.len(),
                slot_for(self.waiting@, e, 0) == slot_for(self.waiting@, e, p as int),
            decreases self.waiting@.len() - p,
        {
            p = p + 1;
        }
        self.waiting.insert(p, e);
    }

    /// Queues a job; it gets the next id. Returns its id.
    pub fn submit(&mut self, priority: Priority) -> (id: JobId)
        requires
            old(self).wf(),
            old(self)@.1 < u64::MAX,
        ensures
            final(self).wf(),
            id.0 == old(self)@.1,
            final(self)@ == (enqueue(old(self)@.0, (id.0, priority)), (old(self)@.1 + 1) as u64),
    {
        let seq = self.next;
        self.next = self.next + 1;
        proof {
            assert(well_ordered(self.waiting@, self.next)) by {
                assert forall|a: int| 0 <= a < self.waiting@.len() implies 1 <= (#[trigger] self.waiting@[a]).0
                    < self.next by {
                    assert(self.waiting@[a].0 < seq);
                }
            }
            assert forall|a: int| 0 <= a < self.waiting@.len() implies (#[trigger] self.waiting@[a]).0 != seq by {
                assert(self.waiting@[a].0 < seq);
            }
        }
        self.put((seq, priority));
        JobId(seq)
    }

    /// Changes the priority of a job that has not started. Returns `false`
    /// if it is not waiting (running or gone); the same priority is a
    /// successful no-op.
    pub fn reprioritize(&mut self, id: JobId, priority: Priority) -> (b: bool)
        requires
            old(self).wf(),
        ensures
            final(self).wf(),
            b == exists|a: int| 0 <= a < old(self)@.0.len() && (#[trigger] old(self)@.0[a]).0 == id.0,
            !b ==> final(self)@ == old(self)@,
            forall|a: int|
                0 <= a < old(self)@.0.len() && (#[trigger] old(self)@.0[a]).0 == id.0 ==> final(self)@ == (if old(
                    self,
                )@.0[a].1 == priority {
                    old(self)@
                } else {
                    (enqueue(old(self)@.0.remove(a), (id.0, priority)), old(self)@.1)
                }),
    {
        match self.find(id) {
            None => false,
            Some(i) => {
                let ghost s = self.waiting@;
                proof {
                    assert forall|a: int| 0 <= a < s.len() && (#[trigger] s[a]).0 == id.0 implies a == i by {
                        if a != i {
                            assert(s[a].0 != s[i as int].0);
                        }
                    }
                }
                if self.waiting[i].1 == priority {
                    return true;
                }
                proof {
                    lemma_remove(s, i as int, self.next);
                }
                self.waiting.remove(i);
                self.put((id.0, priority));
                true
            },
        }
    }

    /// Takes a waiting job out of the queue (it will not run). Returns
    /// whether it was waiting.
    pub fn remove(&mut self, id: JobId) -> (b: bool)
        requires
            old(self).wf(),
        ensures
            final(self).wf(),
            final(self)@.1 == old(self)@.1,
            b == exists|a: int| 0 <= a < old(self)@.0.len() && (#[trigger] old(self)@.0[a]).0 == id.0,
            !b ==> final(self)@ == old(self)@,
            forall|a: int|
                0 <= a < old(self)@.0.len() && (#[trigger] old(self)@.0[a]).0 == id.0 ==> final(self)@.0 == old(
                    self,
                )@.0.remove(a),
    {
        match self.find(id) {
            None => false,
            Some(i) => {
                let ghost s = self.waiting@;
                proof {
                    lemma_remove(s, i as int, self.next);
                    assert forall|a: int| 0 <= a < s.len() && (#[trigger] s[a]).0 == id.0 implies a == i by {
                        if a != i {
                            assert(s[a].0 != s[i as int].0);
                        }
                    }
                }
                self.waiting.remove(i);
                true
            },
        }
    }

    /// The job that runs next, taken out of the queue: the first waiting
    /// one, which runs before every other.
    pub fn pop_next(&mut self) -> (r: Option<JobId>)
        requires
            old(self).wf(),
        ensures
            final(self).wf(),
            final(self)@.1 == old(self)@.1,
            old(self)@.0.len() == 0 ==> r is None && final(self)@ == old(self)@,
            old(self)@.0.len() > 0 ==> r == Some(JobId(old(self)@.0[0].0)) && final(self)@.0 == old(self)@.0.drop_first()
                && forall|a: int| 1 <= a < old(self)@.0.len() ==> runs_before(old(self)@.0[0], #[trigger] old(self)@.0[a]),
    {
        if self.waiting.len() == 0 {
            return None;
        }
        let ghost s = self.waiting@;
        proof {
            lemma_remove(s, 0, self.next);
            assert(s.remove(0) =~= s.drop_first());
        }
        let (seq, _) = self.waiting.remove(0);
        Some(JobId(seq))
    }

    /// Takes every waiting job out of the queue, in run order.
    pub fn drain(&mut self) -> (v: Vec<JobId>)
        requires
            old(self).wf(),
        ensures
            final(self).wf(),
            final(self)@ == (Seq::<(u64, Priority)>::empty(), old(self)@.1),
            v@.len() == old(self)@.0.len(),
            forall|a: int| 0 <= a < v@.len() ==> (#[trigger] v@[a]).0 == old(self)@.0[a].0,
    {
        let mut v: Vec<JobId> = Vec::new();
        let mut k: usize = 0;
        while k < self.waiting.len()
            invariant
                k <= self.waiting@.len(),
                self.waiting@ == old(self).waiting@,
                v@.len() == k,
                forall|a: int| 0 <= a < k ==> (#[trigger] v@[a]).0 == self.waiting@[a].0,
            decreases self.waiting@.len() - k,
        {
            v.push(JobId(self.waiting[k].0));
            k = k + 1;
        }
        self.waiting = Vec::new();
        v
    }

    /// Number of jobs waiting to start.
    pub fn len(&self) -> (n: usize)
        ensures
            n == self@.0.len(),
    {
        self.waiting.len()
    }
}

/// Whether `a` runs before `b`.
fn before_exec(a: (u64, Priority), b: (u64, Priority)) -> (r: bool)
    ensures
        r == runs_before(a, b),
{
    let ra = rank_exec(a.1);
    let rb = rank_exec(b.1);
    ra < rb || (ra == rb && a.0 < b.0)
}

fn rank_exec(p: Priority) -> (r: u8)
    ensures
        r == rank(p),
{
    match p {
        Priority::Interactive => 0,
        Priority::Soon => 1,
        Priority::Background => 2,
        Priority::Idle => 3,
    }
}

} // verus!
