//! The worker supervisor: the set of outstanding units of concurrency
//! (thread handles, child process ids, task handles), identified by plain
//! identifiers. It tracks spawned workers, forgets completed ones, reaps
//! batches of exited children, and hands out the full set for draining.

use vstd::prelude::*;

verus! {

/// The outstanding workers, pairwise distinct.
pub struct Supervisor {
    workers: Vec<u64>,
}

/// The position of `wid` in `s` (unique when the identifiers are distinct).
pub open spec fn widx_of(s: Seq<u64>, wid: u64) -> int {
    choose|i: int| 0 <= i < s.len() && s[i] == wid
}

/// What untracking `wid` leaves behind: the workers without `wid`, and
/// whether it was present.
pub open spec fn untrack_spec(s: Seq<u64>, wid: u64) -> (Seq<u64>, bool) {
    if s.contains(wid) {
        (s.remove(widx_of(s, wid)), true)
    } else {
        (s, false)
    }
}

impl Supervisor {
    pub closed spec fn view(&self) -> Seq<u64> {
        self.workers@
    }

    /// The supervisor's invariant: no worker is tracked twice.
    pub open spec fn wf(&self) -> bool {
        self@.no_duplicates()
    }

    pub fn new() -> (s: Supervisor)
        ensures
            s@ == Seq::<u64>::empty(),
            s.wf(),
    {
        Supervisor { workers: Vec::new() }
    }

    pub fn len(&self) -> (n: usize)
        ensures
            n == self@.len(),
    {
        self.workers.len()
    }

    pub fn is_empty(&self) -> (e: bool)
        ensures
            e <==> self@.len() == 0,
    {
        self.workers.is_empty()
    }

    /// Find the position of `wid`, if tracked.
    fn find(&self, wid: u64) -> (r: Option<usize>)
        requires
            self.wf(),
        ensures
            match r {
                Some(i) => i < self@.len() && self@[i as int] == wid && i == widx_of(self@, wid),
                None => !self@.contains(wid),
            },
    {
        let mut i: usize = 0;
        while i < self.workers.len()
            invariant
                i <= self@.len(),
                self.wf(),
                forall|j: int| 0 <= j < i ==> self@[j] != wid,
            decreases self@.len() - i,
        {
            if self.workers[i] == wid {
                proof {
                    assert(self@.contains(wid));
                    let k = widx_of(self@, wid);
                    assert(0 <= k < self@.len() && self@[k] == wid);
                    if k != i {
                        assert(!self@.no_duplicates());
                    }
                }
                return Some(i);
            }
            i = i + 1;
        }
        proof {
            if self@.contains(wid) {
                let k = choose|k: int| 0 <= k < self@.len() && self@[k] == wid;
                assert(self@[k] != wid);
            }
        }
        None
    }

    pub fn contains(&self, wid: u64) -> (b: bool)
        requires
            self.wf(),
        ensures
            b <==> self@.contains(wid),
    {
        match self.find(wid) {
            Some(_) => {
                proof {
                    assert(self@.contains(wid));
                }
                true
            },
            None => false,
        }
    }

    /// Record a newly spawned worker. A worker already tracked is left
    /// alone; the result says whether it was new.
    pub fn track(&mut self, wid: u64) -> (fresh: bool)
        requires
            old(self).wf(),
        ensures
            final(self).wf(),
            fresh <==> !old(self)@.contains(wid),
            fresh ==> final(self)@ == old(self)@.push(wid),
            !fresh ==> final(self)@ == old(self)@,
    {
        match self.find(wid) {
            Some(_) => {
                proof {
                    assert(self@.contains(wid));
                }
                false
            },
            None => {
                self.workers.push(wid);
                proof {
                    assert(final(self)@.drop_last() =~= old(self)@);
                }
                true
            },
        }
    }

    /// Forget a worker whose completion has been confirmed (joined, waited
    /// on, or awaited). Idempotent: forgetting an unknown worker changes
    /// nothing.
    pub fn untrack(&mut self, wid: u64) -> (was: bool)
        requires
            old(self).wf(),
        ensures
            final(self).wf(),
            (final(self)@, was) == untrack_spec(old(self)@, wid),
    {
        match self.find(wid) {
            Some(i) => {
                proof {
                    assert(self@.contains(wid));
                    lemma_remove_keeps_no_duplicates(self@, i as int);
                }
                self.workers.remove(i);
                true
            },
            None => false,
        }
    }

    /// Reap a batch of exited children: forget every identifier in
    /// `exited`. Afterwards a worker is tracked exactly when it was
    /// tracked before and did not exit.
    pub fn reap_exited(&mut self, exited: &Vec<u64>)
        requires
            old(self).wf(),
        ensures
            final(self).wf(),
            forall|w: u64| #[trigger]
                final(self)@.contains(w) <==> old(self)@.contains(w) && !exited@.contains(w),
    {
        let mut k: usize = 0;
        while k < exited.len()
            invariant
                self.wf(),
                k <= exited@.len(),
                forall|w: u64| #[trigger]
                    self@.contains(w) <==> old(self)@.contains(w) && !exited@.subrange(
                        0,
                        k as int,
                    ).contains(w),
            decreases exited@.len() - k,
        {
            let ghost pre = self@;
            let pid = exited[k];
            let _ = self.untrack(pid);
            proof {
                lemma_untrack_membership(pre, pid);
                assert(self@ == untrack_spec(pre, pid).0);
                let sub1 = exited@.subrange(0, k as int + 1);
                let sub0 = exited@.subrange(0, k as int);
                assert(sub1 =~= sub0.push(pid));
                assert forall|w: u64| #[trigger]
                    self@.contains(w) <==> old(self)@.contains(w) && !sub1.contains(w) by {
                    assert(untrack_spec(pre, pid).0.contains(w) <==> pre.contains(w) && w != pid);
                    lemma_push_contains(sub0, pid, w);
                }
            }
            k = k + 1;
        }
        proof {
            assert(exited@.subrange(0, exited@.len() as int) =~= exited@);
        }
    }

    /// Hand out every outstanding worker for draining (joining or forced
    /// termination) and forget them all.
    pub fn take_all(&mut self) -> (ws: Vec<u64>)
        ensures
            ws@ == old(self)@,
            final(self)@ == Seq::<u64>::empty(),
            final(self).wf(),
    {
        let mut ws: Vec<u64> = Vec::new();
        let mut i: usize = 0;
        while i < self.workers.len()
            invariant
                i <= self@.len(),
                self@ == old(self)@,
                ws@ == self@.subrange(0, i as int),
            decreases self@.len() - i,
        {
            ws.push(self.workers[i]);
            i = i + 1;
            proof {
                assert(ws@ =~= self@.subrange(0, i as int));
            }
        }
        self.workers.clear();
        proof {
            assert(ws@ =~= old(self)@);
        }
        ws
    }
}

/// Removing one element from a duplicate-free sequence keeps it
/// duplicate-free.
pub(crate) proof fn lemma_remove_keeps_no_duplicates(s: Seq<u64>, k: int)
    requires
        s.no_duplicates(),
        0 <= k < s.len(),
    ensures
        s.remove(k).no_duplicates(),
{
    let t = s.remove(k);
    assert forall|i: int, j: int| 0 <= i < t.len() && 0 <= j < t.len() && i != j implies t[i]
        != t[j] by {
        let i0 = if i < k { i } else { i + 1 };
        let j0 = if j < k { j } else { j + 1 };
        assert(t[i] == s[i0]);
        assert(t[j] == s[j0]);
    }
}

/// Membership after one untracking: `wid` is gone, everything else stays.
proof fn lemma_untrack_membership(s: Seq<u64>, wid: u64)
    requires
        s.no_duplicates(),
    ensures
        forall|w: u64| #[trigger]
            untrack_spec(s, wid).0.contains(w) <==> s.contains(w) && w != wid,
{
    if s.contains(wid) {
        let k = widx_of(s, wid);
        assert(0 <= k < s.len() && s[k] == wid);
        let t = s.remove(k);
        assert forall|w: u64| #[trigger] t.contains(w) <==> s.contains(w) && w != wid by {
            if t.contains(w) {
                let i = choose|i: int| 0 <= i < t.len() && t[i] == w;
                let i0 = if i < k { i } else { i + 1 };
                assert(s[i0] == w);
                assert(s.contains(w));
                if w == wid {
                    assert(s[i0] == s[k] && i0 != k);
                    assert(!s.no_duplicates());
                }
            }
            if s.contains(w) && w != wid {
                let i = choose|i: int| 0 <= i < s.len() && s[i] == w;
                let i1 = if i < k { i } else { i - 1 };
                assert(t[i1] == s[i]);
                assert(t.contains(w));
            }
        }
    } else {
        assert forall|w: u64| #[trigger]
            untrack_spec(s, wid).0.contains(w) <==> s.contains(w) && w != wid by {
            if s.contains(w) && w == wid {
                assert(s.contains(wid));
            }
        }
    }
}

/// Membership in a pushed sequence.
proof fn lemma_push_contains(s: Seq<u64>, x: u64, w: u64)
    ensures
        s.push(x).contains(w) <==> s.contains(w) || w == x,
{
    let t = s.push(x);
    if t.contains(w) {
        let i = choose|i: int| 0 <= i < t.len() && t[i] == w;
        if i < s.len() {
            assert(s[i] == w);
        }
    }
    if s.contains(w) {
        let i = choose|i: int| 0 <= i < s.len() && s[i] == w;
        assert(t[i] == w);
    }
    if w == x {
        assert(t[s.len() as int] == w);
    }
}

/// No zombies remain: a reaping pass over a batch that covers every
/// tracked worker leaves the supervisor empty.
pub proof fn lemma_reap_covering_batch_empties(
    before: Seq<u64>,
    exited: Seq<u64>,
    after: Seq<u64>,
)
    requires
        forall|w: u64| #[trigger] after.contains(w) <==> before.contains(w) && !exited.contains(w),
        forall|w: u64| #[trigger] before.contains(w) ==> exited.contains(w),
    ensures
        after.len() == 0,
{
    if after.len() > 0 {
        assert(after.contains(after[0]));
    }
}

} // verus!
