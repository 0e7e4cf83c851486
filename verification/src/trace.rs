//! The coordinator's behaviour over whole event traces: whatever sequence
//! of signals, accepts, completions, reapings and drains the strategies
//! produce, the shutdown flag never resets, the lifecycle never moves
//! backwards, the invariant holds in every reachable state, and once the
//! accept loop has swept the registry nothing ever becomes live again.

use vstd::prelude::*;

use crate::coordinator::CoordView;
use crate::coordinator::Phase;
use crate::coordinator::accept_next;
use crate::coordinator::coord_inv;
use crate::coordinator::finished_next;
use crate::coordinator::observe_next;
use crate::coordinator::phase_rank;
use crate::coordinator::shutdown_next;
use crate::coordinator::stop_next;
use crate::registry::has_id;
use crate::registry::idx_of;
use crate::supervisor::untrack_spec;
use crate::supervisor::widx_of;

verus! {

/// One event in the life of the coordinator, as the strategies drive it.
pub enum CoordEvent {
    /// A termination signal arrived.
    Signal,
    /// The accept loop checked the shutdown flag.
    Observe,
    /// A connection was accepted, with this close token.
    Accept(u64),
    /// A worker finished on its own.
    Finished(u64),
    /// A batch of exited children was reaped, in this order.
    Reaped(Seq<u64>),
    /// The drain handed out every outstanding worker.
    Drained,
    /// The loop checked whether draining is over.
    Stop,
}

/// Reaping untracks each exited child in turn.
pub open spec fn reap_next_workers(s: Seq<u64>, exited: Seq<u64>) -> Seq<u64>
    decreases exited.len(),
{
    if exited.len() == 0 {
        s
    } else {
        reap_next_workers(untrack_spec(s, exited[0]).0, exited.drop_first())
    }
}

/// The state one event leads to. An accept only happens while the loop
/// runs and the counter has room; a drain only happens while draining.
pub open spec fn apply_event(c: CoordView, ev: CoordEvent) -> CoordView {
    match ev {
        CoordEvent::Signal => shutdown_next(c),
        CoordEvent::Observe => observe_next(c),
        CoordEvent::Accept(token) => if c.phase == Phase::Running && c.next_id < u64::MAX {
            accept_next(c, token)
        } else {
            c
        },
        CoordEvent::Finished(id) => finished_next(c, id),
        CoordEvent::Reaped(exited) => (CoordView {
            workers: reap_next_workers(c.workers, exited),
            ..c
        }),
        CoordEvent::Drained => if c.phase == Phase::Draining {
            CoordView { workers: Seq::<u64>::empty(), ..c }
        } else {
            c
        },
        CoordEvent::Stop => stop_next(c),
    }
}

/// The state a whole trace of events leads to.
pub open spec fn run_events(c: CoordView, evs: Seq<CoordEvent>) -> CoordView
    decreases evs.len(),
{
    if evs.len() == 0 {
        c
    } else {
        apply_event(run_events(c, evs.drop_last()), evs.last())
    }
}

/// Untracking keeps the workers duplicate-free and below any bound they
/// were below.
proof fn lemma_untrack_preserves(s: Seq<u64>, wid: u64, bound: u64)
    requires
        s.no_duplicates(),
        forall|i: int| 0 <= i < s.len() ==> #[trigger] s[i] < bound,
    ensures
        untrack_spec(s, wid).0.no_duplicates(),
        forall|i: int|
            0 <= i < untrack_spec(s, wid).0.len() ==> #[trigger] untrack_spec(s, wid).0[i]
                < bound,
{
    if s.contains(wid) {
        let k = widx_of(s, wid);
        assert(0 <= k < s.len() && s[k] == wid);
        crate::supervisor::lemma_remove_keeps_no_duplicates(s, k);
        let t = s.remove(k);
        assert forall|i: int| 0 <= i < t.len() implies #[trigger] t[i] < bound by {
            let i0 = if i < k {
                i
            } else {
                i + 1
            };
            assert(t[i] == s[i0]);
        }
    }
}

/// Reaping keeps the workers duplicate-free and bounded.
proof fn lemma_reap_preserves(s: Seq<u64>, exited: Seq<u64>, bound: u64)
    requires
        s.no_duplicates(),
        forall|i: int| 0 <= i < s.len() ==> #[trigger] s[i] < bound,
    ensures
        reap_next_workers(s, exited).no_duplicates(),
        forall|i: int|
            0 <= i < reap_next_workers(s, exited).len() ==> #[trigger] reap_next_workers(
                s,
                exited,
            )[i] < bound,
    decreases exited.len(),
{
    if exited.len() > 0 {
        lemma_untrack_preserves(s, exited[0], bound);
        lemma_reap_preserves(untrack_spec(s, exited[0]).0, exited.drop_first(), bound);
    }
}

/// Every event preserves the coordinator's invariant.
pub proof fn lemma_event_preserves_inv(c: CoordView, ev: CoordEvent)
    requires
        coord_inv(c),
    ensures
        coord_inv(apply_event(c, ev)),
{
    let d = apply_event(c, ev);
    match ev {
        CoordEvent::Signal => {},
        CoordEvent::Observe => {},
        CoordEvent::Accept(token) => {
            if c.phase == Phase::Running && c.next_id < u64::MAX {
                assert forall|i: int| 0 <= i < d.registry.len() implies #[trigger] d.registry[i].0
                    < d.next_id by {
                    if i < c.registry.len() {
                        assert(c.registry[i].0 < c.next_id);
                    }
                }
                assert forall|i: int| 0 <= i < d.workers.len() implies #[trigger] d.workers[i]
                    < d.next_id by {
                    if i < c.workers.len() {
                        assert(c.workers[i] < c.next_id);
                    }
                }
                assert forall|i: int, j: int| 0 <= i < j < d.registry.len() implies d.registry[i].0
                    != d.registry[j].0 by {
                    if j < d.registry.len() - 1 {
                        assert(c.registry[i].0 != c.registry[j].0);
                    } else {
                        assert(c.registry[i].0 < c.next_id);
                    }
                }
                assert forall|i: int, j: int|
                    0 <= i < d.workers.len() && 0 <= j < d.workers.len() && i
                        != j implies d.workers[i] != d.workers[j] by {
                    if i < c.workers.len() && j < c.workers.len() {
                        assert(c.workers.no_duplicates());
                    } else if i < c.workers.len() {
                        assert(c.workers[i] < c.next_id);
                    } else if j < c.workers.len() {
                        assert(c.workers[j] < c.next_id);
                    }
                }
            }
        },
        CoordEvent::Finished(id) => {
            if has_id(c.registry, id) {
                let k = idx_of(c.registry, id);
                assert(0 <= k < c.registry.len() && c.registry[k].0 == id);
                crate::registry::lemma_remove_keeps_distinct(c.registry, k);
                let t = c.registry.remove(k);
                assert forall|i: int| 0 <= i < t.len() implies #[trigger] t[i].0 < c.next_id by {
                    let i0 = if i < k {
                        i
                    } else {
                        i + 1
                    };
                    assert(t[i] == c.registry[i0]);
                }
            }
            lemma_untrack_preserves(c.workers, id, c.next_id);
        },
        CoordEvent::Reaped(exited) => {
            lemma_reap_preserves(c.workers, exited, c.next_id);
        },
        CoordEvent::Drained => {},
        CoordEvent::Stop => {},
    }
}

/// The invariant holds in every state a trace can reach.
pub proof fn lemma_trace_preserves_inv(c: CoordView, evs: Seq<CoordEvent>)
    requires
        coord_inv(c),
    ensures
        coord_inv(run_events(c, evs)),
    decreases evs.len(),
{
    if evs.len() > 0 {
        lemma_trace_preserves_inv(c, evs.drop_last());
        lemma_event_preserves_inv(run_events(c, evs.drop_last()), evs.last());
    }
}

/// Once shutdown has been requested, no sequence of events ever clears
/// it, and the lifecycle never moves backwards under any trace.
pub proof fn lemma_shutdown_is_forever(c: CoordView, evs: Seq<CoordEvent>)
    ensures
        c.shutdown_requested ==> run_events(c, evs).shutdown_requested,
        phase_rank(c.phase) <= phase_rank(run_events(c, evs).phase),
    decreases evs.len(),
{
    if evs.len() > 0 {
        lemma_shutdown_is_forever(c, evs.drop_last());
    }
}

/// Once the accept loop has observed shutdown and swept the registry, no
/// trace of further events makes any connection live again, and the loop
/// never accepts again.
pub proof fn lemma_swept_registry_stays_empty(c: CoordView, evs: Seq<CoordEvent>)
    requires
        c.phase != Phase::Running,
        c.registry.len() == 0,
    ensures
        run_events(c, evs).registry.len() == 0,
        run_events(c, evs).phase != Phase::Running,
    decreases evs.len(),
{
    if evs.len() > 0 {
        lemma_swept_registry_stays_empty(c, evs.drop_last());
        let d = run_events(c, evs.drop_last());
        match evs.last() {
            CoordEvent::Finished(id) => {
                assert(!has_id(d.registry, id));
            },
            _ => {},
        }
    }
}

} // verus!
