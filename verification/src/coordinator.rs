//! The shutdown coordinator: the accept loop's phase machine together with
//! the shutdown flag, the connection-identifier counter, the live-connection
//! registry and the worker supervisor. Every strategy (blocking loop,
//! thread per connection, process per connection, task per connection)
//! drives the same coordinator; only the outside work around it differs.
//!
//! The caller serializes access (one lock around the coordinator); the
//! contracts here pin down what each event does to the state, and the
//! lemmas state the shutdown laws: a broadcast captures every live
//! connection, a second signal is a no-op, and the phase never moves back.

use vstd::prelude::*;

use crate::registry::Registry;
use crate::registry::RegistryError;
use crate::registry::dereg_spec;
use crate::registry::distinct_ids;
use crate::registry::has_id;
use crate::registry::idx_of;
use crate::registry::tokens_of;
use crate::supervisor::Supervisor;
use crate::supervisor::untrack_spec;
use crate::supervisor::widx_of;

verus! {

/// The accept loop's lifecycle. It only ever advances.
#[derive(Clone, Copy, PartialEq, Eq, Structural, Debug)]
pub enum Phase {
    /// Accepting new connections.
    Running,
    /// Shutdown observed: accepting has stopped, workers are being drained.
    Draining,
    /// Every worker is accounted for; the process may exit.
    Stopped,
}

/// How far along the lifecycle a phase is.
pub open spec fn phase_rank(p: Phase) -> int {
    match p {
        Phase::Running => 0,
        Phase::Draining => 1,
        Phase::Stopped => 2,
    }
}

/// The coordinator's abstract state.
#[verifier::ext_equal]
pub struct CoordView {
    pub phase: Phase,
    pub shutdown_requested: bool,
    pub next_id: u64,
    pub registry: Seq<(u64, u64)>,
    pub workers: Seq<u64>,
}

/// The coordinator's invariant: identifiers are distinct and below the
/// counter (so a fresh identifier can never collide), and a phase past
/// `Running` is only ever reached once shutdown has been requested.
pub open spec fn coord_inv(c: CoordView) -> bool {
    &&& distinct_ids(c.registry)
    &&& c.workers.no_duplicates()
    &&& (forall|i: int| 0 <= i < c.registry.len() ==> #[trigger] c.registry[i].0 < c.next_id)
    &&& (forall|i: int| 0 <= i < c.workers.len() ==> #[trigger] c.workers[i] < c.next_id)
    &&& (c.phase != Phase::Running ==> c.shutdown_requested)
}

/// The state a coordinator starts in.
pub open spec fn init_view() -> CoordView {
    CoordView {
        phase: Phase::Running,
        shutdown_requested: false,
        next_id: 1,
        registry: Seq::<(u64, u64)>::empty(),
        workers: Seq::<u64>::empty(),
    }
}

/// The state after a termination signal: the flag is set exactly once;
/// the first signal empties the registry, later ones change nothing.
pub open spec fn shutdown_next(c: CoordView) -> CoordView {
    if c.shutdown_requested {
        c
    } else {
        CoordView { shutdown_requested: true, registry: Seq::<(u64, u64)>::empty(), ..c }
    }
}

/// The close tokens a termination signal broadcasts: every live one on the
/// first signal, none on later ones.
pub open spec fn shutdown_closed(c: CoordView) -> Seq<u64> {
    if c.shutdown_requested {
        Seq::<u64>::empty()
    } else {
        tokens_of(c.registry)
    }
}

/// Whether a termination signal must wake the blocked accept call: only
/// the first one does.
pub open spec fn shutdown_wakes(c: CoordView) -> bool {
    !c.shutdown_requested
}

/// The state after the accept loop's flag check: once shutdown has been
/// requested, a running loop turns to draining and sweeps whatever the
/// narrow window between signal delivery and this check let in.
pub open spec fn observe_next(c: CoordView) -> CoordView {
    if c.shutdown_requested && c.phase == Phase::Running {
        CoordView { phase: Phase::Draining, registry: Seq::<(u64, u64)>::empty(), ..c }
    } else {
        c
    }
}

/// The close tokens the flag check sweeps up.
pub open spec fn observe_closed(c: CoordView) -> Seq<u64> {
    if c.shutdown_requested && c.phase == Phase::Running {
        tokens_of(c.registry)
    } else {
        Seq::<u64>::empty()
    }
}

/// The state after accepting one connection with close token `token`:
/// the fresh identifier is registered and its worker tracked.
pub open spec fn accept_next(c: CoordView, token: u64) -> CoordView {
    CoordView {
        next_id: (c.next_id + 1) as u64,
        registry: c.registry.push((c.next_id, token)),
        workers: c.workers.push(c.next_id),
        ..c
    }
}

/// The state after a worker's own completion path has run: its connection
/// is deregistered (idempotently) and the worker is no longer outstanding.
pub open spec fn finished_next(c: CoordView, id: u64) -> CoordView {
    CoordView {
        registry: dereg_spec(c.registry, id).0,
        workers: untrack_spec(c.workers, id).0,
        ..c
    }
}

/// The state once draining finds no outstanding worker.
pub open spec fn stop_next(c: CoordView) -> CoordView {
    if c.phase == Phase::Draining && c.workers.len() == 0 {
        CoordView { phase: Phase::Stopped, ..c }
    } else {
        c
    }
}

/// What a termination signal obliges the caller to do.
pub struct ShutdownActions {
    /// Request shutdown-both-directions on each of these transports.
    pub close_tokens: Vec<u64>,
    /// Wake the blocked accept call (for instance by a loopback connect).
    pub wake_listener: bool,
}

/// The coordinator itself. Wrap it in one lock; every operation below is
/// one critical section.
pub struct Coordinator {
    phase: Phase,
    shutdown_requested: bool,
    next_id: u64,
    registry: Registry,
    supervisor: Supervisor,
}

impl View for Coordinator {
    type V = CoordView;

    closed spec fn view(&self) -> CoordView {
        CoordView {
            phase: self.phase,
            shutdown_requested: self.shutdown_requested,
            next_id: self.next_id,
            registry: self.registry@,
            workers: self.supervisor@,
        }
    }
}

impl Coordinator {
    pub open spec fn wf(&self) -> bool {
        coord_inv(self@)
    }

    pub fn new() -> (c: Coordinator)
        ensures
            c@ == init_view(),
            c.wf(),
    {
        let c = Coordinator {
            phase: Phase::Running,
            shutdown_requested: false,
            next_id: 1,
            registry: Registry::new(),
            supervisor: Supervisor::new(),
        };
        proof {
            assert(c@ =~= init_view());
        }
        c
    }

    pub fn phase(&self) -> (p: Phase)
        ensures
            p == self@.phase,
    {
        self.phase
    }

    pub fn shutdown_requested(&self) -> (b: bool)
        ensures
            b == self@.shutdown_requested,
    {
        self.shutdown_requested
    }

    /// Whether the loop may accept another connection: it is running and
    /// the identifier counter is not exhausted.
    pub fn can_accept(&self) -> (b: bool)
        ensures
            b == (self@.phase == Phase::Running && self@.next_id < u64::MAX),
    {
        matches!(self.phase, Phase::Running) && self.next_id < u64::MAX
    }

    /// How many connections are currently live.
    pub fn live_connections(&self) -> (n: usize)
        ensures
            n == self@.registry.len(),
    {
        self.registry.len()
    }

    /// How many workers are still outstanding.
    pub fn outstanding_workers(&self) -> (n: usize)
        ensures
            n == self@.workers.len(),
    {
        self.supervisor.len()
    }

    /// A termination signal arrived. Sets the flag (idempotently); the
    /// first signal hands back every live close token and asks for the
    /// accept call to be woken, later signals ask for nothing.
    pub fn on_shutdown_signal(&mut self) -> (acts: ShutdownActions)
        requires
            old(self).wf(),
        ensures
            final(self).wf(),
            final(self)@ == shutdown_next(old(self)@),
            acts.close_tokens@ == shutdown_closed(old(self)@),
            acts.wake_listener == shutdown_wakes(old(self)@),
            final(self)@.shutdown_requested,
    {
        if self.shutdown_requested {
            ShutdownActions { close_tokens: Vec::new(), wake_listener: false }
        } else {
            self.shutdown_requested = true;
            let tokens = self.registry.broadcast_close();
            proof {
                assert(self@ =~= shutdown_next(old(self)@));
            }
            ShutdownActions { close_tokens: tokens, wake_listener: true }
        }
    }

    /// The accept loop's flag check, run before each accept. When shutdown
    /// has been requested, stop accepting, turn to draining, and sweep any
    /// connection that was accepted after the broadcast but before this
    /// check: its close tokens come back here.
    pub fn observe_shutdown(&mut self) -> (r: Option<Vec<u64>>)
        requires
            old(self).wf(),
        ensures
            final(self).wf(),
            final(self)@ == observe_next(old(self)@),
            match r {
                Some(tokens) => old(self)@.shutdown_requested && tokens@ == observe_closed(
                    old(self)@,
                ),
                None => !old(self)@.shutdown_requested,
            },
    {
        if !self.shutdown_requested {
            return None;
        }
        if matches!(self.phase, Phase::Running) {
            self.phase = Phase::Draining;
            let tokens = self.registry.broadcast_close();
            proof {
                assert(self@ =~= observe_next(old(self)@));
            }
            Some(tokens)
        } else {
            proof {
                assert(self@ =~= observe_next(old(self)@));
            }
            Some(Vec::new())
        }
    }

    /// A connection was accepted: allocate the next identifier, register
    /// its close token, and track its worker. The monotonic counter makes
    /// the identifier fresh, so registration cannot fail: a
    /// `DuplicateId` is proved unreachable here.
    pub fn accept_connection(&mut self, token: u64) -> (id: u64)
        requires
            old(self).wf(),
            old(self)@.phase == Phase::Running,
            old(self)@.next_id < u64::MAX,
        ensures
            final(self).wf(),
            id == old(self)@.next_id,
            final(self)@ == accept_next(old(self)@, token),
    {
        let id = self.next_id;
        self.next_id = self.next_id + 1;
        proof {
            if has_id(self.registry@, id) {
                let i = choose|i: int| 0 <= i < self.registry@.len() && self.registry@[i].0 == id;
                assert(old(self)@.registry[i].0 < id);
            }
        }
        let r: Result<(), RegistryError> = self.registry.register(id, token);
        proof {
            assert(r is Ok);
        }
        proof {
            if self.supervisor@.contains(id) {
                let i = choose|i: int| 0 <= i < self.supervisor@.len() && self.supervisor@[i] == id;
                assert(old(self)@.workers[i] < id);
            }
        }
        let fresh = self.supervisor.track(id);
        proof {
            assert(fresh);
            assert(self@ =~= accept_next(old(self)@, token));
            assert forall|i: int| 0 <= i < self@.registry.len() implies #[trigger] self@.registry[i].0
                < self@.next_id by {
                if i < old(self)@.registry.len() {
                    assert(old(self)@.registry[i].0 < old(self)@.next_id);
                }
            }
            assert forall|i: int| 0 <= i < self@.workers.len() implies #[trigger] self@.workers[i]
                < self@.next_id by {
                if i < old(self)@.workers.len() {
                    assert(old(self)@.workers[i] < old(self)@.next_id);
                }
            }
        }
        id
    }

    /// A worker finished on its own (peer closed, or a read or write
    /// error): deregister its connection and stop tracking it. Both
    /// removals are idempotent, so this may race with a forced shutdown
    /// that already swept the connection away.
    pub fn worker_finished(&mut self, id: u64) -> (token: Option<u64>)
        requires
            old(self).wf(),
        ensures
            final(self).wf(),
            final(self)@ == finished_next(old(self)@, id),
            token == dereg_spec(old(self)@.registry, id).1,
            forall|i: int|
                0 <= i < old(self)@.registry.len() && (#[trigger] old(self)@.registry[i]).0 == id
                    ==> token == Some(old(self)@.registry[i].1),
    {
        let token = self.registry.deregister(id);
        let _ = self.supervisor.untrack(id);
        proof {
            assert(self@ =~= finished_next(old(self)@, id));
            assert forall|i: int| 0 <= i < self@.registry.len() implies #[trigger] self@.registry[i].0
                < self@.next_id by {
                if has_id(old(self)@.registry, id) {
                    let k = idx_of(old(self)@.registry, id);
                    let i0 = if i < k {
                        i
                    } else {
                        i + 1
                    };
                    assert(self@.registry[i] == old(self)@.registry[i0]);
                    assert(old(self)@.registry[i0].0 < old(self)@.next_id);
                } else {
                    assert(old(self)@.registry[i].0 < old(self)@.next_id);
                }
            }
            assert forall|i: int| 0 <= i < self@.workers.len() implies #[trigger] self@.workers[i]
                < self@.next_id by {
                if old(self)@.workers.contains(id) {
                    let k = widx_of(old(self)@.workers, id);
                    let i0 = if i < k {
                        i
                    } else {
                        i + 1
                    };
                    assert(self@.workers[i] == old(self)@.workers[i0]);
                    assert(old(self)@.workers[i0] < old(self)@.next_id);
                } else {
                    assert(old(self)@.workers[i] < old(self)@.next_id);
                }
            }
        }
        token
    }

    /// Reap a batch of exited child processes: each identifier in
    /// `exited` stops being tracked.
    pub fn reap_exited(&mut self, exited: &Vec<u64>)
        requires
            old(self).wf(),
        ensures
            final(self).wf(),
            final(self)@.phase == old(self)@.phase,
            final(self)@.shutdown_requested == old(self)@.shutdown_requested,
            final(self)@.next_id == old(self)@.next_id,
            final(self)@.registry == old(self)@.registry,
            forall|w: u64| #[trigger]
                final(self)@.workers.contains(w) <==> old(self)@.workers.contains(w)
                    && !exited@.contains(w),
    {
        self.supervisor.reap_exited(exited);
        proof {
            assert forall|i: int| 0 <= i < self@.workers.len() implies #[trigger] self@.workers[i]
                < self@.next_id by {
                assert(self@.workers.contains(self@.workers[i]));
                let j = choose|j: int|
                    0 <= j < old(self)@.workers.len() && old(self)@.workers[j] == self@.workers[i];
                assert(old(self)@.workers[j] < old(self)@.next_id);
            }
        }
    }

    /// Hand out every outstanding worker for draining: the thread and
    /// process strategies wait for each, the task strategy cancels each.
    pub fn drain_workers(&mut self) -> (ws: Vec<u64>)
        requires
            old(self).wf(),
            old(self)@.phase == Phase::Draining,
        ensures
            final(self).wf(),
            ws@ == old(self)@.workers,
            final(self)@ == (CoordView { workers: Seq::<u64>::empty(), ..old(self)@ }),
    {
        let ws = self.supervisor.take_all();
        proof {
            assert(self@ =~= CoordView { workers: Seq::<u64>::empty(), ..old(self)@ });
        }
        ws
    }

    /// Draining is over once no worker is outstanding: the loop stops.
    pub fn finish_drain(&mut self) -> (stopped: bool)
        requires
            old(self).wf(),
        ensures
            final(self).wf(),
            final(self)@ == stop_next(old(self)@),
            stopped <==> final(self)@.phase == Phase::Stopped,
    {
        if matches!(self.phase, Phase::Draining) && self.supervisor.is_empty() {
            self.phase = Phase::Stopped;
            proof {
                assert(self@ =~= stop_next(old(self)@));
            }
            true
        } else {
            proof {
                assert(self@ =~= stop_next(old(self)@));
            }
            matches!(self.phase, Phase::Stopped)
        }
    }
}

/// Delivering a second termination signal after the first has no
/// additional effect: the state stays as the first signal left it,
/// nothing further is closed, and the accept call need not be woken
/// again.
pub proof fn lemma_shutdown_idempotent(c: CoordView)
    ensures
        shutdown_next(shutdown_next(c)) == shutdown_next(c),
        shutdown_closed(shutdown_next(c)) == Seq::<u64>::empty(),
        !shutdown_wakes(shutdown_next(c)),
{
}

/// A termination signal hands every live close token to the closer, and
/// once the accept loop observes the flag it is draining with an empty
/// registry — so after a shutdown signal no connection stays registered
/// and none misses its forced close.
pub proof fn lemma_shutdown_sweeps_registry(c: CoordView)
    requires
        coord_inv(c),
        c.phase == Phase::Running,
        !c.shutdown_requested,
    ensures
        shutdown_closed(c) == tokens_of(c.registry),
        observe_next(shutdown_next(c)).phase == Phase::Draining,
        observe_next(shutdown_next(c)).registry.len() == 0,
        coord_inv(observe_next(shutdown_next(c))),
{
}

/// The narrow registration race: a connection accepted after the
/// broadcast but before the loop's flag check is registered and then
/// swept by that check, together with anything else still live, so its
/// forced close is never lost.
pub proof fn lemma_late_acceptance_swept(c: CoordView, token: u64)
    requires
        coord_inv(c),
        c.phase == Phase::Running,
        c.shutdown_requested,
        c.next_id < u64::MAX,
    ensures
        observe_closed(accept_next(c, token)) == tokens_of(c.registry).push(token),
        observe_next(accept_next(c, token)).phase == Phase::Draining,
        observe_next(accept_next(c, token)).registry.len() == 0,
{
    assert(tokens_of(c.registry.push((c.next_id, token))) =~= tokens_of(c.registry).push(token));
}

/// No event moves the lifecycle backwards, and none clears the shutdown
/// flag: every component only ever goes from running to shutting down.
pub proof fn lemma_transitions_monotone(c: CoordView, token: u64, id: u64)
    ensures
        phase_rank(c.phase) <= phase_rank(shutdown_next(c).phase),
        phase_rank(c.phase) <= phase_rank(observe_next(c).phase),
        phase_rank(c.phase) <= phase_rank(accept_next(c, token).phase),
        phase_rank(c.phase) <= phase_rank(finished_next(c, id).phase),
        phase_rank(c.phase) <= phase_rank(stop_next(c).phase),
        c.shutdown_requested ==> shutdown_next(c).shutdown_requested,
        c.shutdown_requested ==> observe_next(c).shutdown_requested,
        c.shutdown_requested ==> accept_next(c, token).shutdown_requested,
        c.shutdown_requested ==> finished_next(c, id).shutdown_requested,
        c.shutdown_requested ==> stop_next(c).shutdown_requested,
{
}

} // verus!
