//! The live-connection registry: a mapping from connection identifier to a
//! close token, the capability with which the holder of the corresponding
//! transport can be forced shut. Registration, idempotent deregistration and
//! the shutdown broadcast are the three operations; the caller serializes
//! them under one lock.

use vstd::prelude::*;

verus! {

/// Registration failure: the identifier is already present. With monotonic
/// identifiers this indicates an identifier-reuse bug in the caller.
#[derive(Clone, Copy, PartialEq, Eq, Structural, Debug)]
pub enum RegistryError {
    DuplicateId,
}

/// One live connection: its identifier and the token under which the
/// owner of the transport performs a forced close.
pub struct Registry {
    entries: Vec<(u64, u64)>,
}

/// Whether some entry of `s` carries the identifier `id`.
pub open spec fn has_id(s: Seq<(u64, u64)>, id: u64) -> bool {
    exists|i: int| 0 <= i < s.len() && s[i].0 == id
}

/// The position of the entry carrying `id` (unique when ids are distinct).
pub open spec fn idx_of(s: Seq<(u64, u64)>, id: u64) -> int {
    choose|i: int| 0 <= i < s.len() && s[i].0 == id
}

/// The close token registered under `id`.
pub open spec fn token_of(s: Seq<(u64, u64)>, id: u64) -> u64 {
    s[idx_of(s, id)].1
}

/// The close tokens of all entries, in registration order.
pub open spec fn tokens_of(s: Seq<(u64, u64)>) -> Seq<u64> {
    s.map_values(|p: (u64, u64)| p.1)
}

/// Identifiers are pairwise distinct.
pub open spec fn distinct_ids(s: Seq<(u64, u64)>) -> bool {
    forall|i: int, j: int| 0 <= i < j < s.len() ==> s[i].0 != s[j].0
}

/// What deregistering `id` leaves behind and yields: the registry without
/// the entry for `id`, and its token if one was present.
pub open spec fn dereg_spec(s: Seq<(u64, u64)>, id: u64) -> (Seq<(u64, u64)>, Option<u64>) {
    if has_id(s, id) {
        (s.remove(idx_of(s, id)), Some(token_of(s, id)))
    } else {
        (s, None::<u64>)
    }
}

/// What the shutdown broadcast leaves behind and yields: an empty registry,
/// and every live close token.
pub open spec fn broadcast_spec(s: Seq<(u64, u64)>) -> (Seq<(u64, u64)>, Seq<u64>) {
    (Seq::<(u64, u64)>::empty(), tokens_of(s))
}

impl Registry {
    pub closed spec fn view(&self) -> Seq<(u64, u64)> {
        self.entries@
    }

    /// The registry's invariant: no identifier appears twice.
    pub open spec fn wf(&self) -> bool {
        distinct_ids(self@)
    }

    pub fn new() -> (r: Registry)
        ensures
            r@ == Seq::<(u64, u64)>::empty(),
            r.wf(),
    {
        Registry { entries: Vec::new() }
    }

    pub fn len(&self) -> (n: usize)
        ensures
            n == self@.len(),
    {
        self.entries.len()
    }

    pub fn is_empty(&self) -> (e: bool)
        ensures
            e <==> self@.len() == 0,
    {
        self.entries.is_empty()
    }

    /// Find the position of `id`, if present.
    fn find(&self, id: u64) -> (r: Option<usize>)
        requires
            self.wf(),
        ensures
            match r {
                Some(i) => i < self@.len() && self@[i as int].0 == id && i == idx_of(self@, id),
                None => !has_id(self@, id),
            },
    {
        let mut i: usize = 0;
        while i < self.entries.len()
            invariant
                i <= self@.len(),
                self.wf(),
                forall|j: int| 0 <= j < i ==> self@[j].0 != id,
            decreases self@.len() - i,
        {
            if self.entries[i].0 == id {
                proof {
                    let k = idx_of(self@, id);
                    assert(0 <= k < self@.len() && self@[k].0 == id);
                    assert(k == i);
                }
                return Some(i);
            }
            i = i + 1;
        }
        None
    }

    /// Insert `id` with its close token; refused if `id` is already live.
    pub fn register(&mut self, id: u64, token: u64) -> (r: Result<(), RegistryError>)
        requires
            old(self).wf(),
        ensures
            final(self).wf(),
            !has_id(old(self)@, id) ==> r == Ok::<(), RegistryError>(()) && final(self)@
                == old(self)@.push((id, token)),
            has_id(old(self)@, id) ==> r == Err::<(), RegistryError>(RegistryError::DuplicateId)
                && final(self)@ == old(self)@,
    {
        match self.find(id) {
            Some(_) => Err(RegistryError::DuplicateId),
            None => {
                self.entries.push((id, token));
                proof {
                    assert forall|i: int, j: int| 0 <= i < j < self@.len() implies self@[i].0
                        != self@[j].0 by {
                        if j < self@.len() - 1 {
                            assert(old(self)@[i].0 != old(self)@[j].0);
                        } else {
                            assert(self@[i] == old(self)@[i]);
                        }
                    }
                }
                Ok(())
            },
        }
    }

    /// Remove the entry for `id` and yield its close token. Idempotent: a
    /// second removal of the same identifier finds nothing and changes
    /// nothing, so the completion path and the forced-close path may race.
    pub fn deregister(&mut self, id: u64) -> (r: Option<u64>)
        requires
            old(self).wf(),
        ensures
            final(self).wf(),
            (final(self)@, r) == dereg_spec(old(self)@, id),
            forall|i: int|
                0 <= i < old(self)@.len() && (#[trigger] old(self)@[i]).0 == id ==> r == Some(
                    old(self)@[i].1,
                ),
    {
        match self.find(id) {
            Some(i) => {
                let (_, token) = self.entries.remove(i);
                proof {
                    lemma_remove_keeps_distinct(old(self)@, i as int);
                    assert forall|j: int|
                        0 <= j < old(self)@.len() && (#[trigger] old(self)@[j]).0
                            == id implies Some(token) == Some(old(self)@[j].1) by {
                        if j != i {
                            assert(old(self)@[j].0 != old(self)@[i as int].0);
                        }
                    }
                }
                Some(token)
            },
            None => None,
        }
    }

    /// Capture every live close token and clear the registry. The caller
    /// then requests shutdown-both-directions on each captured token's
    /// transport, outside the registry lock.
    pub fn broadcast_close(&mut self) -> (tokens: Vec<u64>)
        requires
            old(self).wf(),
        ensures
            final(self).wf(),
            (final(self)@, tokens@) == broadcast_spec(old(self)@),
    {
        let mut tokens: Vec<u64> = Vec::new();
        let mut i: usize = 0;
        while i < self.entries.len()
            invariant
                i <= self@.len(),
                self@ == old(self)@,
                tokens@.len() == i,
                forall|j: int| 0 <= j < i ==> tokens@[j] == self@[j].1,
            decreases self@.len() - i,
        {
            tokens.push(self.entries[i].1);
            i = i + 1;
        }
        self.entries.clear();
        proof {
            assert(tokens@ =~= tokens_of(old(self)@));
        }
        tokens
    }
}

/// Removing one entry from a registry with distinct identifiers leaves the
/// identifiers distinct.
pub(crate) proof fn lemma_remove_keeps_distinct(s: Seq<(u64, u64)>, k: int)
    requires
        distinct_ids(s),
        0 <= k < s.len(),
    ensures
        distinct_ids(s.remove(k)),
{
    let t = s.remove(k);
    assert forall|i: int, j: int| 0 <= i < j < t.len() implies t[i].0 != t[j].0 by {
        let i0 = if i < k { i } else { i + 1 };
        let j0 = if j < k { j } else { j + 1 };
        assert(t[i] == s[i0]);
        assert(t[j] == s[j0]);
    }
}

/// After a deregistration, the identifier is gone: any further removal of
/// the same identifier yields nothing and leaves the registry unchanged.
/// A worker's natural completion and a forced shutdown may therefore race
/// to deregister the same connection; exactly one of them obtains the
/// token, the other observes it already gone.
pub proof fn lemma_deregistration_race(s: Seq<(u64, u64)>, id: u64)
    requires
        distinct_ids(s),
    ensures
        has_id(s, id) ==> dereg_spec(s, id).1 is Some,
        !has_id(dereg_spec(s, id).0, id),
        dereg_spec(dereg_spec(s, id).0, id) == (dereg_spec(s, id).0, None::<u64>),
{
    if has_id(s, id) {
        let k = idx_of(s, id);
        assert(0 <= k < s.len() && s[k].0 == id);
        let t = s.remove(k);
        assert forall|i: int| 0 <= i < t.len() implies t[i].0 != id by {
            let i0 = if i < k { i } else { i + 1 };
            assert(t[i] == s[i0]);
        }
        assert(!has_id(t, id));
    }
}

/// After the shutdown broadcast, the registry is empty: no identifier is
/// live, and a deregistration racing behind the broadcast finds nothing.
pub proof fn lemma_broadcast_then_deregister(s: Seq<(u64, u64)>, id: u64)
    ensures
        broadcast_spec(s).0.len() == 0,
        !has_id(broadcast_spec(s).0, id),
        dereg_spec(broadcast_spec(s).0, id) == (broadcast_spec(s).0, None::<u64>),
{
}

} // verus!
