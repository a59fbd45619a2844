use vstd::prelude::*;

use crate::records::{lemma_remove_name_distinct, names_model, remove_name};
use crate::resource::{contains_name, remove_key};

verus! {

/// Pairwise distinct names.
pub open spec fn distinct_names(names: Seq<Seq<char>>) -> bool {
    forall|i: int, j: int| 0 <= i < j < names.len() ==> names[i] != names[j]
}

/// The dispatch queue that keys reconciliation work by object identity.
/// Change events for an identity are coalesced while one is already waiting,
/// and an identity is handed to at most one worker at a time; the worker
/// pool around it performs the actual passes and reports back.
pub struct DispatchQueue {
    /// Identities waiting to be reconciled, oldest first, each at most once.
    pub pending: Vec<String>,
    /// Identities being reconciled right now, each at most once.
    pub in_flight: Vec<String>,
}

impl DispatchQueue {
    /// The queue's invariant: no identity waits twice, and no identity is in
    /// flight twice — at most one reconciliation per object identity.
    pub open spec fn wf(&self) -> bool {
        &&& distinct_names(names_model(self.pending@))
        &&& distinct_names(names_model(self.in_flight@))
    }

    /// An empty queue: nothing waiting, nothing running.
    pub fn new() -> (q: DispatchQueue)
        ensures
            q.wf(),
            q.pending@.len() == 0,
            q.in_flight@.len() == 0,
    {
        DispatchQueue { pending: Vec::new(), in_flight: Vec::new() }
    }

    /// A change event arrived for an identity: queue it, unless an event for
    /// the same identity is already waiting — repeated events coalesce into
    /// one pass. An identity currently in flight is queued again, so the
    /// outcome of the running pass is observed by a fresh one.
    pub fn enqueue(&mut self, key: String) -> (queued: bool)
        requires
            old(self).wf(),
        ensures
            final(self).wf(),
            final(self).in_flight@ == old(self).in_flight@,
            queued == !names_model(old(self).pending@).contains(key@),
            names_model(final(self).pending@) == if names_model(old(self).pending@).contains(
                key@,
            ) {
                names_model(old(self).pending@)
            } else {
                names_model(old(self).pending@).push(key@)
            },
    {
        if contains_name(&self.pending, &key) {
            false
        } else {
            let ghost pm = names_model(self.pending@);
            proof {
                assert(names_model(self.pending@.push(key)) =~= pm.push(key@));
            }
            self.pending.push(key);
            proof {
                assert forall|i: int, j: int|
                    0 <= i < j < names_model(self.pending@).len() implies names_model(
                    self.pending@,
                )[i] != names_model(self.pending@)[j] by {
                    if j == pm.len() {
                        if pm[i] == key@ {
                            assert(pm.contains(key@));
                        }
                    }
                }
            }
            true
        }
    }

    /// Hand the oldest waiting identity that no worker holds to a worker.
    /// Nothing is handed out while every waiting identity is already being
    /// reconciled, so two passes for one identity never overlap.
    pub fn start(&mut self) -> (r: Option<String>)
        requires
            old(self).wf(),
        ensures
            final(self).wf(),
            match r {
                Some(k) => {
                    &&& !names_model(old(self).in_flight@).contains(k@)
                    &&& (exists|i: int|
                        0 <= i < names_model(old(self).pending@).len() && #[trigger] names_model(
                            old(self).pending@,
                        )[i] == k@ && (forall|j: int|
                            0 <= j < i ==> names_model(old(self).in_flight@).contains(
                                names_model(old(self).pending@)[j],
                            )))
                    &&& names_model(final(self).pending@) == remove_name(
                        names_model(old(self).pending@),
                        k@,
                    )
                    &&& names_model(final(self).in_flight@) == names_model(
                        old(self).in_flight@,
                    ).push(k@)
                },
                None => {
                    &&& (forall|i: int|
                        0 <= i < names_model(old(self).pending@).len() ==> names_model(
                            old(self).in_flight@,
                        ).contains(#[trigger] names_model(old(self).pending@)[i]))
                    &&& final(self).pending@ == old(self).pending@
                    &&& final(self).in_flight@ == old(self).in_flight@
                },
            },
    {
        let ghost pm = names_model(self.pending@);
        let ghost fm = names_model(self.in_flight@);
        let mut i: usize = 0;
        while i < self.pending.len()
            invariant
                i <= self.pending@.len(),
                self.pending@ == old(self).pending@,
                self.in_flight@ == old(self).in_flight@,
                pm == names_model(self.pending@),
                fm == names_model(self.in_flight@),
                distinct_names(pm),
                distinct_names(fm),
                forall|j: int| 0 <= j < i ==> fm.contains(#[trigger] pm[j]),
            decreases self.pending@.len() - i,
        {
            if !contains_name(&self.in_flight, &self.pending[i]) {
                let k = self.pending[i].clone();
                proof {
                    assert(pm[i as int] == k@);
                }
                let rest = remove_key(&self.pending, &k);
                self.pending = rest;
                proof {
                    lemma_remove_name_distinct(pm, k@);
                }
                let handed = k.clone();
                let ghost fm1 = names_model(self.in_flight@);
                proof {
                    assert(names_model(self.in_flight@.push(handed)) =~= fm1.push(k@));
                }
                self.in_flight.push(handed);
                proof {
                    assert forall|a: int, b: int|
                        0 <= a < b < names_model(self.in_flight@).len() implies names_model(
                        self.in_flight@,
                    )[a] != names_model(self.in_flight@)[b] by {
                        if b == fm1.len() {
                            if fm1[a] == k@ {
                                assert(fm1.contains(k@));
                            }
                        }
                    }
                }
                return Some(k);
            }
            i = i + 1;
        }
        None
    }

    /// A worker finished an identity, successfully or not: release it, so a
    /// queued event for it can start a fresh pass.
    pub fn finish(&mut self, key: &String)
        requires
            old(self).wf(),
        ensures
            final(self).wf(),
            final(self).pending@ == old(self).pending@,
            names_model(final(self).in_flight@) == remove_name(
                names_model(old(self).in_flight@),
                key@,
            ),
            !names_model(final(self).in_flight@).contains(key@),
    {
        let ghost fm = names_model(self.in_flight@);
        let rest = remove_key(&self.in_flight, key);
        self.in_flight = rest;
        proof {
            lemma_remove_name_distinct(fm, key@);
        }
    }

    /// How many identities are waiting.
    pub fn pending_len(&self) -> (n: usize)
        ensures
            n == self.pending@.len(),
    {
        self.pending.len()
    }

    /// How many identities are being reconciled right now.
    pub fn in_flight_len(&self) -> (n: usize)
        ensures
            n == self.in_flight@.len(),
    {
        self.in_flight.len()
    }
}

} // verus!
