//! The deferred-event subsystem: always-runnable work drained to a fixed
//! point.
//!
//! A single background task owns the drain.  On every wake it repeatedly
//! fires each enabled, non-dead event, merges in events registered while the
//! primary collection was being walked, and reaps events marked dead, until a
//! full pass makes no progress; only then may it suspend.  The functions here
//! decide each of those steps; the task that runs the loop and invokes the
//! foreign callbacks lives outside the library and is handed plain handle
//! lists to act on.
//!
//! Reentrancy rule: a registration arriving during a drain pass goes to a
//! staging collection and is merged after the pass; a free arriving during a
//! drain pass only marks the event dead, and the reap step later removes it
//! and reports its single destroy notification.

use vstd::prelude::*;

use crate::registry::Registry;

verus! {

broadcast use vstd::seq_lib::group_seq_properties;

/// One deferred event: an enabled flag, a tombstone flag, and whether a
/// destroy callback is currently set.
#[derive(Clone, Copy, Debug, PartialEq, Eq, Structural)]
pub struct DeferredEvent {
    /// The event is visited by drain passes while set.
    pub enabled: bool,
    /// Logically freed; awaiting physical removal by the reap step.
    pub dead: bool,
    /// A destroy callback is set and must be invoked exactly once at removal.
    pub has_destroy: bool,
}

/// The deferred-event collections: the primary collection the drain walks,
/// and the staging collection for registrations that arrive mid-walk.
pub struct Deferred {
    /// Events the drain loop visits.
    pub events: Registry<DeferredEvent>,
    /// Events registered while a drain pass held the primary collection.
    pub staged: Registry<DeferredEvent>,
}

impl Deferred {
    /// Well-formed: both collections keyed uniquely, and no handle in both.
    pub open spec fn wf(self) -> bool {
        &&& self.events.wf()
        &&& self.staged.wf()
        &&& forall|k: u64| !(self.events.contains_key(k) && #[trigger] self.staged.contains_key(k))
    }

    /// Whether a handle is registered, in either collection.
    pub open spec fn contains(self, h: u64) -> bool {
        self.events.contains_key(h) || self.staged.contains_key(h)
    }

    /// The event a handle names.
    pub open spec fn event(self, h: u64) -> DeferredEvent {
        if self.events.contains_key(h) {
            self.events.val_of(h)
        } else {
            self.staged.val_of(h)
        }
    }

    /// An event the drain must visit: enabled and not yet freed.
    pub open spec fn runnable(e: DeferredEvent) -> bool {
        e.enabled && !e.dead
    }

    /// Nothing left for a drain pass to do: no runnable event in the primary
    /// collection, nothing staged, and nothing dead awaiting a reap.
    pub open spec fn quiescent(self) -> bool {
        &&& forall|i: int|
            0 <= i < self.events.entries().len() ==> !Self::runnable(
                (#[trigger] self.events.entries()[i]).1,
            ) && !self.events.entries()[i].1.dead
        &&& self.staged.spec_len() == 0
    }

    /// An empty subsystem.
    pub fn new() -> (r: Deferred)
        ensures
            r.wf(),
            r.events.spec_len() == 0,
            r.staged.spec_len() == 0,
            r.quiescent(),
            forall|h: u64| !r.contains(h),
    {
        Deferred { events: Registry::new(), staged: Registry::new() }
    }

    /// Registers a new event under a fresh handle, enabled and with no destroy
    /// callback, as the foreign `defer_new` entry demands.
    ///
    /// While a drain pass is walking the primary collection the entry goes to
    /// the staging collection instead, and is merged in after the pass.
    pub fn add(&mut self, h: u64, during_drain: bool)
        requires
            old(self).wf(),
            !old(self).contains(h),
        ensures
            final(self).wf(),
            final(self).contains(h),
            final(self).event(h) == (DeferredEvent {
                enabled: true,
                dead: false,
                has_destroy: false,
            }),
            final(self).events.contains_key(h) == !during_drain,
            final(self).staged.contains_key(h) == during_drain,
            forall|k: u64| k != h ==> final(self).contains(k) == old(self).contains(k),
            forall|k: u64|
                k != h && old(self).contains(k) ==> final(self).event(k) == old(self).event(k)
                    && final(self).events.contains_key(k) == old(self).events.contains_key(k),
            during_drain ==> final(self).events == old(self).events,
            !during_drain ==> final(self).staged == old(self).staged,
    {
        let ev = DeferredEvent { enabled: true, dead: false, has_destroy: false };
        if during_drain {
            self.staged.insert(h, ev);
        } else {
            self.events.insert(h, ev);
        }
    }

    /// Sets or clears an event's enabled flag, as the foreign `defer_enable`
    /// entry demands; returns whether the drain task must be woken (the flag
    /// actually changed).
    pub fn enable(&mut self, h: u64, on: bool) -> (wake: bool)
        requires
            old(self).wf(),
            old(self).contains(h),
            !old(self).event(h).dead,
        ensures
            final(self).wf(),
            final(self).contains(h),
            final(self).event(h) == (DeferredEvent { enabled: on, ..old(self).event(h) }),
            final(self).events.contains_key(h) == old(self).events.contains_key(h),
            forall|k: u64| final(self).contains(k) == old(self).contains(k),
            forall|k: u64|
                k != h && old(self).contains(k) ==> final(self).event(k) == old(self).event(k)
                    && final(self).events.contains_key(k) == old(self).events.contains_key(k),
            wake == (old(self).event(h).enabled != on),
    {
        let (ev, primary) = match self.events.get(h) {
            Some(e) => (*e, true),
            None => (*self.staged.get(h).unwrap(), false),
        };
        let wake = ev.enabled != on;
        let updated = DeferredEvent { enabled: on, ..ev };
        if primary {
            self.events.put(h, updated);
        } else {
            self.staged.put(h, updated);
        }
        wake
    }

    /// Replaces an event's destroy callback, as the foreign `defer_set_destroy`
    /// entry demands.
    pub fn set_destroy(&mut self, h: u64, has: bool)
        requires
            old(self).wf(),
            old(self).contains(h),
            !old(self).event(h).dead,
        ensures
            final(self).wf(),
            final(self).contains(h),
            final(self).event(h) == (DeferredEvent { has_destroy: has, ..old(self).event(h) }),
            final(self).events.contains_key(h) == old(self).events.contains_key(h),
            forall|k: u64| final(self).contains(k) == old(self).contains(k),
            forall|k: u64|
                k != h && old(self).contains(k) ==> final(self).event(k) == old(self).event(k)
                    && final(self).events.contains_key(k) == old(self).events.contains_key(k),
    {
        let (ev, primary) = match self.events.get(h) {
            Some(e) => (*e, true),
            None => (*self.staged.get(h).unwrap(), false),
        };
        let updated = DeferredEvent { has_destroy: has, ..ev };
        if primary {
            self.events.put(h, updated);
        } else {
            self.staged.put(h, updated);
        }
    }

    /// Frees an event, as the foreign `defer_free` entry demands.
    ///
    /// Outside a drain pass the event is removed at once and the caller must
    /// deliver its destroy notification now if `Some(true)` is returned.
    /// During a drain pass the event is only disabled and marked dead —
    /// `None` is returned, no collection is mutated under the walk, and the
    /// reap step of the current or next pass reports the one destroy
    /// notification.
    pub fn free(&mut self, h: u64, during_drain: bool) -> (destroy_now: Option<bool>)
        requires
            old(self).wf(),
            old(self).contains(h),
            !old(self).event(h).dead,
        ensures
            final(self).wf(),
            forall|k: u64| k != h ==> final(self).contains(k) == old(self).contains(k),
            forall|k: u64|
                k != h && old(self).contains(k) ==> final(self).event(k) == old(self).event(k)
                    && final(self).events.contains_key(k) == old(self).events.contains_key(k),
            during_drain ==> destroy_now == Option::<bool>::None && final(self).contains(h)
                && final(self).event(h) == (DeferredEvent {
                enabled: false,
                dead: true,
                ..old(self).event(h)
            }) && final(self).events.contains_key(h) == old(self).events.contains_key(h),
            !during_drain ==> destroy_now == Some(old(self).event(h).has_destroy)
                && !final(self).contains(h),
    {
        let (ev, primary) = match self.events.get(h) {
            Some(e) => (*e, true),
            None => (*self.staged.get(h).unwrap(), false),
        };
        if during_drain {
            let updated = DeferredEvent { enabled: false, dead: true, ..ev };
            if primary {
                self.events.put(h, updated);
            } else {
                self.staged.put(h, updated);
            }
            None
        } else {
            if primary {
                self.events.remove(h);
            } else {
                self.staged.remove(h);
            }
            Some(ev.has_destroy)
        }
    }

    /// The handles a drain pass must fire: every enabled, non-dead event of
    /// the primary collection, each exactly once.
    #[verifier::spinoff_prover]
    pub fn fire_list(&self) -> (r: Vec<u64>)
        requires
            self.wf(),
        ensures
            forall|k: u64|
                #[trigger] r@.contains(k) <==> self.events.contains_key(k) && Self::runnable(
                    self.events.val_of(k),
                ),
            forall|a: int, b: int| 0 <= a < b < r@.len() ==> r@[a] != r@[b],
    {
        let n = self.events.len();
        let mut r: Vec<u64> = Vec::new();
        let mut i: usize = 0;
        while i < n
            invariant
                self.wf(),
                n == self.events.spec_len(),
                i <= n,
                forall|k: u64|
                    #[trigger] r@.contains(k) <==> exists|j: int|
                        0 <= j < i && (#[trigger] self.events.entries()[j]).0 == k
                            && Self::runnable(self.events.entries()[j].1),
                forall|a: int, b: int| 0 <= a < b < r@.len() ==> r@[a] != r@[b],
            decreases n - i,
        {
            let k = self.events.key_at(i);
            let ev = *self.events.value_at(i);
            if ev.enabled && !ev.dead {
                proof {
                    if r@.contains(k) {
                        let j = choose|j: int|
                            0 <= j < i && (#[trigger] self.events.entries()[j]).0 == k
                                && Self::runnable(self.events.entries()[j].1);
                        self.events.lemma_index_unique(j, i as int);
                    }
                }
                let ghost pre = r@;
                r.push(k);
                proof {
                    assert forall|k2: u64| #[trigger] r@.contains(k2) implies exists|j: int|
                        0 <= j < i + 1 && (#[trigger] self.events.entries()[j]).0 == k2
                            && Self::runnable(self.events.entries()[j].1) by {
                        if k2 == k {
                            assert(self.events.entries()[i as int].0 == k2);
                        } else {
                            assert(r@.drop_last() =~= pre);
                            assert(pre.contains(k2));
                        }
                    }
                }
            }
            i = i + 1;
        }
        proof {
            assert forall|k: u64|
                self.events.contains_key(k) && Self::runnable(self.events.val_of(k)) implies r@
                .contains(k) by {
                let j = self.events.index_of(k);
                self.events.lemma_at_index(j);
            }
        }
        r
    }

    /// Whether a handle still names an enabled, non-dead event of the primary
    /// collection: the check made immediately before each callback invocation,
    /// so that an event disabled or freed earlier in the same pass is skipped.
    pub fn should_fire(&self, h: u64) -> (r: bool)
        requires
            self.wf(),
        ensures
            r == (self.events.contains_key(h) && Self::runnable(self.events.val_of(h))),
    {
        match self.events.get(h) {
            Some(e) => e.enabled && !e.dead,
            None => false,
        }
    }

    /// Merges the staging collection into the primary one, after a pass has
    /// finished walking it; returns whether anything was merged (further
    /// passes are then required).
    #[verifier::spinoff_prover]
    pub fn merge_staged(&mut self) -> (did: bool)
        requires
            old(self).wf(),
        ensures
            final(self).wf(),
            final(self).staged.spec_len() == 0,
            did == (old(self).staged.spec_len() > 0),
            forall|k: u64|
                final(self).events.contains_key(k) == old(self).contains(k) && final(self).contains(
                    k,
                ) == old(self).contains(k),
            forall|k: u64|
                old(self).contains(k) ==> final(self).event(k) == old(self).event(k),
    {
        let did = !self.staged.is_empty();
        while self.staged.len() > 0
            invariant
                self.wf(),
                forall|k: u64|
                    (self.events.contains_key(k) || self.staged.contains_key(k)) == old(
                        self,
                    ).contains(k),
                forall|k: u64| old(self).contains(k) ==> self.event(k) == old(self).event(k),
            decreases self.staged.spec_len(),
        {
            let ghost pre = *self;
            let popped = self.staged.pop();
            match popped {
                Some(entry) => {
                    proof {
                        pre.staged.lemma_at_index(pre.staged.entries().len() - 1);
                        assert forall|k2: u64| #[trigger] self.staged.contains_key(
                            k2,
                        ) implies pre.staged.contains_key(k2) && k2 != entry.0 by {
                            let i2 = choose|i2: int|
                                0 <= i2 < self.staged.entries().len() && (
                                #[trigger] self.staged.entries()[i2]).0 == k2;
                            assert(pre.staged.entries()[i2].0 == k2);
                            if k2 == entry.0 {
                                pre.staged.lemma_index_unique(
                                    i2,
                                    pre.staged.entries().len() - 1,
                                );
                            }
                        }
                        assert forall|k2: u64|
                            pre.staged.contains_key(k2) && k2 != entry.0 implies
                            self.staged.contains_key(k2) && self.staged.val_of(k2)
                            == pre.staged.val_of(k2) by {
                            let i2 = pre.staged.index_of(k2);
                            pre.staged.lemma_at_index(i2);
                            assert(pre.staged.entries()[pre.staged.entries().len() - 1].0
                                == entry.0);
                            assert(i2 < pre.staged.entries().len() - 1);
                            assert(self.staged.entries()[i2].0 == k2);
                            self.staged.lemma_at_index(i2);
                        }
                    }
                    self.events.insert(entry.0, entry.1);
                }
                None => {
                }
            }
        }
        did
    }

    /// Removes every dead event of the primary collection and reports, for
    /// each, whether its destroy callback must now be invoked — each freed
    /// event appears exactly once.  Returns the empty list exactly when no
    /// event was awaiting a reap.
    #[verifier::spinoff_prover]
    pub fn reap(&mut self) -> (r: Vec<(u64, bool)>)
        requires
            old(self).wf(),
        ensures
            final(self).wf(),
            forall|a: int, b: int| 0 <= a < b < r@.len() ==> r@[a].0 != r@[b].0,
            forall|k: u64, f: bool|
                #[trigger] r@.contains((k, f)) <==> old(self).events.contains_key(k) && old(
                    self,
                ).events.val_of(k).dead && f == old(self).events.val_of(k).has_destroy,
            forall|k: u64|
                final(self).events.contains_key(k) == (old(self).events.contains_key(k) && !old(
                    self,
                ).events.val_of(k).dead),
            forall|k: u64|
                final(self).events.contains_key(k) ==> final(self).events.val_of(k) == old(
                    self,
                ).events.val_of(k),
            final(self).staged == old(self).staged,
            forall|i: int|
                0 <= i < final(self).events.entries().len() ==> !(
                #[trigger] final(self).events.entries()[i]).1.dead,
    {
        let n = self.events.len();
        let mut doomed: Vec<(u64, bool)> = Vec::new();
        let mut i: usize = 0;
        while i < n
            invariant
                self.wf(),
                self.events == old(self).events,
                self.staged == old(self).staged,
                n == self.events.spec_len(),
                i <= n,
                forall|k: u64, f: bool|
                    #[trigger] doomed@.contains((k, f)) <==> exists|j: int|
                        0 <= j < i && (#[trigger] self.events.entries()[j]).0 == k
                            && self.events.entries()[j].1.dead && f
                            == self.events.entries()[j].1.has_destroy,
                forall|a: int, b: int| 0 <= a < b < doomed@.len() ==> doomed@[a].0 != doomed@[b].0,
                forall|a: int|
                    0 <= a < doomed@.len() ==> self.events.contains_key(
                        (#[trigger] doomed@[a]).0,
                    ) && self.events.val_of(doomed@[a].0).dead,
            decreases n - i,
        {
            let k = self.events.key_at(i);
            let ev = *self.events.value_at(i);
            if ev.dead {
                proof {
                    self.events.lemma_at_index(i as int);
                }
                let ghost pre = doomed@;
                doomed.push((k, ev.has_destroy));
                proof {
                    assert forall|k2: u64, f2: bool| #[trigger] doomed@.contains(
                        (k2, f2),
                    ) implies exists|j: int|
                        0 <= j < i + 1 && (#[trigger] self.events.entries()[j]).0 == k2
                            && self.events.entries()[j].1.dead && f2
                            == self.events.entries()[j].1.has_destroy by {
                        if k2 == k && f2 == ev.has_destroy {
                            assert(self.events.entries()[i as int].0 == k2);
                        } else {
                            assert(doomed@.drop_last() =~= pre);
                            assert(pre.contains((k2, f2)));
                        }
                    }
                    assert forall|a: int, b: int|
                        0 <= a < b < doomed@.len() implies doomed@[a].0 != doomed@[b].0 by {
                        if b == doomed@.len() - 1 {
                            assert(doomed@[a] == pre[a]);
                            if pre[a].0 == k {
                                assert(pre.contains(pre[a]));
                                let j = choose|j: int|
                                    0 <= j < i && (#[trigger] self.events.entries()[j]).0
                                        == pre[a].0 && self.events.entries()[j].1.dead && pre[a].1
                                        == self.events.entries()[j].1.has_destroy;
                                self.events.lemma_index_unique(j, i as int);
                            }
                        } else {
                            assert(doomed@[a] == pre[a] && doomed@[b] == pre[b]);
                        }
                    }
                }
            } else {
                proof {
                    self.events.lemma_at_index(i as int);
                }
            }
            i = i + 1;
        }
        proof {
            assert forall|k: u64, f: bool| #[trigger] doomed@.contains(
                (k, f),
            ) implies self.events.contains_key(k) && self.events.val_of(k).dead && f
                == self.events.val_of(k).has_destroy by {
                let j2 = choose|j2: int|
                    0 <= j2 < i && (#[trigger] self.events.entries()[j2]).0 == k
                        && self.events.entries()[j2].1.dead && f
                        == self.events.entries()[j2].1.has_destroy;
                self.events.lemma_at_index(j2);
            }
            assert forall|k: u64, f: bool|
                self.events.contains_key(k) && self.events.val_of(k).dead && f
                    == self.events.val_of(k).has_destroy implies #[trigger] doomed@.contains(
                (k, f),
            ) by {
                self.events.lemma_at_index(self.events.index_of(k));
            }
        }
        // Physically remove the collected tombstones.
        let m = doomed.len();
        let mut j: usize = 0;
        while j < m
            invariant
                self.staged == old(self).staged,
                self.wf(),
                m == doomed@.len(),
                j <= m,
                forall|k: u64, f: bool|
                    #[trigger] doomed@.contains((k, f)) <==> old(self).events.contains_key(k) && old(
                        self,
                    ).events.val_of(k).dead && f == old(self).events.val_of(k).has_destroy,
                forall|a: int, b: int| 0 <= a < b < doomed@.len() ==> doomed@[a].0 != doomed@[b].0,
                forall|k: u64|
                    self.events.contains_key(k) == (old(self).events.contains_key(k) && !(exists|
                        a: int,
                    |
                        0 <= a < j && (#[trigger] doomed@[a]).0 == k)),
                forall|k: u64|
                    self.events.contains_key(k) ==> self.events.val_of(k) == old(
                        self,
                    ).events.val_of(k),
            decreases m - j,
        {
            let (k, _f) = doomed[j];
            proof {
                assert(doomed@.contains(doomed@[j as int]));
                assert(old(self).events.contains_key(k));
                assert forall|a: int| 0 <= a < j implies (#[trigger] doomed@[a]).0 != k by {
                    assert(doomed@[j as int].0 == k);
                }
                assert(self.events.contains_key(k));
            }
            self.events.remove(k);
            proof {
                assert forall|k2: u64|
                    self.events.contains_key(k2) == (old(self).events.contains_key(k2) && !(exists|
                        a: int,
                    |
                        0 <= a < j + 1 && (#[trigger] doomed@[a]).0 == k2)) by {
                    if k2 == k {
                        assert(doomed@[j as int].0 == k2);
                    }
                }
            }
            j = j + 1;
        }
        proof {
            assert forall|k: u64|
                self.events.contains_key(k) == (old(self).events.contains_key(k) && !old(
                    self,
                ).events.val_of(k).dead) by {
                if old(self).events.contains_key(k) && old(self).events.val_of(k).dead {
                    assert(doomed@.contains((k, old(self).events.val_of(k).has_destroy)));
                    let a = choose|a: int| 0 <= a < doomed@.len() && doomed@[a] == (
                    k,
                    old(self).events.val_of(k).has_destroy,
                    );
                    assert(doomed@[a].0 == k);
                }
                if self.events.contains_key(k) {
                    assert(!(exists|a: int| 0 <= a < m && (#[trigger] doomed@[a]).0 == k));
                }
            }
            assert forall|i2: int| 0 <= i2 < self.events.entries().len() implies !(
            #[trigger] self.events.entries()[i2]).1.dead by {
                self.events.lemma_at_index(i2);
                let k = self.events.entries()[i2].0;
                assert(self.events.contains_key(k));
            }
        }
        doomed
    }

    /// Whether the drain task may suspend: exactly when a further pass would
    /// fire nothing, merge nothing and reap nothing.
    pub fn suspend_ready(&self) -> (r: bool)
        requires
            self.wf(),
        ensures
            r == self.quiescent(),
    {
        if !self.staged.is_empty() {
            return false;
        }
        let n = self.events.len();
        let mut i: usize = 0;
        while i < n
            invariant
                self.wf(),
                n == self.events.spec_len(),
                i <= n,
                forall|j: int|
                    0 <= j < i ==> !Self::runnable((#[trigger] self.events.entries()[j]).1)
                        && !self.events.entries()[j].1.dead,
            decreases n - i,
        {
            let ev = *self.events.value_at(i);
            if (ev.enabled && !ev.dead) || ev.dead {
                return false;
            }
            i = i + 1;
        }
        true
    }

    /// Empties the subsystem at driver teardown and reports every event whose
    /// destroy callback must be invoked — each live event exactly once,
    /// whether it sat in the primary or the staging collection and whether or
    /// not it was already marked dead.
    #[verifier::spinoff_prover]
    pub fn free_all(&mut self) -> (r: Vec<u64>)
        requires
            old(self).wf(),
        ensures
            final(self).wf(),
            final(self).events.spec_len() == 0,
            final(self).staged.spec_len() == 0,
            forall|a: int, b: int| 0 <= a < b < r@.len() ==> r@[a] != r@[b],
            forall|k: u64|
                #[trigger] r@.contains(k) <==> old(self).contains(k) && old(
                    self,
                ).event(k).has_destroy,
    {
        let mut r: Vec<u64> = Vec::new();
        let n = self.events.len();
        let mut i: usize = 0;
        while i < n
            invariant
                self.wf(),
                self.events == old(self).events,
                self.staged == old(self).staged,
                n == self.events.spec_len(),
                i <= n,
                forall|k: u64|
                    #[trigger] r@.contains(k) <==> exists|j: int|
                        0 <= j < i && (#[trigger] self.events.entries()[j]).0 == k
                            && self.events.entries()[j].1.has_destroy,
                forall|a: int, b: int| 0 <= a < b < r@.len() ==> r@[a] != r@[b],
            decreases n - i,
        {
            let k = self.events.key_at(i);
            let ev = *self.events.value_at(i);
            if ev.has_destroy {
                proof {
                    if r@.contains(k) {
                        let j = choose|j: int|
                            0 <= j < i && (#[trigger] self.events.entries()[j]).0 == k
                                && self.events.entries()[j].1.has_destroy;
                        self.events.lemma_index_unique(j, i as int);
                    }
                }
                let ghost pre = r@;
                r.push(k);
                proof {
                    assert forall|k2: u64| #[trigger] r@.contains(k2) implies exists|j: int|
                        0 <= j < i + 1 && (#[trigger] self.events.entries()[j]).0 == k2
                            && self.events.entries()[j].1.has_destroy by {
                        if k2 == k {
                            assert(self.events.entries()[i as int].0 == k2);
                        } else {
                            assert(r@.drop_last() =~= pre);
                            assert(pre.contains(k2));
                        }
                    }
                }
            }
            i = i + 1;
        }
        proof {
            assert forall|k: u64| #[trigger] r@.contains(k) implies self.events.contains_key(k)
                && self.events.val_of(k).has_destroy by {
                let j2 = choose|j2: int|
                    0 <= j2 < i && (#[trigger] self.events.entries()[j2]).0 == k
                        && self.events.entries()[j2].1.has_destroy;
                self.events.lemma_at_index(j2);
            }
            assert forall|k: u64|
                self.events.contains_key(k) && self.events.val_of(k).has_destroy implies r@
                .contains(k) by {
                self.events.lemma_at_index(self.events.index_of(k));
            }
        }
        let m = self.staged.len();
        let mut j: usize = 0;
        while j < m
            invariant
                self.wf(),
                self.events == old(self).events,
                self.staged == old(self).staged,
                m == self.staged.spec_len(),
                j <= m,
                forall|k: u64|
                    #[trigger] r@.contains(k) <==> (self.events.contains_key(k)
                        && self.events.val_of(k).has_destroy) || (exists|j2: int|
                        0 <= j2 < j && (#[trigger] self.staged.entries()[j2]).0 == k
                            && self.staged.entries()[j2].1.has_destroy),
                forall|a: int, b: int| 0 <= a < b < r@.len() ==> r@[a] != r@[b],
            decreases m - j,
        {
            let k = self.staged.key_at(j);
            let ev = *self.staged.value_at(j);
            if ev.has_destroy {
                proof {
                    self.staged.lemma_at_index(j as int);
                    if r@.contains(k) {
                        if exists|j2: int|
                            0 <= j2 < j && (#[trigger] self.staged.entries()[j2]).0 == k
                                && self.staged.entries()[j2].1.has_destroy {
                            let j2 = choose|j2: int|
                                0 <= j2 < j && (#[trigger] self.staged.entries()[j2]).0 == k
                                    && self.staged.entries()[j2].1.has_destroy;
                            self.staged.lemma_index_unique(j2, j as int);
                        } else {
                            assert(self.events.contains_key(k));
                            assert(self.staged.contains_key(k));
                        }
                    }
                }
                let ghost pre = r@;
                r.push(k);
                proof {
                    assert forall|k2: u64| #[trigger] r@.contains(k2) implies ((
                    self.events.contains_key(k2) && self.events.val_of(k2).has_destroy) || (exists|
                        j2: int,
                    |
                        0 <= j2 < j + 1 && (#[trigger] self.staged.entries()[j2]).0 == k2
                            && self.staged.entries()[j2].1.has_destroy)) by {
                        if k2 == k {
                            assert(self.staged.entries()[j as int].0 == k2);
                        } else {
                            assert(r@.drop_last() =~= pre);
                            assert(pre.contains(k2));
                        }
                    }
                }
            }
            j = j + 1;
        }
        proof {
            assert forall|k: u64|
                old(self).contains(k) && old(self).event(k).has_destroy implies r@.contains(k) by {
                if old(self).events.contains_key(k) {
                    old(self).events.lemma_at_index(old(self).events.index_of(k));
                } else {
                    old(self).staged.lemma_at_index(old(self).staged.index_of(k));
                }
            }
            assert forall|k: u64| #[trigger] r@.contains(k) implies old(self).contains(k) && old(
                self,
            ).event(k).has_destroy by {
                if exists|j2: int|
                    0 <= j2 < old(self).staged.entries().len() && (#[trigger] old(
                        self,
                    ).staged.entries()[j2]).0 == k && old(self).staged.entries()[j2].1.has_destroy {
                    let j2 = choose|j2: int|
                        0 <= j2 < old(self).staged.entries().len() && (#[trigger] old(
                            self,
                        ).staged.entries()[j2]).0 == k && old(
                            self,
                        ).staged.entries()[j2].1.has_destroy;
                    old(self).staged.lemma_at_index(j2);
                }
            }
        }
        self.events.clear();
        self.staged.clear();
        r
    }
}

/// The drain suspends only at quiescence: when nothing is left to fire,
/// merge or reap, every event that is still registered is disabled and not
/// awaiting removal — so a wake keeps running passes for as long as any
/// event remains enabled, however it became enabled during the wake.
pub proof fn lemma_quiescent_means_all_disabled(s: Deferred)
    requires
        s.wf(),
        s.quiescent(),
    ensures
        forall|h: u64| s.contains(h) ==> !s.event(h).enabled && !s.event(h).dead,
{
    assert forall|h: u64| s.contains(h) implies !s.event(h).enabled && !s.event(h).dead by {
        assert(s.events.contains_key(h));
        let i = s.events.index_of(h);
        s.events.lemma_at_index(i);
    }
}

/// An event freed during a drain pass is never visited again: marking it
/// dead removes it from every later pass's fire set, while it stays in the
/// collection until the reap step hands out its one destroy notification.
pub proof fn lemma_dead_event_not_refired(s: Deferred, h: u64)
    requires
        s.wf(),
        s.contains(h),
        s.event(h).dead,
    ensures
        s.events.contains_key(h) ==> !Deferred::runnable(s.events.val_of(h)),
{
}

} // verus!
