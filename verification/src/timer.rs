//! The timer subsystem: one-shot deadlines with restart and race-safe
//! cancellation.
//!
//! Arming a deadline hands the reactor a delay task tagged with a fresh
//! arming token.  When the delay elapses the task reports back through
//! [`Timers::on_deadline`] with its token; the token decides the race: it
//! fires only if it still names the timer's current arming.  Restarting or
//! freeing a timer withdraws the current token, so a delay that lands later
//! is recognised as stale and does nothing.  A timer freed from inside a
//! dispatch while a delay is in flight is only marked; its one destroy
//! notification is handed out when the race resolves, never concurrently
//! with a firing.

use vstd::prelude::*;

use crate::registry::Registry;

verus! {

broadcast use vstd::seq_lib::group_seq_properties;

/// An absolute point in time: whole seconds and microseconds within the
/// second.
#[derive(Clone, Copy, Debug, PartialEq, Eq)]
pub struct TimeSpec {
    /// Whole seconds.
    pub sec: u64,
    /// Microseconds within the second; less than one million.
    pub usec: u32,
}

impl TimeSpec {
    /// Well-formed: the microsecond part stays within the second.
    pub open spec fn wf(self) -> bool {
        self.usec < 1_000_000
    }

    /// The point in time as a microsecond count.
    pub open spec fn micros(self) -> int {
        self.sec * 1_000_000 + self.usec
    }
}

/// One arming of a timer: the token that tags the in-flight delay task, and
/// the deadline the fire callback will be handed.
#[derive(Clone, Copy, Debug, PartialEq, Eq)]
pub struct Arming {
    /// Tags the delay task spawned for this arming; a token is never issued
    /// twice, so a cancelled arming's delay can be told from the current one.
    pub token: u64,
    /// The absolute deadline, as supplied at arming.
    pub deadline: TimeSpec,
}

/// One timer event.
#[derive(Clone, Copy, Debug, PartialEq, Eq)]
pub struct TimerEvent {
    /// The current arming, if a delay task is in flight.
    pub armed: Option<Arming>,
    /// Freed from inside a dispatch while armed: the destroy notification is
    /// delivered when the in-flight race resolves.
    pub doomed: bool,
    /// Freed from inside a dispatch while disarmed: the destroy notification
    /// is delivered by a scheduled task through `complete_free`.
    pub pending_free: bool,
    /// A destroy callback is set and must be invoked exactly once at removal.
    pub has_destroy: bool,
}

impl TimerEvent {
    /// A timer the foreign side may still operate on.
    pub open spec fn live(self) -> bool {
        !self.doomed && !self.pending_free
    }
}

/// What the caller must do after a free.
#[derive(Clone, Copy, Debug, PartialEq, Eq)]
pub enum TimerFreeAction {
    /// The timer was removed; invoke its destroy callback now if the payload
    /// says one was set.
    Destroy(bool),
    /// Schedule a task that calls `complete_free` for this handle.
    Scheduled,
    /// Nothing now: the in-flight deadline race will hand out the destroy
    /// notification when it resolves.
    RidesOnRace,
}

/// How a delay task's report resolved.
#[derive(Clone, Copy, Debug, PartialEq, Eq)]
pub enum DeadlineOutcome {
    /// The timer no longer exists; the task simply ends.
    Gone,
    /// The token no longer names the current arming: a restart or a firing
    /// already resolved it.  Nothing happens.
    Stale,
    /// The race was won cleanly: invoke the fire callback with this deadline.
    Fire(TimeSpec),
    /// The timer was freed while this delay was in flight: it was removed
    /// now, and its destroy callback must be invoked if the payload says one
    /// was set.  The fire callback is not invoked.
    DestroyAfterRace(bool),
}

/// The timer collection and the token mint for armings.
pub struct Timers {
    /// The registered timers, keyed by handle.
    pub timers: Registry<TimerEvent>,
    /// The next arming token; tokens already issued are strictly smaller.
    pub next_token: u64,
}

impl Timers {
    /// Well-formed: unique handles, every in-flight token already issued, a
    /// doomed timer still armed, and a timer awaiting `complete_free`
    /// disarmed.
    pub open spec fn wf(self) -> bool {
        &&& self.timers.wf()
        &&& forall|k: u64|
            #[trigger] self.timers.contains_key(k) ==> {
                let ev = self.timers.val_of(k);
                &&& (ev.armed is Some ==> ev.armed->0.token < self.next_token)
                &&& (ev.doomed ==> ev.armed is Some)
                &&& (ev.pending_free ==> ev.armed is None)
                &&& !(ev.doomed && ev.pending_free)
            }
    }

    /// Whether a handle names a registered timer.
    pub open spec fn contains(self, h: u64) -> bool {
        self.timers.contains_key(h)
    }

    /// The timer a handle names.
    pub open spec fn timer(self, h: u64) -> TimerEvent {
        self.timers.val_of(h)
    }

    /// Whether a delay task reporting token `t` for handle `h` would fire.
    pub open spec fn would_fire(self, h: u64, t: u64) -> bool {
        &&& self.contains(h)
        &&& self.timer(h).armed is Some
        &&& self.timer(h).armed->0.token == t
        &&& !self.timer(h).doomed
    }

    /// How a delay task's report for handle `h` with token `t` resolves in
    /// this state: the pure decision `on_deadline` executes.
    pub open spec fn spec_outcome(self, h: u64, t: u64) -> DeadlineOutcome {
        if !self.contains(h) {
            DeadlineOutcome::Gone
        } else if !(self.timer(h).armed is Some && self.timer(h).armed->0.token == t) {
            DeadlineOutcome::Stale
        } else if self.timer(h).doomed {
            DeadlineOutcome::DestroyAfterRace(self.timer(h).has_destroy)
        } else {
            DeadlineOutcome::Fire(self.timer(h).armed->0.deadline)
        }
    }

    /// An empty subsystem.
    pub fn new() -> (r: Timers)
        ensures
            r.wf(),
            r.timers.spec_len() == 0,
            r.next_token == 0,
            forall|h: u64| !r.contains(h),
    {
        Timers { timers: Registry::new(), next_token: 0 }
    }

    /// Registers a timer under a fresh handle, as the foreign `time_new`
    /// entry demands: armed on the given deadline, or disarmed on `None`
    /// (never fires until restarted).
    ///
    /// When an arming is returned the caller must start a delay for it and
    /// report back through `on_deadline` with its token when the delay
    /// elapses.
    pub fn spawn(&mut self, h: u64, deadline: Option<TimeSpec>) -> (start: Option<Arming>)
        requires
            old(self).wf(),
            !old(self).contains(h),
            old(self).next_token < u64::MAX,
            deadline is Some ==> deadline->0.wf(),
        ensures
            final(self).wf(),
            final(self).contains(h),
            forall|k: u64| k != h ==> final(self).contains(k) == old(self).contains(k),
            forall|k: u64|
                k != h && old(self).contains(k) ==> final(self).timer(k) == old(self).timer(k),
            match deadline {
                Some(d) => start == Some(Arming { token: old(self).next_token, deadline: d })
                    && final(self).timer(h) == (TimerEvent {
                    armed: start,
                    doomed: false,
                    pending_free: false,
                    has_destroy: false,
                }) && final(self).next_token == old(self).next_token + 1,
                None => start is None && final(self).timer(h) == (TimerEvent {
                    armed: None,
                    doomed: false,
                    pending_free: false,
                    has_destroy: false,
                }) && final(self).next_token == old(self).next_token,
            },
    {
        let start: Option<Arming> = match deadline {
            Some(d) => {
                let a = Arming { token: self.next_token, deadline: d };
                self.next_token = self.next_token + 1;
                Some(a)
            },
            None => None,
        };
        let ev = TimerEvent { armed: start, doomed: false, pending_free: false, has_destroy: false };
        self.timers.insert(h, ev);
        proof {
            assert forall|k: u64| #[trigger] self.timers.contains_key(k) implies {
                let ev2 = self.timers.val_of(k);
                &&& (ev2.armed is Some ==> ev2.armed->0.token < self.next_token)
                &&& (ev2.doomed ==> ev2.armed is Some)
                &&& (ev2.pending_free ==> ev2.armed is None)
                &&& !(ev2.doomed && ev2.pending_free)
            } by {
                if k != h {
                    assert(old(self).timers.contains_key(k));
                    assert(self.timers.val_of(k) == old(self).timers.val_of(k));
                }
            }
        }
        start
    }

    /// Re-arms a timer on a new deadline (or disarms it on `None`), as the
    /// foreign `time_restart` entry demands.
    ///
    /// Any arming in flight is withdrawn first: its token no longer names the
    /// current arming, so its delay resolves as stale and the old fire
    /// callback can never run.  When a new arming is returned the caller
    /// starts a delay for it as after `spawn`.
    pub fn restart(&mut self, h: u64, deadline: Option<TimeSpec>) -> (start: Option<Arming>)
        requires
            old(self).wf(),
            old(self).contains(h),
            old(self).timer(h).live(),
            old(self).next_token < u64::MAX,
            deadline is Some ==> deadline->0.wf(),
        ensures
            final(self).wf(),
            forall|k: u64| final(self).contains(k) == old(self).contains(k),
            forall|k: u64|
                k != h && old(self).contains(k) ==> final(self).timer(k) == old(self).timer(k),
            match deadline {
                Some(d) => start == Some(Arming { token: old(self).next_token, deadline: d })
                    && final(self).timer(h) == (TimerEvent {
                    armed: start,
                    ..old(self).timer(h)
                }) && final(self).next_token == old(self).next_token + 1,
                None => start is None && final(self).timer(h) == (TimerEvent {
                    armed: None,
                    ..old(self).timer(h)
                }) && final(self).next_token == old(self).next_token,
            },
            // The withdrawn arming, like every token issued before this call,
            // can no longer fire.
            forall|t: u64| t < old(self).next_token ==> !final(self).would_fire(h, t),
    {
        let ev = *self.timers.get(h).unwrap();
        let start: Option<Arming> = match deadline {
            Some(d) => {
                let a = Arming { token: self.next_token, deadline: d };
                self.next_token = self.next_token + 1;
                Some(a)
            },
            None => None,
        };
        let updated = TimerEvent { armed: start, ..ev };
        self.timers.put(h, updated);
        proof {
            assert forall|k: u64| #[trigger] self.timers.contains_key(k) implies {
                let ev2 = self.timers.val_of(k);
                &&& (ev2.armed is Some ==> ev2.armed->0.token < self.next_token)
                &&& (ev2.doomed ==> ev2.armed is Some)
                &&& (ev2.pending_free ==> ev2.armed is None)
                &&& !(ev2.doomed && ev2.pending_free)
            } by {
                if k != h {
                    assert(old(self).timers.contains_key(k));
                    assert(self.timers.val_of(k) == old(self).timers.val_of(k));
                }
            }
        }
        start
    }

    /// Resolves the race for a delay task whose wait has elapsed: the task
    /// for handle `h`, tagged with arming token `t`, asks what to do.
    ///
    /// It fires exactly when the token still names the current arming of a
    /// live timer; a single arming can fire at most once, and never after it
    /// was withdrawn.  A timer freed while this delay was in flight is
    /// removed here instead, with its one destroy notification.
    #[verifier::spinoff_prover]
    pub fn on_deadline(&mut self, h: u64, t: u64) -> (r: DeadlineOutcome)
        requires
            old(self).wf(),
        ensures
            final(self).wf(),
            forall|k: u64| k != h ==> final(self).contains(k) == old(self).contains(k),
            forall|k: u64|
                k != h && old(self).contains(k) ==> final(self).timer(k) == old(self).timer(k),
            !old(self).contains(h) ==> r == DeadlineOutcome::Gone && final(self).timers == old(
                self,
            ).timers,
            old(self).contains(h) && !(old(self).timer(h).armed is Some && old(
                self,
            ).timer(h).armed->0.token == t) ==> r == DeadlineOutcome::Stale && final(self).timers
                == old(self).timers,
            old(self).would_fire(h, t) ==> r == DeadlineOutcome::Fire(
                old(self).timer(h).armed->0.deadline,
            ) && final(self).contains(h) && final(self).timer(h) == (TimerEvent {
                armed: None,
                ..old(self).timer(h)
            }),
            old(self).contains(h) && old(self).timer(h).armed is Some && old(
                self,
            ).timer(h).armed->0.token == t && old(self).timer(h).doomed ==> r
                == DeadlineOutcome::DestroyAfterRace(old(self).timer(h).has_destroy)
                && !final(self).contains(h),
            // A resolved arming never fires again.
            forall|t2: u64| !final(self).would_fire(h, t2) || old(self).would_fire(h, t2),
            r is Fire ==> !final(self).would_fire(h, t),
            r == old(self).spec_outcome(h, t),
            final(self).next_token == old(self).next_token,
    {
        let ev_opt = match self.timers.get(h) {
            Some(e) => Some(*e),
            None => None,
        };
        match ev_opt {
            None => DeadlineOutcome::Gone,
            Some(ev) => {
                match ev.armed {
                    Some(a) => {
                        if a.token != t {
                            return DeadlineOutcome::Stale;
                        }
                        if ev.doomed {
                            self.timers.remove(h);
                            proof {
                                assert forall|k: u64| #[trigger] self.timers.contains_key(k) implies {
                                    let ev2 = self.timers.val_of(k);
                                    &&& (ev2.armed is Some ==> ev2.armed->0.token < self.next_token)
                                    &&& (ev2.doomed ==> ev2.armed is Some)
                                    &&& (ev2.pending_free ==> ev2.armed is None)
                                    &&& !(ev2.doomed && ev2.pending_free)
                                } by {
                                    if k != h {
                                        assert(old(self).timers.contains_key(k));
                                        assert(self.timers.val_of(k) == old(self).timers.val_of(k));
                                    }
                                }
                            }
                            DeadlineOutcome::DestroyAfterRace(ev.has_destroy)
                        } else {
                            let updated = TimerEvent { armed: None, ..ev };
                            self.timers.put(h, updated);
                            proof {
                                assert forall|k: u64| #[trigger] self.timers.contains_key(k) implies {
                                    let ev2 = self.timers.val_of(k);
                                    &&& (ev2.armed is Some ==> ev2.armed->0.token < self.next_token)
                                    &&& (ev2.doomed ==> ev2.armed is Some)
                                    &&& (ev2.pending_free ==> ev2.armed is None)
                                    &&& !(ev2.doomed && ev2.pending_free)
                                } by {
                                    if k != h {
                                        assert(old(self).timers.contains_key(k));
                                        assert(self.timers.val_of(k) == old(self).timers.val_of(k));
                                    }
                                }
                            }
                            DeadlineOutcome::Fire(a.deadline)
                        }
                    },
                    None => DeadlineOutcome::Stale,
                }
            },
        }
    }

    /// Frees a timer, as the foreign `time_free` entry demands.
    ///
    /// Outside a dispatch the timer is removed at once and the caller
    /// delivers the destroy notification now.  Inside a dispatch with a delay
    /// in flight, the timer is only marked and the destroy notification rides
    /// on the race; inside a dispatch with no delay in flight, a scheduled
    /// task delivers it through `complete_free`.  Either way the fire
    /// callback can no longer run for any arming.
    pub fn free(&mut self, h: u64, in_dispatch: bool) -> (r: TimerFreeAction)
        requires
            old(self).wf(),
            old(self).contains(h),
            old(self).timer(h).live(),
        ensures
            final(self).wf(),
            forall|k: u64| k != h ==> final(self).contains(k) == old(self).contains(k),
            forall|k: u64|
                k != h && old(self).contains(k) ==> final(self).timer(k) == old(self).timer(k),
            !in_dispatch ==> r == TimerFreeAction::Destroy(old(self).timer(h).has_destroy)
                && !final(self).contains(h),
            in_dispatch && old(self).timer(h).armed is Some ==> r == TimerFreeAction::RidesOnRace
                && final(self).contains(h) && final(self).timer(h) == (TimerEvent {
                doomed: true,
                ..old(self).timer(h)
            }),
            in_dispatch && old(self).timer(h).armed is None ==> r == TimerFreeAction::Scheduled
                && final(self).contains(h) && final(self).timer(h) == (TimerEvent {
                pending_free: true,
                ..old(self).timer(h)
            }),
            // However the free is delivered, no arming of this timer fires
            // afterwards.
            forall|t: u64| !final(self).would_fire(h, t),
            final(self).next_token == old(self).next_token,
    {
        let ev = *self.timers.get(h).unwrap();
        if !in_dispatch {
            self.timers.remove(h);
            proof {
                assert forall|k: u64| #[trigger] self.timers.contains_key(k) implies {
                    let ev2 = self.timers.val_of(k);
                    &&& (ev2.armed is Some ==> ev2.armed->0.token < self.next_token)
                    &&& (ev2.doomed ==> ev2.armed is Some)
                    &&& (ev2.pending_free ==> ev2.armed is None)
                    &&& !(ev2.doomed && ev2.pending_free)
                } by {
                    if k != h {
                        assert(old(self).timers.contains_key(k));
                        assert(self.timers.val_of(k) == old(self).timers.val_of(k));
                    }
                }
            }
            TimerFreeAction::Destroy(ev.has_destroy)
        } else {
            let armed = match ev.armed {
                Some(_) => true,
                None => false,
            };
            let updated = if armed {
                TimerEvent { doomed: true, ..ev }
            } else {
                TimerEvent { pending_free: true, ..ev }
            };
            self.timers.put(h, updated);
            proof {
                assert forall|k: u64| #[trigger] self.timers.contains_key(k) implies {
                    let ev2 = self.timers.val_of(k);
                    &&& (ev2.armed is Some ==> ev2.armed->0.token < self.next_token)
                    &&& (ev2.doomed ==> ev2.armed is Some)
                    &&& (ev2.pending_free ==> ev2.armed is None)
                    &&& !(ev2.doomed && ev2.pending_free)
                } by {
                    if k != h {
                        assert(old(self).timers.contains_key(k));
                        assert(self.timers.val_of(k) == old(self).timers.val_of(k));
                    }
                }
            }
            if armed {
                TimerFreeAction::RidesOnRace
            } else {
                TimerFreeAction::Scheduled
            }
        }
    }

    /// Delivers the destroy notification deferred by a free made inside a
    /// dispatch of a disarmed timer.  Returns what the scheduled task must
    /// do: invoke the destroy callback if `Some(true)`, nothing if the timer
    /// is already gone (the driver was torn down first).
    pub fn complete_free(&mut self, h: u64) -> (r: Option<bool>)
        requires
            old(self).wf(),
        ensures
            final(self).wf(),
            forall|k: u64| k != h ==> final(self).contains(k) == old(self).contains(k),
            forall|k: u64|
                k != h && old(self).contains(k) ==> final(self).timer(k) == old(self).timer(k),
            old(self).contains(h) && old(self).timer(h).pending_free ==> r == Some(
                old(self).timer(h).has_destroy,
            ) && !final(self).contains(h),
            !(old(self).contains(h) && old(self).timer(h).pending_free) ==> r is None
                && final(self).timers == old(self).timers,
            final(self).next_token == old(self).next_token,
    {
        let ev_opt = match self.timers.get(h) {
            Some(e) => Some(*e),
            None => None,
        };
        match ev_opt {
            Some(ev) => {
                if !ev.pending_free {
                    return None;
                }
                self.timers.remove(h);
                proof {
                    assert forall|k: u64| #[trigger] self.timers.contains_key(k) implies {
                        let ev2 = self.timers.val_of(k);
                        &&& (ev2.armed is Some ==> ev2.armed->0.token < self.next_token)
                        &&& (ev2.doomed ==> ev2.armed is Some)
                        &&& (ev2.pending_free ==> ev2.armed is None)
                        &&& !(ev2.doomed && ev2.pending_free)
                    } by {
                        if k != h {
                            assert(old(self).timers.contains_key(k));
                            assert(self.timers.val_of(k) == old(self).timers.val_of(k));
                        }
                    }
                }
                Some(ev.has_destroy)
            },
            None => None,
        }
    }

    /// Replaces a timer's destroy callback, as the foreign `time_set_destroy`
    /// entry demands.
    pub fn set_destroy_cb(&mut self, h: u64, has: bool)
        requires
            old(self).wf(),
            old(self).contains(h),
            old(self).timer(h).live(),
        ensures
            final(self).wf(),
            forall|k: u64| final(self).contains(k) == old(self).contains(k),
            final(self).timer(h) == (TimerEvent { has_destroy: has, ..old(self).timer(h) }),
            forall|k: u64|
                k != h && old(self).contains(k) ==> final(self).timer(k) == old(self).timer(k),
            final(self).next_token == old(self).next_token,
    {
        let ev = *self.timers.get(h).unwrap();
        let updated = TimerEvent { has_destroy: has, ..ev };
        self.timers.put(h, updated);
        proof {
            assert forall|k: u64| #[trigger] self.timers.contains_key(k) implies {
                let ev2 = self.timers.val_of(k);
                &&& (ev2.armed is Some ==> ev2.armed->0.token < self.next_token)
                &&& (ev2.doomed ==> ev2.armed is Some)
                &&& (ev2.pending_free ==> ev2.armed is None)
                &&& !(ev2.doomed && ev2.pending_free)
            } by {
                if k != h {
                    assert(old(self).timers.contains_key(k));
                    assert(self.timers.val_of(k) == old(self).timers.val_of(k));
                }
            }
        }
    }

    /// Empties the subsystem at driver teardown and reports every timer whose
    /// destroy callback must be invoked — each exactly once, armed or not,
    /// marked or not.
    #[verifier::spinoff_prover]
    pub fn free_all(&mut self) -> (r: Vec<u64>)
        requires
            old(self).wf(),
        ensures
            final(self).wf(),
            final(self).timers.spec_len() == 0,
            forall|a: int, b: int| 0 <= a < b < r@.len() ==> r@[a] != r@[b],
            forall|k: u64|
                #[trigger] r@.contains(k) <==> old(self).contains(k) && old(
                    self,
                ).timer(k).has_destroy,
    {
        let mut r: Vec<u64> = Vec::new();
        let n = self.timers.len();
        let mut i: usize = 0;
        while i < n
            invariant
                self.wf(),
                self.timers == old(self).timers,
                n == self.timers.spec_len(),
                i <= n,
                forall|k: u64|
                    #[trigger] r@.contains(k) <==> exists|j: int|
                        0 <= j < i && (#[trigger] self.timers.entries()[j]).0 == k
                            && self.timers.entries()[j].1.has_destroy,
                forall|a: int, b: int| 0 <= a < b < r@.len() ==> r@[a] != r@[b],
            decreases n - i,
        {
            let k = self.timers.key_at(i);
            let ev = *self.timers.value_at(i);
            if ev.has_destroy {
                proof {
                    if r@.contains(k) {
                        let j = choose|j: int|
                            0 <= j < i && (#[trigger] self.timers.entries()[j]).0 == k
                                && self.timers.entries()[j].1.has_destroy;
                        self.timers.lemma_index_unique(j, i as int);
                    }
                }
                let ghost pre = r@;
                r.push(k);
                proof {
                    assert forall|k2: u64| #[trigger] r@.contains(k2) implies exists|j: int|
                        0 <= j < i + 1 && (#[trigger] self.timers.entries()[j]).0 == k2
                            && self.timers.entries()[j].1.has_destroy by {
                        if k2 == k {
                            assert(self.timers.entries()[i as int].0 == k2);
                        } else {
                            assert(r@.drop_last() =~= pre);
                            assert(pre.contains(k2));
                        }
                    }
                }
            }
            i = i + 1;
        }
        proof {
            assert forall|k: u64| #[trigger] r@.contains(k) implies old(self).contains(k) && old(
                self,
            ).timer(k).has_destroy by {
                let j = choose|j: int|
                    0 <= j < n && (#[trigger] self.timers.entries()[j]).0 == k
                        && self.timers.entries()[j].1.has_destroy;
                self.timers.lemma_at_index(j);
            }
            assert forall|k: u64|
                old(self).contains(k) && old(self).timer(k).has_destroy implies r@.contains(k) by {
                self.timers.lemma_at_index(self.timers.index_of(k));
            }
        }
        self.timers.clear();
        r
    }
}

/// A cancelled arming never fires: once a restart or a free has withdrawn
/// the arming a token names — so the token no longer names the timer's
/// current arming — the delay task reporting that token resolves without
/// invoking the fire callback, however late the report lands.
pub proof fn lemma_withdrawn_arming_never_fires(s: Timers, h: u64, t: u64)
    requires
        !s.would_fire(h, t),
    ensures
        !(s.spec_outcome(h, t) is Fire),
{
}

/// A single arming fires at most once: a report that fired disarmed the
/// timer, so in every later state in which the timer is disarmed a duplicate
/// report with the same token resolves stale, never as a second firing.
pub proof fn lemma_fire_at_most_once(s: Timers, h: u64, t: u64)
    requires
        s.contains(h) ==> s.timer(h).armed is None,
    ensures
        !(s.spec_outcome(h, t) is Fire),
{
}

/// A report resolves to exactly one outcome, and firing and the deferred
/// destruction of a freed timer exclude each other: a report fires only for
/// a timer that was not freed, and hands out the deferred destroy
/// notification only for one that was.
pub proof fn lemma_fire_excludes_destroy(s: Timers, h: u64, t: u64)
    requires
        s.wf(),
    ensures
        s.spec_outcome(h, t) is Fire ==> s.contains(h) && !s.timer(h).doomed,
        s.spec_outcome(h, t) is DestroyAfterRace ==> s.contains(h) && s.timer(h).doomed,
{
}

/// The time left until a deadline, clamped to zero when the deadline has
/// already passed: the wait handed to the reactor's delay primitive.
pub fn duration_until(deadline: TimeSpec, now: TimeSpec) -> (r: TimeSpec)
    requires
        deadline.wf(),
        now.wf(),
    ensures
        r.wf(),
        deadline.micros() <= now.micros() ==> r.micros() == 0,
        deadline.micros() > now.micros() ==> r.micros() == deadline.micros() - now.micros(),
{
    if deadline.sec < now.sec || (deadline.sec == now.sec && deadline.usec <= now.usec) {
        TimeSpec { sec: 0, usec: 0 }
    } else {
        if deadline.usec >= now.usec {
            TimeSpec { sec: deadline.sec - now.sec, usec: deadline.usec - now.usec }
        } else {
            TimeSpec {
                sec: deadline.sec - now.sec - 1,
                usec: deadline.usec + 1_000_000 - now.usec,
            }
        }
    }
}

} // verus!
