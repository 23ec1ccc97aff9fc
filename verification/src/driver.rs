//! The driver: owner of the three event subsystems, the handle mint and the
//! quit slot.
//!
//! The foreign side reaches the bridge only through the vtable surface
//! exposed here; the reactor's tasks report back through the `*_dispatch`,
//! `*_wake`, `*_deadline` and drain entries.  The driver routes each call to
//! the owning subsystem, converts between the foreign flag words and the
//! library's direction sets, mints the opaque handles — one counter for all
//! three kinds, so a handle is never reused — and guarantees complete
//! teardown: at destruction every live event with a destroy callback is
//! reported exactly once.

use vstd::prelude::*;

use crate::deferred::Deferred;
use crate::flags::{Interest, mio_to_pulse, pulse_to_mio, pulse_word_directions};
use crate::io::{Io, IoEvent, WatcherAction, WatcherWake};
use crate::timer::{Arming, DeadlineOutcome, TimeSpec, TimerEvent, TimerFreeAction, Timers};

verus! {

/// The destroy notifications owed at teardown, by subsystem, each handle
/// exactly once.
pub struct TeardownReport {
    /// Deferred events whose destroy callback must be invoked.
    pub deferred: Vec<u64>,
    /// Timers whose destroy callback must be invoked.
    pub timers: Vec<u64>,
    /// I/O events whose destroy callback must be invoked.
    pub io: Vec<u64>,
}

/// The bridge's whole state: the three subsystems, the handle mint and the
/// quit slot.
pub struct Driver {
    /// The next handle to mint; every issued handle is strictly smaller.
    pub next_handle: u64,
    /// The I/O-readiness multiplexer.
    pub io: Io,
    /// The timer subsystem.
    pub timers: Timers,
    /// The deferred-event subsystem.
    pub deferred: Deferred,
    /// Set once `quit` has been called.
    pub quitting: bool,
    /// A consumer still waits on the quit slot; the first `quit` consumes it.
    pub quit_waiting: bool,
}

impl Driver {
    /// Well-formed: each subsystem is, and every issued handle is below the
    /// mint, so a fresh handle collides with nothing.
    pub open spec fn wf(self) -> bool {
        &&& self.io.wf()
        &&& self.timers.wf()
        &&& self.deferred.wf()
        &&& forall|k: u64| #[trigger] self.io.contains(k) ==> k < self.next_handle
        &&& forall|k: u64| #[trigger] self.timers.contains(k) ==> k < self.next_handle
        &&& forall|k: u64| #[trigger] self.deferred.contains(k) ==> k < self.next_handle
    }

    /// A fresh driver: no events, nothing quitting, with (or without) a
    /// consumer waiting on the quit slot.
    pub fn new(quit_waiting: bool) -> (r: Driver)
        ensures
            r.wf(),
            r.io.events.spec_len() == 0,
            r.timers.timers.spec_len() == 0,
            r.deferred.events.spec_len() == 0,
            r.deferred.staged.spec_len() == 0,
            !r.quitting,
            r.quit_waiting == quit_waiting,
            r.next_handle == 0,
            r.timers.next_token == 0,
            forall|k: u64| !r.io.contains(k) && !r.timers.contains(k) && !r.deferred.contains(k),
    {
        Driver {
            next_handle: 0,
            io: Io::new(),
            timers: Timers::new(),
            deferred: Deferred::new(),
            quitting: false,
            quit_waiting,
        }
    }

    /// Whether a handle can still be minted; a machine limit, not a design
    /// one.
    pub open spec fn can_mint(self) -> bool {
        self.next_handle < u64::MAX
    }

    /// Registers an I/O event on a descriptor with the foreign flag word
    /// `events`, as the vtable's `io_new` demands; returns the fresh handle
    /// and what to do about the descriptor's watcher.
    pub fn io_new(&mut self, fd: u64, events: u32) -> (r: (u64, WatcherAction))
        requires
            old(self).wf(),
            old(self).can_mint(),
        ensures
            final(self).wf(),
            r.0 == old(self).next_handle,
            !old(self).io.contains(r.0),
            final(self).io.contains(r.0),
            final(self).io.event(r.0) == (IoEvent {
                fd,
                interest: pulse_word_directions(events),
                doomed: false,
                has_destroy: false,
            }),
            forall|k: u64| k != r.0 ==> final(self).io.contains(k) == old(self).io.contains(k),
            forall|k: u64|
                k != r.0 && old(self).io.contains(k) ==> final(self).io.event(k) == old(
                    self,
                ).io.event(k),
            final(self).timers == old(self).timers,
            final(self).deferred == old(self).deferred,
            final(self).quitting == old(self).quitting,
            final(self).quit_waiting == old(self).quit_waiting,
            final(self).next_handle == old(self).next_handle + 1,
            Io::watcher_action_ok(old(self).io, final(self).io, fd, r.1),
    {
        let h = self.next_handle;
        self.next_handle = self.next_handle + 1;
        let interest = pulse_to_mio(events);
        let act = self.io.spawn(h, fd, interest);
        (h, act)
    }

    /// Updates one I/O event's interest from the foreign flag word, as the
    /// vtable's `io_enable` demands.
    pub fn io_enable(&mut self, h: u64, events: u32) -> (act: WatcherAction)
        requires
            old(self).wf(),
            old(self).io.contains(h),
            !old(self).io.event(h).doomed,
        ensures
            final(self).wf(),
            final(self).io.event(h) == (IoEvent {
                interest: pulse_word_directions(events),
                ..old(self).io.event(h)
            }),
            forall|k: u64| final(self).io.contains(k) == old(self).io.contains(k),
            forall|k: u64|
                k != h && old(self).io.contains(k) ==> final(self).io.event(k) == old(
                    self,
                ).io.event(k),
            final(self).timers == old(self).timers,
            final(self).deferred == old(self).deferred,
            final(self).quitting == old(self).quitting,
            final(self).quit_waiting == old(self).quit_waiting,
            final(self).next_handle == old(self).next_handle,
            Io::watcher_action_ok(old(self).io, final(self).io, old(self).io.event(h).fd, act),
    {
        let interest = pulse_to_mio(events);
        self.io.enable(h, interest)
    }

    /// Frees an I/O event, as the vtable's `io_free` demands; see
    /// [`Io::free`] for the two delivery paths.
    pub fn io_free(&mut self, h: u64, in_dispatch: bool) -> (r: (Option<bool>, WatcherAction))
        requires
            old(self).wf(),
            old(self).io.contains(h),
            !old(self).io.event(h).doomed,
        ensures
            final(self).wf(),
            forall|k: u64| k != h ==> final(self).io.contains(k) == old(self).io.contains(k),
            forall|k: u64|
                k != h && old(self).io.contains(k) ==> final(self).io.event(k) == old(
                    self,
                ).io.event(k),
            !in_dispatch ==> r.0 == Some(old(self).io.event(h).has_destroy)
                && !final(self).io.contains(h),
            in_dispatch ==> r.0 is None && final(self).io.contains(h) && final(self).io.event(h)
                == (IoEvent {
                interest: Interest { read: false, write: false, hangup: false, error: false },
                doomed: true,
                ..old(self).io.event(h)
            }),
            forall|eff: Interest| !final(self).io.delivers(old(self).io.event(h).fd, eff, h),
            Io::watcher_action_ok(old(self).io, final(self).io, old(self).io.event(h).fd, r.1),
            final(self).timers == old(self).timers,
            final(self).deferred == old(self).deferred,
            final(self).next_handle == old(self).next_handle,
    {
        self.io.free(h, in_dispatch)
    }

    /// Replaces an I/O event's destroy callback, as the vtable's
    /// `io_set_destroy` demands.
    pub fn io_set_destroy(&mut self, h: u64, has: bool)
        requires
            old(self).wf(),
            old(self).io.contains(h),
            !old(self).io.event(h).doomed,
        ensures
            final(self).wf(),
            final(self).io.event(h) == (IoEvent { has_destroy: has, ..old(self).io.event(h) }),
            forall|k: u64| final(self).io.contains(k) == old(self).io.contains(k),
            forall|k: u64|
                k != h && old(self).io.contains(k) ==> final(self).io.event(k) == old(
                    self,
                ).io.event(k),
            final(self).timers == old(self).timers,
            final(self).deferred == old(self).deferred,
            final(self).next_handle == old(self).next_handle,
    {
        self.io.set_destroy_cb(h, has)
    }

    /// Delivers the destroy notification of an I/O event freed inside a
    /// dispatch; the scheduled task's entry point.
    pub fn io_complete_free(&mut self, h: u64) -> (r: Option<bool>)
        requires
            old(self).wf(),
        ensures
            final(self).wf(),
            old(self).io.contains(h) && old(self).io.event(h).doomed ==> r == Some(
                old(self).io.event(h).has_destroy,
            ) && !final(self).io.contains(h),
            !(old(self).io.contains(h) && old(self).io.event(h).doomed) ==> r is None,
            forall|k: u64| k != h ==> final(self).io.contains(k) == old(self).io.contains(k),
            final(self).timers == old(self).timers,
            final(self).deferred == old(self).deferred,
            final(self).next_handle == old(self).next_handle,
    {
        self.io.complete_free(h)
    }

    /// A descriptor's watcher task woke; see [`Io::watcher_wake`].
    pub fn io_watcher_wake(&mut self, fd: u64) -> (r: WatcherWake)
        requires
            old(self).wf(),
        ensures
            final(self).wf(),
            final(self).io.events == old(self).io.events,
            r is Poll ==> r->0 == crate::io::aggregate(old(self).io.events.entries(), fd),
            final(self).timers == old(self).timers,
            final(self).deferred == old(self).deferred,
            final(self).next_handle == old(self).next_handle,
    {
        let r = self.io.watcher_wake(fd);
        proof {
            assert forall|k: u64| #[trigger] self.io.contains(k) implies k < self.next_handle by {
                assert(old(self).io.contains(k));
            }
        }
        r
    }

    /// Decides one watcher dispatch and hands each notified event its foreign
    /// flag word: the intersection of its interest and the readiness that
    /// survived the kernel re-check.  See [`Io::dispatch`] for the
    /// level-trigger semantics.
    #[verifier::spinoff_prover]
    pub fn io_dispatch(&self, fd: u64, mask: Interest, edge: Interest, kernel: Interest) -> (r: (
        Vec<(u64, u32)>,
        bool,
        bool,
    ))
        requires
            self.wf(),
        ensures
            ({
                let effective = edge.spec_intersect(kernel);
                &&& r.1 == (mask.spec_has_read_side() && !effective.spec_has_read_side())
                &&& r.2 == (mask.write && !effective.write)
                &&& forall|i: int|
                    0 <= i < r.0@.len() ==> {
                        let (h, w) = #[trigger] r.0@[i];
                        &&& self.io.delivers(fd, effective, h)
                        &&& pulse_word_directions(w) == self.io.event(h).interest.spec_intersect(
                            effective,
                        )
                    }
                &&& forall|h: u64|
                    #[trigger] self.io.delivers(fd, effective, h) ==> exists|i: int|
                        0 <= i < r.0@.len() && (#[trigger] r.0@[i]).0 == h
                &&& forall|a: int, b: int| 0 <= a < b < r.0@.len() ==> r.0@[a].0 != r.0@[b].0
            }),
    {
        let (deliveries, need_read, need_write) = self.io.dispatch(fd, mask, edge, kernel);
        let ghost effective = edge.spec_intersect(kernel);
        let n = deliveries.len();
        let mut out: Vec<(u64, u32)> = Vec::new();
        let mut i: usize = 0;
        while i < n
            invariant
                n == deliveries@.len(),
                i <= n,
                out@.len() == i,
                forall|a: int|
                    0 <= a < i ==> (#[trigger] out@[a]).0 == deliveries@[a].0
                        && pulse_word_directions(out@[a].1) == deliveries@[a].1,
            decreases n - i,
        {
            let (h, m) = deliveries[i];
            let w = mio_to_pulse(m);
            out.push((h, w));
            i = i + 1;
        }
        proof {
            assert forall|h: u64| #[trigger] self.io.delivers(fd, effective, h) implies exists|
                i2: int,
            |
                0 <= i2 < out@.len() && (#[trigger] out@[i2]).0 == h by {
                let a = choose|a: int|
                    0 <= a < deliveries@.len() && (#[trigger] deliveries@[a]).0 == h;
                assert(out@[a].0 == h);
            }
        }
        let ghost outsnap = out@;
        let r = (out, need_read, need_write);
        proof {
            assert(r.0@ == outsnap);
            assert forall|h: u64| #[trigger] self.io.delivers(fd, effective, h) implies exists|
                i2: int,
            |
                0 <= i2 < r.0@.len() && (#[trigger] r.0@[i2]).0 == h by {
                let a = choose|a: int| 0 <= a < outsnap.len() && (#[trigger] outsnap[a]).0 == h;
                assert(r.0@[a].0 == h);
            }
        }
        r
    }

    /// Registers a timer, as the vtable's `time_new` demands: armed on the
    /// given deadline, or disarmed on `None`.  When an arming is returned the
    /// caller starts a delay for it and reports back through
    /// `time_on_deadline`.
    pub fn time_new(&mut self, deadline: Option<TimeSpec>) -> (r: (u64, Option<Arming>))
        requires
            old(self).wf(),
            old(self).can_mint(),
            old(self).timers.next_token < u64::MAX,
            deadline is Some ==> deadline->0.wf(),
        ensures
            final(self).wf(),
            r.0 == old(self).next_handle,
            !old(self).timers.contains(r.0),
            final(self).timers.contains(r.0),
            forall|k: u64| k != r.0 ==> final(self).timers.contains(k) == old(self).timers.contains(k),
            forall|k: u64|
                k != r.0 && old(self).timers.contains(k) ==> final(self).timers.timer(k) == old(
                    self,
                ).timers.timer(k),
            match deadline {
                Some(d) => r.1 == Some(
                    Arming { token: old(self).timers.next_token, deadline: d },
                ) && final(self).timers.timer(r.0) == (TimerEvent {
                    armed: r.1,
                    doomed: false,
                    pending_free: false,
                    has_destroy: false,
                }),
                None => r.1 is None && final(self).timers.timer(r.0) == (TimerEvent {
                    armed: None,
                    doomed: false,
                    pending_free: false,
                    has_destroy: false,
                }) && final(self).timers.next_token == old(self).timers.next_token,
            },
            deadline is Some ==> final(self).timers.next_token == old(self).timers.next_token + 1,
            final(self).io == old(self).io,
            final(self).deferred == old(self).deferred,
            final(self).next_handle == old(self).next_handle + 1,
    {
        let h = self.next_handle;
        self.next_handle = self.next_handle + 1;
        let start = self.timers.spawn(h, deadline);
        (h, start)
    }

    /// Re-arms or disarms a timer, as the vtable's `time_restart` demands;
    /// any arming in flight is withdrawn and can never fire.
    pub fn time_restart(&mut self, h: u64, deadline: Option<TimeSpec>) -> (start: Option<Arming>)
        requires
            old(self).wf(),
            old(self).timers.contains(h),
            old(self).timers.timer(h).live(),
            old(self).timers.next_token < u64::MAX,
            deadline is Some ==> deadline->0.wf(),
        ensures
            final(self).wf(),
            forall|k: u64| final(self).timers.contains(k) == old(self).timers.contains(k),
            forall|k: u64|
                k != h && old(self).timers.contains(k) ==> final(self).timers.timer(k) == old(
                    self,
                ).timers.timer(k),
            match deadline {
                Some(d) => start == Some(
                    Arming { token: old(self).timers.next_token, deadline: d },
                ) && final(self).timers.timer(h) == (TimerEvent {
                    armed: start,
                    ..old(self).timers.timer(h)
                }),
                None => start is None && final(self).timers.timer(h) == (TimerEvent {
                    armed: None,
                    ..old(self).timers.timer(h)
                }),
            },
            forall|t: u64|
                t < old(self).timers.next_token ==> !final(self).timers.would_fire(h, t),
            deadline is Some ==> final(self).timers.next_token == old(self).timers.next_token + 1,
            deadline is None ==> final(self).timers.next_token == old(self).timers.next_token,
            final(self).io == old(self).io,
            final(self).deferred == old(self).deferred,
            final(self).next_handle == old(self).next_handle,
    {
        self.timers.restart(h, deadline)
    }

    /// Frees a timer, as the vtable's `time_free` demands; see
    /// [`Timers::free`] for the three delivery paths.  No arming of the timer
    /// fires afterwards.
    pub fn time_free(&mut self, h: u64, in_dispatch: bool) -> (r: TimerFreeAction)
        requires
            old(self).wf(),
            old(self).timers.contains(h),
            old(self).timers.timer(h).live(),
        ensures
            final(self).wf(),
            forall|k: u64| k != h ==> final(self).timers.contains(k) == old(self).timers.contains(k),
            forall|k: u64|
                k != h && old(self).timers.contains(k) ==> final(self).timers.timer(k) == old(
                    self,
                ).timers.timer(k),
            !in_dispatch ==> r == TimerFreeAction::Destroy(old(self).timers.timer(h).has_destroy)
                && !final(self).timers.contains(h),
            in_dispatch && old(self).timers.timer(h).armed is Some ==> r
                == TimerFreeAction::RidesOnRace,
            in_dispatch && old(self).timers.timer(h).armed is None ==> r
                == TimerFreeAction::Scheduled,
            forall|t: u64| !final(self).timers.would_fire(h, t),
            final(self).io == old(self).io,
            final(self).deferred == old(self).deferred,
            final(self).next_handle == old(self).next_handle,
    {
        self.timers.free(h, in_dispatch)
    }

    /// Replaces a timer's destroy callback, as the vtable's
    /// `time_set_destroy` demands.
    pub fn time_set_destroy(&mut self, h: u64, has: bool)
        requires
            old(self).wf(),
            old(self).timers.contains(h),
            old(self).timers.timer(h).live(),
        ensures
            final(self).wf(),
            final(self).timers.timer(h) == (TimerEvent {
                has_destroy: has,
                ..old(self).timers.timer(h)
            }),
            forall|k: u64| final(self).timers.contains(k) == old(self).timers.contains(k),
            forall|k: u64|
                k != h && old(self).timers.contains(k) ==> final(self).timers.timer(k) == old(
                    self,
                ).timers.timer(k),
            final(self).io == old(self).io,
            final(self).deferred == old(self).deferred,
            final(self).next_handle == old(self).next_handle,
    {
        self.timers.set_destroy_cb(h, has)
    }

    /// A delay task's wait elapsed; resolves the race.  See
    /// [`Timers::on_deadline`].
    pub fn time_on_deadline(&mut self, h: u64, t: u64) -> (r: DeadlineOutcome)
        requires
            old(self).wf(),
        ensures
            final(self).wf(),
            r == old(self).timers.spec_outcome(h, t),
            !old(self).timers.contains(h) ==> final(self).timers == old(self).timers,
            old(self).timers.contains(h) && !(old(self).timers.timer(h).armed is Some && old(
                self,
            ).timers.timer(h).armed->0.token == t) ==> final(self).timers == old(self).timers,
            old(self).timers.would_fire(h, t) ==> r == DeadlineOutcome::Fire(
                old(self).timers.timer(h).armed->0.deadline,
            ) && final(self).timers.contains(h) && final(self).timers.timer(h) == (TimerEvent {
                armed: None,
                ..old(self).timers.timer(h)
            }),
            !old(self).timers.would_fire(h, t) ==> !(r is Fire),
            r is Fire ==> !final(self).timers.would_fire(h, t),
            old(self).timers.contains(h) && old(self).timers.timer(h).armed is Some && old(
                self,
            ).timers.timer(h).armed->0.token == t && old(self).timers.timer(h).doomed ==> r
                == DeadlineOutcome::DestroyAfterRace(old(self).timers.timer(h).has_destroy)
                && !final(self).timers.contains(h),
            forall|k: u64| k != h ==> final(self).timers.contains(k) == old(self).timers.contains(k),
            forall|k: u64|
                k != h && old(self).timers.contains(k) ==> final(self).timers.timer(k) == old(
                    self,
                ).timers.timer(k),
            final(self).io == old(self).io,
            final(self).deferred == old(self).deferred,
            final(self).next_handle == old(self).next_handle,
    {
        self.timers.on_deadline(h, t)
    }

    /// Delivers the destroy notification of a timer freed inside a dispatch
    /// while disarmed; the scheduled task's entry point.
    pub fn time_complete_free(&mut self, h: u64) -> (r: Option<bool>)
        requires
            old(self).wf(),
        ensures
            final(self).wf(),
            old(self).timers.contains(h) && old(self).timers.timer(h).pending_free ==> r == Some(
                old(self).timers.timer(h).has_destroy,
            ) && !final(self).timers.contains(h),
            !(old(self).timers.contains(h) && old(self).timers.timer(h).pending_free) ==> r is None,
            forall|k: u64| k != h ==> final(self).timers.contains(k) == old(self).timers.contains(k),
            final(self).io == old(self).io,
            final(self).deferred == old(self).deferred,
            final(self).next_handle == old(self).next_handle,
    {
        self.timers.complete_free(h)
    }

    /// Registers a deferred event, as the vtable's `defer_new` demands:
    /// enabled at once, staged when a drain pass is running.
    pub fn defer_new(&mut self, during_drain: bool) -> (h: u64)
        requires
            old(self).wf(),
            old(self).can_mint(),
        ensures
            final(self).wf(),
            h == old(self).next_handle,
            final(self).deferred.contains(h),
            final(self).deferred.event(h) == (crate::deferred::DeferredEvent {
                enabled: true,
                dead: false,
                has_destroy: false,
            }),
            final(self).deferred.events.contains_key(h) == !during_drain,
            final(self).deferred.staged.contains_key(h) == during_drain,
            forall|k: u64|
                k != h ==> final(self).deferred.contains(k) == old(self).deferred.contains(k),
            forall|k: u64|
                k != h && old(self).deferred.contains(k) ==> final(self).deferred.event(k) == old(
                    self,
                ).deferred.event(k),
            final(self).io == old(self).io,
            final(self).timers == old(self).timers,
            final(self).next_handle == old(self).next_handle + 1,
    {
        let h = self.next_handle;
        self.next_handle = self.next_handle + 1;
        self.deferred.add(h, during_drain);
        h
    }

    /// Sets or clears a deferred event's enabled flag, as the vtable's
    /// `defer_enable` demands; returns whether the drain task must be woken.
    pub fn defer_enable(&mut self, h: u64, on: bool) -> (wake: bool)
        requires
            old(self).wf(),
            old(self).deferred.contains(h),
            !old(self).deferred.event(h).dead,
        ensures
            final(self).wf(),
            final(self).deferred.event(h) == (crate::deferred::DeferredEvent {
                enabled: on,
                ..old(self).deferred.event(h)
            }),
            forall|k: u64| final(self).deferred.contains(k) == old(self).deferred.contains(k),
            forall|k: u64|
                k != h && old(self).deferred.contains(k) ==> final(self).deferred.event(k) == old(
                    self,
                ).deferred.event(k),
            wake == (old(self).deferred.event(h).enabled != on),
            forall|k: u64|
                final(self).deferred.events.contains_key(k) == old(
                    self,
                ).deferred.events.contains_key(k),
            final(self).io == old(self).io,
            final(self).timers == old(self).timers,
            final(self).next_handle == old(self).next_handle,
    {
        let r = self.deferred.enable(h, on);
        proof {
            assert forall|k: u64|
                self.deferred.events.contains_key(k) == old(
                    self,
                ).deferred.events.contains_key(k) by {
                if k != h {
                    if self.deferred.events.contains_key(k) {
                        assert(self.deferred.contains(k));
                    }
                    if old(self).deferred.events.contains_key(k) {
                        assert(old(self).deferred.contains(k));
                    }
                }
            }
        }
        r
    }

    /// Frees a deferred event, as the vtable's `defer_free` demands; see
    /// [`Deferred::free`] for the two delivery paths.
    pub fn defer_free(&mut self, h: u64, during_drain: bool) -> (destroy_now: Option<bool>)
        requires
            old(self).wf(),
            old(self).deferred.contains(h),
            !old(self).deferred.event(h).dead,
        ensures
            final(self).wf(),
            forall|k: u64|
                k != h ==> final(self).deferred.contains(k) == old(self).deferred.contains(k),
            forall|k: u64|
                k != h && old(self).deferred.contains(k) ==> final(self).deferred.event(k) == old(
                    self,
                ).deferred.event(k),
            during_drain ==> destroy_now is None && final(self).deferred.contains(h)
                && final(self).deferred.event(h) == (crate::deferred::DeferredEvent {
                enabled: false,
                dead: true,
                ..old(self).deferred.event(h)
            }),
            !during_drain ==> destroy_now == Some(old(self).deferred.event(h).has_destroy)
                && !final(self).deferred.contains(h),
            forall|k: u64|
                k != h ==> final(self).deferred.events.contains_key(k) == old(
                    self,
                ).deferred.events.contains_key(k),
            during_drain ==> final(self).deferred.events.contains_key(h) == old(
                self,
            ).deferred.events.contains_key(h),
            final(self).io == old(self).io,
            final(self).timers == old(self).timers,
            final(self).next_handle == old(self).next_handle,
    {
        let r = self.deferred.free(h, during_drain);
        proof {
            assert forall|k: u64|
                k != h implies self.deferred.events.contains_key(k) == old(
                self,
            ).deferred.events.contains_key(k) by {
                if self.deferred.events.contains_key(k) {
                    assert(self.deferred.contains(k));
                }
                if old(self).deferred.events.contains_key(k) {
                    assert(old(self).deferred.contains(k));
                }
            }
        }
        r
    }

    /// Replaces a deferred event's destroy callback, as the vtable's
    /// `defer_set_destroy` demands.
    pub fn defer_set_destroy(&mut self, h: u64, has: bool)
        requires
            old(self).wf(),
            old(self).deferred.contains(h),
            !old(self).deferred.event(h).dead,
        ensures
            final(self).wf(),
            final(self).deferred.event(h) == (crate::deferred::DeferredEvent {
                has_destroy: has,
                ..old(self).deferred.event(h)
            }),
            forall|k: u64| final(self).deferred.contains(k) == old(self).deferred.contains(k),
            forall|k: u64|
                k != h && old(self).deferred.contains(k) ==> final(self).deferred.event(k) == old(
                    self,
                ).deferred.event(k),
            forall|k: u64|
                final(self).deferred.events.contains_key(k) == old(
                    self,
                ).deferred.events.contains_key(k),
            final(self).io == old(self).io,
            final(self).timers == old(self).timers,
            final(self).next_handle == old(self).next_handle,
    {
        self.deferred.set_destroy(h, has);
        proof {
            assert forall|k: u64|
                self.deferred.events.contains_key(k) == old(
                    self,
                ).deferred.events.contains_key(k) by {
                if k != h {
                    if self.deferred.events.contains_key(k) {
                        assert(self.deferred.contains(k));
                    }
                    if old(self).deferred.events.contains_key(k) {
                        assert(old(self).deferred.contains(k));
                    }
                }
            }
        }
    }

    /// The quit transition: sets the quitting flag; the first call with a
    /// consumer waiting delivers the code, later calls change nothing more.
    pub open spec fn spec_quit(self, code: i32) -> (Driver, Option<i32>) {
        if self.quit_waiting {
            (Driver { quitting: true, quit_waiting: false, ..self }, Some(code))
        } else {
            (Driver { quitting: true, ..self }, None)
        }
    }

    /// Requests shutdown with an exit code, as the vtable's `quit` demands.
    ///
    /// Returns `Some(code)` exactly when a consumer was still waiting: the
    /// caller delivers the code to it, once.  Every later call is a silent
    /// no-op that returns `None`.
    pub fn quit(&mut self, code: i32) -> (r: Option<i32>)
        requires
            old(self).wf(),
        ensures
            final(self).wf(),
            (*final(self), r) == old(self).spec_quit(code),
            final(self).quitting,
            old(self).quit_waiting ==> r == Some(code) && !final(self).quit_waiting,
            !old(self).quit_waiting ==> r is None && !final(self).quit_waiting,
            final(self).io == old(self).io,
            final(self).timers == old(self).timers,
            final(self).deferred == old(self).deferred,
            final(self).next_handle == old(self).next_handle,
    {
        self.quitting = true;
        if self.quit_waiting {
            self.quit_waiting = false;
            Some(code)
        } else {
            None
        }
    }

    /// Quit is idempotent: of two consecutive quit requests, the first
    /// delivers its code to the waiting consumer and the second delivers
    /// nothing — the code reaches the consumer exactly once.
    pub proof fn lemma_quit_idempotent(s: Driver, first: i32, second: i32)
        requires
            s.quit_waiting,
        ensures
            ({
                let (s1, r1) = s.spec_quit(first);
                let (s2, r2) = s1.spec_quit(second);
                r1 == Some(first) && r2 is None && s1.quitting && s2.quitting
            }),
    {
    }

    /// Tears the driver down, as dropping the owning session demands: every
    /// subsystem is emptied, and every event that still had a destroy
    /// callback — freed-but-unreaped ones included — is reported exactly
    /// once, in its subsystem's list.
    pub fn teardown(&mut self) -> (r: TeardownReport)
        requires
            old(self).wf(),
        ensures
            final(self).wf(),
            final(self).io.events.spec_len() == 0,
            final(self).timers.timers.spec_len() == 0,
            final(self).deferred.events.spec_len() == 0,
            final(self).deferred.staged.spec_len() == 0,
            forall|a: int, b: int|
                0 <= a < b < r.deferred@.len() ==> r.deferred@[a] != r.deferred@[b],
            forall|a: int, b: int| 0 <= a < b < r.timers@.len() ==> r.timers@[a] != r.timers@[b],
            forall|a: int, b: int| 0 <= a < b < r.io@.len() ==> r.io@[a] != r.io@[b],
            forall|k: u64|
                #[trigger] r.deferred@.contains(k) <==> old(self).deferred.contains(k) && old(
                    self,
                ).deferred.event(k).has_destroy,
            forall|k: u64|
                #[trigger] r.timers@.contains(k) <==> old(self).timers.contains(k) && old(
                    self,
                ).timers.timer(k).has_destroy,
            forall|k: u64|
                #[trigger] r.io@.contains(k) <==> old(self).io.contains(k) && old(
                    self,
                ).io.event(k).has_destroy,
    {
        let deferred = self.deferred.free_all();
        let timers = self.timers.free_all();
        let io = self.io.free_all();
        TeardownReport { deferred, timers, io }
    }
}

} // verus!
