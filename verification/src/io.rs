//! The I/O-readiness multiplexer: level-triggered notification on top of an
//! edge-triggered reactor.
//!
//! Many logical events may watch one descriptor; a single watcher per
//! descriptor owns the OS-level registration and is armed with the union of
//! the enabled events' interests.  On each wake the watcher's reported
//! readiness is re-validated against the real kernel state (a non-blocking
//! poll of the descriptor), demoted directions are re-armed, and every event
//! interested in a surviving direction is notified with the intersection of
//! its interest and the ready set — on every pass for as long as the
//! condition persists, not only at the edge.
//!
//! The functions here keep the event and watcher collections and decide what
//! each vtable call and each watcher wake must do; the reactor registration,
//! the kernel poll and the callback invocations live outside the library.

use vstd::prelude::*;

use crate::flags::Interest;
use crate::registry::Registry;

verus! {

broadcast use vstd::seq_lib::group_seq_properties;

/// One I/O event: its descriptor, its current interest, and its flags.
#[derive(Clone, Copy, Debug, PartialEq, Eq)]
pub struct IoEvent {
    /// The watched descriptor.
    pub fd: u64,
    /// The directions this event wants to be notified about.
    pub interest: Interest,
    /// Freed from inside a dispatch: interest is already withdrawn and a
    /// scheduled task delivers the destroy notification via `complete_free`.
    pub doomed: bool,
    /// A destroy callback is set and must be invoked exactly once at removal.
    pub has_destroy: bool,
}

/// What the caller must do about a descriptor's watcher after a change of
/// interest.
#[derive(Clone, Copy, Debug, PartialEq, Eq)]
pub enum WatcherAction {
    /// No watcher exists and none is needed.
    Idle,
    /// Register the descriptor with the reactor and start a watcher task,
    /// armed with this interest.
    Spawn(Interest),
    /// Wake the existing watcher task; it re-reads its interest on wake.
    Notify,
}

/// What a woken watcher task must do.
#[derive(Clone, Copy, Debug, PartialEq, Eq)]
pub enum WatcherWake {
    /// No interest remains: the OS-level registration was withdrawn; the task
    /// deregisters the descriptor and ends.
    Exit,
    /// Ask the reactor for readiness on these directions.
    Poll(Interest),
}

/// The aggregate interest of a descriptor: the union of the interests of
/// every event registered on it.
pub open spec fn aggregate(s: Seq<(u64, IoEvent)>, fd: u64) -> Interest
    decreases s.len(),
{
    if s.len() == 0 {
        Interest { read: false, write: false, hangup: false, error: false }
    } else {
        let rest = aggregate(s.drop_last(), fd);
        if s.last().1.fd == fd {
            rest.spec_union(s.last().1.interest)
        } else {
            rest
        }
    }
}

/// A direction is in the aggregate exactly when some event on the descriptor
/// asks for it.
#[verifier::spinoff_prover]
pub proof fn lemma_aggregate_directions(s: Seq<(u64, IoEvent)>, fd: u64)
    ensures
        aggregate(s, fd).read <==> exists|i: int|
            0 <= i < s.len() && (#[trigger] s[i]).1.fd == fd && s[i].1.interest.read,
        aggregate(s, fd).write <==> exists|i: int|
            0 <= i < s.len() && (#[trigger] s[i]).1.fd == fd && s[i].1.interest.write,
        aggregate(s, fd).hangup <==> exists|i: int|
            0 <= i < s.len() && (#[trigger] s[i]).1.fd == fd && s[i].1.interest.hangup,
        aggregate(s, fd).error <==> exists|i: int|
            0 <= i < s.len() && (#[trigger] s[i]).1.fd == fd && s[i].1.interest.error,
    decreases s.len(),
{
    if s.len() > 0 {
        lemma_aggregate_directions(s.drop_last(), fd);
        let n = s.len() - 1;
        assert forall|i: int| 0 <= i < n implies s.drop_last()[i] == s[i] by {}
        if aggregate(s, fd).read {
            if s.last().1.fd == fd && s.last().1.interest.read {
                assert(s[n].1.fd == fd && s[n].1.interest.read);
            } else {
                let i = choose|i: int|
                    0 <= i < n && (#[trigger] s.drop_last()[i]).1.fd == fd
                        && s.drop_last()[i].1.interest.read;
                assert(s[i].1.fd == fd && s[i].1.interest.read);
            }
        }
        if aggregate(s, fd).write {
            if s.last().1.fd == fd && s.last().1.interest.write {
                assert(s[n].1.fd == fd && s[n].1.interest.write);
            } else {
                let i = choose|i: int|
                    0 <= i < n && (#[trigger] s.drop_last()[i]).1.fd == fd
                        && s.drop_last()[i].1.interest.write;
                assert(s[i].1.fd == fd && s[i].1.interest.write);
            }
        }
        if aggregate(s, fd).hangup {
            if s.last().1.fd == fd && s.last().1.interest.hangup {
                assert(s[n].1.fd == fd && s[n].1.interest.hangup);
            } else {
                let i = choose|i: int|
                    0 <= i < n && (#[trigger] s.drop_last()[i]).1.fd == fd
                        && s.drop_last()[i].1.interest.hangup;
                assert(s[i].1.fd == fd && s[i].1.interest.hangup);
            }
        }
        if aggregate(s, fd).error {
            if s.last().1.fd == fd && s.last().1.interest.error {
                assert(s[n].1.fd == fd && s[n].1.interest.error);
            } else {
                let i = choose|i: int|
                    0 <= i < n && (#[trigger] s.drop_last()[i]).1.fd == fd
                        && s.drop_last()[i].1.interest.error;
                assert(s[i].1.fd == fd && s[i].1.interest.error);
            }
        }
        assert forall|i: int|
            0 <= i < s.len() && (#[trigger] s[i]).1.fd == fd
                && s[i].1.interest.read implies aggregate(s, fd).read by {
            if i < n {
                assert(s.drop_last()[i].1.fd == fd && s.drop_last()[i].1.interest.read);
            }
        }
        assert forall|i: int|
            0 <= i < s.len() && (#[trigger] s[i]).1.fd == fd
                && s[i].1.interest.write implies aggregate(s, fd).write by {
            if i < n {
                assert(s.drop_last()[i].1.fd == fd && s.drop_last()[i].1.interest.write);
            }
        }
        assert forall|i: int|
            0 <= i < s.len() && (#[trigger] s[i]).1.fd == fd
                && s[i].1.interest.hangup implies aggregate(s, fd).hangup by {
            if i < n {
                assert(s.drop_last()[i].1.fd == fd && s.drop_last()[i].1.interest.hangup);
            }
        }
        assert forall|i: int|
            0 <= i < s.len() && (#[trigger] s[i]).1.fd == fd
                && s[i].1.interest.error implies aggregate(s, fd).error by {
            if i < n {
                assert(s.drop_last()[i].1.fd == fd && s.drop_last()[i].1.interest.error);
            }
        }
    }
}

/// Aggregates agree whenever the two entry sequences offer the same
/// directions for the descriptor.
pub proof fn lemma_aggregate_equal(s1: Seq<(u64, IoEvent)>, s2: Seq<(u64, IoEvent)>, fd: u64)
    requires
        (exists|i: int| 0 <= i < s1.len() && (#[trigger] s1[i]).1.fd == fd && s1[i].1.interest.read)
            <==> (exists|i: int|
            0 <= i < s2.len() && (#[trigger] s2[i]).1.fd == fd && s2[i].1.interest.read),
        (exists|i: int|
            0 <= i < s1.len() && (#[trigger] s1[i]).1.fd == fd && s1[i].1.interest.write) <==> (
        exists|i: int|
            0 <= i < s2.len() && (#[trigger] s2[i]).1.fd == fd && s2[i].1.interest.write),
        (exists|i: int|
            0 <= i < s1.len() && (#[trigger] s1[i]).1.fd == fd && s1[i].1.interest.hangup) <==> (
        exists|i: int|
            0 <= i < s2.len() && (#[trigger] s2[i]).1.fd == fd && s2[i].1.interest.hangup),
        (exists|i: int|
            0 <= i < s1.len() && (#[trigger] s1[i]).1.fd == fd && s1[i].1.interest.error) <==> (
        exists|i: int|
            0 <= i < s2.len() && (#[trigger] s2[i]).1.fd == fd && s2[i].1.interest.error),
    ensures
        aggregate(s1, fd) == aggregate(s2, fd),
{
    lemma_aggregate_directions(s1, fd);
    lemma_aggregate_directions(s2, fd);
}

/// Updating an entry in place, keeping its descriptor, leaves every other
/// descriptor's aggregate unchanged; when the interest is kept too, so is the
/// descriptor's own.
pub proof fn lemma_aggregate_after_update(
    pre: Seq<(u64, IoEvent)>,
    s: Seq<(u64, IoEvent)>,
    idx: int,
)
    requires
        s.len() == pre.len(),
        0 <= idx < pre.len(),
        forall|i: int| 0 <= i < pre.len() && i != idx ==> s[i] == pre[i],
        s[idx].1.fd == pre[idx].1.fd,
    ensures
        forall|fd2: u64|
            fd2 != pre[idx].1.fd ==> #[trigger] aggregate(s, fd2) == aggregate(pre, fd2),
        s[idx].1.interest == pre[idx].1.interest ==> aggregate(s, pre[idx].1.fd) == aggregate(
            pre,
            pre[idx].1.fd,
        ),
{
    let fd = pre[idx].1.fd;
    assert forall|fd2: u64| fd2 != fd implies #[trigger] aggregate(s, fd2) == aggregate(
        pre,
        fd2,
    ) by {
        assert forall|i: int|
            0 <= i < s.len() && (#[trigger] s[i]).1.fd == fd2 implies pre[i].1.fd == fd2 && pre[i]
            == s[i] by {}
        assert forall|i: int|
            0 <= i < pre.len() && (#[trigger] pre[i]).1.fd == fd2 implies s[i].1.fd == fd2 && s[i]
            == pre[i] by {}
        lemma_aggregate_equal(s, pre, fd2);
    }
    if s[idx].1.interest == pre[idx].1.interest {
        lemma_aggregate_equal(s, pre, fd);
    }
}

/// Removing an entry leaves every other descriptor's aggregate unchanged;
/// when the removed entry had no interest left, the descriptor's own
/// aggregate is unchanged too.
#[verifier::spinoff_prover]
pub proof fn lemma_aggregate_after_remove(pre: Seq<(u64, IoEvent)>, idx: int)
    requires
        0 <= idx < pre.len(),
    ensures
        forall|fd2: u64|
            fd2 != pre[idx].1.fd ==> #[trigger] aggregate(pre.remove(idx), fd2) == aggregate(
                pre,
                fd2,
            ),
        pre[idx].1.interest.spec_is_empty() ==> aggregate(pre.remove(idx), pre[idx].1.fd)
            == aggregate(pre, pre[idx].1.fd),
{
    let s = pre.remove(idx);
    let fd = pre[idx].1.fd;
    assert forall|fd2: u64|
        fd2 != fd || pre[idx].1.interest.spec_is_empty() implies #[trigger] aggregate(s, fd2)
        == aggregate(pre, fd2) by {
        assert forall|i: int| 0 <= i < s.len() implies s[i] == (if i < idx {
            pre[i]
        } else {
            pre[i + 1]
        }) by {}
        assert((exists|i: int|
            0 <= i < s.len() && (#[trigger] s[i]).1.fd == fd2 && s[i].1.interest.read) <==> (exists|
            i: int,
        |
            0 <= i < pre.len() && (#[trigger] pre[i]).1.fd == fd2 && pre[i].1.interest.read)) by {
            if exists|i: int|
                0 <= i < s.len() && (#[trigger] s[i]).1.fd == fd2 && s[i].1.interest.read {
                let i = choose|i: int|
                    0 <= i < s.len() && (#[trigger] s[i]).1.fd == fd2 && s[i].1.interest.read;
                let oi = if i < idx { i } else { i + 1 };
                assert(pre[oi].1.fd == fd2 && pre[oi].1.interest.read);
            }
            if exists|i: int|
                0 <= i < pre.len() && (#[trigger] pre[i]).1.fd == fd2 && pre[i].1.interest.read {
                let i = choose|i: int|
                    0 <= i < pre.len() && (#[trigger] pre[i]).1.fd == fd2 && pre[i].1.interest.read;
                if i != idx {
                    let ni = if i < idx { i } else { i - 1 };
                    assert(s[ni].1.fd == fd2 && s[ni].1.interest.read);
                }
            }
        }
        assert((exists|i: int|
            0 <= i < s.len() && (#[trigger] s[i]).1.fd == fd2 && s[i].1.interest.write) <==> (
        exists|i: int|
            0 <= i < pre.len() && (#[trigger] pre[i]).1.fd == fd2 && pre[i].1.interest.write)) by {
            if exists|i: int|
                0 <= i < s.len() && (#[trigger] s[i]).1.fd == fd2 && s[i].1.interest.write {
                let i = choose|i: int|
                    0 <= i < s.len() && (#[trigger] s[i]).1.fd == fd2 && s[i].1.interest.write;
                let oi = if i < idx { i } else { i + 1 };
                assert(pre[oi].1.fd == fd2 && pre[oi].1.interest.write);
            }
            if exists|i: int|
                0 <= i < pre.len() && (#[trigger] pre[i]).1.fd == fd2 && pre[i].1.interest.write {
                let i = choose|i: int|
                    0 <= i < pre.len() && (#[trigger] pre[i]).1.fd == fd2
                        && pre[i].1.interest.write;
                if i != idx {
                    let ni = if i < idx { i } else { i - 1 };
                    assert(s[ni].1.fd == fd2 && s[ni].1.interest.write);
                }
            }
        }
        assert((exists|i: int|
            0 <= i < s.len() && (#[trigger] s[i]).1.fd == fd2 && s[i].1.interest.hangup) <==> (
        exists|i: int|
            0 <= i < pre.len() && (#[trigger] pre[i]).1.fd == fd2 && pre[i].1.interest.hangup)) by {
            if exists|i: int|
                0 <= i < s.len() && (#[trigger] s[i]).1.fd == fd2 && s[i].1.interest.hangup {
                let i = choose|i: int|
                    0 <= i < s.len() && (#[trigger] s[i]).1.fd == fd2 && s[i].1.interest.hangup;
                let oi = if i < idx { i } else { i + 1 };
                assert(pre[oi].1.fd == fd2 && pre[oi].1.interest.hangup);
            }
            if exists|i: int|
                0 <= i < pre.len() && (#[trigger] pre[i]).1.fd == fd2 && pre[i].1.interest.hangup {
                let i = choose|i: int|
                    0 <= i < pre.len() && (#[trigger] pre[i]).1.fd == fd2
                        && pre[i].1.interest.hangup;
                if i != idx {
                    let ni = if i < idx { i } else { i - 1 };
                    assert(s[ni].1.fd == fd2 && s[ni].1.interest.hangup);
                }
            }
        }
        assert((exists|i: int|
            0 <= i < s.len() && (#[trigger] s[i]).1.fd == fd2 && s[i].1.interest.error) <==> (
        exists|i: int|
            0 <= i < pre.len() && (#[trigger] pre[i]).1.fd == fd2 && pre[i].1.interest.error)) by {
            if exists|i: int|
                0 <= i < s.len() && (#[trigger] s[i]).1.fd == fd2 && s[i].1.interest.error {
                let i = choose|i: int|
                    0 <= i < s.len() && (#[trigger] s[i]).1.fd == fd2 && s[i].1.interest.error;
                let oi = if i < idx { i } else { i + 1 };
                assert(pre[oi].1.fd == fd2 && pre[oi].1.interest.error);
            }
            if exists|i: int|
                0 <= i < pre.len() && (#[trigger] pre[i]).1.fd == fd2 && pre[i].1.interest.error {
                let i = choose|i: int|
                    0 <= i < pre.len() && (#[trigger] pre[i]).1.fd == fd2
                        && pre[i].1.interest.error;
                if i != idx {
                    let ni = if i < idx { i } else { i - 1 };
                    assert(s[ni].1.fd == fd2 && s[ni].1.interest.error);
                }
            }
        }
        lemma_aggregate_equal(s, pre, fd2);
    }
}

/// The I/O subsystem: the event collection and one watcher per descriptor
/// with remaining interest.
pub struct Io {
    /// The registered events, keyed by handle.
    pub events: Registry<IoEvent>,
    /// The armed interest of each descriptor's watcher, keyed by descriptor.
    pub watchers: Registry<Interest>,
}

impl Io {
    /// Well-formed: unique keys; every watcher is armed with exactly the
    /// union of its descriptor's event interests; every descriptor with any
    /// interest has a watcher; a freed event no longer has interest.
    pub open spec fn wf(self) -> bool {
        &&& self.events.wf()
        &&& self.watchers.wf()
        &&& forall|fd: u64|
            #[trigger] self.watchers.contains_key(fd) ==> self.watchers.val_of(fd) == aggregate(
                self.events.entries(),
                fd,
            )
        &&& forall|fd: u64|
            !(#[trigger] aggregate(self.events.entries(), fd)).spec_is_empty()
                ==> self.watchers.contains_key(fd)
        &&& forall|k: u64|
            #[trigger] self.events.contains_key(k) && self.events.val_of(k).doomed
                ==> self.events.val_of(k).interest.spec_is_empty()
    }

    /// Well-formed but for the watcher of one descriptor, which
    /// `sync_watcher` is about to mend.
    pub open spec fn wf_except(self, fd: u64) -> bool {
        &&& self.events.wf()
        &&& self.watchers.wf()
        &&& forall|fd2: u64|
            fd2 != fd && #[trigger] self.watchers.contains_key(fd2) ==> self.watchers.val_of(fd2)
                == aggregate(self.events.entries(), fd2)
        &&& forall|fd2: u64|
            fd2 != fd && !(#[trigger] aggregate(self.events.entries(), fd2)).spec_is_empty()
                ==> self.watchers.contains_key(fd2)
        &&& forall|k: u64|
            #[trigger] self.events.contains_key(k) && self.events.val_of(k).doomed
                ==> self.events.val_of(k).interest.spec_is_empty()
    }

    /// Whether a handle names a registered event.
    pub open spec fn contains(self, h: u64) -> bool {
        self.events.contains_key(h)
    }

    /// The event a handle names.
    pub open spec fn event(self, h: u64) -> IoEvent {
        self.events.val_of(h)
    }

    /// Whether a dispatch with the given surviving readiness notifies the
    /// event: it must sit on the descriptor and want one of the surviving
    /// directions.
    pub open spec fn delivers(self, fd: u64, effective: Interest, h: u64) -> bool {
        &&& self.contains(h)
        &&& self.event(h).fd == fd
        &&& !self.event(h).interest.spec_intersect(effective).spec_is_empty()
    }

    /// What a returned [`WatcherAction`] means, relating the states before
    /// and after the operation: `Idle` only for a descriptor with no watcher
    /// and no interest, `Spawn` exactly when a watcher was created for fresh
    /// interest and carries its armed set, `Notify` exactly when a watcher
    /// already existed and must be woken.
    pub open spec fn watcher_action_ok(pre: Io, post: Io, fd: u64, act: WatcherAction) -> bool {
        match act {
            WatcherAction::Idle => !post.watchers.contains_key(fd) && aggregate(
                post.events.entries(),
                fd,
            ).spec_is_empty(),
            WatcherAction::Spawn(m) => post.watchers.contains_key(fd)
                && !pre.watchers.contains_key(fd) && m == aggregate(post.events.entries(), fd)
                && !m.spec_is_empty(),
            WatcherAction::Notify => post.watchers.contains_key(fd) && pre.watchers.contains_key(
                fd,
            ),
        }
    }

    /// An empty subsystem.
    pub fn new() -> (r: Io)
        ensures
            r.wf(),
            r.events.spec_len() == 0,
            r.watchers.spec_len() == 0,
            forall|h: u64| !r.contains(h),
    {
        let r = Io { events: Registry::new(), watchers: Registry::new() };
        proof {
            assert forall|fd: u64|
                !(#[trigger] aggregate(r.events.entries(), fd)).spec_is_empty()
                    implies r.watchers.contains_key(fd) by {
                lemma_aggregate_directions(r.events.entries(), fd);
            }
        }
        r
    }

    /// The union of the interests of every event on the descriptor.
    fn compute_aggregate(&self, fd: u64) -> (r: Interest)
        ensures
            r == aggregate(self.events.entries(), fd),
    {
        let n = self.events.len();
        let mut acc = Interest::empty();
        let mut i: usize = 0;
        proof {
            assert(self.events.entries().take(0) =~= Seq::<(u64, IoEvent)>::empty());
        }
        while i < n
            invariant
                n == self.events.spec_len(),
                i <= n,
                acc == aggregate(self.events.entries().take(i as int), fd),
            decreases n - i,
        {
            let ev = *self.events.value_at(i);
            if ev.fd == fd {
                acc = acc.union(ev.interest);
            }
            proof {
                let t = self.events.entries().take(i + 1);
                assert(t.drop_last() =~= self.events.entries().take(i as int));
                assert(t.last() == self.events.entries()[i as int]);
            }
            i = i + 1;
        }
        proof {
            assert(self.events.entries().take(n as int) =~= self.events.entries());
        }
        acc
    }

    /// Re-derives the watcher state of one descriptor after its events
    /// changed, and says what the caller must do: start a watcher task when
    /// interest appeared on an unwatched descriptor, wake the existing task
    /// when one is there (it re-reads its interest and exits on its own once
    /// none remains), or nothing when the descriptor is idle.
    fn sync_watcher(&mut self, fd: u64) -> (act: WatcherAction)
        requires
            old(self).wf_except(fd),
        ensures
            final(self).wf(),
            final(self).events == old(self).events,
            forall|fd2: u64|
                fd2 != fd ==> final(self).watchers.contains_key(fd2) == old(
                    self,
                ).watchers.contains_key(fd2),
            Io::watcher_action_ok(*old(self), *final(self), fd, act),
    {
        let m = self.compute_aggregate(fd);
        let present = match self.watchers.get(fd) {
            Some(_) => true,
            None => false,
        };
        if present {
            self.watchers.put(fd, m);
            WatcherAction::Notify
        } else if !m.is_empty() {
            self.watchers.insert(fd, m);
            WatcherAction::Spawn(m)
        } else {
            WatcherAction::Idle
        }
    }

    /// Registers a new event under a fresh handle, as the foreign `io_new`
    /// entry demands, and includes its interest in the descriptor's watcher.
    pub fn spawn(&mut self, h: u64, fd: u64, interest: Interest) -> (act: WatcherAction)
        requires
            old(self).wf(),
            !old(self).contains(h),
        ensures
            final(self).wf(),
            final(self).contains(h),
            final(self).event(h) == (IoEvent { fd, interest, doomed: false, has_destroy: false }),
            forall|k: u64| k != h ==> final(self).contains(k) == old(self).contains(k),
            forall|k: u64|
                k != h && old(self).contains(k) ==> final(self).event(k) == old(self).event(k),
            Io::watcher_action_ok(*old(self), *final(self), fd, act),
            act is Spawn || act is Notify || interest.spec_is_empty(),
    {
        let ghost pre = self.events.entries();
        self.events.insert(h, IoEvent { fd, interest, doomed: false, has_destroy: false });
        proof {
            self.lemma_push_keeps_other_aggregates(pre, fd);
        }
        let act = self.sync_watcher(fd);
        proof {
            if interest.spec_is_empty() == false && act is Idle {
                lemma_aggregate_directions(self.events.entries(), fd);
                let n = pre.len() as int;
                assert(self.events.entries()[n].1.fd == fd);
            }
        }
        act
    }

    /// After pushing an entry for descriptor `fd`, every other descriptor's
    /// aggregate is unchanged, so the subsystem is well-formed but for `fd`.
    proof fn lemma_push_keeps_other_aggregates(self, pre: Seq<(u64, IoEvent)>, fd: u64)
        requires
            self.events.wf(),
            self.watchers.wf(),
            self.events.entries().len() == pre.len() + 1,
            forall|i: int| 0 <= i < pre.len() ==> self.events.entries()[i] == pre[i],
            self.events.entries().last().1.fd == fd,
            forall|fd2: u64|
                #[trigger] self.watchers.contains_key(fd2) ==> self.watchers.val_of(fd2)
                    == aggregate(pre, fd2),
            forall|fd2: u64|
                !(#[trigger] aggregate(pre, fd2)).spec_is_empty() ==> self.watchers.contains_key(
                    fd2,
                ),
            forall|k: u64|
                #[trigger] self.events.contains_key(k) && self.events.val_of(k).doomed
                    ==> self.events.val_of(k).interest.spec_is_empty(),
        ensures
            self.wf_except(fd),
    {
        let s = self.events.entries();
        assert forall|fd2: u64| fd2 != fd implies aggregate(s, fd2) == aggregate(pre, fd2) by {
            assert(s.drop_last() =~= pre);
        }
    }

    /// Replaces one event's interest, as the foreign `io_enable` entry
    /// demands, and re-derives the descriptor's watcher: the watcher follows
    /// the union of the enabled interests at every step.
    pub fn enable(&mut self, h: u64, interest: Interest) -> (act: WatcherAction)
        requires
            old(self).wf(),
            old(self).contains(h),
            !old(self).event(h).doomed,
        ensures
            final(self).wf(),
            final(self).contains(h),
            final(self).event(h) == (IoEvent { interest, ..old(self).event(h) }),
            forall|k: u64| final(self).contains(k) == old(self).contains(k),
            forall|k: u64|
                k != h && old(self).contains(k) ==> final(self).event(k) == old(self).event(k),
            Io::watcher_action_ok(*old(self), *final(self), old(self).event(h).fd, act),
    {
        let ev = *self.events.get(h).unwrap();
        let ghost pre = self.events.entries();
        self.events.put(h, IoEvent { interest, ..ev });
        proof {
            self.lemma_update_keeps_other_aggregates(pre, old(self).events.index_of(h), ev.fd);
        }
        self.sync_watcher(ev.fd)
    }

    /// After updating the entry at `idx` — whose descriptor is `fd` both
    /// before and after — every other descriptor's aggregate is unchanged.
    proof fn lemma_update_keeps_other_aggregates(self, pre: Seq<(u64, IoEvent)>, idx: int, fd: u64)
        requires
            self.events.wf(),
            self.watchers.wf(),
            self.events.entries().len() == pre.len(),
            0 <= idx < pre.len(),
            forall|i: int| 0 <= i < pre.len() && i != idx ==> self.events.entries()[i] == pre[i],
            self.events.entries()[idx].1.fd == fd,
            pre[idx].1.fd == fd,
            forall|fd2: u64|
                #[trigger] self.watchers.contains_key(fd2) ==> self.watchers.val_of(fd2)
                    == aggregate(pre, fd2),
            forall|fd2: u64|
                !(#[trigger] aggregate(pre, fd2)).spec_is_empty() ==> self.watchers.contains_key(
                    fd2,
                ),
            forall|k: u64|
                #[trigger] self.events.contains_key(k) && self.events.val_of(k).doomed
                    ==> self.events.val_of(k).interest.spec_is_empty(),
        ensures
            self.wf_except(fd),
    {
        lemma_aggregate_after_update(pre, self.events.entries(), idx);
    }

    /// Replaces an event's destroy callback, as the foreign `io_set_destroy`
    /// entry demands.  No interest changes, so no watcher does either.
    pub fn set_destroy_cb(&mut self, h: u64, has: bool)
        requires
            old(self).wf(),
            old(self).contains(h),
            !old(self).event(h).doomed,
        ensures
            final(self).wf(),
            final(self).contains(h),
            final(self).event(h) == (IoEvent { has_destroy: has, ..old(self).event(h) }),
            forall|k: u64| final(self).contains(k) == old(self).contains(k),
            forall|k: u64|
                k != h && old(self).contains(k) ==> final(self).event(k) == old(self).event(k),
            final(self).watchers == old(self).watchers,
    {
        let ev = *self.events.get(h).unwrap();
        let ghost pre = self.events.entries();
        self.events.put(h, IoEvent { has_destroy: has, ..ev });
        proof {
            let idx = old(self).events.index_of(h);
            lemma_aggregate_after_update(pre, self.events.entries(), idx);
            assert forall|fd2: u64|
                #[trigger] aggregate(self.events.entries(), fd2) == aggregate(pre, fd2) by {
            }
        }
    }

    /// Frees an event, as the foreign `io_free` entry demands.
    ///
    /// Outside a dispatch the event is removed at once; the caller delivers
    /// its destroy notification now if the payload of `Destroy` says one was
    /// set.  Inside a dispatch the event's interest is withdrawn — so no
    /// further dispatch notifies it — and a scheduled task delivers the one
    /// destroy notification through `complete_free`; the collection is not
    /// mutated under the walk.  Either way the descriptor's watcher is
    /// re-derived.
    #[verifier::spinoff_prover]
    pub fn free(&mut self, h: u64, in_dispatch: bool) -> (r: (Option<bool>, WatcherAction))
        requires
            old(self).wf(),
            old(self).contains(h),
            !old(self).event(h).doomed,
        ensures
            final(self).wf(),
            forall|k: u64| k != h ==> final(self).contains(k) == old(self).contains(k),
            forall|k: u64|
                k != h && old(self).contains(k) ==> final(self).event(k) == old(self).event(k),
            !in_dispatch ==> r.0 == Some(old(self).event(h).has_destroy) && !final(self).contains(
                h,
            ),
            in_dispatch ==> r.0 is None && final(self).contains(h) && final(self).event(h) == (
            IoEvent {
                interest: Interest { read: false, write: false, hangup: false, error: false },
                doomed: true,
                ..old(self).event(h)
            }),
            // Whichever path, the event can no longer be notified.
            forall|eff: Interest| !final(self).delivers(old(self).event(h).fd, eff, h),
            Io::watcher_action_ok(*old(self), *final(self), old(self).event(h).fd, r.1),
    {
        let ev = *self.events.get(h).unwrap();
        let ghost pre = self.events.entries();
        if in_dispatch {
            self.events.put(
                h,
                IoEvent { interest: Interest::empty(), doomed: true, ..ev },
            );
            proof {
                self.lemma_update_keeps_other_aggregates(
                    pre,
                    old(self).events.index_of(h),
                    ev.fd,
                );
            }
            let act = self.sync_watcher(ev.fd);
            (None, act)
        } else {
            self.events.remove(h);
            proof {
                let idx = old(self).events.index_of(h);
                assert(self.events.entries() =~= pre.remove(idx));
                lemma_aggregate_after_remove(pre, idx);
            }
            let act = self.sync_watcher(ev.fd);
            (Some(ev.has_destroy), act)
        }
    }

    /// Delivers the destroy notification deferred by a free made inside a
    /// dispatch.  Returns what the scheduled task must do: invoke the destroy
    /// callback if `Some(true)`, nothing if the event is already gone (the
    /// driver was torn down first).
    #[verifier::spinoff_prover]
    pub fn complete_free(&mut self, h: u64) -> (r: Option<bool>)
        requires
            old(self).wf(),
        ensures
            final(self).wf(),
            forall|k: u64| k != h ==> final(self).contains(k) == old(self).contains(k),
            forall|k: u64|
                k != h && old(self).contains(k) ==> final(self).event(k) == old(self).event(k),
            old(self).contains(h) && old(self).event(h).doomed ==> r == Some(
                old(self).event(h).has_destroy,
            ) && !final(self).contains(h),
            !(old(self).contains(h) && old(self).event(h).doomed) ==> r is None && final(self).events
                == old(self).events && final(self).watchers == old(self).watchers,
    {
        let ev_opt = match self.events.get(h) {
            Some(e) => Some(*e),
            None => None,
        };
        match ev_opt {
            Some(ev) => {
                if !ev.doomed {
                    return None;
                }
                let ghost pre = self.events.entries();
                self.events.remove(h);
                proof {
                    let idx = old(self).events.index_of(h);
                    old(self).events.lemma_at_index(idx);
                    assert(pre[idx].1.interest.spec_is_empty());
                    assert(self.events.entries() =~= pre.remove(idx));
                    lemma_aggregate_after_remove(pre, idx);
                    assert forall|fd2: u64|
                        #[trigger] aggregate(self.events.entries(), fd2) == aggregate(
                        pre,
                        fd2,
                    ) by {
                        if fd2 == pre[idx].1.fd {
                        }
                    }
                }
                Some(ev.has_destroy)
            },
            None => None,
        }
    }

    /// A watcher task woke: either poll for the armed interest, or — when no
    /// interest remains — withdraw the descriptor's registration and end.
    pub fn watcher_wake(&mut self, fd: u64) -> (r: WatcherWake)
        requires
            old(self).wf(),
        ensures
            final(self).wf(),
            final(self).events == old(self).events,
            !old(self).watchers.contains_key(fd) ==> r == WatcherWake::Exit && final(self).watchers
                == old(self).watchers,
            old(self).watchers.contains_key(fd) && old(self).watchers.val_of(fd).spec_is_empty()
                ==> r == WatcherWake::Exit && !final(self).watchers.contains_key(fd),
            old(self).watchers.contains_key(fd) && !old(self).watchers.val_of(fd).spec_is_empty()
                ==> r == WatcherWake::Poll(old(self).watchers.val_of(fd)) && final(self).watchers
                == old(self).watchers,
            r is Poll ==> r->0 == aggregate(old(self).events.entries(), fd),
    {
        let m_opt = match self.watchers.get(fd) {
            Some(m) => Some(*m),
            None => None,
        };
        match m_opt {
            None => WatcherWake::Exit,
            Some(m) => {
                if m.is_empty() {
                    self.watchers.remove(fd);
                    WatcherWake::Exit
                } else {
                    WatcherWake::Poll(m)
                }
            },
        }
    }

    /// Decides one dispatch of a descriptor's watcher, simulating level
    /// semantics: the reactor's reported readiness `edge` is re-validated
    /// against the kernel's answer `kernel` from a non-blocking poll of the
    /// descriptor; only directions both report survive.  Directions of the
    /// polled mask that did not survive are re-armed with the reactor
    /// (`need_read` / `need_write`), so a later edge is not missed.  Every
    /// event on the descriptor interested in a surviving direction is
    /// notified once, with the intersection of its interest and the surviving
    /// set.
    #[verifier::rlimit(50)]
    #[verifier::spinoff_prover]
    pub fn dispatch(&self, fd: u64, mask: Interest, edge: Interest, kernel: Interest) -> (r: (
        Vec<(u64, Interest)>,
        bool,
        bool,
    ))
        requires
            self.wf(),
        ensures
            ({
                let effective = edge.spec_intersect(kernel);
                &&& r.1 == (mask.spec_has_read_side() && !effective.spec_has_read_side())
                &&& r.2 == (mask.write && !effective.write)
                &&& forall|i: int|
                    0 <= i < r.0.len() ==> {
                        let (h, m) = #[trigger] r.0[i];
                        &&& self.delivers(fd, effective, h)
                        &&& m == self.event(h).interest.spec_intersect(effective)
                    }
                &&& forall|h: u64|
                    #[trigger] self.delivers(fd, effective, h) ==> exists|i: int|
                        0 <= i < r.0@.len() && (#[trigger] r.0@[i]).0 == h
                &&& forall|a: int, b: int| 0 <= a < b < r.0.len() ==> r.0[a].0 != r.0[b].0
            }),
    {
        let effective = edge.intersect(kernel);
        let need_read = mask.has_read_side() && !effective.has_read_side();
        let need_write = mask.write && !effective.write;
        let n = self.events.len();
        let mut out: Vec<(u64, Interest)> = Vec::new();
        let mut i: usize = 0;
        while i < n
            invariant
                self.wf(),
                n == self.events.spec_len(),
                i <= n,
                effective == edge.spec_intersect(kernel),
                forall|a: int|
                    0 <= a < out@.len() ==> {
                        let (h, m) = #[trigger] out@[a];
                        &&& self.delivers(fd, effective, h)
                        &&& m == self.event(h).interest.spec_intersect(effective)
                    },
                forall|j: int|
                    0 <= j < i && self.delivers(fd, effective, (#[trigger] self.events.entries()[j]).0)
                        ==> exists|a: int|
                        0 <= a < out@.len() && (#[trigger] out@[a]).0 == self.events.entries()[j].0,
                forall|a: int, b: int| 0 <= a < b < out@.len() ==> out@[a].0 != out@[b].0,
                forall|a: int|
                    0 <= a < out@.len() ==> exists|j: int|
                        0 <= j < i && (#[trigger] out@[a]).0 == (
                        #[trigger] self.events.entries()[j]).0,
            decreases n - i,
        {
            let k = self.events.key_at(i);
            let ev = *self.events.value_at(i);
            proof {
                self.events.lemma_at_index(i as int);
            }
            let ghost pre = out@;
            if ev.fd == fd {
                let hit = ev.interest.intersect(effective);
                if !hit.is_empty() {
                    proof {
                        assert forall|a: int| 0 <= a < out@.len() implies (#[trigger] out@[a]).0
                            != k by {
                            let j = choose|j: int|
                                0 <= j < i && (#[trigger] out@[a]).0 == (
                                #[trigger] self.events.entries()[j]).0;
                            if out@[a].0 == k {
                                self.events.lemma_index_unique(j, i as int);
                            }
                        }
                    }
                    out.push((k, hit));
                    proof {
                        assert(out@.drop_last() =~= pre);
                        assert(out@.last() == (k, hit));
                        assert(self.delivers(fd, effective, k));
                        assert forall|a: int| 0 <= a < out@.len() implies exists|j: int|
                            0 <= j < i + 1 && (#[trigger] out@[a]).0 == (
                            #[trigger] self.events.entries()[j]).0 by {
                            if a < pre.len() {
                                assert(out@[a] == pre[a]);
                            } else {
                                assert(self.events.entries()[i as int].0 == k);
                            }
                        }
                    }
                }
            }
            proof {
                assert forall|j: int|
                    0 <= j < i + 1 && self.delivers(
                        fd,
                        effective,
                        (#[trigger] self.events.entries()[j]).0,
                    ) implies exists|a: int|
                    0 <= a < out@.len() && (#[trigger] out@[a]).0
                        == self.events.entries()[j].0 by {
                    if j < i {
                        let a = choose|a: int|
                            0 <= a < pre.len() && (#[trigger] pre[a]).0
                                == self.events.entries()[j].0;
                        assert(out@[a] == pre[a]);
                    } else {
                        assert(self.delivers(fd, effective, k));
                        assert(out@.last().0 == k);
                        assert(out@[out@.len() - 1].0 == k);
                    }
                }
            }
            i = i + 1;
        }
        proof {
            assert forall|h: u64| #[trigger] self.delivers(fd, effective, h) implies exists|a: int|
                0 <= a < out@.len() && (#[trigger] out@[a]).0 == h by {
                let j = self.events.index_of(h);
                self.events.lemma_at_index(j);
                assert(self.events.entries()[j].0 == h);
                let a = choose|a: int|
                    0 <= a < out@.len() && (#[trigger] out@[a]).0 == self.events.entries()[j].0;
                assert(out@[a].0 == h);
            }
        }
        let ghost outsnap = out@;
        let r = (out, need_read, need_write);
        proof {
            assert(r.0@ == outsnap);
            assert forall|h: u64| #[trigger] self.delivers(fd, effective, h) implies exists|i: int|
                0 <= i < r.0@.len() && (#[trigger] r.0@[i]).0 == h by {
                let a = choose|a: int| 0 <= a < outsnap.len() && (#[trigger] outsnap[a]).0 == h;
                assert(r.0@[a].0 == h);
            }
        }
        r
    }

    /// Empties the subsystem at driver teardown and reports every event whose
    /// destroy callback must be invoked — each exactly once.
    #[verifier::spinoff_prover]
    pub fn free_all(&mut self) -> (r: Vec<u64>)
        requires
            old(self).wf(),
        ensures
            final(self).wf(),
            final(self).events.spec_len() == 0,
            final(self).watchers.spec_len() == 0,
            forall|a: int, b: int| 0 <= a < b < r@.len() ==> r@[a] != r@[b],
            forall|k: u64|
                #[trigger] r@.contains(k) <==> old(self).contains(k) && old(
                    self,
                ).event(k).has_destroy,
    {
        let mut r: Vec<u64> = Vec::new();
        let n = self.events.len();
        let mut i: usize = 0;
        while i < n
            invariant
                self.wf(),
                self.events == old(self).events,
                n == self.events.spec_len(),
                i <= n,
                forall|k: u64|
                    #[trigger] r@.contains(k) <==> exists|j: int|
                        0 <= j < i && (#[trigger] self.events.entries()[j]).0 == k
                            && self.events.entries()[j].1.has_destroy,
                forall|a: int, b: int| 0 <= a < b < r@.len() ==> r@[a] != r@[b],
            decreases n - i,
        {
            let k = self.events.key_at(i);
            let ev = *self.events.value_at(i);
            if ev.has_destroy {
                proof {
                    if r@.contains(k) {
                        let j = choose|j: int|
                            0 <= j < i && (#[trigger] self.events.entries()[j]).0 == k
                                && self.events.entries()[j].1.has_destroy;
                        self.events.lemma_index_unique(j, i as int);
                    }
                }
                let ghost pre = r@;
                r.push(k);
                proof {
                    assert forall|k2: u64| #[trigger] r@.contains(k2) implies exists|j: int|
                        0 <= j < i + 1 && (#[trigger] self.events.entries()[j]).0 == k2
                            && self.events.entries()[j].1.has_destroy by {
                        if k2 == k {
                            assert(self.events.entries()[i as int].0 == k2);
                        } else {
                            assert(r@.drop_last() =~= pre);
                            assert(pre.contains(k2));
                        }
                    }
                }
            }
            i = i + 1;
        }
        proof {
            assert forall|k: u64| #[trigger] r@.contains(k) implies old(self).contains(k) && old(
                self,
            ).event(k).has_destroy by {
                let j = choose|j: int|
                    0 <= j < n && (#[trigger] self.events.entries()[j]).0 == k
                        && self.events.entries()[j].1.has_destroy;
                self.events.lemma_at_index(j);
            }
            assert forall|k: u64|
                old(self).contains(k) && old(self).event(k).has_destroy implies r@.contains(k) by {
                self.events.lemma_at_index(self.events.index_of(k));
            }
        }
        self.events.clear();
        self.watchers.clear();
        proof {
            assert forall|fd: u64|
                !(#[trigger] aggregate(self.events.entries(), fd)).spec_is_empty()
                    implies self.watchers.contains_key(fd) by {
                lemma_aggregate_directions(self.events.entries(), fd);
            }
        }
        r
    }
}

/// In every well-formed state, a descriptor's watcher is armed with exactly
/// the union of the interests of the events registered on it — one watcher
/// per descriptor, covering every descriptor with any interest left.  Every
/// operation of the subsystem preserves well-formedness, so this holds at
/// every point of any call sequence.
pub proof fn lemma_watcher_is_union(s: Io, fd: u64)
    requires
        s.wf(),
        s.watchers.contains_key(fd),
    ensures
        s.watchers.val_of(fd) == aggregate(s.events.entries(), fd),
        s.watchers.val_of(fd).read <==> exists|i: int|
            0 <= i < s.events.entries().len() && (#[trigger] s.events.entries()[i]).1.fd == fd
                && s.events.entries()[i].1.interest.read,
        s.watchers.val_of(fd).write <==> exists|i: int|
            0 <= i < s.events.entries().len() && (#[trigger] s.events.entries()[i]).1.fd == fd
                && s.events.entries()[i].1.interest.write,
        s.watchers.val_of(fd).hangup <==> exists|i: int|
            0 <= i < s.events.entries().len() && (#[trigger] s.events.entries()[i]).1.fd == fd
                && s.events.entries()[i].1.interest.hangup,
        s.watchers.val_of(fd).error <==> exists|i: int|
            0 <= i < s.events.entries().len() && (#[trigger] s.events.entries()[i]).1.fd == fd
                && s.events.entries()[i].1.interest.error,
{
    lemma_aggregate_directions(s.events.entries(), fd);
}

/// Level-triggering: as long as a readable descriptor stays readable through
/// the kernel re-check, every pass of its watcher notifies every event
/// interested in reading — not only the first (edge) detection.  A dispatch
/// never mutates the subsystem, so the guarantee repeats on each of any
/// number of passes.
pub proof fn lemma_level_triggered(s: Io, fd: u64, h: u64, passes: Seq<(Interest, Interest)>)
    requires
        s.wf(),
        s.contains(h),
        s.event(h).fd == fd,
        s.event(h).interest.read,
        forall|j: int|
            0 <= j < passes.len() ==> (#[trigger] passes[j]).0.read && passes[j].1.read,
    ensures
        forall|j: int|
            0 <= j < passes.len() ==> s.delivers(
                fd,
                (#[trigger] passes[j]).0.spec_intersect(passes[j].1),
                h,
            ) && s.event(h).interest.spec_intersect(
                passes[j].0.spec_intersect(passes[j].1),
            ).read,
{
}

} // verus!
