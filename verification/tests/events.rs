use pulseaudio::{
    DeadlineOutcome, Driver, Interest, TimeSpec, TimerFreeAction, WatcherAction, WatcherWake,
    PA_IO_EVENT_INPUT, PA_IO_EVENT_OUTPUT,
};

fn read_only() -> Interest {
    Interest { read: true, write: false, hangup: false, error: false }
}

fn write_only() -> Interest {
    Interest { read: false, write: true, hangup: false, error: false }
}

fn no_interest() -> Interest {
    Interest { read: false, write: false, hangup: false, error: false }
}

#[test]
fn watcher_aggregate_is_union_of_interests() {
    let mut d = Driver::new(false);
    let (h1, act1) = d.io_new(3, PA_IO_EVENT_INPUT);
    assert!(matches!(act1, WatcherAction::Spawn(m) if m == read_only()));
    let (_h2, act2) = d.io_new(3, PA_IO_EVENT_OUTPUT);
    assert_eq!(act2, WatcherAction::Notify);
    // The watcher now polls for the union of both interests.
    match d.io_watcher_wake(3) {
        WatcherWake::Poll(m) => {
            assert!(m.read && m.write && !m.hangup && !m.error);
        }
        WatcherWake::Exit => panic!("watcher should still be armed"),
    }
    // Disabling one event shrinks the aggregate to the other's interest.
    let act3 = d.io_enable(h1, 0);
    assert_eq!(act3, WatcherAction::Notify);
    match d.io_watcher_wake(3) {
        WatcherWake::Poll(m) => assert_eq!(m, write_only()),
        WatcherWake::Exit => panic!("one interest remains"),
    }
}

#[test]
fn watcher_exits_when_no_interest_remains() {
    let mut d = Driver::new(false);
    let (h, act) = d.io_new(9, PA_IO_EVENT_INPUT);
    assert!(matches!(act, WatcherAction::Spawn(_)));
    d.io_enable(h, 0);
    // The woken watcher finds an empty aggregate and ends.
    assert_eq!(d.io_watcher_wake(9), WatcherWake::Exit);
    // A later wake of the stale task also just ends.
    assert_eq!(d.io_watcher_wake(9), WatcherWake::Exit);
    // Re-enabling creates a fresh watcher registration.
    let act2 = d.io_enable(h, PA_IO_EVENT_INPUT);
    assert!(matches!(act2, WatcherAction::Spawn(m) if m == read_only()));
}

#[test]
fn level_trigger_fires_on_every_pass() {
    let mut d = Driver::new(false);
    let (h, _) = d.io_new(5, PA_IO_EVENT_INPUT);
    // The descriptor stays readable through the kernel re-check on each of
    // several passes; the callback is notified every time, not only at the
    // first edge.
    for _pass in 0..4 {
        let (deliveries, need_read, need_write) =
            d.io_dispatch(5, read_only(), read_only(), read_only());
        assert_eq!(deliveries.len(), 1);
        assert_eq!(deliveries[0], (h, PA_IO_EVENT_INPUT));
        assert!(!need_read);
        assert!(!need_write);
    }
}

#[test]
fn kernel_recheck_demotes_stale_edge() {
    let mut d = Driver::new(false);
    let (_h, _) = d.io_new(5, PA_IO_EVENT_INPUT);
    // The reactor reported readable but the kernel says nothing is ready:
    // no event is notified and the read side is re-armed.
    let (deliveries, need_read, need_write) =
        d.io_dispatch(5, read_only(), read_only(), no_interest());
    assert!(deliveries.is_empty());
    assert!(need_read);
    assert!(!need_write);
}

#[test]
fn io_free_within_dispatch_destroys_exactly_once() {
    let mut d = Driver::new(false);
    let (h, _) = d.io_new(4, PA_IO_EVENT_INPUT);
    d.io_set_destroy(h, true);
    let mut destroys = 0;
    // The event frees itself inside its own firing.
    let (r, _act) = d.io_free(h, true);
    assert_eq!(r, None); // not destroyed synchronously under the walk
    // It is not notified again while awaiting removal.
    let (deliveries, _, _) = d.io_dispatch(4, read_only(), read_only(), read_only());
    assert!(deliveries.is_empty());
    // The scheduled task delivers the one destroy notification.
    if d.io_complete_free(h) == Some(true) {
        destroys += 1;
    }
    // A duplicate of the scheduled task finds nothing.
    if d.io_complete_free(h) == Some(true) {
        destroys += 1;
    }
    assert_eq!(destroys, 1);
}

#[test]
fn io_free_outside_dispatch_destroys_synchronously() {
    let mut d = Driver::new(false);
    let (h, _) = d.io_new(4, PA_IO_EVENT_INPUT);
    d.io_set_destroy(h, true);
    let (r, _act) = d.io_free(h, false);
    assert_eq!(r, Some(true));
    assert_eq!(d.io_complete_free(h), None);
}

#[test]
fn timer_cancel_before_deadline_never_fires() {
    let mut d = Driver::new(false);
    let deadline = TimeSpec { sec: 100, usec: 0 };
    let (h, start) = d.time_new(Some(deadline));
    let old_token = start.expect("armed timer starts a delay").token;
    // Restart strictly before the delay lands: the old arming is withdrawn.
    let start2 = d.time_restart(h, Some(TimeSpec { sec: 200, usec: 0 }));
    let new_token = start2.unwrap().token;
    assert_ne!(old_token, new_token);
    // The old delay lands late and resolves stale; the fire callback never
    // runs for it.
    assert_eq!(d.time_on_deadline(h, old_token), DeadlineOutcome::Stale);
    // The new arming fires with its own deadline, exactly once.
    assert_eq!(
        d.time_on_deadline(h, new_token),
        DeadlineOutcome::Fire(TimeSpec { sec: 200, usec: 0 })
    );
    assert_eq!(d.time_on_deadline(h, new_token), DeadlineOutcome::Stale);
}

#[test]
fn timer_free_before_deadline_never_fires() {
    let mut d = Driver::new(false);
    let (h, start) = d.time_new(Some(TimeSpec { sec: 7, usec: 1 }));
    let token = start.unwrap().token;
    assert_eq!(d.time_free(h, false), TimerFreeAction::Destroy(false));
    // The in-flight delay finds the timer gone and simply ends.
    assert_eq!(d.time_on_deadline(h, token), DeadlineOutcome::Gone);
}

#[test]
fn timer_freed_inside_dispatch_rides_on_race() {
    let mut d = Driver::new(false);
    let (h, start) = d.time_new(Some(TimeSpec { sec: 7, usec: 0 }));
    let token = start.unwrap().token;
    d.time_set_destroy(h, true);
    // Freed from inside a callback while the delay is in flight: nothing is
    // destroyed yet, the race will deliver it.
    assert_eq!(d.time_free(h, true), TimerFreeAction::RidesOnRace);
    assert_eq!(
        d.time_on_deadline(h, token),
        DeadlineOutcome::DestroyAfterRace(true)
    );
    // Afterwards the timer is gone.
    assert_eq!(d.time_on_deadline(h, token), DeadlineOutcome::Gone);
}

#[test]
fn timer_freed_inside_dispatch_while_disarmed_is_scheduled() {
    let mut d = Driver::new(false);
    let (h, start) = d.time_new(None);
    assert!(start.is_none());
    d.time_set_destroy(h, true);
    assert_eq!(d.time_free(h, true), TimerFreeAction::Scheduled);
    assert_eq!(d.time_complete_free(h), Some(true));
    assert_eq!(d.time_complete_free(h), None);
}

#[test]
fn deferred_chain_drains_in_one_wake() {
    let mut d = Driver::new(false);
    // Four events; firing event i enables event i + 1.
    let handles: Vec<u64> = (0..4).map(|_| d.defer_new(false)).collect();
    for &h in &handles[1..] {
        d.defer_enable(h, false);
    }
    let mut fired = vec![0usize; handles.len()];
    let mut wakes = 0;
    // One wake of the drain task: passes repeat until a full pass makes no
    // progress.
    loop {
        wakes += 1;
        let fires = d.deferred.fire_list();
        for h in fires {
            if d.deferred.should_fire(h) {
                // The foreign callback: event i enables event i + 1.
                let i = handles.iter().position(|&x| x == h).unwrap();
                fired[i] += 1;
                d.defer_enable(h, false);
                if i + 1 < handles.len() {
                    d.defer_enable(handles[i + 1], true);
                }
            }
        }
        d.deferred.merge_staged();
        d.deferred.reap();
        if d.deferred.suspend_ready() {
            break;
        }
        assert!(wakes < 100, "drain must reach a fixed point");
    }
    // Every event in the chain ran before the single wake suspended.
    assert_eq!(fired, vec![1, 1, 1, 1]);
}

#[test]
fn deferred_free_during_drain_destroys_exactly_once() {
    let mut d = Driver::new(false);
    let h = d.defer_new(false);
    d.defer_set_destroy(h, true);
    let fires = d.deferred.fire_list();
    assert_eq!(fires, vec![h]);
    // The event frees itself inside its own firing.
    assert_eq!(d.defer_free(h, true), None);
    // It is not visited again.
    assert!(!d.deferred.should_fire(h));
    assert!(d.deferred.fire_list().is_empty());
    // The reap step of the pass reports its one destroy notification.
    let reaped = d.deferred.reap();
    assert_eq!(reaped, vec![(h, true)]);
    // Nothing is left to reap.
    assert!(d.deferred.reap().is_empty());
}

#[test]
fn deferred_registration_during_drain_is_staged() {
    let mut d = Driver::new(false);
    let h1 = d.defer_new(false);
    // A registration arriving while the pass walks the collection is staged,
    // then merged after the pass, and runs before the wake suspends.
    let fires = d.deferred.fire_list();
    assert_eq!(fires, vec![h1]);
    let h2 = d.defer_new(true);
    assert!(!d.deferred.should_fire(h2)); // not in the primary collection yet
    assert!(d.deferred.merge_staged());
    assert!(d.deferred.should_fire(h2));
    assert!(!d.deferred.suspend_ready());
}

#[test]
fn teardown_notifies_every_live_event_once() {
    let mut d = Driver::new(false);
    let (io_a, _) = d.io_new(3, PA_IO_EVENT_INPUT);
    let (io_b, _) = d.io_new(4, PA_IO_EVENT_OUTPUT);
    d.io_set_destroy(io_a, true);
    let (tm_a, _) = d.time_new(Some(TimeSpec { sec: 1, usec: 0 }));
    let (_tm_b, _) = d.time_new(None);
    d.time_set_destroy(tm_a, true);
    let df_a = d.defer_new(false);
    let df_b = d.defer_new(false);
    d.defer_set_destroy(df_a, true);
    d.defer_set_destroy(df_b, true);
    // One event was freed reentrantly and awaits its reap: teardown still
    // delivers its notification exactly once.
    d.defer_free(df_b, true);

    let report = d.teardown();
    let mut io_list = report.io.clone();
    io_list.sort();
    assert_eq!(io_list, vec![io_a]);
    assert!(!report.io.contains(&io_b));
    assert_eq!(report.timers, vec![tm_a]);
    let mut df_list = report.deferred.clone();
    df_list.sort();
    let mut expected = vec![df_a, df_b];
    expected.sort();
    assert_eq!(df_list, expected);
}

#[test]
fn quit_delivers_code_exactly_once() {
    let mut d = Driver::new(true);
    assert_eq!(d.quit(5), Some(5));
    // The second call is a silent no-op.
    assert_eq!(d.quit(5), None);
    assert_eq!(d.quit(17), None);
}

#[test]
fn quit_without_waiting_consumer_delivers_nothing() {
    let mut d = Driver::new(false);
    assert_eq!(d.quit(5), None);
}

#[test]
fn handles_are_never_reused() {
    let mut d = Driver::new(false);
    let h1 = d.defer_new(false);
    let (h2, _) = d.io_new(1, PA_IO_EVENT_INPUT);
    d.defer_free(h1, false);
    let (h3, _) = d.time_new(None);
    assert_ne!(h1, h2);
    assert_ne!(h1, h3);
    assert_ne!(h2, h3);
}

#[test]
fn teardown_of_empty_driver_reports_nothing() {
    let mut d = Driver::new(false);
    let report = d.teardown();
    assert!(report.deferred.is_empty());
    assert!(report.timers.is_empty());
    assert!(report.io.is_empty());
}

#[test]
fn disarmed_timer_never_fires() {
    let mut d = Driver::new(false);
    let (h, start) = d.time_new(None);
    assert!(start.is_none());
    // No arming was issued, so any token a stray task could carry is stale.
    assert_eq!(d.time_on_deadline(h, 0), DeadlineOutcome::Stale);
    assert_eq!(d.time_on_deadline(h, 42), DeadlineOutcome::Stale);
}

#[test]
fn descriptors_get_independent_watchers() {
    let mut d = Driver::new(false);
    let (h1, act1) = d.io_new(10, PA_IO_EVENT_INPUT);
    let (_h2, act2) = d.io_new(11, PA_IO_EVENT_OUTPUT);
    assert!(matches!(act1, WatcherAction::Spawn(_)));
    assert!(matches!(act2, WatcherAction::Spawn(_)));
    // Tearing down one descriptor's interest leaves the other's watcher.
    d.io_enable(h1, 0);
    assert_eq!(d.io_watcher_wake(10), WatcherWake::Exit);
    assert!(matches!(d.io_watcher_wake(11), WatcherWake::Poll(_)));
}

#[test]
fn enable_reports_wake_only_on_change() {
    let mut d = Driver::new(false);
    let h = d.defer_new(false);
    // Enabling an already-enabled event wakes nothing.
    assert!(!d.defer_enable(h, true));
    assert!(d.defer_enable(h, false));
    assert!(!d.defer_enable(h, false));
    assert!(d.defer_enable(h, true));
}
