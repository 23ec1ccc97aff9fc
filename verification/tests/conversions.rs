use pulseaudio::{
    duration_until, mio_to_poll, mio_to_pulse, poll_to_mio, pulse_to_mio, ExplicitCleanup,
    Interest, PaContextState, RefCountable, RefCounted, TimeSpec, PA_IO_EVENT_ERROR,
    PA_IO_EVENT_HANGUP, PA_IO_EVENT_INPUT, PA_IO_EVENT_OUTPUT, POLL_ERR, POLL_HUP, POLL_IN,
    POLL_OUT,
};

#[test]
fn pulse_word_decodes_to_directions() {
    let r = pulse_to_mio(PA_IO_EVENT_INPUT | PA_IO_EVENT_HANGUP);
    assert!(r.read && !r.write && r.hangup && !r.error);
    let none = pulse_to_mio(0);
    assert!(!none.read && !none.write && !none.hangup && !none.error);
    let all = pulse_to_mio(
        PA_IO_EVENT_INPUT | PA_IO_EVENT_OUTPUT | PA_IO_EVENT_HANGUP | PA_IO_EVENT_ERROR,
    );
    assert!(all.read && all.write && all.hangup && all.error);
}

#[test]
fn pulse_word_round_trips() {
    for w in 0u32..16 {
        assert_eq!(mio_to_pulse(pulse_to_mio(w)), w);
    }
    // Bits beyond the four defined ones are dropped by the decode.
    assert_eq!(mio_to_pulse(pulse_to_mio(0x35)), 0x5);
}

#[test]
fn poll_word_round_trips() {
    let i = Interest { read: true, write: true, hangup: false, error: true };
    let w = mio_to_poll(i);
    assert_eq!(w, POLL_IN | POLL_OUT | POLL_ERR);
    assert_eq!(poll_to_mio(w), i);
    let j = poll_to_mio(POLL_HUP);
    assert!(!j.read && !j.write && j.hangup && !j.error);
}

#[test]
fn interest_set_operations() {
    let r = Interest { read: true, write: false, hangup: false, error: false };
    let w = Interest { read: false, write: true, hangup: false, error: false };
    let u = r.union(w);
    assert!(u.read && u.write);
    assert!(r.intersect(w).is_empty());
    assert!(!u.is_empty());
    assert!(r.has_read_side());
    assert!(!w.has_read_side());
}

#[test]
fn duration_until_exact_and_clamped() {
    let deadline = TimeSpec { sec: 5, usec: 10 };
    let now = TimeSpec { sec: 3, usec: 20 };
    let r = duration_until(deadline, now);
    assert_eq!((r.sec, r.usec), (1, 999_990));
    // A deadline already past yields a zero wait.
    let z = duration_until(now, deadline);
    assert_eq!((z.sec, z.usec), (0, 0));
    // An exactly-due deadline also yields zero.
    let e = duration_until(deadline, deadline);
    assert_eq!((e.sec, e.usec), (0, 0));
}

#[test]
fn context_state_codes_decode() {
    assert_eq!(PaContextState::new(0), Ok(PaContextState::Unconnected));
    assert_eq!(PaContextState::new(1), Ok(PaContextState::Connecting));
    assert_eq!(PaContextState::new(2), Ok(PaContextState::Authorizing));
    assert_eq!(PaContextState::new(3), Ok(PaContextState::SettingName));
    assert_eq!(PaContextState::new(4), Ok(PaContextState::Ready));
    assert_eq!(PaContextState::new(5), Ok(PaContextState::Failed));
    assert_eq!(PaContextState::new(6), Ok(PaContextState::Terminated));
    assert_eq!(PaContextState::new(7), Err(()));
    assert_eq!(PaContextState::new(u32::MAX), Err(()));
}

#[test]
fn explicit_cleanup_yields_value_once() {
    let mut cell = ExplicitCleanup::new(42u32);
    assert_eq!(*cell.value(), 42);
    assert_eq!(ExplicitCleanup::cleanup(&mut cell), Some(42));
    assert_eq!(ExplicitCleanup::cleanup(&mut cell), None);
}

struct Counted;

impl RefCountable for Counted {
    fn incref(&self) {}

    fn decref(&self) {}
}

#[test]
fn refcounted_hands_out_its_reference() {
    let r = RefCounted::new(Counted);
    r.get().incref();
    r.get().decref();
}
