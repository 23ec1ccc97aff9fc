//! A verified model of a callback-driven audio-client event loop bridged onto
//! a cooperative, single-threaded reactor.
//!
//! The foreign side of the bridge hands this library three kinds of events —
//! I/O readiness, one-shot timers, and deferred (always-runnable) work — plus a
//! single quit signal, through a C-style vtable.  The library owns the event
//! collections, mints the opaque handles the foreign side uses as correlation
//! tokens, and decides, for every vtable call and every reactor wake, how the
//! collections change and which foreign callbacks must run.  The reactor
//! itself, the FFI shims and the callback invocations live outside this crate;
//! they feed plain values in and carry the decided actions out.

mod context_state;
mod explicit_cleanup;
mod flags;
mod refcount;
mod deferred;
mod timer;
mod io;
mod driver;
mod registry;

pub use registry::Registry;
pub use context_state::PaContextState;
pub use explicit_cleanup::ExplicitCleanup;
pub use refcount::{RefCountable, RefCounted};
pub use driver::{Driver, TeardownReport};
pub use deferred::{Deferred, DeferredEvent};
pub use io::{Io, IoEvent, WatcherAction, WatcherWake, aggregate, lemma_aggregate_directions, lemma_level_triggered, lemma_watcher_is_union};
pub use timer::{Timers, TimerEvent, TimeSpec, Arming, TimerFreeAction, DeadlineOutcome, duration_until};
pub use timer::{lemma_withdrawn_arming_never_fires, lemma_fire_at_most_once, lemma_fire_excludes_destroy};
pub use deferred::{lemma_quiescent_means_all_disabled, lemma_dead_event_not_refired};
pub use flags::{Interest, pulse_to_mio, mio_to_pulse, mio_to_poll, poll_to_mio};
pub use flags::{PA_IO_EVENT_INPUT, PA_IO_EVENT_OUTPUT, PA_IO_EVENT_HANGUP, PA_IO_EVENT_ERROR};
pub use flags::{POLL_IN, POLL_OUT, POLL_ERR, POLL_HUP};
