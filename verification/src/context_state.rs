//! The connection states a session object reports, decoded from the foreign
//! state code.

use vstd::prelude::*;

verus! {

/// State of a session's connection to the audio server.
#[derive(Clone, Copy, Debug, PartialEq, Eq, Structural)]
pub enum PaContextState {
    /// The context hasn't been connected yet.
    Unconnected,
    /// A connection is being established.
    Connecting,
    /// The client is authorizing itself to the daemon.
    Authorizing,
    /// The client is passing its application name to the daemon.
    SettingName,
    /// The connection is established, the context is ready to execute
    /// operations.
    Ready,
    /// The connection failed or was disconnected.
    Failed,
    /// The connection was terminated cleanly.
    Terminated,
}

impl PaContextState {
    /// Decodes the foreign state code; every code the foreign side defines
    /// maps to its state, anything else is rejected.
    pub fn new(s: u32) -> (r: Result<PaContextState, ()>)
        ensures
            s == 0 ==> r == Ok::<PaContextState, ()>(PaContextState::Unconnected),
            s == 1 ==> r == Ok::<PaContextState, ()>(PaContextState::Connecting),
            s == 2 ==> r == Ok::<PaContextState, ()>(PaContextState::Authorizing),
            s == 3 ==> r == Ok::<PaContextState, ()>(PaContextState::SettingName),
            s == 4 ==> r == Ok::<PaContextState, ()>(PaContextState::Ready),
            s == 5 ==> r == Ok::<PaContextState, ()>(PaContextState::Failed),
            s == 6 ==> r == Ok::<PaContextState, ()>(PaContextState::Terminated),
            s > 6 ==> r is Err,
    {
        match s {
            0u32 => Ok(PaContextState::Unconnected),
            1u32 => Ok(PaContextState::Connecting),
            2u32 => Ok(PaContextState::Authorizing),
            3u32 => Ok(PaContextState::SettingName),
            4u32 => Ok(PaContextState::Ready),
            5u32 => Ok(PaContextState::Failed),
            6u32 => Ok(PaContextState::Terminated),
            _ => Err(()),
        }
    }
}

} // verus!
