use vstd::prelude::*;

verus! {

/// Error taxonomy of the session layer. Every failure is a synchronous return
/// value of the operation that detected it; nothing is reported asynchronously.
#[derive(Clone, Copy, Debug, PartialEq, Eq, Structural)]
pub enum SessionError {
    /// An argument was malformed: empty session identifiers, invalid hex,
    /// an unparsable signer list, or a local party outside the signer subset.
    InvalidArgument,
    /// The operation needs an entity (key share, auxiliary info) that is not
    /// present yet.
    NotReady,
    /// Input was supplied while no phase is active.
    InvalidState,
    /// An export or import payload was malformed.
    Serialization,
    /// The active engine rejected a message it was fed; the phase is left as
    /// it stands.
    ProtocolRejected,
    /// The engine completed with an inner protocol failure; the phase
    /// transitions to idle since the engine has terminated.
    ProtocolFailure,
    /// The engine reported a fatal error while advancing; the phase remains
    /// active but broken until a new phase is started.
    ProtocolFault,
}

} // verus!
