use vstd::prelude::*;

verus! {

/// Why a command, an address or a header could not be read, or why a
/// connection was refused.
#[derive(Debug, Clone, Copy, PartialEq, Eq, Structural)]
pub enum Error {
    /// The input ended before the value was complete.
    Io,
    UnsupportedVersion(u8),
    UnsupportedCommand(u8),
    InvalidAddressType(u8),
    InvalidResponse(u8),
    AuthenticationFailed,
    AuthenticationTimeout,
    /// A frame that is well formed but not allowed where it arrived.
    ProtocolError,
    /// The server answered a `Connect` with `Response(false)`.
    RemoteRefused,
}

} // verus!
