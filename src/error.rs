use vstd::prelude::*;

verus! {

/// Why a connection attempt, or one exchange on it, failed.
#[derive(Debug, Clone, Copy, PartialEq, Eq, Structural)]
pub enum SBError {
    /// No home directory, an unreadable client configuration, or no way to
    /// ask the user.
    ConfigurationError,
    /// A failure reported by the secure transport.
    TransportError,
    /// Every candidate identity was refused, or none was available; on the
    /// server, a key that is not authorized.
    AuthenticationFailed,
    /// The user did not trust the server's host key.
    AuthenticationRejected,
    /// Local file or clipboard access failed.
    IOError,
    /// Bytes received on the channel are not UTF-8 text.
    InvalidUtf8,
}

} // verus!
