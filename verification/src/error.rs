//! The errors of the proxy.

use vstd::prelude::*;

verus! {

/// What can go wrong in the RakNet transport.
#[derive(Debug, Clone, Copy, PartialEq, Eq, Structural)]
pub enum RaknetError {
    /// The connection is closed.
    ConnectionClosed,
    /// Anything else.
    Other,
}

/// What can go wrong in the proxy.
#[derive(Debug, Clone, Copy, PartialEq, Eq, Structural)]
pub enum CCProxyError {
    /// A packet ended before a field of fixed size.
    UnexpectedEof,
    /// A Query Protocol packet is malformed, or carries a wrong challenge token.
    QueryInvalid,
    /// The peer gave no usable answer to a query.
    QueryTimeout,
    /// The upstream server advertised a MOTD that cannot be read.
    UpstreamMotdInvalid,
    /// The RakNet transport failed.
    RakNet { err: RaknetError },
}

/// The result of a proxy operation.
pub type CCProxyResult<T> = Result<T, CCProxyError>;

} // verus!
