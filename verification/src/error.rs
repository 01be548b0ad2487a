//! Error vocabulary shared by the collectors and the code that drives them.

use vstd::prelude::*;

verus! {

/// What can go wrong during one collection cycle.
///
/// `SocketError`, `SendError` and `RecvError` are raised by the unverified
/// socket layer that feeds this library; `ProtocolError`, `KernelError` and
/// `FamilyNotFound` are raised here.  A `KernelError` carries the errno that
/// the kernel embedded, negated, in an error frame (13 for a permission
/// denial).  No error aborts more than the one collection it arose in.
#[derive(Clone, Copy, Debug, PartialEq, Eq, Structural)]
pub enum NetlinkError {
    /// Creating, binding or configuring the socket failed.
    SocketError,
    /// The single blocking send failed.
    SendError,
    /// A receive failed; `timed_out` tells a timeout or would-block
    /// condition apart from a hard I/O failure.
    RecvError { timed_out: bool },
    /// A malformed or short header or attribute; the surrounding message is
    /// skipped, never the whole dump.
    ProtocolError,
    /// A nonzero code decoded from an error frame, negated into an errno.
    KernelError(i64),
    /// The generic-netlink control family never reported the requested
    /// family id; usually the kernel module behind it is not loaded.
    FamilyNotFound,
}

} // verus!
