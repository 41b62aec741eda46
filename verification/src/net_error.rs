//! The kinds of input and output errors that steer the traffic loops.
use vstd::prelude::*;

verus! {

/// What went wrong with a socket operation.
#[derive(Clone, Copy, Debug, PartialEq, Eq, Structural)]
pub enum NetErrorKind {
    ConnectionReset,
    ConnectionAborted,
    BrokenPipe,
    WouldBlock,
    TimedOut,
    Other,
}

pub open spec fn peer_closed(kind: NetErrorKind) -> bool {
    kind is ConnectionReset || kind is ConnectionAborted || kind is BrokenPipe
}

/// Whether the peer went away, so that connecting again makes sense.
pub fn is_peer_closed(kind: NetErrorKind) -> (yes: bool)
    ensures
        yes == peer_closed(kind),
        yes == (kind is ConnectionReset || kind is ConnectionAborted || kind is BrokenPipe),
{
    matches!(
        kind,
        NetErrorKind::ConnectionReset | NetErrorKind::ConnectionAborted | NetErrorKind::BrokenPipe
    )
}

pub open spec fn receive_timed_out(kind: NetErrorKind) -> bool {
    kind is WouldBlock || kind is TimedOut
}

/// Whether a receive merely ran into its timeout.
pub fn is_receive_timeout(kind: NetErrorKind) -> (yes: bool)
    ensures
        yes == receive_timed_out(kind),
        yes == (kind is WouldBlock || kind is TimedOut),
{
    matches!(kind, NetErrorKind::WouldBlock | NetErrorKind::TimedOut)
}

/// Of all errors, those that say that the peer is gone and those that say that
/// nothing came in time are told apart, and an unnamed error is neither.
pub proof fn law_errors_are_told_apart(kind: NetErrorKind)
    ensures
        !(peer_closed(kind) && receive_timed_out(kind)),
        kind is Other <==> !peer_closed(kind) && !receive_timed_out(kind),
        peer_closed(kind) ==> !(kind is WouldBlock) && !(kind is TimedOut),
        receive_timed_out(kind) ==> !(kind is ConnectionReset) && !(kind is ConnectionAborted)
            && !(kind is BrokenPipe),
{
}

} // verus!
