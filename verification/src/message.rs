//! The protocol payload and the observable outcomes of handling one of them.

use vstd::prelude::*;

verus! {

/// The two-variant payload exchanged between proposers and acceptors.
///
/// `token` tags the proposer's round; responses bearing a token other than
/// the proposer's active one are inert.
#[derive(Clone, Copy, Debug, PartialEq, Eq)]
pub enum Message {
    /// Proposer to acceptor: propose `id` for the round tagged `token`.
    Request { token: u128, id: u64 },
    /// Acceptor to proposer: on acceptance `id` echoes the proposed
    /// identifier; on rejection it reports the acceptor's current ceiling.
    Response { accepted: bool, token: u128, id: u64 },
}

/// What one delivered response meant for the addressed proposer's round.
#[derive(Clone, Copy, Debug, PartialEq, Eq)]
pub enum RoundOutcome {
    /// The round is still awaiting a majority (or the response was inert).
    Pending,
    /// A strict majority accepted: `id` is the newly committed identifier.
    Success { id: u64 },
    /// A strict majority rejected: `id` is the adopted ceiling.
    Failure { id: u64 },
}

/// A fatal fault: a violated safety invariant or a wiring error. The run
/// must abort rather than continue past one of these.
#[derive(Clone, Copy, Debug, PartialEq, Eq)]
pub enum Fault {
    /// An acceptance carried an identifier other than the one this round
    /// proposed (`committed + 1`): protocol corruption.
    AcceptIdMismatch { committed: u64, got: u64 },
    /// A majority rejection reported a ceiling at the top of the identifier
    /// space, so no strictly greater proposal can follow.
    IdExhausted,
    /// A message variant was delivered to a participant type that cannot
    /// handle it.
    Misrouted,
}

} // verus!
