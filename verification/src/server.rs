//! The acceptor: a per-replica state machine that accepts a proposed
//! identifier exactly when it is strictly greater than the highest
//! identifier it has accepted so far.

use vstd::prelude::*;

use crate::message::Message;

verus! {

/// An acceptor. Its only state is the highest identifier it ever accepted,
/// which never decreases.
pub struct Server {
    pub highest_accepted_id: u64,
}

/// Whether an acceptor whose ceiling is `max` accepts a proposal of `id`:
/// the rule is strictly greater, never greater-or-equal.
pub open spec fn server_accepts(max: u64, id: u64) -> bool {
    id > max
}

/// The acceptor's ceiling after it handles a proposal of `id`.
pub open spec fn server_next_max(max: u64, id: u64) -> u64 {
    if id > max {
        id
    } else {
        max
    }
}

/// The response an acceptor whose ceiling is `max` sends back for a proposal
/// `(token, id)`: an acceptance echoes the proposed identifier, a rejection
/// reports the ceiling so the proposer learns the known frontier.
pub open spec fn server_reply(max: u64, token: u128, id: u64) -> Message {
    if server_accepts(max, id) {
        Message::Response { accepted: true, token, id }
    } else {
        Message::Response { accepted: false, token, id: max }
    }
}

impl Server {
    /// A fresh acceptor that has accepted nothing yet.
    pub fn new() -> (s: Server)
        ensures
            s.highest_accepted_id == 0,
    {
        Server { highest_accepted_id: 0 }
    }

    /// Handle one proposal. Total over all inputs: the reply goes back to
    /// `from`, and the ceiling moves up exactly when the proposal is
    /// strictly greater than it.
    pub fn propose(&mut self, from: usize, token: u128, id: u64) -> (replies: Vec<(usize, Message)>)
        ensures
            final(self).highest_accepted_id == server_next_max(
                old(self).highest_accepted_id,
                id,
            ),
            // Monotonic acceptance: the ceiling never decreases.
            final(self).highest_accepted_id >= old(self).highest_accepted_id,
            replies@ == seq![(from, server_reply(old(self).highest_accepted_id, token, id))],
    {
        let mut replies: Vec<(usize, Message)> = Vec::new();
        if id > self.highest_accepted_id {
            self.highest_accepted_id = id;
            replies.push((from, Message::Response { accepted: true, token, id }));
        } else {
            replies.push(
                (from, Message::Response { accepted: false, token, id: self.highest_accepted_id }),
            );
        }
        proof {
            assert(replies@ =~= seq![
                (from, server_reply(old(self).highest_accepted_id, token, id)),
            ]);
        }
        replies
    }
}

/// Monotonic acceptance: whatever is proposed, and in whatever order
/// proposals arrive, an acceptor's ceiling never decreases.
pub proof fn lemma_monotonic_acceptance(max: u64, id: u64)
    ensures
        server_next_max(max, id) >= max,
{
}

} // verus!
