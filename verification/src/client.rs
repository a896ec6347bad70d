//! The proposer: a per-client state machine that broadcasts one proposal
//! per round, tallies acceptor responses, commits on a strict majority of
//! acceptances, and adopts the reported ceiling and retries on a strict
//! majority of rejections.
//!
//! Votes are idempotent per acceptor within a round: a second response from
//! the same acceptor for the active round is ignored, so a duplicated
//! delivery can never conjure a majority out of fewer than a majority of
//! distinct acceptors. The corruption check on an acceptance's identifier
//! runs on every acceptance bearing the active token, before the duplicate
//! test: a corrupt acceptance is fatal, never silently discarded.

use vstd::prelude::*;

use crate::entropy::fresh_token;
use crate::message::Fault;
use crate::message::Message;
use crate::message::RoundOutcome;

verus! {

/// One recorded response of the active round: which acceptor answered,
/// whether it accepted, and the identifier its response carried.
#[derive(Clone, Copy, Debug, PartialEq, Eq)]
pub struct Vote {
    pub sender: usize,
    pub accepted: bool,
    pub id: u64,
}

/// A proposer. `committed_id` is the last identifier this client settled
/// on, `active_token` tags the round currently awaiting responses, and
/// `tally` holds the votes received for that round.
pub struct Client {
    pub n_servers: usize,
    pub committed_id: u64,
    pub active_token: u128,
    pub tally: Vec<Vote>,
}

/// The ghost image of a proposer's state, with the tally as a sequence.
pub ghost struct ClientView {
    pub n_servers: usize,
    pub committed_id: u64,
    pub active_token: u128,
    pub tally: Seq<Vote>,
}

impl View for Client {
    type V = ClientView;

    open spec fn view(&self) -> ClientView {
        ClientView {
            n_servers: self.n_servers,
            committed_id: self.committed_id,
            active_token: self.active_token,
            tally: self.tally@,
        }
    }
}

/// How many votes in a tally are acceptances.
pub open spec fn accept_count(t: Seq<Vote>) -> int
    decreases t.len(),
{
    if t.len() == 0 {
        0
    } else {
        accept_count(t.drop_last()) + if t.last().accepted {
            1int
        } else {
            0int
        }
    }
}

/// How many votes in a tally are rejections.
pub open spec fn reject_count(t: Seq<Vote>) -> int
    decreases t.len(),
{
    if t.len() == 0 {
        0
    } else {
        reject_count(t.drop_last()) + if t.last().accepted {
            0int
        } else {
            1int
        }
    }
}

/// Whether some vote in the tally already came from `sender`.
pub open spec fn tally_has_sender(t: Seq<Vote>, sender: usize) -> bool {
    exists|i: int| 0 <= i < t.len() && t[i].sender == sender
}

/// No two votes in the tally come from the same acceptor.
pub open spec fn distinct_senders(t: Seq<Vote>) -> bool {
    forall|i: int, j: int| 0 <= i < j < t.len() ==> t[i].sender != t[j].sender
}

/// A strict majority of `n` acceptors is any count above this threshold.
pub open spec fn majority_threshold(n: usize) -> int {
    n as int / 2
}

/// A response is inert for the addressed proposer when its token is stale
/// (the round it belongs to has been superseded) or when its sender has
/// already been counted in the active round.
pub open spec fn response_inert(c: ClientView, sender: usize, token: u128) -> bool {
    token != c.active_token || tally_has_sender(c.tally, sender)
}

/// The fatal fault, if any, that handling the response raises: every
/// acceptance bearing the active token must echo exactly the identifier
/// this round proposed — the check comes before the duplicate-sender test,
/// so a corrupt acceptance faults even from an acceptor already counted —
/// and a majority rejection cannot adopt a ceiling that has no strictly
/// greater successor.
pub open spec fn response_fault(
    c: ClientView,
    sender: usize,
    accepted: bool,
    token: u128,
    id: u64,
) -> Option<Fault> {
    if token != c.active_token {
        None
    } else if accepted {
        if id == c.committed_id + 1 {
            None
        } else {
            Some(Fault::AcceptIdMismatch { committed: c.committed_id, got: id })
        }
    } else if tally_has_sender(c.tally, sender) {
        None
    } else {
        if reject_count(c.tally.push(Vote { sender, accepted: false, id })) > majority_threshold(
            c.n_servers,
        ) && id == u64::MAX {
            Some(Fault::IdExhausted)
        } else {
            None
        }
    }
}

/// The proposer's state after handling one response. `next_token` names the
/// fresh token that replaces the active one if this response concludes the
/// round; on a fault the state is left untouched.
pub open spec fn client_step(
    c: ClientView,
    sender: usize,
    accepted: bool,
    token: u128,
    id: u64,
    next_token: u128,
) -> ClientView {
    if response_inert(c, sender, token) || response_fault(c, sender, accepted, token, id) is Some {
        c
    } else if accepted {
        let t = c.tally.push(Vote { sender, accepted: true, id });
        if accept_count(t) > majority_threshold(c.n_servers) {
            ClientView {
                n_servers: c.n_servers,
                committed_id: id,
                active_token: next_token,
                tally: t,
            }
        } else {
            ClientView {
                n_servers: c.n_servers,
                committed_id: c.committed_id,
                active_token: c.active_token,
                tally: t,
            }
        }
    } else {
        let t = c.tally.push(Vote { sender, accepted: false, id });
        if reject_count(t) > majority_threshold(c.n_servers) {
            ClientView {
                n_servers: c.n_servers,
                committed_id: id,
                active_token: next_token,
                tally: Seq::empty(),
            }
        } else {
            ClientView {
                n_servers: c.n_servers,
                committed_id: c.committed_id,
                active_token: c.active_token,
                tally: t,
            }
        }
    }
}

/// The notification the response produces: `Success` or `Failure` exactly
/// when it carries the round across the majority threshold.
pub open spec fn client_outcome(
    c: ClientView,
    sender: usize,
    accepted: bool,
    token: u128,
    id: u64,
) -> RoundOutcome {
    if response_inert(c, sender, token) || response_fault(c, sender, accepted, token, id) is Some {
        RoundOutcome::Pending
    } else if accepted {
        if accept_count(c.tally.push(Vote { sender, accepted: true, id })) > majority_threshold(
            c.n_servers,
        ) {
            RoundOutcome::Success { id }
        } else {
            RoundOutcome::Pending
        }
    } else {
        if reject_count(c.tally.push(Vote { sender, accepted: false, id })) > majority_threshold(
            c.n_servers,
        ) {
            RoundOutcome::Failure { id }
        } else {
            RoundOutcome::Pending
        }
    }
}

/// The requests of one round: one per acceptor index, all proposing
/// `proposal` under `token`.
pub open spec fn round_requests(n: usize, token: u128, proposal: u64) -> Seq<(usize, Message)> {
    Seq::new(n as nat, |i: int| (i as usize, Message::Request { token, id: proposal }))
}

/// The requests the response makes the proposer emit: a round that fails by
/// majority rejection retries at once, proposing one above the adopted
/// ceiling; every other response emits nothing.
pub open spec fn client_replies(
    c: ClientView,
    sender: usize,
    accepted: bool,
    token: u128,
    id: u64,
    next_token: u128,
) -> Seq<(usize, Message)> {
    if client_outcome(c, sender, accepted, token, id) is Failure {
        round_requests(c.n_servers, next_token, (id + 1) as u64)
    } else {
        Seq::empty()
    }
}

proof fn lemma_count_push(t: Seq<Vote>, v: Vote)
    ensures
        accept_count(t.push(v)) == accept_count(t) + if v.accepted {
            1int
        } else {
            0int
        },
        reject_count(t.push(v)) == reject_count(t) + if v.accepted {
            0int
        } else {
            1int
        },
{
    assert(t.push(v).drop_last() =~= t);
    assert(t.push(v).last() == v);
}

proof fn lemma_distinct_push(t: Seq<Vote>, v: Vote)
    requires
        distinct_senders(t),
        !tally_has_sender(t, v.sender),
    ensures
        distinct_senders(t.push(v)),
{
    let t2 = t.push(v);
    assert forall|i: int, j: int| 0 <= i < j < t2.len() implies t2[i].sender != t2[j].sender by {
        if j < t.len() {
            assert(t2[i] == t[i] && t2[j] == t[j]);
        } else {
            assert(t2[j] == v);
            assert(t2[i] == t[i]);
            if t[i].sender == v.sender {
                assert(tally_has_sender(t, v.sender));
            }
        }
    }
}

impl Client {
    /// A fresh proposer among `n_servers` acceptors; no round is active yet.
    pub fn new(n_servers: usize) -> (c: Client)
        ensures
            c.n_servers == n_servers,
            c.committed_id == 0,
            c.active_token == 0,
            c.tally@ == Seq::<Vote>::empty(),
    {
        Client { n_servers, committed_id: 0, active_token: 0, tally: Vec::new() }
    }

    /// Whether the active round has already counted a vote from `sender`.
    fn has_vote_from(&self, sender: usize) -> (b: bool)
        ensures
            b == tally_has_sender(self.tally@, sender),
    {
        let mut i: usize = 0;
        while i < self.tally.len()
            invariant
                i <= self.tally@.len(),
                forall|j: int| 0 <= j < i ==> self.tally@[j].sender != sender,
            decreases self.tally@.len() - i,
        {
            if self.tally[i].sender == sender {
                return true;
            }
            i += 1;
        }
        false
    }

    /// Count the acceptances recorded in the active round.
    fn accepts_in_tally(&self) -> (n: usize)
        ensures
            n == accept_count(self.tally@),
    {
        let mut n: usize = 0;
        let mut i: usize = 0;
        while i < self.tally.len()
            invariant
                i <= self.tally@.len(),
                n <= i,
                n == accept_count(self.tally@.take(i as int)),
            decreases self.tally@.len() - i,
        {
            proof {
                assert(self.tally@.take(i as int + 1).drop_last() =~= self.tally@.take(i as int));
                assert(self.tally@.take(i as int + 1).last() == self.tally@[i as int]);
            }
            if self.tally[i].accepted {
                n += 1;
            }
            i += 1;
        }
        proof {
            assert(self.tally@.take(self.tally@.len() as int) =~= self.tally@);
        }
        n
    }

    /// Count the rejections recorded in the active round.
    fn rejects_in_tally(&self) -> (n: usize)
        ensures
            n == reject_count(self.tally@),
    {
        let mut n: usize = 0;
        let mut i: usize = 0;
        while i < self.tally.len()
            invariant
                i <= self.tally@.len(),
                n <= i,
                n == reject_count(self.tally@.take(i as int)),
            decreases self.tally@.len() - i,
        {
            proof {
                assert(self.tally@.take(i as int + 1).drop_last() =~= self.tally@.take(i as int));
                assert(self.tally@.take(i as int + 1).last() == self.tally@[i as int]);
            }
            if !self.tally[i].accepted {
                n += 1;
            }
            i += 1;
        }
        proof {
            assert(self.tally@.take(self.tally@.len() as int) =~= self.tally@);
        }
        n
    }

    /// Begin a fresh round under `token`: clear the tally, replace the
    /// active token, and address one request to every acceptor, proposing
    /// one above the committed identifier.
    pub fn start_round_with(&mut self, token: u128) -> (requests: Vec<(usize, Message)>)
        requires
            old(self).committed_id < u64::MAX,
        ensures
            final(self).n_servers == old(self).n_servers,
            final(self).committed_id == old(self).committed_id,
            final(self).active_token == token,
            final(self).tally@ == Seq::<Vote>::empty(),
            requests@ == round_requests(
                old(self).n_servers,
                token,
                (old(self).committed_id + 1) as u64,
            ),
    {
        self.active_token = token;
        self.tally.clear();
        let proposal = self.committed_id + 1;
        let mut requests: Vec<(usize, Message)> = Vec::new();
        let mut i: usize = 0;
        while i < self.n_servers
            invariant
                i <= self.n_servers,
                requests@.len() == i,
                forall|j: int|
                    0 <= j < i ==> requests@[j] == (j as usize, Message::Request {
                        token,
                        id: proposal,
                    }),
            decreases self.n_servers - i,
        {
            requests.push((i, Message::Request { token, id: proposal }));
            i += 1;
        }
        proof {
            assert(requests@ =~= round_requests(self.n_servers, token, proposal));
        }
        requests
    }

    /// Begin a fresh round under a newly drawn token.
    pub fn start_round(&mut self) -> (requests: Vec<(usize, Message)>)
        requires
            old(self).committed_id < u64::MAX,
        ensures
            final(self).n_servers == old(self).n_servers,
            final(self).committed_id == old(self).committed_id,
            final(self).tally@ == Seq::<Vote>::empty(),
            requests@ == round_requests(
                old(self).n_servers,
                final(self).active_token,
                (old(self).committed_id + 1) as u64,
            ),
    {
        let token = fresh_token();
        self.start_round_with(token)
    }

    /// Handle one acceptor response. `next_token` names the fresh token
    /// used only if this response concludes the round (by either majority).
    ///
    /// The contract pins the whole transition to [`client_step`] and the
    /// emitted requests and notification to [`client_replies`] and
    /// [`client_outcome`]; the clauses after them state the safety laws a
    /// reader will look for: stale responses are inert, a commit needs a
    /// strict majority of distinct acceptors, and the token is replaced
    /// exactly when the round concludes.
    pub fn receive(
        &mut self,
        sender: usize,
        accepted: bool,
        token: u128,
        id: u64,
        next_token: u128,
    ) -> (r: Result<(Vec<(usize, Message)>, RoundOutcome), Fault>)
        ensures
            final(self)@ == client_step(old(self)@, sender, accepted, token, id, next_token),
            (r is Err) <==> (response_fault(old(self)@, sender, accepted, token, id) is Some),
            (r matches Err(f) ==> Some(f) == response_fault(old(self)@, sender, accepted, token, id)
                && final(self)@ == old(self)@),
            (r matches Ok(p) ==> p.1 == client_outcome(old(self)@, sender, accepted, token, id)
                && p.0@ == client_replies(old(self)@, sender, accepted, token, id, next_token)),
            // Stale-response immunity: a mismatched token changes nothing.
            token != old(self)@.active_token ==> final(self)@ == old(self)@ && (r matches Ok(p)
                && p.0@ == Seq::<(usize, Message)>::empty() && p.1 == RoundOutcome::Pending),
            // Votes stay one-per-acceptor.
            distinct_senders(old(self)@.tally) ==> distinct_senders(final(self)@.tally),
            // Quorum safety: a commit takes a strict majority of acceptances
            // and moves the committed identifier strictly up, by one.
            (r matches Ok(p) && p.1 is Success) ==> accept_count(final(self)@.tally)
                > majority_threshold(old(self)@.n_servers) && final(self)@.committed_id == old(
                self,
            )@.committed_id + 1,
            // The committed identifier changes only when a majority
            // concluded the round.
            final(self)@.committed_id != old(self)@.committed_id ==> (r matches Ok(p) && !(p.1
                is Pending)),
            // The token is replaced exactly when the round concludes.
            (r matches Ok(p) && p.1 is Pending) ==> final(self)@.active_token == old(
                self,
            )@.active_token,
            (r matches Ok(p) && !(p.1 is Pending)) ==> final(self)@.active_token == next_token,
            final(self)@.n_servers == old(self)@.n_servers,
    {
        if token != self.active_token {
            return Ok((Vec::new(), RoundOutcome::Pending));
        }
        if accepted {
            if !(self.committed_id < u64::MAX && id == self.committed_id + 1) {
                return Err(Fault::AcceptIdMismatch { committed: self.committed_id, got: id });
            }
            if self.has_vote_from(sender) {
                return Ok((Vec::new(), RoundOutcome::Pending));
            }
            let vote = Vote { sender, accepted: true, id };
            proof {
                lemma_count_push(self.tally@, vote);
                if distinct_senders(self.tally@) {
                    lemma_distinct_push(self.tally@, vote);
                }
            }
            self.tally.push(vote);
            let n_acc = self.accepts_in_tally();
            if n_acc > self.n_servers / 2 {
                self.committed_id = id;
                self.active_token = next_token;
                return Ok((Vec::new(), RoundOutcome::Success { id }));
            }
            Ok((Vec::new(), RoundOutcome::Pending))
        } else {
            if self.has_vote_from(sender) {
                return Ok((Vec::new(), RoundOutcome::Pending));
            }
            let vote = Vote { sender, accepted: false, id };
            proof {
                lemma_count_push(self.tally@, vote);
                if distinct_senders(self.tally@) {
                    lemma_distinct_push(self.tally@, vote);
                }
            }
            let n_rej = self.rejects_in_tally();
            if n_rej >= self.n_servers / 2 && id == u64::MAX {
                return Err(Fault::IdExhausted);
            }
            self.tally.push(vote);
            let n_rej2 = self.rejects_in_tally();
            if n_rej2 > self.n_servers / 2 {
                self.committed_id = id;
                let requests = self.start_round_with(next_token);
                return Ok((requests, RoundOutcome::Failure { id }));
            }
            Ok((Vec::new(), RoundOutcome::Pending))
        }
    }
}

/// Stale-response immunity: a response whose token does not match the
/// proposer's active token never changes the proposer's state, emits no
/// requests and no notification, and raises no fault.
pub proof fn lemma_stale_response_immunity(
    c: ClientView,
    sender: usize,
    accepted: bool,
    token: u128,
    id: u64,
    next_token: u128,
)
    requires
        token != c.active_token,
    ensures
        client_step(c, sender, accepted, token, id, next_token) == c,
        client_outcome(c, sender, accepted, token, id) == RoundOutcome::Pending,
        client_replies(c, sender, accepted, token, id, next_token) == Seq::<(
            usize,
            Message,
        )>::empty(),
        response_fault(c, sender, accepted, token, id) is None,
{
}

/// Quorum safety: handling a response keeps the tally one-vote-per-acceptor,
/// and the committed identifier changes only when the round concludes; on
/// success the concluding tally holds a strict majority of acceptances from
/// distinct acceptors.
pub proof fn lemma_quorum_safety(
    c: ClientView,
    sender: usize,
    accepted: bool,
    token: u128,
    id: u64,
    next_token: u128,
)
    requires
        distinct_senders(c.tally),
    ensures
        ({
            let c2 = client_step(c, sender, accepted, token, id, next_token);
            let outcome = client_outcome(c, sender, accepted, token, id);
            &&& distinct_senders(c2.tally)
            &&& (outcome is Success ==> accept_count(c2.tally) > majority_threshold(c.n_servers)
                && c2.committed_id == c.committed_id + 1)
            &&& (c2.committed_id != c.committed_id ==> !(outcome is Pending))
        }),
{
    if !response_inert(c, sender, token) && response_fault(c, sender, accepted, token, id)
        is None {
        lemma_distinct_push(c.tally, Vote { sender, accepted, id });
    }
}

/// No double commit per round: once a response concludes the round, the
/// active token is replaced, so every further response still bearing the
/// old round's token is inert and the proposer's state no longer moves.
pub proof fn lemma_no_double_commit(
    c: ClientView,
    s1: usize,
    id1: u64,
    next1: u128,
    s2: usize,
    accepted2: bool,
    id2: u64,
    next2: u128,
)
    requires
        next1 != c.active_token,
        client_outcome(c, s1, true, c.active_token, id1) is Success,
    ensures
        ({
            let c1 = client_step(c, s1, true, c.active_token, id1, next1);
            &&& c1.active_token == next1
            &&& client_step(c1, s2, accepted2, c.active_token, id2, next2) == c1
            &&& client_outcome(c1, s2, accepted2, c.active_token, id2) == RoundOutcome::Pending
        }),
{
    let c1 = client_step(c, s1, true, c.active_token, id1, next1);
    lemma_stale_response_immunity(c1, s2, accepted2, c.active_token, id2, next2);
}

} // verus!
