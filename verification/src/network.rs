//! The population and the network simulator: an unordered set of in-flight
//! messages, delivered one per step in scrambled order, with configurable
//! loss. Loss is enforced here: a reply that loses its Bernoulli trial is
//! discarded instead of being enqueued.

use vstd::prelude::*;

use crate::client::client_outcome;
use crate::client::client_replies;
use crate::client::client_step;
use crate::client::distinct_senders;
use crate::client::response_fault;
use crate::client::round_requests;
use crate::client::Client;
use crate::client::Vote;
use crate::entropy::fresh_token;
use crate::entropy::loss_trial;
use crate::entropy::shuffle_entries;
use crate::message::Fault;
use crate::message::Message;
use crate::message::RoundOutcome;
use crate::server::server_next_max;
use crate::server::server_reply;
use crate::server::Server;

verus! {

/// One participant of the population: acceptors first, proposers after.
pub enum Computer {
    Server(Server),
    Client(Client),
}

impl Computer {
    /// Dispatch one delivered message to the participant. A request is an
    /// acceptor's business, a response a proposer's; a mismatched pairing
    /// is a wiring error and faults instead of being handled.
    pub fn receive(&mut self, from: usize, msg: Message, next_token: u128) -> (r: Result<
        (Vec<(usize, Message)>, RoundOutcome),
        Fault,
    >)
        ensures
            (*final(self) is Server) <==> (*old(self) is Server),
            *old(self) matches Computer::Server(s) ==> msg matches Message::Request { token, id }
                ==> (*final(self) == Computer::Server(
                Server { highest_accepted_id: server_next_max(s.highest_accepted_id, id) },
            ) && (r matches Ok(p) && p.0@ == seq![
                (from, server_reply(s.highest_accepted_id, token, id)),
            ] && p.1 == RoundOutcome::Pending)),
            *old(self) matches Computer::Client(c) ==> msg matches Message::Response {
                accepted,
                token,
                id,
            } ==> ({
                &&& (*final(self) matches Computer::Client(c2) && c2@ == client_step(
                    c@,
                    from,
                    accepted,
                    token,
                    id,
                    next_token,
                ))
                &&& ((r is Err) <==> (response_fault(c@, from, accepted, token, id) is Some))
                &&& (r matches Ok(p) ==> p.1 == client_outcome(c@, from, accepted, token, id)
                    && p.0@ == client_replies(c@, from, accepted, token, id, next_token))
                &&& (r matches Err(f) ==> Some(f) == response_fault(c@, from, accepted, token, id))
            }),
            *old(self) matches Computer::Server(_) ==> msg matches Message::Response { .. } ==> (r
                matches Err(f) && f == Fault::Misrouted && *final(self) == *old(self)),
            *old(self) matches Computer::Client(_) ==> msg matches Message::Request { .. } ==> (r
                matches Err(f) && f == Fault::Misrouted && *final(self) == *old(self)),
    {
        match self {
            Computer::Server(server) => match msg {
                Message::Request { token, id } => {
                    let replies = server.propose(from, token, id);
                    Ok((replies, RoundOutcome::Pending))
                },
                Message::Response { .. } => Err(Fault::Misrouted),
            },
            Computer::Client(client) => match msg {
                Message::Response { accepted, token, id } => client.receive(
                    from,
                    accepted,
                    token,
                    id,
                    next_token,
                ),
                Message::Request { .. } => Err(Fault::Misrouted),
            },
        }
    }
}

/// An undelivered message: sender index, addressee index, payload. Owned by
/// the simulator while queued, handed off whole on delivery.
#[derive(Clone, Copy, Debug, PartialEq, Eq)]
pub struct Entry {
    pub from: usize,
    pub to: usize,
    pub msg: Message,
}

/// What one simulation step did.
#[derive(Clone, Copy, Debug, PartialEq, Eq)]
pub enum StepOutcome {
    /// No messages remain: the run is over.
    QueueEmpty,
    /// One message was delivered; the payload is what it meant for the
    /// addressed proposer's round (always `Pending` for an acceptor).
    Delivered(RoundOutcome),
}

/// The network simulator: the population, the in-flight queue, and the
/// configured loss ratio for replies.
pub struct Simulator {
    pub computers: Vec<Computer>,
    pub in_flight: Vec<Entry>,
    pub n_servers: usize,
    pub loss_num: u32,
    pub loss_denom: u32,
}

impl Simulator {
    /// Index `i` addresses an acceptor.
    pub open spec fn is_server_index(&self, i: int) -> bool {
        0 <= i < self.n_servers
    }

    /// Index `i` addresses a proposer.
    pub open spec fn is_client_index(&self, i: int) -> bool {
        self.n_servers <= i < self.computers@.len()
    }

    /// The ceiling of the acceptor at index `i`.
    pub open spec fn server_max(&self, i: int) -> u64 {
        match self.computers@[i] {
            Computer::Server(s) => s.highest_accepted_id,
            Computer::Client(_) => 0,
        }
    }

    /// A queue entry is well-routed: requests flow from a proposer to an
    /// acceptor, responses from an acceptor to a proposer.
    pub open spec fn entry_ok(&self, e: Entry) -> bool {
        match e.msg {
            Message::Request { .. } => self.is_client_index(e.from as int) && self.is_server_index(
                e.to as int,
            ),
            Message::Response { .. } => self.is_server_index(e.from as int)
                && self.is_client_index(e.to as int),
        }
    }

    /// Population well-formedness: acceptors occupy the first `n_servers`
    /// indices and proposers the rest, every proposer knows the true
    /// acceptor count and holds a one-vote-per-acceptor tally, every queued
    /// message is well-routed, and the loss ratio is a valid probability.
    pub open spec fn wf(&self) -> bool {
        &&& self.n_servers <= self.computers@.len()
        &&& forall|i: int|
            0 <= i < self.computers@.len() ==> ((self.computers@[i] is Server) <==> i
                < self.n_servers)
        &&& forall|i: int|
            self.n_servers <= i < self.computers@.len() ==> (#[trigger] self.computers@[i] matches
                Computer::Client(c) && c.n_servers == self.n_servers && distinct_senders(c@.tally))
        &&& forall|k: int| 0 <= k < self.in_flight@.len() ==> self.entry_ok(self.in_flight@[k])
        &&& self.loss_denom > 0
        &&& self.loss_num <= self.loss_denom
    }

}

/// The round token a participant holds: a proposer's active token (an
/// acceptor holds none).
pub open spec fn token_of(c: Computer) -> u128 {
    match c {
        Computer::Server(_) => 0,
        Computer::Client(cl) => cl.active_token,
    }
}

/// The queue entries that carry the replies of participant `sender` back
/// out: one entry per reply, addressed as the reply says.
pub open spec fn entries_from(sender: usize, replies: Seq<(usize, Message)>) -> Seq<Entry> {
    Seq::new(
        replies.len(),
        |i: int| Entry { from: sender, to: replies[i].0, msg: replies[i].1 },
    )
}

/// The subsequence of `entries` whose loss-trial verdict in `keep` (one
/// verdict per entry, true = kept) let them through, in order.
pub open spec fn kept_entries(entries: Seq<Entry>, keep: Seq<bool>) -> Seq<Entry>
    decreases entries.len(),
{
    if entries.len() == 0 {
        Seq::empty()
    } else if keep.last() {
        kept_entries(entries.drop_last(), keep.drop_last()).push(entries.last())
    } else {
        kept_entries(entries.drop_last(), keep.drop_last())
    }
}

/// What one delivery step does to a simulator with a nonempty queue, given
/// the token `nt` drawn for the addressee and the loss-trial verdicts
/// `keep` (one per reply, true = kept). The popped entry is the old
/// queue's last; every participant other than the addressee is unchanged;
/// the addressee, the returned outcome and the replies are exactly what
/// `Computer::receive` gives on that entry; and the new queue holds, in
/// some order, exactly the remaining entries plus the kept replies — or
/// exactly the remainder when the delivery faulted.
pub open spec fn step_effect(
    pre: Simulator,
    post: Simulator,
    r: Result<StepOutcome, Fault>,
    nt: u128,
    keep: Seq<bool>,
) -> bool {
    let e = pre.in_flight@.last();
    let rest = pre.in_flight@.drop_last();
    &&& post.n_servers == pre.n_servers
    &&& post.loss_num == pre.loss_num
    &&& post.loss_denom == pre.loss_denom
    &&& post.computers@.len() == pre.computers@.len()
    &&& forall|i: int|
        0 <= i < pre.computers@.len() && i != e.to ==> post.computers@[i] == pre.computers@[i]
    &&& match (pre.computers@[e.to as int], e.msg) {
        (Computer::Server(sv), Message::Request { token, id }) => {
            &&& post.computers@[e.to as int] == Computer::Server(
                Server { highest_accepted_id: server_next_max(sv.highest_accepted_id, id) },
            )
            &&& r == Ok::<StepOutcome, Fault>(StepOutcome::Delivered(RoundOutcome::Pending))
            &&& keep.len() == 1
            &&& post.in_flight@.to_multiset() == (rest + kept_entries(
                entries_from(
                    e.to,
                    seq![(e.from, server_reply(sv.highest_accepted_id, token, id))],
                ),
                keep,
            )).to_multiset()
        },
        (Computer::Client(c), Message::Response { accepted, token, id }) => {
            &&& (post.computers@[e.to as int] matches Computer::Client(c2) && c2@ == client_step(
                c@,
                e.from,
                accepted,
                token,
                id,
                nt,
            ))
            &&& match r {
                Ok(StepOutcome::Delivered(oc)) => {
                    &&& response_fault(c@, e.from, accepted, token, id) is None
                    &&& oc == client_outcome(c@, e.from, accepted, token, id)
                    &&& keep.len() == client_replies(c@, e.from, accepted, token, id, nt).len()
                    &&& post.in_flight@.to_multiset() == (rest + kept_entries(
                        entries_from(e.to, client_replies(c@, e.from, accepted, token, id, nt)),
                        keep,
                    )).to_multiset()
                },
                Err(f) => {
                    &&& Some(f) == response_fault(c@, e.from, accepted, token, id)
                    &&& post.in_flight@ == rest
                },
                _ => false,
            }
        },
        _ => false,
    }
}

proof fn lemma_grid_index(a: int, s: int, j: int, n: int)
    requires
        0 <= a < j,
        0 <= s < n,
    ensures
        0 <= a * n + s < j * n,
{
    assert(0 <= a * n + s && a * n + s < j * n) by (nonlinear_arith)
        requires
            0 <= a < j,
            0 <= s < n,
    ;
}

impl Simulator {
    /// Build the population and seed every proposer's first round: each
    /// client broadcasts a proposal of identifier 1 to every acceptor.
    pub fn new(n_servers: usize, n_clients: usize, loss_num: u32, loss_denom: u32) -> (sim:
        Simulator)
        requires
            0 < loss_denom,
            loss_num <= loss_denom,
            n_servers + n_clients <= usize::MAX,
        ensures
            sim.wf(),
            sim.n_servers == n_servers,
            sim.loss_num == loss_num,
            sim.loss_denom == loss_denom,
            sim.computers@.len() == n_servers + n_clients,
            forall|i: int| 0 <= i < n_servers ==> sim.server_max(i) == 0,
            forall|i: int|
                n_servers <= i < sim.computers@.len() ==> (#[trigger] sim.computers@[i] matches
                    Computer::Client(c) && c.committed_id == 0 && c.tally@ == Seq::<Vote>::empty()),
            forall|k: int|
                0 <= k < sim.in_flight@.len() ==> (#[trigger] sim.in_flight@[k].msg matches
                    Message::Request { token, id } && id == 1),
            sim.in_flight@.len() == n_servers * n_clients,
            forall|a: int, s: int|
                0 <= a < n_clients && 0 <= s < n_servers ==> #[trigger] sim.in_flight@[a
                    * n_servers + s] == (Entry {
                    from: (n_servers + a) as usize,
                    to: s as usize,
                    msg: Message::Request {
                        token: token_of(sim.computers@[n_servers + a]),
                        id: 1,
                    },
                }),
    {
        let mut computers: Vec<Computer> = Vec::new();
        let mut in_flight: Vec<Entry> = Vec::new();
        let mut i: usize = 0;
        while i < n_servers
            invariant
                i <= n_servers,
                computers@.len() == i,
                forall|j: int|
                    0 <= j < i ==> (#[trigger] computers@[j] matches Computer::Server(s)
                        && s.highest_accepted_id == 0),
            decreases n_servers - i,
        {
            computers.push(Computer::Server(Server::new()));
            i += 1;
        }
        let mut j: usize = 0;
        while j < n_clients
            invariant
                j <= n_clients,
                n_servers + n_clients <= usize::MAX,
                computers@.len() == n_servers + j,
                forall|q: int|
                    0 <= q < n_servers ==> (#[trigger] computers@[q] matches Computer::Server(s)
                        && s.highest_accepted_id == 0),
                forall|q: int|
                    n_servers <= q < n_servers + j ==> (#[trigger] computers@[q] matches
                        Computer::Client(c) && c.n_servers == n_servers && c.committed_id == 0
                        && c.tally@ == Seq::<Vote>::empty()),
                forall|k: int|
                    0 <= k < in_flight@.len() ==> ({
                        &&& (#[trigger] in_flight@[k].msg matches Message::Request { token, id }
                            && id == 1)
                        &&& in_flight@[k].to < n_servers
                        &&& n_servers <= in_flight@[k].from < n_servers + j
                    }),
                in_flight@.len() == j * n_servers,
                forall|a: int, s: int|
                    0 <= a < j && 0 <= s < n_servers ==> #[trigger] in_flight@[a * n_servers + s]
                        == (Entry {
                        from: (n_servers + a) as usize,
                        to: s as usize,
                        msg: Message::Request { token: token_of(computers@[n_servers + a]), id: 1 },
                    }),
            decreases n_clients - j,
        {
            let mut cl = Client::new(n_servers);
            let requests = cl.start_round();
            let sender = n_servers + j;
            let mut k: usize = 0;
            while k < requests.len()
                invariant
                    k <= requests.len(),
                    requests@ == round_requests(n_servers, cl.active_token, 1u64),
                    n_servers + j < n_servers + n_clients <= usize::MAX,
                    sender == n_servers + j,
                    forall|q: int|
                        0 <= q < in_flight@.len() ==> ({
                            &&& (#[trigger] in_flight@[q].msg matches Message::Request {
                                token,
                                id,
                            } && id == 1)
                            &&& in_flight@[q].to < n_servers
                            &&& n_servers <= in_flight@[q].from < n_servers + j + 1
                        }),
                    in_flight@.len() == j * n_servers + k,
                    forall|a: int, s: int|
                        0 <= a < j && 0 <= s < n_servers ==> #[trigger] in_flight@[a * n_servers
                            + s] == (Entry {
                            from: (n_servers + a) as usize,
                            to: s as usize,
                            msg: Message::Request {
                                token: token_of(computers@[n_servers + a]),
                                id: 1,
                            },
                        }),
                    forall|q: int|
                        0 <= q < k ==> #[trigger] in_flight@[j * n_servers + q] == (Entry {
                            from: sender,
                            to: q as usize,
                            msg: Message::Request { token: cl.active_token, id: 1 },
                        }),
                decreases requests@.len() - k,
            {
                let (to, m) = requests[k];
                in_flight.push(Entry { from: sender, to, msg: m });
                k += 1;
                proof {
                    assert forall|a: int, ss: int| 0 <= a < j && 0 <= ss < n_servers implies #[trigger] in_flight@[a
                        * n_servers + ss] == (Entry {
                        from: (n_servers + a) as usize,
                        to: ss as usize,
                        msg: Message::Request { token: token_of(computers@[n_servers + a]), id: 1 },
                    }) by {
                        lemma_grid_index(a, ss, j as int, n_servers as int);
                    }
                }
            }
            computers.push(Computer::Client(cl));
            j += 1;
            proof {
                assert(j * n_servers == (j - 1) * n_servers + n_servers) by (nonlinear_arith);
                assert forall|a: int, ss: int| 0 <= a < j && 0 <= ss < n_servers implies #[trigger] in_flight@[a
                    * n_servers + ss] == (Entry {
                    from: (n_servers + a) as usize,
                    to: ss as usize,
                    msg: Message::Request { token: token_of(computers@[n_servers + a]), id: 1 },
                }) by {
                    lemma_grid_index(a, ss, j as int, n_servers as int);
                    if a < j - 1 {
                        lemma_grid_index(a, ss, j as int - 1, n_servers as int);
                    }
                }
            }
        }
        proof {
            assert(n_clients * n_servers == n_servers * n_clients) by (nonlinear_arith);
        }
        Simulator { computers, in_flight, n_servers, loss_num, loss_denom }
    }

    /// One simulation step: pop one in-flight message, deliver it, put each
    /// reply that survives its loss trial back on the queue, and reshuffle.
    /// `QueueEmpty` comes back exactly when no message remained; otherwise
    /// some drawn token and some loss verdicts make the step exactly a
    /// [`step_effect`] on the popped entry. The acceptors' ceilings never
    /// decrease, and a well-formed population never misroutes.
    pub fn step(&mut self) -> (r: Result<StepOutcome, Fault>)
        requires
            old(self).wf(),
        ensures
            final(self).wf(),
            final(self).n_servers == old(self).n_servers,
            final(self).computers@.len() == old(self).computers@.len(),
            final(self).loss_num == old(self).loss_num,
            final(self).loss_denom == old(self).loss_denom,
            forall|i: int|
                0 <= i < old(self).n_servers ==> final(self).server_max(i) >= old(self).server_max(
                    i,
                ),
            (r == Ok::<StepOutcome, Fault>(StepOutcome::QueueEmpty)) <==> old(
                self,
            ).in_flight@.len() == 0,
            old(self).in_flight@.len() == 0 ==> *final(self) == *old(self),
            old(self).in_flight@.len() > 0 ==> exists|nt: u128, keep: Seq<bool>|
                #[trigger] step_effect(*old(self), *final(self), r, nt, keep),
            !(r matches Err(f) && f == Fault::Misrouted),
    {
        if self.in_flight.len() == 0 {
            return Ok(StepOutcome::QueueEmpty);
        }
        let ghost pre = *self;
        let e = self.in_flight.pop().unwrap();
        proof {
            assert(pre.entry_ok(e));
            assert(self.in_flight@ =~= pre.in_flight@.drop_last());
        }
        let next_token = fresh_token();
        let to = e.to;
        let mut comp = self.computers.remove(to);
        let res = comp.receive(e.from, e.msg, next_token);
        self.computers.insert(to, comp);
        proof {
            assert(self.computers@ =~= pre.computers@.update(to as int, self.computers@[to as int],
            ));
        }
        let ghost mid = *self;
        match res {
            Err(f) => {
                let out = Err::<StepOutcome, Fault>(f);
                proof {
                    assert(f != Fault::Misrouted);
                    assert(step_effect(pre, *self, out, next_token, Seq::<bool>::empty()));
                }
                out
            },
            Ok((replies, outcome)) => {
                let ghost ents = entries_from(to, replies@);
                let ghost mut keep: Seq<bool> = Seq::empty();
                let mut k: usize = 0;
                while k < replies.len()
                    invariant
                        k <= replies.len(),
                        self.wf(),
                        self.n_servers == pre.n_servers,
                        self.computers@ == mid.computers@,
                        self.computers@.len() == pre.computers@.len(),
                        self.loss_num == pre.loss_num,
                        self.loss_denom == pre.loss_denom,
                        forall|i: int|
                            0 <= i < pre.n_servers ==> self.server_max(i) >= pre.server_max(i),
                        forall|q: int|
                            0 <= q < replies@.len() ==> self.entry_ok(
                                Entry {
                                    from: to,
                                    to: #[trigger] replies@[q].0,
                                    msg: replies@[q].1,
                                },
                            ),
                        ents == entries_from(to, replies@),
                        keep.len() == k,
                        self.in_flight@ == pre.in_flight@.drop_last() + kept_entries(
                            ents.take(k as int),
                            keep,
                        ),
                    decreases replies@.len() - k,
                {
                    let ghost keep0 = keep;
                    let (dest, m) = replies[k];
                    let drop_it = loss_trial(self.loss_num, self.loss_denom);
                    if !drop_it {
                        self.in_flight.push(Entry { from: to, to: dest, msg: m });
                    }
                    proof {
                        keep = keep0.push(!drop_it);
                        let t1 = ents.take(k as int + 1);
                        assert(t1.drop_last() =~= ents.take(k as int));
                        assert(keep.drop_last() =~= keep0);
                        assert(t1.last() == (Entry { from: to, to: dest, msg: m }));
                        assert(self.in_flight@ =~= pre.in_flight@.drop_last() + kept_entries(
                            t1,
                            keep,
                        ));
                    }
                    k += 1;
                }
                let ghost before_shuffle = *self;
                shuffle_entries(&mut self.in_flight);
                let out = Ok::<StepOutcome, Fault>(StepOutcome::Delivered(outcome));
                proof {
                    assert forall|q: int| 0 <= q < self.in_flight@.len() implies self.entry_ok(
                        self.in_flight@[q],
                    ) by {
                        assert(before_shuffle.in_flight@.contains(self.in_flight@[q]));
                        let w = choose|w: int|
                            0 <= w < before_shuffle.in_flight@.len()
                                && before_shuffle.in_flight@[w] == self.in_flight@[q];
                        assert(before_shuffle.entry_ok(before_shuffle.in_flight@[w]));
                    }
                    assert(ents.take(replies@.len() as int) =~= ents);
                    assert(step_effect(pre, *self, out, next_token, keep));
                }
                out
            },
        }
    }

    /// Drive deliveries until the queue empties, a fault aborts the run, or
    /// `max_steps` deliveries have been made. Returns the notifications of
    /// the concluded rounds in order, and whether the queue drained: true
    /// exactly when no message remains, false exactly when the step budget
    /// ran out with messages still in flight. Each notification comes from
    /// one delivery, so there are at most `max_steps` of them. Across the
    /// whole run, and under every delivery order and loss pattern, the
    /// acceptors' ceilings never decrease.
    pub fn run(&mut self, max_steps: usize) -> (r: Result<(Vec<RoundOutcome>, bool), Fault>)
        requires
            old(self).wf(),
        ensures
            final(self).wf(),
            final(self).n_servers == old(self).n_servers,
            forall|i: int|
                0 <= i < old(self).n_servers ==> final(self).server_max(i) >= old(self).server_max(
                    i,
                ),
            (r matches Ok(p) ==> forall|k: int| 0 <= k < p.0@.len() ==> !(p.0@[k] is Pending)),
            (r matches Ok(p) ==> (p.1 <==> final(self).in_flight@.len() == 0)),
            (r matches Ok(p) ==> p.0@.len() <= max_steps),
            !(r matches Err(f) && f == Fault::Misrouted),
    {
        let mut notes: Vec<RoundOutcome> = Vec::new();
        let mut steps: usize = 0;
        while steps < max_steps
            invariant
                self.wf(),
                self.n_servers == old(self).n_servers,
                forall|i: int|
                    0 <= i < old(self).n_servers ==> self.server_max(i) >= old(self).server_max(i),
                forall|k: int| 0 <= k < notes@.len() ==> !(#[trigger] notes@[k] is Pending),
                notes@.len() <= steps,
                steps <= max_steps,
            decreases max_steps - steps,
        {
            let r = self.step();
            match r {
                Ok(StepOutcome::QueueEmpty) => {
                    return Ok((notes, true));
                },
                Ok(StepOutcome::Delivered(outcome)) => {
                    match outcome {
                        RoundOutcome::Pending => {},
                        _ => {
                            notes.push(outcome);
                        },
                    }
                },
                Err(f) => {
                    return Err(f);
                },
            }
            steps += 1;
        }
        let drained = self.in_flight.len() == 0;
        Ok((notes, drained))
    }
}

} // verus!
