//! Tests of the two participant state machines: the acceptor's strict
//! greater-than rule and the proposer's quorum tallying.

use quorum_id::client::Client;
use quorum_id::message::Fault;
use quorum_id::message::Message;
use quorum_id::message::RoundOutcome;
use quorum_id::server::Server;

#[test]
fn server_accepts_strictly_higher() {
    let mut s = Server::new();
    assert_eq!(s.highest_accepted_id, 0);
    let replies = s.propose(3, 42, 1);
    assert_eq!(s.highest_accepted_id, 1);
    assert_eq!(
        replies,
        vec![(3, Message::Response { accepted: true, token: 42, id: 1 })]
    );
}

#[test]
fn server_rejects_repeat_of_accepted_id() {
    // An acceptor holding ceiling 5 must reject a fresh proposal of 5:
    // the rule is strictly greater, not greater-or-equal.
    let mut s = Server { highest_accepted_id: 5 };
    let replies = s.propose(7, 99, 5);
    assert_eq!(s.highest_accepted_id, 5);
    assert_eq!(
        replies,
        vec![(7, Message::Response { accepted: false, token: 99, id: 5 })]
    );
}

#[test]
fn server_ceiling_never_decreases() {
    let mut s = Server::new();
    let mut last = 0;
    for id in [3u64, 1, 7, 2, 7, 0, 9] {
        s.propose(0, 1, id);
        assert!(s.highest_accepted_id >= last);
        last = s.highest_accepted_id;
    }
    assert_eq!(s.highest_accepted_id, 9);
}

#[test]
fn client_round_broadcasts_to_every_server() {
    let mut c = Client::new(3);
    let requests = c.start_round_with(42);
    assert_eq!(c.active_token, 42);
    assert_eq!(c.committed_id, 0);
    assert!(c.tally.is_empty());
    assert_eq!(
        requests,
        vec![
            (0, Message::Request { token: 42, id: 1 }),
            (1, Message::Request { token: 42, id: 1 }),
            (2, Message::Request { token: 42, id: 1 }),
        ]
    );
}

#[test]
fn client_commits_on_majority_of_acceptances() {
    // Three acceptors: the second acceptance crosses the threshold (2 > 1).
    let mut c = Client::new(3);
    c.start_round_with(42);
    let (out, outcome) = c.receive(0, true, 42, 1, 77).unwrap();
    assert!(out.is_empty());
    assert_eq!(outcome, RoundOutcome::Pending);
    assert_eq!(c.committed_id, 0);
    let (out, outcome) = c.receive(1, true, 42, 1, 77).unwrap();
    assert!(out.is_empty());
    assert_eq!(outcome, RoundOutcome::Success { id: 1 });
    assert_eq!(c.committed_id, 1);
    // The round closed: the active token was replaced.
    assert_eq!(c.active_token, 77);
}

#[test]
fn stale_response_changes_nothing() {
    let mut c = Client::new(3);
    c.start_round_with(42);
    c.receive(0, true, 42, 1, 77).unwrap();
    let committed = c.committed_id;
    let token = c.active_token;
    let votes = c.tally.len();
    // Token 41 does not match the active round: the response is inert.
    let (out, outcome) = c.receive(1, true, 41, 1, 88).unwrap();
    assert!(out.is_empty());
    assert_eq!(outcome, RoundOutcome::Pending);
    assert_eq!(c.committed_id, committed);
    assert_eq!(c.active_token, token);
    assert_eq!(c.tally.len(), votes);
}

#[test]
fn duplicate_sender_is_not_double_counted() {
    // Two acceptances from the same acceptor must not make a majority.
    let mut c = Client::new(3);
    c.start_round_with(42);
    let (_, outcome) = c.receive(0, true, 42, 1, 77).unwrap();
    assert_eq!(outcome, RoundOutcome::Pending);
    let (_, outcome) = c.receive(0, true, 42, 1, 77).unwrap();
    assert_eq!(outcome, RoundOutcome::Pending);
    assert_eq!(c.committed_id, 0);
    assert_eq!(c.tally.len(), 1);
}

#[test]
fn no_second_commit_within_a_round() {
    // After the commit the old round's token is stale, so a third
    // acceptance of that round cannot commit again.
    let mut c = Client::new(3);
    c.start_round_with(42);
    c.receive(0, true, 42, 1, 77).unwrap();
    let (_, outcome) = c.receive(1, true, 42, 1, 77).unwrap();
    assert_eq!(outcome, RoundOutcome::Success { id: 1 });
    let (_, outcome) = c.receive(2, true, 42, 1, 88).unwrap();
    assert_eq!(outcome, RoundOutcome::Pending);
    assert_eq!(c.committed_id, 1);
    assert_eq!(c.active_token, 77);
}

#[test]
fn majority_rejection_adopts_ceiling_and_retries() {
    // Contention: some other proposer already got 1 accepted everywhere,
    // so this proposer's id-1 round collects rejections reporting ceiling 1.
    let mut server = Server { highest_accepted_id: 1 };
    let mut c = Client::new(3);
    c.start_round_with(42);
    let replies = server.propose(3, 42, 1);
    assert_eq!(
        replies,
        vec![(3, Message::Response { accepted: false, token: 42, id: 1 })]
    );
    let (_, outcome) = c.receive(0, false, 42, 1, 77).unwrap();
    assert_eq!(outcome, RoundOutcome::Pending);
    let (requests, outcome) = c.receive(1, false, 42, 1, 77).unwrap();
    assert_eq!(outcome, RoundOutcome::Failure { id: 1 });
    // The ceiling is adopted and the next round proposes one above it.
    assert_eq!(c.committed_id, 1);
    assert_eq!(c.active_token, 77);
    assert!(c.tally.is_empty());
    assert_eq!(
        requests,
        vec![
            (0, Message::Request { token: 77, id: 2 }),
            (1, Message::Request { token: 77, id: 2 }),
            (2, Message::Request { token: 77, id: 2 }),
        ]
    );
}

#[test]
fn acceptance_with_wrong_id_is_a_fault() {
    let mut c = Client::new(3);
    c.start_round_with(42);
    let r = c.receive(0, true, 42, 5, 77);
    assert_eq!(r, Err(Fault::AcceptIdMismatch { committed: 0, got: 5 }));
    // The fault leaves the proposer untouched.
    assert_eq!(c.committed_id, 0);
    assert_eq!(c.active_token, 42);
    assert!(c.tally.is_empty());
}

#[test]
fn corrupt_acceptance_from_tallied_sender_still_faults() {
    // The identifier check runs on every acceptance of the active round,
    // before the duplicate-sender test: a corrupt acceptance is fatal even
    // when its sender was already counted.
    let mut c = Client::new(3);
    c.start_round_with(42);
    let (_, outcome) = c.receive(0, true, 42, 1, 77).unwrap();
    assert_eq!(outcome, RoundOutcome::Pending);
    let r = c.receive(0, true, 42, 9, 77);
    assert_eq!(r, Err(Fault::AcceptIdMismatch { committed: 0, got: 9 }));
    assert_eq!(c.committed_id, 0);
    assert_eq!(c.tally.len(), 1);
}

#[test]
fn exhausted_id_space_is_a_fault() {
    // A single acceptor is a majority of one; a rejection reporting the
    // top of the identifier space leaves no strictly greater proposal.
    let mut c = Client::new(1);
    c.start_round_with(42);
    let r = c.receive(0, false, 42, u64::MAX, 77);
    assert_eq!(r, Err(Fault::IdExhausted));
    assert_eq!(c.committed_id, 0);
}

#[test]
fn fresh_rounds_draw_distinct_tokens() {
    let mut c = Client::new(2);
    c.start_round();
    let first = c.active_token;
    c.start_round();
    let second = c.active_token;
    assert_ne!(first, second);
}
