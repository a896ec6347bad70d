//! Tests of the network simulator: whole runs under scrambled delivery,
//! with and without loss.

use quorum_id::message::Fault;
use quorum_id::message::Message;
use quorum_id::message::RoundOutcome;
use quorum_id::network::Computer;
use quorum_id::network::Simulator;
use quorum_id::network::StepOutcome;

#[test]
fn lossless_single_client_commits_id_one() {
    // Three acceptors, one proposer, no loss: whatever order the three
    // responses arrive in, the second acceptance commits identifier 1,
    // and exactly one success is announced.
    let mut sim = Simulator::new(3, 1, 0, 1);
    let (notes, drained) = sim.run(10_000).unwrap();
    assert!(drained);
    assert_eq!(notes, vec![RoundOutcome::Success { id: 1 }]);
}

#[test]
fn lossless_population_settles_without_faults() {
    let mut sim = Simulator::new(10, 15, 0, 1);
    let (notes, drained) = sim.run(1_000_000).unwrap();
    assert!(drained);
    // Every announcement is a concluded round.
    assert!(notes
        .iter()
        .all(|n| !matches!(n, RoundOutcome::Pending)));
    // Someone must have concluded a round.
    assert!(!notes.is_empty());
}

#[test]
fn lossy_run_terminates_without_corruption() {
    // Loss probability strictly between 0 and 1: the queue must still
    // drain without any protocol-corruption fault, though success is not
    // owed to every proposer.
    for (num, denom) in [(1, 10), (1, 2), (9, 10)] {
        let mut sim = Simulator::new(5, 8, num, denom);
        let (notes, drained) = sim.run(1_000_000).unwrap();
        assert!(drained);
        assert!(notes
            .iter()
            .all(|n| !matches!(n, RoundOutcome::Pending)));
    }
}

#[test]
fn total_loss_drains_after_first_deliveries() {
    // With every reply dropped, only the seeded requests are delivered.
    let mut sim = Simulator::new(3, 2, 1, 1);
    let (notes, drained) = sim.run(10_000).unwrap();
    assert!(drained);
    assert!(notes.is_empty());
}

#[test]
fn acceptor_ceilings_never_decrease_over_a_run() {
    let mut sim = Simulator::new(4, 6, 1, 5);
    let mut floors = vec![0u64; 4];
    loop {
        match sim.step().unwrap() {
            StepOutcome::QueueEmpty => break,
            StepOutcome::Delivered(_) => {}
        }
        for i in 0..4 {
            if let Computer::Server(s) = &sim.computers[i] {
                assert!(s.highest_accepted_id >= floors[i]);
                floors[i] = s.highest_accepted_id;
            } else {
                panic!("acceptor expected at index {}", i);
            }
        }
    }
}

#[test]
fn misrouted_message_is_a_fault() {
    let mut sim = Simulator::new(2, 1, 0, 1);
    // Deliver a response to an acceptor by hand.
    let mut acceptor = sim.computers.remove(0);
    let r = acceptor.receive(2, Message::Response { accepted: true, token: 1, id: 1 }, 9);
    assert_eq!(r, Err(Fault::Misrouted));
    let mut proposer = sim.computers.pop().unwrap();
    let r = proposer.receive(0, Message::Request { token: 1, id: 1 }, 9);
    assert_eq!(r, Err(Fault::Misrouted));
}

#[test]
fn step_on_empty_queue_reports_queue_empty() {
    let mut sim = Simulator::new(2, 1, 1, 1);
    let (_, drained) = sim.run(10_000).unwrap();
    assert!(drained);
    assert_eq!(sim.step().unwrap(), StepOutcome::QueueEmpty);
}
