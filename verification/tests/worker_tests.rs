use selproxy::conn::{Connection, State};
use selproxy::worker::Worker;

#[test]
fn new_worker_is_empty() {
    let w = Worker::new();
    assert_eq!(w.len(), 0);
}

#[test]
fn push_and_get() {
    let mut w = Worker::new();
    w.push(Connection::new(1));
    w.push(Connection::new(2));
    assert_eq!(w.len(), 2);
    assert_eq!(w.get(0).id, 1);
    assert_eq!(w.get(1).id, 2);
}

#[test]
fn set_replaces_in_place() {
    let mut w = Worker::new();
    w.push(Connection::new(1));
    let mut c = w.get(0);
    c.fail();
    w.set(0, c);
    assert_eq!(w.get(0).state, State::Done);
    assert_eq!(w.get(0).id, 1);
}

#[test]
fn remove_done_swaps_last_into_place() {
    let mut w = Worker::new();
    for id in 0..4 {
        w.push(Connection::new(id));
    }
    let mut c = w.get(1);
    c.fail();
    w.set(1, c);
    w.remove_done(1);
    assert_eq!(w.len(), 3);
    let ids: Vec<u64> = (0..w.len()).map(|i| w.get(i).id).collect();
    assert_eq!(ids, vec![0, 3, 2]);
}

#[test]
fn remove_done_at_last_position() {
    let mut w = Worker::new();
    w.push(Connection::new(1));
    let mut c = w.get(0);
    c.fail();
    w.set(0, c);
    w.remove_done(0);
    assert_eq!(w.len(), 0);
}

/// A small linear-congruential generator, enough to shuffle finish orders.
fn next_rand(state: &mut u64) -> u64 {
    *state = state.wrapping_mul(6364136223846793383).wrapping_add(1442695040888963407);
    *state >> 33
}

/// Sweep the live set once the way a worker tick does: step past live
/// connections, swap-remove finished ones in place.
fn sweep(w: &mut Worker) {
    let mut i = 0;
    while i < w.len() {
        if w.get(i).state == State::Done {
            w.remove_done(i);
        } else {
            i += 1;
        }
    }
}

#[test]
fn removal_keeps_exactly_the_active_connections() {
    // Worker removal correctness: after N connections finish in arbitrary
    // interleavings, the live set holds exactly the still-active
    // connections — no duplicates, no drops.
    let mut seed: u64 = 0x5e1f;
    for round in 0..50 {
        let n = 1 + (next_rand(&mut seed) % 24) as usize;
        let mut w = Worker::new();
        for id in 0..n as u64 {
            w.push(Connection::new(id));
        }
        // Pick a random subset to finish, in random order, sweeping at
        // random moments in between.
        let mut finished: Vec<u64> = Vec::new();
        let mut order: Vec<u64> = (0..n as u64).collect();
        for i in (1..order.len()).rev() {
            let j = (next_rand(&mut seed) % (i as u64 + 1)) as usize;
            order.swap(i, j);
        }
        let k = (next_rand(&mut seed) % (n as u64 + 1)) as usize;
        for &id in order.iter().take(k) {
            // Find the connection wherever the swaps left it and finish it.
            let mut found = false;
            for i in 0..w.len() {
                let mut c = w.get(i);
                if c.id == id {
                    c.fail();
                    w.set(i, c);
                    found = true;
                    break;
                }
            }
            assert!(found, "round {}: live connection {} was dropped early", round, id);
            finished.push(id);
            if next_rand(&mut seed) % 2 == 0 {
                sweep(&mut w);
            }
        }
        sweep(&mut w);
        let mut live: Vec<u64> = (0..w.len()).map(|i| w.get(i).id).collect();
        live.sort_unstable();
        let mut expected: Vec<u64> =
            (0..n as u64).filter(|id| !finished.contains(id)).collect();
        expected.sort_unstable();
        assert_eq!(live, expected, "round {}: live set diverged", round);
        for i in 0..w.len() {
            assert_eq!(w.get(i).state, State::Init);
        }
    }
}
