use stream_meta::barrier::{Barrier, BarrierState};
use stream_meta::epoch::Epoch;

#[test]
fn barrier_lifecycle_commits() {
    let mut b = Barrier::new(Epoch(7 << 16), 7, vec![1, 2, 1]);
    assert_eq!(b.curr_epoch, Epoch((7 << 16) + 1));
    assert_eq!(b.state, BarrierState::Pending);
    b.injected(true);
    assert_eq!(b.state, BarrierState::InFlight);
    b.acknowledge(1);
    assert_eq!(b.pending_acks, vec![2]);
    assert_eq!(b.state, BarrierState::InFlight);
    b.acknowledge(2);
    assert_eq!(b.state, BarrierState::Collected);
    b.post_collected(true);
    assert_eq!(b.state, BarrierState::Committed);

    let next = b.next(20, vec![3]);
    assert_eq!(next.prev_epoch, b.curr_epoch);
    assert_eq!(next.curr_epoch, Epoch(20 << 16));
    assert!(next.curr_epoch.0 > b.curr_epoch.0);
}

#[test]
fn barrier_failures() {
    let mut b = Barrier::new(Epoch(1), 0, vec![4]);
    b.injected(false);
    assert_eq!(b.state, BarrierState::Failed);

    let mut c = Barrier::new(Epoch(1), 0, vec![]);
    c.injected(true);
    assert_eq!(c.state, BarrierState::Collected);
    c.post_collected(false);
    assert_eq!(c.state, BarrierState::Failed);
}
