use stream_meta::cluster::{ClusterError, ClusterMembership, WorkerState};
use stream_meta::scheduler::HostAddress;

fn host(port: i32) -> HostAddress {
    HostAddress { host: "127.0.0.1".to_string(), port }
}

#[test]
fn workers_join_run_and_expire() {
    let mut cluster = ClusterMembership::new();
    let w1 = cluster.add_worker(host(1), 2).unwrap();
    let w2 = cluster.add_worker(host(2), 3).unwrap();
    assert_ne!(w1, w2);
    // Registering the same address again gives the same worker.
    assert_eq!(cluster.add_worker(host(1), 5).unwrap(), w1);
    assert_eq!(cluster.workers.len(), 2);
    assert!(cluster.list_active_parallel_units().is_empty());
    assert_eq!(cluster.list_worker_ids(WorkerState::Starting), vec![w1, w2]);

    cluster.activate_worker(&host(1)).unwrap();
    cluster.activate_worker(&host(2)).unwrap();
    let units = cluster.list_active_parallel_units();
    assert_eq!(units.len(), 5);
    assert!(units[..2].iter().all(|p| p.worker_node_id == w1));
    assert!(units[2..].iter().all(|p| p.worker_node_id == w2));
    let ids: Vec<u32> = units.iter().map(|p| p.id).collect();
    assert_eq!(ids, vec![0, 1, 2, 3, 4]);

    cluster.expire_worker(w1).unwrap();
    assert_eq!(cluster.list_worker_ids(WorkerState::Gone), vec![w1]);
    assert_eq!(cluster.list_worker_ids(WorkerState::Running), vec![w2]);
    assert_eq!(cluster.list_active_parallel_units().len(), 3);
    // The tombstone keeps its units.
    assert_eq!(cluster.workers[0].parallel_units.len(), 2);
}

#[test]
fn unknown_workers_are_reported() {
    let mut cluster = ClusterMembership::new();
    assert_eq!(cluster.activate_worker(&host(9)), Err(ClusterError::WorkerNotFound));
    assert_eq!(cluster.expire_worker(42), Err(ClusterError::WorkerNotFound));
    cluster.next_unit_id = u32::MAX - 1;
    assert_eq!(cluster.add_worker(host(1), 2), Err(ClusterError::IdsExhausted));
    assert!(cluster.workers.is_empty());
}
