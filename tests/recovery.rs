use stream_meta::epoch::{physical_time_of, Epoch, EPOCH_BASE_UNIX_MILLIS, MAX_PHYSICAL_TIME};
use stream_meta::meta_error::MetaError;
use stream_meta::recovery::{
    actor_info_table, dirty_table_ids, drop_table_fragments, expired_workers, migrate_actors,
    ActorStatus, BarrierActorInfo, MigrationPlan, Recovery, RecoveryAction, RecoveryEvent,
    RecoveryPhase, TableFragments,
};
use stream_meta::scheduler::{HostAddress, WorkerNode};
use stream_meta::vnode::Bitmap;

fn node(id: u32) -> WorkerNode {
    WorkerNode { id, host: HostAddress { host: format!("10.0.0.{}", id), port: 5688 } }
}

#[test]
fn dirty_fragment_cleanup() {
    let mut store = vec![
        TableFragments { table_id: 7, created: true },
        TableFragments { table_id: 1, created: true },
        TableFragments { table_id: 2, created: false },
    ];
    let dirty = dirty_table_ids(&vec![1, 2], &store);
    assert_eq!(dirty, vec![7, 2]);
    drop_table_fragments(&mut store, &dirty);
    assert_eq!(store.iter().map(|t| t.table_id).collect::<Vec<_>>(), vec![1]);
}

#[test]
fn recovery_migration() {
    let info = BarrierActorInfo {
        actor_map: vec![(1, vec![11, 12]), (2, vec![21])],
        node_map: vec![(2, node(2))],
    };
    let expired = expired_workers(&info);
    assert_eq!(expired, vec![1]);

    let mut plan = MigrationPlan::new();
    plan.offer(&info, &expired, vec![]);
    assert!(plan.assignments.is_empty());
    // Worker 2 hosts actors already; worker 3 is new.
    plan.offer(&info, &expired, vec![node(2), node(3)]);
    assert_eq!(plan.assignments, vec![(1, 3)]);
    assert_eq!(plan.node_map.len(), 1);
    assert_eq!(plan.node_map[0].0, 3);
    let migrate_map = plan.migrate_map(&info);
    assert_eq!(migrate_map, vec![(11, 3), (12, 3)]);

    let bitmap = |v: bool| Some(Bitmap { bits: vec![v, !v] });
    let mut actors = vec![
        ActorStatus { actor_id: 11, worker_id: 1, upstream_actor_ids: vec![], vnode_bitmap: bitmap(true) },
        ActorStatus { actor_id: 12, worker_id: 1, upstream_actor_ids: vec![5], vnode_bitmap: bitmap(false) },
        ActorStatus { actor_id: 21, worker_id: 2, upstream_actor_ids: vec![], vnode_bitmap: None },
    ];
    migrate_actors(&mut actors, &migrate_map);
    assert_eq!(actors.iter().map(|a| a.worker_id).collect::<Vec<_>>(), vec![3, 3, 2]);
    assert_eq!(actors[0].vnode_bitmap.as_ref().unwrap().bits, vec![true, false]);
    assert_eq!(actors[1].vnode_bitmap.as_ref().unwrap().bits, vec![false, true]);
    assert_eq!(actors[1].upstream_actor_ids, vec![5]);

    let prev = Epoch(100 << 16);
    let mut recovery = Recovery::new(prev);
    assert_eq!(recovery.action(), RecoveryAction::ResolveActorInfo);
    assert_eq!(recovery.on_event(RecoveryEvent::Succeeded, 0), RecoveryAction::MigrateActors);
    assert_eq!(recovery.on_event(RecoveryEvent::Migrated, 0), RecoveryAction::ResolveActorInfo);
    assert_eq!(recovery.on_event(RecoveryEvent::Succeeded, 0), RecoveryAction::ResetComputeNodes);
    assert_eq!(recovery.on_event(RecoveryEvent::Succeeded, 0), RecoveryAction::UpdateActors);
    assert_eq!(recovery.on_event(RecoveryEvent::Succeeded, 0), RecoveryAction::BuildActors);
    assert_eq!(recovery.on_event(RecoveryEvent::Succeeded, 0), RecoveryAction::ListSplitAssignments);
    let inject = recovery.on_event(RecoveryEvent::Succeeded, 0);
    assert_eq!(inject, RecoveryAction::InjectBarrier { prev_epoch: prev, curr_epoch: Epoch(prev.0 + 1) });
    let done = recovery.on_event(RecoveryEvent::Succeeded, 0);
    assert_eq!(done, RecoveryAction::Finish { epoch: Epoch(prev.0 + 1) });
    match done {
        RecoveryAction::Finish { epoch } => assert!(epoch.0 > prev.0),
        _ => unreachable!(),
    }
    assert_eq!(recovery.on_event(RecoveryEvent::Failed, 0), done);
}

#[test]
fn migration_waits_for_enough_new_workers() {
    let info = BarrierActorInfo {
        actor_map: vec![(1, vec![11]), (2, vec![21]), (4, vec![])],
        node_map: vec![],
    };
    let expired = expired_workers(&info);
    assert_eq!(expired, vec![1, 2]);
    let mut plan = MigrationPlan::new();
    plan.offer(&info, &expired, vec![node(5), node(4)]);
    assert_eq!(plan.assignments, vec![(1, 5)]);
    plan.offer(&info, &expired, vec![node(5), node(6), node(7)]);
    assert_eq!(plan.assignments, vec![(1, 5), (2, 6)]);
    assert_eq!(plan.migrate_map(&info), vec![(11, 5), (21, 6)]);
}

#[test]
fn failure_restarts_the_attempt() {
    let mut recovery = Recovery::new(Epoch(5));
    recovery.on_event(RecoveryEvent::Succeeded, 0);
    recovery.on_event(RecoveryEvent::Succeeded, 0);
    assert_eq!(recovery.on_event(RecoveryEvent::Failed, 0), RecoveryAction::ResolveActorInfo);
    assert_eq!(recovery.phase, RecoveryPhase::ResolveInfo);
    assert_eq!(recovery.retries, 1);
    for _ in 0..6 {
        recovery.on_event(RecoveryEvent::Succeeded, 10);
    }
    // The clock is ahead of the last epoch: the first new epoch starts at it.
    assert_eq!(recovery.action(), RecoveryAction::InjectBarrier { prev_epoch: Epoch(5), curr_epoch: Epoch(10 << 16) });
}

#[test]
fn actor_table_needs_live_workers() {
    let info = BarrierActorInfo { actor_map: vec![(1, vec![11, 12]), (2, vec![21])], node_map: vec![(1, node(1)), (2, node(2))] };
    let table = actor_info_table(&info).unwrap();
    let rows: Vec<(u32, String)> = table.iter().map(|i| (i.actor_id, i.host.host.clone())).collect();
    assert_eq!(rows, vec![(11, "10.0.0.1".to_string()), (12, "10.0.0.1".to_string()), (21, "10.0.0.2".to_string())]);
    let evicted = BarrierActorInfo { actor_map: vec![(1, vec![11]), (3, vec![31])], node_map: vec![(1, node(1))] };
    assert!(matches!(actor_info_table(&evicted), Err(MetaError::WorkerEvicted { worker_id: 3 })));
}

#[test]
fn epochs_advance() {
    let e = Epoch(3 << 16);
    assert_eq!(e.physical_time(), 3);
    assert_eq!(e.next_at(3), Epoch((3 << 16) + 1));
    assert_eq!(e.next_at(2), Epoch((3 << 16) + 1));
    assert_eq!(e.next_at(9), Epoch(9 << 16));
    assert_eq!(Epoch::from_physical_time(9), Epoch(9 << 16));
    let now = Epoch(0).next();
    assert!(now.0 > 0);
    assert!(now.next().0 > now.0);
}

#[test]
fn physical_time_from_unix_time() {
    assert_eq!(physical_time_of(None), 0);
    assert_eq!(physical_time_of(Some(5)), 0);
    assert_eq!(physical_time_of(Some(EPOCH_BASE_UNIX_MILLIS as u128 + 42)), 42);
    assert_eq!(physical_time_of(Some(u128::MAX)), MAX_PHYSICAL_TIME);
}
