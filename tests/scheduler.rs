use std::collections::{HashMap, HashSet};

use stream_meta::cluster::ClusterMembership;
use stream_meta::meta_error::MetaError;
use stream_meta::scheduler::{
    Fragment, FragmentDistributionType, HostAddress, ScheduledLocations, Scheduler, StreamActor,
    WorkerNode,
};
use stream_meta::vnode::{Bitmap, ParallelUnit, VNODE_COUNT};

fn cluster_units(node_count: u32, parallelism: u32) -> Vec<ParallelUnit> {
    let mut units = Vec::new();
    for w in 0..node_count {
        for p in 0..parallelism {
            units.push(ParallelUnit { id: w * parallelism + p, worker_node_id: w + 1 });
        }
    }
    units
}

fn workers(node_count: u32) -> Vec<WorkerNode> {
    (0..node_count)
        .map(|i| WorkerNode {
            id: i + 1,
            host: HostAddress { host: "127.0.0.1".to_string(), port: i as i32 },
        })
        .collect()
}

fn actor(actor_id: u32, fragment_id: u32, colocated: Option<u32>) -> StreamActor {
    StreamActor {
        actor_id,
        fragment_id,
        upstream_actor_id: colocated.into_iter().collect(),
        colocated_upstream_actor_id: colocated,
        vnode_bitmap: None,
    }
}

fn fragment(fragment_id: u32, ty: FragmentDistributionType, actors: Vec<StreamActor>) -> Fragment {
    Fragment { fragment_id, distribution_type: ty, actors, vnode_mapping: None }
}

fn location(locations: &ScheduledLocations, actor_id: u32) -> ParallelUnit {
    locations.location_of(actor_id).unwrap()
}

#[test]
fn test_schedule() {
    let mut cluster_manager = ClusterMembership::new();
    let node_count = 4u32;
    let fake_parallelism = 4u32;
    for i in 0..node_count {
        let host = || HostAddress { host: "127.0.0.1".to_string(), port: i as i32 };
        cluster_manager.add_worker(host(), fake_parallelism).unwrap();
        cluster_manager.activate_worker(&host()).unwrap();
    }

    let scheduler = Scheduler::new(cluster_manager.list_active_parallel_units());
    let mut locations = ScheduledLocations::new();

    let mut actor_id = 1u32;
    let mut single_fragments: Vec<Fragment> = (1..6u32)
        .map(|id| {
            let f = fragment(id, FragmentDistributionType::Single, vec![actor(actor_id, id, None)]);
            actor_id += 1;
            f
        })
        .collect();

    let parallel_degree = fake_parallelism;
    let mut normal_fragments: Vec<Fragment> = (6..8u32)
        .map(|fragment_id| {
            let actors = (actor_id..actor_id + node_count * parallel_degree)
                .map(|id| actor(id, fragment_id, None))
                .collect();
            actor_id += node_count * parallel_degree;
            fragment(fragment_id, FragmentDistributionType::Hash, actors)
        })
        .collect();

    for f in &mut single_fragments {
        scheduler.schedule(f, &mut locations).unwrap();
    }
    for f in single_fragments {
        assert!(f.vnode_mapping.is_some());
        for a in f.actors {
            assert!(a.vnode_bitmap.is_none());
        }
    }

    for f in &mut normal_fragments {
        scheduler.schedule(f, &mut locations).unwrap();
    }
    let second: HashSet<u32> = normal_fragments[1].actors.iter().map(|a| a.actor_id).collect();
    assert_eq!(
        locations.actor_locations.iter().filter(|(id, _)| second.contains(id)).count(),
        (node_count * parallel_degree) as usize
    );
    for f in normal_fragments {
        assert!(f.vnode_mapping.is_some());
        let mut vnode_sum = 0;
        for a in f.actors {
            vnode_sum += a.vnode_bitmap.as_ref().unwrap().count_ones();
        }
        assert_eq!(vnode_sum, VNODE_COUNT);
    }
}

#[test]
fn round_robin_order_interleaves_workers() {
    let units = vec![
        ParallelUnit { id: 10, worker_node_id: 2 },
        ParallelUnit { id: 11, worker_node_id: 2 },
        ParallelUnit { id: 1, worker_node_id: 1 },
        ParallelUnit { id: 20, worker_node_id: 3 },
        ParallelUnit { id: 2, worker_node_id: 1 },
        ParallelUnit { id: 3, worker_node_id: 1 },
    ];
    let scheduler = Scheduler::new(units);
    let ids: Vec<u32> = scheduler.all_parallel_units.iter().map(|p| p.id).collect();
    assert_eq!(ids, vec![1, 10, 20, 2, 11, 3]);
    assert!(Scheduler::new(vec![]).all_parallel_units.is_empty());
}

#[test]
fn round_robin_placement_spreads_over_workers() {
    let scheduler = Scheduler::new(cluster_units(4, 4));
    let mut locations = ScheduledLocations::new();
    let mut f = fragment(1, FragmentDistributionType::Hash, (100..108).map(|id| actor(id, 1, None)).collect());
    scheduler.schedule(&mut f, &mut locations).unwrap();

    let units: Vec<ParallelUnit> = (100..108).map(|id| location(&locations, id)).collect();
    let distinct: HashSet<u32> = units.iter().map(|p| p.id).collect();
    assert_eq!(distinct.len(), 8);
    let mut per_worker: HashMap<u32, usize> = HashMap::new();
    for p in &units {
        *per_worker.entry(p.worker_node_id).or_default() += 1;
    }
    assert_eq!(per_worker.len(), 4);
    assert!(per_worker.values().all(|n| *n == 2));
    // Actors follow the unit ids in increasing order.
    let ids: Vec<u32> = units.iter().map(|p| p.id).collect();
    let mut sorted = ids.clone();
    sorted.sort();
    assert_eq!(ids, sorted);

    let total: usize = f.actors.iter().map(|a| a.vnode_bitmap.as_ref().unwrap().count_ones()).sum();
    assert_eq!(total, VNODE_COUNT);
    // The bitmaps are disjoint and agree with the fragment's mapping.
    let mapping = f.vnode_mapping.as_ref().unwrap();
    for v in 0..VNODE_COUNT {
        let holders: Vec<usize> = (0..8).filter(|k| f.actors[*k].vnode_bitmap.as_ref().unwrap().bits[v]).collect();
        assert_eq!(holders.len(), 1);
        assert_eq!(mapping.owners[v], units[holders[0]].id);
    }
}

#[test]
fn singleton_colocates_with_upstream() {
    let scheduler = Scheduler::new(cluster_units(2, 2));
    let mut locations = ScheduledLocations::new();
    let mut upstream = fragment(1, FragmentDistributionType::Single, vec![actor(1, 1, None)]);
    scheduler.schedule_with(&mut upstream, &mut locations, Some(ParallelUnit { id: 3, worker_node_id: 2 })).unwrap();
    let p = location(&locations, 1);
    assert_eq!(p, ParallelUnit { id: 3, worker_node_id: 2 });

    let mut s = fragment(2, FragmentDistributionType::Single, vec![actor(2, 2, Some(1))]);
    scheduler.schedule(&mut s, &mut locations).unwrap();
    assert_eq!(location(&locations, 2), p);
    assert!(s.actors[0].vnode_bitmap.is_none());
    assert!(s.vnode_mapping.as_ref().unwrap().owners.iter().all(|o| *o == 3));
    assert_eq!(s.vnode_mapping.as_ref().unwrap().owners.len(), VNODE_COUNT);
}

#[test]
fn random_singleton_lands_on_a_known_unit() {
    let units = cluster_units(3, 2);
    let scheduler = Scheduler::new(units.clone());
    let mut locations = ScheduledLocations::new();
    let mut s = fragment(1, FragmentDistributionType::Single, vec![actor(1, 1, None)]);
    scheduler.schedule(&mut s, &mut locations).unwrap();
    assert!(units.contains(&location(&locations, 1)));
}

#[test]
fn hash_fragment_inherits_upstream_bitmaps() {
    let scheduler = Scheduler::new(cluster_units(2, 2));
    let mut locations = ScheduledLocations::new();
    let mut up = fragment(1, FragmentDistributionType::Hash, (1..5).map(|id| actor(id, 1, None)).collect());
    scheduler.schedule(&mut up, &mut locations).unwrap();

    let mut down = fragment(2, FragmentDistributionType::Hash, (1..5).map(|id| actor(10 + id, 2, Some(id))).collect());
    scheduler.schedule(&mut down, &mut locations).unwrap();
    for k in 0..4 {
        let a = &down.actors[k];
        let b = &up.actors[k];
        assert_eq!(location(&locations, a.actor_id), location(&locations, b.actor_id));
        assert_eq!(a.vnode_bitmap.as_ref().unwrap().bits, b.vnode_bitmap.as_ref().unwrap().bits);
    }
    assert_eq!(down.vnode_mapping.as_ref().unwrap().owners, up.vnode_mapping.as_ref().unwrap().owners);
}

#[test]
fn schedule_errors() {
    let scheduler = Scheduler::new(cluster_units(1, 2));
    let mut locations = ScheduledLocations::new();

    let mut empty = fragment(1, FragmentDistributionType::Hash, vec![]);
    assert_eq!(scheduler.schedule(&mut empty, &mut locations), Err(MetaError::NoActor));

    let mut two = fragment(2, FragmentDistributionType::Single, vec![actor(1, 2, None), actor(2, 2, None)]);
    assert_eq!(scheduler.schedule(&mut two, &mut locations), Err(MetaError::TooManyActors));

    let mut wide = fragment(3, FragmentDistributionType::Hash, (1..4).map(|id| actor(id, 3, None)).collect());
    assert_eq!(
        scheduler.schedule(&mut wide, &mut locations),
        Err(MetaError::NotEnoughCapacity { required: 3, available: 2 })
    );

    let mut orphan = fragment(4, FragmentDistributionType::Single, vec![actor(5, 4, Some(99))]);
    assert_eq!(scheduler.schedule(&mut orphan, &mut locations), Err(MetaError::LocationNotFound { actor_id: 99 }));

    let none = Scheduler::new(vec![]);
    let mut lone = fragment(5, FragmentDistributionType::Single, vec![actor(6, 5, None)]);
    assert_eq!(none.schedule(&mut lone, &mut locations), Err(MetaError::NoParallelUnit));
    assert!(locations.actor_locations.is_empty());

    // A singleton upstream has no bitmap to inherit.
    let mut single = fragment(6, FragmentDistributionType::Single, vec![actor(7, 6, None)]);
    scheduler.schedule(&mut single, &mut locations).unwrap();
    let mut down = fragment(7, FragmentDistributionType::Hash, vec![actor(8, 7, Some(7))]);
    assert_eq!(scheduler.schedule(&mut down, &mut locations), Err(MetaError::BitmapNotFound { actor_id: 7 }));

    let mut mixed = fragment(8, FragmentDistributionType::Hash, vec![actor(9, 8, None), actor(10, 8, Some(7))]);
    assert_eq!(scheduler.schedule(&mut mixed, &mut locations), Err(MetaError::MissingColocation { actor_id: 9 }));
}

#[test]
fn colocated_bitmaps_must_cover_the_range() {
    let scheduler = Scheduler::new(cluster_units(1, 2));
    let mut locations = ScheduledLocations::new();
    let mut up = fragment(1, FragmentDistributionType::Hash, vec![actor(1, 1, None), actor(2, 1, None)]);
    scheduler.schedule(&mut up, &mut locations).unwrap();
    // Following only one of the two upstreams leaves half the vnodes uncovered.
    let mut down = fragment(2, FragmentDistributionType::Hash, vec![actor(3, 2, Some(1))]);
    assert_eq!(scheduler.schedule(&mut down, &mut locations), Err(MetaError::InconsistentMapping));
    assert!(down.vnode_mapping.is_none());
    assert!(locations.location_of(3).is_none());
}

#[test]
fn colocate_with_several_actors() {
    let scheduler = Scheduler::new(cluster_units(2, 1));
    let mut locations = ScheduledLocations::new();
    let mut up = fragment(1, FragmentDistributionType::Hash, vec![actor(1, 1, None), actor(2, 1, None)]);
    scheduler.schedule(&mut up, &mut locations).unwrap();
    let mut single = fragment(2, FragmentDistributionType::Single, vec![actor(3, 2, Some(1))]);
    scheduler.schedule(&mut single, &mut locations).unwrap();
    assert_eq!(locations.schedule_colocate_with(&vec![1, 3]), Ok(location(&locations, 1)));
    assert_eq!(locations.schedule_colocate_with(&vec![1, 2]), Err(MetaError::PlacementConflict { actor_id: 2 }));
    assert_eq!(locations.schedule_colocate_with(&vec![4]), Err(MetaError::LocationNotFound { actor_id: 4 }));
}

#[test]
fn worker_views_of_locations() {
    let scheduler = Scheduler::new(cluster_units(2, 2));
    let mut locations = ScheduledLocations::with_workers(workers(2));
    let mut f = fragment(1, FragmentDistributionType::Hash, (1..5).map(|id| actor(id, 1, None)).collect());
    scheduler.schedule(&mut f, &mut locations).unwrap();

    let by_worker = locations.worker_actors();
    assert_eq!(by_worker.len(), 2);
    let mut all: Vec<u32> = by_worker.iter().flat_map(|(_, a)| a.clone()).collect();
    all.sort();
    assert_eq!(all, vec![1, 2, 3, 4]);
    for (w, actors) in &by_worker {
        for a in actors {
            assert_eq!(location(&locations, *a).worker_node_id, *w);
        }
    }

    let infos = locations.actor_infos();
    assert_eq!(infos.len(), 4);
    for info in &infos {
        let w = location(&locations, info.actor_id).worker_node_id;
        assert_eq!(info.host.port, (w - 1) as i32);
        assert_eq!(info.host.host, "127.0.0.1");
    }
    let map = locations.actor_info_map();
    assert_eq!(map.len(), 4);
    assert!(map.iter().all(|(id, info)| *id == info.actor_id));
}

#[test]
fn later_worker_with_same_id_wins() {
    let mut ws = workers(2);
    ws.push(WorkerNode { id: 1, host: HostAddress { host: "10.0.0.9".to_string(), port: 7 } });
    let locations = ScheduledLocations::with_workers(ws);
    assert_eq!(locations.worker_locations.len(), 2);
    let w1 = &locations.worker_locations.iter().find(|(id, _)| *id == 1).unwrap().1;
    assert_eq!(w1.host.host, "10.0.0.9");
}

#[test]
fn bitmap_duplicate_and_count() {
    let b = Bitmap { bits: vec![true, false, true, true] };
    assert_eq!(b.count_ones(), 3);
    assert_eq!(b.duplicate().bits, b.bits);
}

#[test]
fn hash_fragment_wider_than_vnode_count() {
    let scheduler = Scheduler::new(cluster_units(1, VNODE_COUNT as u32 + 1));
    let mut locations = ScheduledLocations::new();
    let actors = (0..VNODE_COUNT as u32 + 1).map(|id| actor(id, 1, None)).collect();
    let mut f = fragment(1, FragmentDistributionType::Hash, actors);
    assert_eq!(scheduler.schedule(&mut f, &mut locations), Err(MetaError::TooManyActors));

    // As many actors as vnodes: one vnode each.
    let actors = (0..VNODE_COUNT as u32).map(|id| actor(id, 2, None)).collect();
    let mut g = fragment(2, FragmentDistributionType::Hash, actors);
    scheduler.schedule(&mut g, &mut locations).unwrap();
    assert!(g.actors.iter().all(|a| a.vnode_bitmap.as_ref().unwrap().count_ones() == 1));
}

#[test]
fn listings_come_in_ascending_actor_id() {
    let scheduler = Scheduler::new(cluster_units(1, 1));
    let mut locations = ScheduledLocations::with_workers(workers(1));
    let mut a = fragment(1, FragmentDistributionType::Single, vec![actor(5, 1, None)]);
    scheduler.schedule(&mut a, &mut locations).unwrap();
    let mut b = fragment(2, FragmentDistributionType::Single, vec![actor(3, 2, None)]);
    scheduler.schedule(&mut b, &mut locations).unwrap();

    assert_eq!(locations.worker_actors(), vec![(1, vec![3, 5])]);
    let ids: Vec<u32> = locations.actor_infos().iter().map(|i| i.actor_id).collect();
    assert_eq!(ids, vec![3, 5]);
    let keys: Vec<u32> = locations.actor_info_map().iter().map(|(k, _)| *k).collect();
    assert_eq!(keys, vec![3, 5]);
}
