use vstd::prelude::*;

use rand::seq::SliceRandom;

use crate::assoc::{
    as_map, contains_u32, find_key, keys_unique, lemma_as_map_append, lemma_as_map_index,
    lemma_as_map_keys, lemma_as_map_push, keys_increasing, upsert_sorted,
    lemma_as_map_update, upsert,
};
use crate::meta_error::MetaError;
use crate::vnode::{
    agrees_with, are_bitmaps_of, balanced_owner, bitmap_views, covered, holds, is_balanced_over,
    is_partition, lemma_some_range,
    owned_by, range_start, single_owner, unit_ids, Bitmap, ParallelUnit, VnodeMapping, VNODE_COUNT,
};

verus! {

/// Network address of a worker.
#[derive(Debug)]
pub struct HostAddress {
    pub host: String,
    pub port: i32,
}

impl View for HostAddress {
    type V = (Seq<char>, i32);

    open spec fn view(&self) -> (Seq<char>, i32) {
        (self.host@, self.port)
    }
}

impl HostAddress {
    pub fn duplicate(&self) -> (r: HostAddress)
        ensures
            r@ == self@,
    {
        HostAddress { host: self.host.clone(), port: self.port }
    }
}

/// A compute worker of the cluster.
#[derive(Debug)]
pub struct WorkerNode {
    pub id: u32,
    pub host: HostAddress,
}

/// Where an actor runs.
#[derive(Debug)]
pub struct ActorInfo {
    pub actor_id: u32,
    pub host: HostAddress,
}

/// The placements of scheduled actors.
#[derive(Debug)]
pub struct ScheduledLocations {
    /// The parallel unit of each placed actor.
    pub actor_locations: Vec<(u32, ParallelUnit)>,
    /// The known workers, by id.
    pub worker_locations: Vec<(u32, WorkerNode)>,
    /// The vnode bitmap of each actor of a hash fragment.
    pub actor_vnode_bitmaps: Vec<(u32, Option<Bitmap>)>,
}

/// Actors of `locs`, in order, placed on worker `w`.
pub open spec fn actors_on(locs: Seq<(u32, ParallelUnit)>, w: u32) -> Seq<u32>
    decreases locs.len(),
{
    if locs.len() == 0 {
        Seq::empty()
    } else {
        actors_on(locs.drop_last(), w) + if locs.last().1.worker_node_id == w {
            seq![locs.last().0]
        } else {
            Seq::empty()
        }
    }
}

/// `xs` is in strictly increasing order.
pub open spec fn strictly_ascending(xs: Seq<u32>) -> bool {
    forall|i: int, j: int| 0 <= i < j < xs.len() ==> xs[i] < xs[j]
}

/// Listed by increasing actor id, the actors of each worker come out in
/// increasing order too, and each is an actor of `locs`.
proof fn lemma_actors_on_ascending(locs: Seq<(u32, ParallelUnit)>, w: u32)
    requires
        forall|i: int, j: int| 0 <= i < j < locs.len() ==> locs[i].0 < locs[j].0,
    ensures
        strictly_ascending(actors_on(locs, w)),
        forall|t: int|
            0 <= t < actors_on(locs, w).len() ==> exists|i: int|
                0 <= i < locs.len() && locs[i].0 == #[trigger] actors_on(locs, w)[t],
    decreases locs.len(),
{
    if locs.len() > 0 {
        let rest = locs.drop_last();
        lemma_actors_on_ascending(rest, w);
        let a = actors_on(rest, w);
        let last = locs.len() - 1;
        assert forall|t: int| 0 <= t < a.len() implies a[t] < locs[last].0 by {
            let i = choose|i: int| 0 <= i < rest.len() && rest[i].0 == a[t];
            assert(locs[i] == rest[i]);
        }
        assert forall|t: int|
            0 <= t < actors_on(locs, w).len() implies exists|i: int|
                0 <= i < locs.len() && locs[i].0 == #[trigger] actors_on(locs, w)[t] by {
            if t < a.len() {
                let i = choose|i: int| 0 <= i < rest.len() && rest[i].0 == a[t];
                assert(locs[i] == rest[i]);
            } else {
                assert(locs[last].0 == actors_on(locs, w)[t]);
            }
        }
    }
}

/// An actor of `locs` on worker `w` is listed for `w`.
proof fn lemma_actors_on_contains(locs: Seq<(u32, ParallelUnit)>, w: u32, i: int)
    requires
        0 <= i < locs.len(),
        locs[i].1.worker_node_id == w,
    ensures
        actors_on(locs, w).contains(locs[i].0),
    decreases locs.len(),
{
    if i < locs.len() - 1 {
        lemma_actors_on_contains(locs.drop_last(), w, i);
        let a = actors_on(locs.drop_last(), w);
        let t = choose|t: int| 0 <= t < a.len() && a[t] == locs[i].0;
        assert(actors_on(locs, w)[t] == locs[i].0);
    } else {
        assert(actors_on(locs, w)[actors_on(locs, w).len() - 1] == locs[i].0);
    }
}

/// The workers that host the actors of `locs`.
pub open spec fn hosting_workers(locs: Seq<(u32, ParallelUnit)>) -> Set<u32> {
    locs.map_values(|e: (u32, ParallelUnit)| e.1.worker_node_id).to_set()
}

impl ScheduledLocations {
    /// Actors are listed once each, by increasing id; each worker is listed
    /// once.
    pub open spec fn wf(&self) -> bool {
        &&& keys_increasing(self.actor_locations@)
        &&& keys_unique(self.actor_locations@)
        &&& keys_unique(self.worker_locations@)
        &&& keys_unique(self.actor_vnode_bitmaps@)
    }

    /// The parallel unit of each placed actor.
    pub open spec fn location_map(&self) -> Map<u32, ParallelUnit> {
        as_map(self.actor_locations@)
    }

    /// The address of worker `w`.
    pub open spec fn host_in(&self, w: u32) -> (Seq<char>, i32) {
        as_map(self.worker_locations@)[w].host@
    }

    /// Every placed actor sits on a known worker.
    pub open spec fn workers_known(&self) -> bool {
        forall|i: int|
            0 <= i < self.actor_locations.len() ==> as_map(self.worker_locations@).contains_key(
                (#[trigger] self.actor_locations@[i]).1.worker_node_id,
            )
    }

    pub fn new() -> (r: Self)
        ensures
            r.wf(),
            r.actor_locations@.len() == 0,
            r.worker_locations@.len() == 0,
            r.actor_vnode_bitmaps@.len() == 0,
    {
        Self::with_workers(Vec::new())
    }

    /// No actor placed yet; the workers are known by id, a later worker
    /// replacing an earlier one with the same id.
    pub fn with_workers(workers: Vec<WorkerNode>) -> (r: Self)
        ensures
            r.wf(),
            r.actor_locations@.len() == 0,
            r.actor_vnode_bitmaps@.len() == 0,
            r.worker_locations@.len() <= workers.len(),
            as_map(r.worker_locations@).dom() == workers@.map_values(|w: WorkerNode| w.id).to_set(),
            forall|i: int|
                0 <= i < workers.len() ==> #[trigger] as_map(r.worker_locations@)[workers@[i].id]
                    == workers@[last_with_id(workers@, workers@[i].id)],
    {
        let mut workers = workers;
        let ghost all = workers@;
        let mut locations: Vec<(u32, WorkerNode)> = Vec::new();
        let mut taken: usize = 0;
        assert(all.len() == workers.len());
        while workers.len() > 0
            invariant
                all.len() <= usize::MAX,
                locations.len() <= taken,
                taken + workers.len() == all.len(),
                workers@ == all.subrange(taken as int, all.len() as int),
                keys_unique(locations@),
                as_map(locations@).dom() == all.subrange(0, taken as int).map_values(
                    |w: WorkerNode| w.id,
                ).to_set(),
                forall|i: int|
                    0 <= i < taken ==> #[trigger] as_map(locations@)[all[i].id] == all[last_with_id(
                        all.subrange(0, taken as int),
                        all[i].id,
                    )],
            decreases workers.len(),
        {
            let w = workers.remove(0);
            let ghost prev = as_map(locations@);
            let ghost before = all.subrange(0, taken as int);
            let ghost after = all.subrange(0, taken + 1);
            assert(w == all[taken as int]);
            let id = w.id;
            upsert(&mut locations, id, w);
            proof {
                assert(after =~= before.push(all[taken as int]));
                assert(after.map_values(|x: WorkerNode| x.id) =~= before.map_values(
                    |x: WorkerNode| x.id,
                ).push(id));
                before.map_values(|x: WorkerNode| x.id).lemma_push_to_set_commute(id);
                assert(as_map(locations@).dom() =~= after.map_values(|x: WorkerNode| x.id).to_set());
                assert forall|i: int| 0 <= i < taken + 1 implies #[trigger] as_map(
                    locations@,
                )[all[i].id] == all[last_with_id(after, all[i].id)] by {
                    assert(after[i] == all[i]);
                    lemma_last_with_id_push(before, all[taken as int], all[i].id);
                    if all[i].id != id {
                        assert(before[i] == all[i]);
                    }
                }
            }
            taken = taken + 1;
        }
        assert(all.subrange(0, all.len() as int) =~= all);
        ScheduledLocations {
            actor_locations: Vec::new(),
            worker_locations: locations,
            actor_vnode_bitmaps: Vec::new(),
        }
    }
}

impl ScheduledLocations {
    /// The parallel unit that actor `actor_id` is placed on.
    pub fn location_of(&self, actor_id: u32) -> (r: Option<ParallelUnit>)
        requires
            self.wf(),
        ensures
            r is Some <==> self.location_map().contains_key(actor_id),
            r matches Some(p) ==> p == self.location_map()[actor_id],
    {
        match find_key(&self.actor_locations, actor_id) {
            Some(i) => {
                proof {
                    lemma_as_map_index(self.actor_locations@, i as int);
                }
                Some(self.actor_locations[i].1)
            },
            None => None,
        }
    }

    /// The address of worker `worker_id`, which must be known.
    fn host_of(&self, worker_id: u32) -> (r: HostAddress)
        requires
            self.wf(),
            as_map(self.worker_locations@).contains_key(worker_id),
        ensures
            r@ == as_map(self.worker_locations@)[worker_id].host@,
    {
        match find_key(&self.worker_locations, worker_id) {
            Some(j) => {
                proof {
                    lemma_as_map_index(self.worker_locations@, j as int);
                }
                self.worker_locations[j].1.host.duplicate()
            },
            None => {
                proof {
                    assert(false);
                }
                HostAddress { host: String::new(), port: 0 }
            },
        }
    }

    /// The actors of every worker that hosts some, each worker once, its
    /// actors in placement order.
    pub fn worker_actors(&self) -> (r: Vec<(u32, Vec<u32>)>)
        requires
            self.wf(),
        ensures
            keys_unique(r@),
            forall|k: int|
                0 <= k < r.len() ==> (#[trigger] r@[k]).1@ == actors_on(
                    self.actor_locations@,
                    r@[k].0,
                ),
            r@.map_values(|e: (u32, Vec<u32>)| e.0).to_set() == hosting_workers(
                self.actor_locations@,
            ),
            forall|k: int|
                0 <= k < r.len() ==> (#[trigger] r@[k]).1.len() > 0 && strictly_ascending(r@[k].1@),
    {
        let locs = &self.actor_locations;
        let ghost ws = locs@.map_values(|e: (u32, ParallelUnit)| e.1.worker_node_id);
        let mut workers: Vec<u32> = Vec::new();
        let mut i: usize = 0;
        while i < locs.len()
            invariant
                ws == locs@.map_values(|e: (u32, ParallelUnit)| e.1.worker_node_id),
                i <= locs.len(),
                forall|k1: int, k2: int|
                    0 <= k1 < workers.len() && 0 <= k2 < workers.len() && #[trigger] workers@[k1]
                        == #[trigger] workers@[k2] ==> k1 == k2,
                forall|k: int| 0 <= k < workers.len() ==> ws.contains(#[trigger] workers@[k]),
                forall|u: int| 0 <= u < i ==> workers@.contains(#[trigger] ws[u]),
            decreases locs.len() - i,
        {
            let w = locs[i].1.worker_node_id;
            let ghost old_workers = workers@;
            if !contains_u32(&workers, w) {
                workers.push(w);
                assert(workers@[workers.len() - 1] == w);
                assert(ws[i as int] == w);
            }
            assert(workers@.contains(w));
            assert forall|u: int| 0 <= u < i + 1 implies workers@.contains(#[trigger] ws[u]) by {
                if u < i {
                    assert(old_workers.contains(ws[u]));
                    let k = choose|k: int| 0 <= k < old_workers.len() && old_workers[k] == ws[u];
                    assert(workers@[k] == ws[u]);
                }
            }
            i = i + 1;
        }
        let mut r: Vec<(u32, Vec<u32>)> = Vec::new();
        let mut k: usize = 0;
        while k < workers.len()
            invariant
                k <= workers.len(),
                r.len() == k,
                forall|t: int| 0 <= t < k ==> (#[trigger] r@[t]).0 == workers@[t],
                forall|t: int|
                    0 <= t < k ==> (#[trigger] r@[t]).1@ == actors_on(locs@, r@[t].0),
            decreases workers.len() - k,
        {
            let w = workers[k];
            let mut acc: Vec<u32> = Vec::new();
            let mut j: usize = 0;
            while j < locs.len()
                invariant
                    j <= locs.len(),
                    acc@ == actors_on(locs@.subrange(0, j as int), w),
                decreases locs.len() - j,
            {
                assert(locs@.subrange(0, j + 1).drop_last() =~= locs@.subrange(0, j as int));
                if locs[j].1.worker_node_id == w {
                    acc.push(locs[j].0);
                }
                j = j + 1;
            }
            assert(locs@.subrange(0, locs.len() as int) =~= locs@);
            r.push((w, acc));
            k = k + 1;
        }
        proof {
            let keys = r@.map_values(|e: (u32, Vec<u32>)| e.0);
            assert(keys =~= workers@);
            assert(keys.to_set() =~= ws.to_set()) by {
                assert forall|x: u32| keys.contains(x) implies ws.contains(x) by {
                    let t = choose|t: int| 0 <= t < keys.len() && keys[t] == x;
                    assert(ws.contains(workers@[t]));
                }
                assert forall|x: u32| ws.contains(x) implies keys.contains(x) by {
                    let u = choose|u: int| 0 <= u < ws.len() && ws[u] == x;
                    assert(workers@.contains(ws[u]));
                }
            }
            assert forall|t1: int, t2: int|
                0 <= t1 < r.len() && 0 <= t2 < r.len() && #[trigger] r@[t1].0 == #[trigger] r@[t2].0 implies t1
                == t2 by {
                assert(workers@[t1] == workers@[t2]);
            }
            assert forall|k: int|
                0 <= k < r.len() implies (#[trigger] r@[k]).1.len() > 0 && strictly_ascending(r@[k].1@) by {
                lemma_actors_on_ascending(locs@, r@[k].0);
                assert(ws.contains(workers@[k]));
                let u = choose|u: int| 0 <= u < ws.len() && ws[u] == workers@[k];
                lemma_actors_on_contains(locs@, r@[k].0, u);
            }
        }
        r
    }

    /// Where each placed actor runs, in placement order.
    pub fn actor_infos(&self) -> (r: Vec<ActorInfo>)
        requires
            self.wf(),
            self.workers_known(),
        ensures
            r.len() == self.actor_locations.len(),
            forall|i: int|
                0 <= i < r.len() ==> (#[trigger] r@[i]).actor_id == self.actor_locations@[i].0
                    && r@[i].host@ == self.host_in(self.actor_locations@[i].1.worker_node_id),
            forall|i: int, j: int| 0 <= i < j < r.len() ==> r@[i].actor_id < r@[j].actor_id,
    {
        let mut r: Vec<ActorInfo> = Vec::new();
        let mut i: usize = 0;
        while i < self.actor_locations.len()
            invariant
                self.wf(),
                self.workers_known(),
                i <= self.actor_locations.len(),
                r.len() == i,
                forall|t: int|
                    0 <= t < i ==> (#[trigger] r@[t]).actor_id == self.actor_locations@[t].0
                        && r@[t].host@ == self.host_in(self.actor_locations@[t].1.worker_node_id),
            decreases self.actor_locations.len() - i,
        {
            let (actor_id, pu) = self.actor_locations[i];
            assert(as_map(self.worker_locations@).contains_key(
                self.actor_locations@[i as int].1.worker_node_id,
            ));
            let host = self.host_of(pu.worker_node_id);
            r.push(ActorInfo { actor_id, host });
            i = i + 1;
        }
        r
    }

    /// Where each placed actor runs, keyed by actor.
    pub fn actor_info_map(&self) -> (r: Vec<(u32, ActorInfo)>)
        requires
            self.wf(),
            self.workers_known(),
        ensures
            keys_unique(r@),
            r.len() == self.actor_locations.len(),
            forall|i: int|
                0 <= i < r.len() ==> (#[trigger] r@[i]).0 == self.actor_locations@[i].0
                    && r@[i].1.actor_id == self.actor_locations@[i].0
                    && r@[i].1.host@ == self.host_in(self.actor_locations@[i].1.worker_node_id),
            forall|i: int, j: int| 0 <= i < j < r.len() ==> r@[i].0 < r@[j].0,
    {
        let infos = self.actor_infos();
        let mut infos = infos;
        let ghost all = infos@;
        let mut r: Vec<(u32, ActorInfo)> = Vec::new();
        let mut i: usize = 0;
        assert(all.len() == infos.len());
        while infos.len() > 0
            invariant
                self.wf(),
                all.len() == self.actor_locations.len(),
                all.len() <= usize::MAX,
                i + infos.len() == all.len(),
                infos@ == all.subrange(i as int, all.len() as int),
                r.len() == i,
                forall|t: int|
                    0 <= t < all.len() ==> (#[trigger] all[t]).actor_id == self.actor_locations@[t].0
                        && all[t].host@ == self.host_in(self.actor_locations@[t].1.worker_node_id),
                forall|t: int| 0 <= t < i ==> (#[trigger] r@[t]).0 == all[t].actor_id && r@[t].1 == all[t],
            decreases infos.len(),
        {
            let info = infos.remove(0);
            assert(info == all[i as int]);
            r.push((info.actor_id, info));
            i = i + 1;
        }
        assert forall|t1: int, t2: int|
            0 <= t1 < r.len() && 0 <= t2 < r.len() && #[trigger] r@[t1].0 == #[trigger] r@[t2].0 implies t1
            == t2 by {
            assert(self.actor_locations@[t1].0 == self.actor_locations@[t2].0);
        }
        r
    }

    /// The parallel unit that all of `actor_ids` share, for an actor to be
    /// placed beside them.
    pub fn schedule_colocate_with(&self, actor_ids: &Vec<u32>) -> (r: Result<ParallelUnit, MetaError>)
        requires
            self.wf(),
            actor_ids.len() > 0,
        ensures
            r is Ok <==> forall|j: int|
                0 <= j < actor_ids.len() ==> self.location_map().contains_key(#[trigger] actor_ids@[j])
                    && self.location_map()[actor_ids@[j]] == self.location_map()[actor_ids@[0]],
            r matches Ok(p) ==> p == self.location_map()[actor_ids@[0]],
            r matches Err(e) ==> match e {
                MetaError::LocationNotFound { actor_id } => actor_ids@.contains(actor_id)
                    && !self.location_map().contains_key(actor_id),
                MetaError::PlacementConflict { actor_id } => actor_ids@.contains(actor_id)
                    && self.location_map().contains_key(actor_id) && self.location_map()[actor_id]
                    != self.location_map()[actor_ids@[0]],
                _ => false,
            },
    {
        let mut result: Option<ParallelUnit> = None;
        let mut j: usize = 0;
        while j < actor_ids.len()
            invariant
                self.wf(),
                actor_ids.len() > 0,
                j <= actor_ids.len(),
                j == 0 <==> result is None,
                result matches Some(p) ==> self.location_map().contains_key(actor_ids@[0]) && p
                    == self.location_map()[actor_ids@[0]],
                forall|t: int|
                    0 <= t < j ==> self.location_map().contains_key(#[trigger] actor_ids@[t])
                        && self.location_map()[actor_ids@[t]] == self.location_map()[actor_ids@[0]],
            decreases actor_ids.len() - j,
        {
            let id = actor_ids[j];
            let location = match self.location_of(id) {
                Some(p) => p,
                None => {
                    assert(actor_ids@.contains(id));
                    return Err(MetaError::LocationNotFound { actor_id: id });
                },
            };
            match result {
                None => {
                    result = Some(location);
                },
                Some(p) => {
                    if p != location {
                        assert(actor_ids@.contains(id));
                        return Err(MetaError::PlacementConflict { actor_id: id });
                    }
                },
            }
            j = j + 1;
        }
        match result {
            Some(p) => Ok(p),
            None => {
                proof {
                    assert(false);
                }
                Err(MetaError::NoParallelUnit)
            },
        }
    }
}

/// Units of `pus` on worker `w`, in order.
pub open spec fn units_on(pus: Seq<ParallelUnit>, w: u32) -> Seq<ParallelUnit>
    decreases pus.len(),
{
    if pus.len() == 0 {
        Seq::empty()
    } else {
        units_on(pus.drop_last(), w) + if pus.last().worker_node_id == w {
            seq![pus.last()]
        } else {
            Seq::empty()
        }
    }
}

/// The `r`-th unit of every worker of `ws` that has more than `r` units, in
/// the order of `ws`.
pub open spec fn round(pus: Seq<ParallelUnit>, ws: Seq<u32>, r: int) -> Seq<ParallelUnit>
    decreases ws.len(),
{
    if ws.len() == 0 {
        Seq::empty()
    } else {
        round(pus, ws.drop_last(), r) + if r < units_on(pus, ws.last()).len() {
            seq![units_on(pus, ws.last())[r]]
        } else {
            Seq::empty()
        }
    }
}

/// The first `r` rounds, one after another.
pub open spec fn rounds(pus: Seq<ParallelUnit>, ws: Seq<u32>, r: int) -> Seq<ParallelUnit>
    decreases r,
{
    if r <= 0 {
        Seq::empty()
    } else {
        rounds(pus, ws, r - 1) + round(pus, ws, r - 1)
    }
}

/// The workers of `pus`.
pub open spec fn workers_of(pus: Seq<ParallelUnit>) -> Set<u32> {
    pus.map_values(|p: ParallelUnit| p.worker_node_id).to_set()
}

/// `ws` is in strictly increasing order.
pub open spec fn strictly_increasing(ws: Seq<u32>) -> bool {
    forall|i: int, j: int| 0 <= i < j < ws.len() ==> ws[i] < ws[j]
}

/// The round-robin order of `pus`: workers taken in increasing id order,
/// one unit of each worker per round, until every worker runs out.
pub open spec fn is_round_robin(pus: Seq<ParallelUnit>, order: Seq<ParallelUnit>) -> bool {
    exists|ws: Seq<u32>|
        strictly_increasing(ws) && ws.to_set() == workers_of(pus) && order == rounds(
            pus,
            ws,
            pus.len() as int,
        )
}

/// Places the actors of fragments onto parallel units.
#[derive(Debug)]
pub struct Scheduler {
    /// All parallel units of the cluster, in round-robin order over workers.
    pub all_parallel_units: Vec<ParallelUnit>,
}

impl Scheduler {
    /// A scheduler over `parallel_units`, visited round-robin over workers.
    pub fn new(parallel_units: Vec<ParallelUnit>) -> (r: Self)
        ensures
            is_round_robin(parallel_units@, r.all_parallel_units@),
    {
        let pus = &parallel_units;
        let n = pus.len();
        let ghost wv = pus@.map_values(|p: ParallelUnit| p.worker_node_id);
        // Workers in increasing id order.
        let mut ws: Vec<u32> = Vec::new();
        let mut done = false;
        while !done
            invariant
                n == pus.len(),
                wv == pus@.map_values(|p: ParallelUnit| p.worker_node_id),
                strictly_increasing(ws@),
                forall|k: int| 0 <= k < ws.len() ==> wv.contains(#[trigger] ws@[k]),
                forall|i: int|
                    0 <= i < n && ws.len() > 0 && #[trigger] wv[i] <= ws@[ws.len() - 1] ==> ws@.contains(
                        wv[i],
                    ),
                done ==> forall|i: int| 0 <= i < n ==> ws@.contains(#[trigger] wv[i]),
            decreases (if done {
                0int
            } else if ws.len() == 0 {
                u32::MAX as int + 2
            } else {
                u32::MAX as int - ws@[ws.len() - 1] + 1
            }),
        {
            let mut best: Option<u32> = None;
            let mut i: usize = 0;
            while i < n
                invariant
                    n == pus.len(),
                    wv == pus@.map_values(|p: ParallelUnit| p.worker_node_id),
                    i <= n,
                    best matches Some(b) ==> wv.contains(b) && (ws.len() == 0 || b > ws@[ws.len() - 1]),
                    forall|t: int|
                        0 <= t < i && (ws.len() == 0 || #[trigger] wv[t] > ws@[ws.len() - 1]) ==> (
                        best matches Some(b) && b <= wv[t]),
                decreases n - i,
            {
                let w = pus[i].worker_node_id;
                assert(wv[i as int] == w);
                let above = ws.len() == 0 || w > ws[ws.len() - 1];
                if above {
                    match best {
                        None => {
                            best = Some(w);
                        },
                        Some(b) => {
                            if w < b {
                                best = Some(w);
                            }
                        },
                    }
                }
                i = i + 1;
            }
            match best {
                None => {
                    done = true;
                    assert forall|t: int| 0 <= t < n implies ws@.contains(#[trigger] wv[t]) by {
                        assert(ws.len() > 0 && wv[t] <= ws@[ws.len() - 1]);
                    }
                },
                Some(b) => {
                    let ghost old_ws = ws@;
                    ws.push(b);
                    assert forall|t: int|
                        0 <= t < n && ws.len() > 0 && #[trigger] wv[t] <= ws@[ws.len() - 1] implies ws@.contains(
                        wv[t],
                    ) by {
                        if wv[t] == b {
                            assert(ws@[ws.len() - 1] == b);
                        } else {
                            assert(old_ws.len() > 0 && wv[t] <= old_ws[old_ws.len() - 1]);
                            let k = choose|k: int| 0 <= k < old_ws.len() && old_ws[k] == wv[t];
                            assert(ws@[k] == wv[t]);
                        }
                    }
                },
            }
        }
        proof {
            assert(ws@.to_set() =~= workers_of(pus@)) by {
                assert forall|x: u32| ws@.contains(x) implies wv.contains(x) by {
                    let k = choose|k: int| 0 <= k < ws.len() && ws@[k] == x;
                }
                assert forall|x: u32| wv.contains(x) implies ws@.contains(x) by {
                    let i = choose|i: int| 0 <= i < wv.len() && wv[i] == x;
                }
            }
        }
        // The units of each worker, in input order.
        let mut groups: Vec<Vec<ParallelUnit>> = Vec::new();
        let mut g: usize = 0;
        while g < ws.len()
            invariant
                n == pus.len(),
                g <= ws.len(),
                groups.len() == g,
                forall|t: int| 0 <= t < g ==> (#[trigger] groups@[t])@ == units_on(pus@, ws@[t]),
            decreases ws.len() - g,
        {
            let w = ws[g];
            let mut acc: Vec<ParallelUnit> = Vec::new();
            let mut j: usize = 0;
            while j < n
                invariant
                    n == pus.len(),
                    j <= n,
                    acc@ == units_on(pus@.subrange(0, j as int), w),
                decreases n - j,
            {
                assert(pus@.subrange(0, j + 1).drop_last() =~= pus@.subrange(0, j as int));
                if pus[j].worker_node_id == w {
                    acc.push(pus[j]);
                }
                j = j + 1;
            }
            assert(pus@.subrange(0, n as int) =~= pus@);
            groups.push(acc);
            g = g + 1;
        }
        // One unit of each worker per round.
        let mut order: Vec<ParallelUnit> = Vec::new();
        let mut r: usize = 0;
        while r < n
            invariant
                n == pus.len(),
                r <= n,
                groups.len() == ws.len(),
                forall|t: int| 0 <= t < ws.len() ==> (#[trigger] groups@[t])@ == units_on(pus@, ws@[t]),
                order@ == rounds(pus@, ws@, r as int),
            decreases n - r,
        {
            let ghost base = order@;
            let mut g: usize = 0;
            while g < groups.len()
                invariant
                    groups.len() == ws.len(),
                    forall|t: int|
                        0 <= t < ws.len() ==> (#[trigger] groups@[t])@ == units_on(pus@, ws@[t]),
                    g <= groups.len(),
                    order@ == base + round(pus@, ws@.subrange(0, g as int), r as int),
                decreases groups.len() - g,
            {
                assert(ws@.subrange(0, g + 1).drop_last() =~= ws@.subrange(0, g as int));
                let group = &groups[g];
                assert(group@ == units_on(pus@, ws@[g as int]));
                if r < group.len() {
                    order.push(group[r]);
                    assert(order@ =~= base + round(pus@, ws@.subrange(0, g + 1), r as int));
                } else {
                    assert(order@ =~= base + round(pus@, ws@.subrange(0, g + 1), r as int));
                }
                g = g + 1;
            }
            assert(ws@.subrange(0, ws.len() as int) =~= ws@);
            r = r + 1;
        }
        Scheduler { all_parallel_units: order }
    }
}

/// How the rows of a fragment are spread over its actors.
#[derive(Debug, Clone, Copy, PartialEq, Eq, Structural)]
pub enum FragmentDistributionType {
    /// One actor takes all rows.
    Single,
    /// Rows are spread by the hash of their key.
    Hash,
}

/// A running instance of a fragment.
#[derive(Debug)]
pub struct StreamActor {
    pub actor_id: u32,
    pub fragment_id: u32,
    pub upstream_actor_id: Vec<u32>,
    pub colocated_upstream_actor_id: Option<u32>,
    pub vnode_bitmap: Option<Bitmap>,
}

/// A group of homogeneous actors for one operator of the dataflow.
#[derive(Debug)]
pub struct Fragment {
    pub fragment_id: u32,
    pub distribution_type: FragmentDistributionType,
    pub actors: Vec<StreamActor>,
    pub vnode_mapping: Option<VnodeMapping>,
}

/// The flags of an optional bitmap.
pub open spec fn bits_of(o: Option<Bitmap>) -> Option<Seq<bool>> {
    match o {
        Some(b) => Some(b@),
        None => None,
    }
}

/// The entries of a bitmap table, with the bitmaps as flags.
pub open spec fn bitmap_entries(s: Seq<(u32, Option<Bitmap>)>) -> Seq<(u32, Option<Seq<bool>>)> {
    s.map_values(|e: (u32, Option<Bitmap>)| (e.0, bits_of(e.1)))
}

/// The map a bitmap table stands for.
pub open spec fn bitmap_map(s: Seq<(u32, Option<Bitmap>)>) -> Map<u32, Option<Seq<bool>>> {
    as_map(bitmap_entries(s))
}

/// Sets the bitmap recorded for actor `k`.
fn set_actor_bitmap(s: &mut Vec<(u32, Option<Bitmap>)>, k: u32, v: Option<Bitmap>)
    requires
        keys_unique(old(s)@),
    ensures
        keys_unique(final(s)@),
        bitmap_map(final(s)@) == bitmap_map(old(s)@).insert(k, bits_of(v)),
{
    let ghost e = (k, bits_of(v));
    let ghost before = bitmap_entries(s@);
    assert(keys_unique(before)) by {
        assert forall|i: int, j: int|
            0 <= i < before.len() && 0 <= j < before.len() && #[trigger] before[i].0
                == #[trigger] before[j].0 implies i == j by {
            assert(s@[i].0 == s@[j].0);
        }
    }
    match find_key(s, k) {
        Some(i) => {
            proof {
                lemma_as_map_update(before, i as int, bits_of(v));
            }
            s.set(i, (k, v));
            assert(bitmap_entries(s@) =~= before.update(i as int, e));
        },
        None => {
            proof {
                lemma_as_map_push(before, e);
            }
            s.push((k, v));
            assert(bitmap_entries(s@) =~= before.push(e));
        },
    }
}

/// The placement entries of `actors` on `units`.
pub open spec fn placements(actors: Seq<StreamActor>, units: Seq<ParallelUnit>) -> Seq<(u32, ParallelUnit)> {
    Seq::new(actors.len(), |k: int| (actors[k].actor_id, units[k]))
}

/// The bitmap entries of `actors` with `bitmaps`.
pub open spec fn bitmap_placements(actors: Seq<StreamActor>, bitmaps: Seq<Option<Seq<bool>>>) -> Seq<
    (u32, Option<Seq<bool>>),
> {
    Seq::new(actors.len(), |k: int| (actors[k].actor_id, bitmaps[k]))
}

/// `f1` is `f0` with mapping `mapping`, and (for a hash fragment) with
/// bitmap `bitmaps[k]` on its `k`-th actor; every other field is kept.
pub open spec fn fragment_placed(
    f0: &Fragment,
    f1: &Fragment,
    mapping: Seq<u32>,
    bitmaps: Option<Seq<Option<Seq<bool>>>>,
) -> bool {
    &&& f1.fragment_id == f0.fragment_id
    &&& f1.distribution_type == f0.distribution_type
    &&& f1.actors.len() == f0.actors.len()
    &&& f1.vnode_mapping matches Some(m) && m@ == mapping
    &&& forall|k: int|
        0 <= k < f0.actors.len() ==> {
            &&& (#[trigger] f1.actors@[k]).actor_id == f0.actors@[k].actor_id
            &&& f1.actors@[k].fragment_id == f0.actors@[k].fragment_id
            &&& f1.actors@[k].upstream_actor_id == f0.actors@[k].upstream_actor_id
            &&& f1.actors@[k].colocated_upstream_actor_id == f0.actors@[k].colocated_upstream_actor_id
            &&& bits_of(f1.actors@[k].vnode_bitmap) == match bitmaps {
                Some(bs) => bs[k],
                None => bits_of(f0.actors@[k].vnode_bitmap),
            }
        }
}

/// `l1` is `l0` with the actors of `f0` placed on `units`, and (for a hash
/// fragment) their bitmaps recorded; later entries win.
pub open spec fn locations_placed(
    l0: &ScheduledLocations,
    l1: &ScheduledLocations,
    f0: &Fragment,
    units: Seq<ParallelUnit>,
    bitmaps: Option<Seq<Option<Seq<bool>>>>,
) -> bool {
    &&& l1.wf()
    &&& l1.location_map() == as_map(l0.actor_locations@ + placements(f0.actors@, units))
    &&& l1.worker_locations@ == l0.worker_locations@
    &&& bitmap_map(l1.actor_vnode_bitmaps@) == match bitmaps {
        Some(bs) => as_map(bitmap_entries(l0.actor_vnode_bitmaps@) + bitmap_placements(f0.actors@, bs)),
        None => bitmap_map(l0.actor_vnode_bitmaps@),
    }
}

/// Records the placement of every actor of `fragment` on `units[k]`, the
/// fragment's mapping, and for a hash fragment the actors' bitmaps.
fn commit(
    fragment: &mut Fragment,
    locations: &mut ScheduledLocations,
    units: Vec<ParallelUnit>,
    bitmaps: Option<Vec<Option<Bitmap>>>,
    mapping: VnodeMapping,
)
    requires
        old(locations).wf(),
        units.len() == old(fragment).actors.len(),
        bitmaps matches Some(b) ==> b.len() == units.len(),
    ensures
        fragment_placed(old(fragment), final(fragment), mapping@, match bitmaps {
            Some(b) => Some(b@.map_values(|o: Option<Bitmap>| bits_of(o))),
            None => None,
        }),
        locations_placed(old(locations), final(locations), old(fragment), units@, match bitmaps {
            Some(b) => Some(b@.map_values(|o: Option<Bitmap>| bits_of(o))),
            None => None,
        }),
{
    let ghost f0 = *fragment;
    let ghost l0 = *locations;
    let ghost bs: Option<Seq<Option<Seq<bool>>>> = if bitmaps is Some {
        Some(bitmaps->Some_0@.map_values(|o: Option<Bitmap>| bits_of(o)))
    } else {
        None
    };
    let n = units.len();
    let mut bitmaps = bitmaps;
    let mut actors: Vec<StreamActor> = Vec::new();
    let mut k: usize = 0;
    while k < n
        invariant
            n == units.len(),
            n == f0.actors.len(),
            k <= n,
            fragment.actors.len() == n - k,
            fragment.actors@ == f0.actors@.subrange(k as int, n as int),
            fragment.fragment_id == f0.fragment_id,
            fragment.distribution_type == f0.distribution_type,
            bs is Some <==> bitmaps is Some,
            bitmaps matches Some(b) ==> b.len() == n - k && bs->Some_0.subrange(k as int, n as int)
                == b@.map_values(|o: Option<Bitmap>| bits_of(o)),
            bs matches Some(b) ==> b.len() == n,
            actors.len() == k,
            locations.wf(),
            locations.worker_locations@ == l0.worker_locations@,
            locations.location_map() == as_map(l0.actor_locations@ + placements(f0.actors@, units@).subrange(0, k as int)),
            bitmap_map(locations.actor_vnode_bitmaps@) == match bs {
                Some(b) => as_map(bitmap_entries(l0.actor_vnode_bitmaps@) + bitmap_placements(f0.actors@, b).subrange(0, k as int)),
                None => bitmap_map(l0.actor_vnode_bitmaps@),
            },
            forall|t: int|
                0 <= t < k ==> {
                    &&& (#[trigger] actors@[t]).actor_id == f0.actors@[t].actor_id
                    &&& actors@[t].fragment_id == f0.actors@[t].fragment_id
                    &&& actors@[t].upstream_actor_id == f0.actors@[t].upstream_actor_id
                    &&& actors@[t].colocated_upstream_actor_id == f0.actors@[t].colocated_upstream_actor_id
                    &&& bits_of(actors@[t].vnode_bitmap) == match bs {
                        Some(b) => b[t],
                        None => bits_of(f0.actors@[t].vnode_bitmap),
                    }
                },
        decreases n - k,
    {
        let mut actor = fragment.actors.remove(0);
        assert(actor == f0.actors@[k as int]);
        let unit = units[k];
        let ghost entry = (actor.actor_id, unit);
        proof {
            lemma_as_map_push(l0.actor_locations@ + placements(f0.actors@, units@).subrange(0, k as int), entry);
            assert((l0.actor_locations@ + placements(f0.actors@, units@).subrange(0, k as int)).push(entry)
                =~= l0.actor_locations@ + placements(f0.actors@, units@).subrange(0, k + 1));
        }
        upsert_sorted(&mut locations.actor_locations, actor.actor_id, unit);
        match bitmaps {
            Some(mut b) => {
                let ghost bseq = b@;
                let bm = b.remove(0);
                proof {
                    let bb = bs->Some_0;
                    assert(bseq.map_values(|o: Option<Bitmap>| bits_of(o))[0] == bits_of(bseq[0]));
                    assert(bb.subrange(k as int, n as int)[0] == bb[k as int]);
                    assert(b@ =~= bseq.subrange(1, bseq.len() as int));
                    assert(bb.subrange(k + 1, n as int) =~= bb.subrange(k as int, n as int).subrange(1, (n - k) as int));
                }
                let ghost bentry = (actor.actor_id, bits_of(bm));
                proof {
                    let bb = bs->Some_0;
                    assert(bits_of(bm) == bb[k as int]);
                    lemma_as_map_push(bitmap_entries(l0.actor_vnode_bitmaps@) + bitmap_placements(f0.actors@, bb).subrange(0, k as int), bentry);
                    assert((bitmap_entries(l0.actor_vnode_bitmaps@) + bitmap_placements(f0.actors@, bb).subrange(0, k as int)).push(bentry)
                        =~= bitmap_entries(l0.actor_vnode_bitmaps@) + bitmap_placements(f0.actors@, bb).subrange(0, k + 1));
                    assert(bs->Some_0.subrange(k + 1, n as int) =~= b@.map_values(|o: Option<Bitmap>| bits_of(o)));
                }
                let copy = match &bm {
                    Some(x) => Some(x.duplicate()),
                    None => None,
                };
                set_actor_bitmap(&mut locations.actor_vnode_bitmaps, actor.actor_id, bm);
                actor.vnode_bitmap = copy;
                bitmaps = Some(b);
            },
            None => {
                bitmaps = None;
            },
        }
        actors.push(actor);
        k = k + 1;
    }
    assert(placements(f0.actors@, units@).subrange(0, n as int) =~= placements(f0.actors@, units@));
    proof {
        if bs is Some {
            let b = bs->Some_0;
            assert(bitmap_placements(f0.actors@, b).subrange(0, n as int) =~= bitmap_placements(
                f0.actors@,
                b,
            ));
        }
    }
    fragment.actors = actors;
    fragment.vnode_mapping = Some(mapping);
}

/// Where the actor of a singleton fragment goes: beside its co-located
/// upstream, or on the unit drawn at random.
pub open spec fn singleton_target(
    m0: Map<u32, ParallelUnit>,
    actor: StreamActor,
    random_unit: Option<ParallelUnit>,
) -> Result<ParallelUnit, MetaError> {
    match actor.colocated_upstream_actor_id {
        Some(c) => if m0.contains_key(c) {
            Ok(m0[c])
        } else {
            Err(MetaError::LocationNotFound { actor_id: c })
        },
        None => match random_unit {
            Some(p) => Ok(p),
            None => Err(MetaError::NoParallelUnit),
        },
    }
}

/// Where an actor of a co-located hash fragment goes, and the bitmap it
/// inherits from its upstream.
pub open spec fn colocated_target(
    m0: Map<u32, ParallelUnit>,
    b0: Map<u32, Option<Seq<bool>>>,
    actor: StreamActor,
) -> Result<(ParallelUnit, Option<Seq<bool>>), MetaError> {
    match actor.colocated_upstream_actor_id {
        None => Err(MetaError::MissingColocation { actor_id: actor.actor_id }),
        Some(c) => if !m0.contains_key(c) {
            Err(MetaError::LocationNotFound { actor_id: c })
        } else if !b0.contains_key(c) {
            Err(MetaError::BitmapNotFound { actor_id: c })
        } else {
            Ok((m0[c], b0[c]))
        },
    }
}

/// The inherited bitmaps, each with the unit it sits on; actors that inherit
/// none are left out.
pub open spec fn inherited_bitmaps(ts: Seq<(ParallelUnit, Option<Seq<bool>>)>) -> Seq<(u32, Seq<bool>)>
    decreases ts.len(),
{
    if ts.len() == 0 {
        Seq::empty()
    } else {
        inherited_bitmaps(ts.drop_last()) + match ts.last().1 {
            Some(b) => seq![(ts.last().0.id, b)],
            None => Seq::empty(),
        }
    }
}

/// Some actor names a co-located upstream.
pub open spec fn any_colocated(actors: Seq<StreamActor>) -> bool {
    exists|k: int| 0 <= k < actors.len() && (#[trigger] actors[k]).colocated_upstream_actor_id is Some
}

/// `placed` is the first `n` units of `units`, ordered by id.
pub open spec fn hash_placement(units: Seq<ParallelUnit>, n: int, placed: Seq<ParallelUnit>) -> bool {
    &&& placed.len() == n
    &&& placed.to_multiset() == units.subrange(0, n).to_multiset()
    &&& forall|i: int, j: int| 0 <= i < j < n ==> placed[i].id <= placed[j].id
}

/// The first actor of `actors` whose co-location fails, if any.
pub open spec fn colocation_fails_first(
    m0: Map<u32, ParallelUnit>,
    b0: Map<u32, Option<Seq<bool>>>,
    actors: Seq<StreamActor>,
    k: int,
) -> bool {
    &&& 0 <= k < actors.len()
    &&& colocated_target(m0, b0, actors[k]) is Err
    &&& forall|j: int| 0 <= j < k ==> (#[trigger] colocated_target(m0, b0, actors[j])) is Ok
}

/// The targets of the actors of a co-located hash fragment, all found.
pub open spec fn colocated_targets(
    m0: Map<u32, ParallelUnit>,
    b0: Map<u32, Option<Seq<bool>>>,
    actors: Seq<StreamActor>,
) -> Seq<(ParallelUnit, Option<Seq<bool>>)> {
    Seq::new(actors.len(), |k: int| colocated_target(m0, b0, actors[k])->Ok_0)
}

/// The units of the targets.
pub open spec fn target_units(ts: Seq<(ParallelUnit, Option<Seq<bool>>)>) -> Seq<ParallelUnit> {
    ts.map_values(|t: (ParallelUnit, Option<Seq<bool>>)| t.0)
}

/// The bitmaps of the targets.
pub open spec fn target_bitmaps(ts: Seq<(ParallelUnit, Option<Seq<bool>>)>) -> Seq<Option<Seq<bool>>> {
    ts.map_values(|t: (ParallelUnit, Option<Seq<bool>>)| t.1)
}

/// The bitmaps of actors placed on `placed` under mapping `m`: each gets
/// the vnodes its unit owns.
pub open spec fn spread_bitmaps(m: Seq<u32>, placed: Seq<ParallelUnit>) -> Seq<Option<Seq<bool>>> {
    Seq::new(placed.len(), |k: int| Some(owned_by(m, placed[k].id)))
}

/// Scheduling a co-located hash fragment `f0` against `l0` gave `r`, `f1`
/// and `l1`: the first actor whose upstream cannot be found decides the
/// error; else the inherited bitmaps must split the vnode range, and then
/// each actor sits beside its upstream with the upstream's bitmap.
pub open spec fn colocated_outcome(
    f0: &Fragment,
    l0: &ScheduledLocations,
    f1: &Fragment,
    l1: &ScheduledLocations,
    r: Result<(), MetaError>,
) -> bool {
    let actors = f0.actors@;
    let n = actors.len();
    let m0 = l0.location_map();
    let b0 = bitmap_map(l0.actor_vnode_bitmaps@);
    let all_found = forall|k: int|
        0 <= k < n ==> (#[trigger] colocated_target(m0, b0, actors[k])) is Ok;
    let ts = colocated_targets(m0, b0, actors);
    &&& r is Err ==> *f1 == *f0 && *l1 == *l0
    &&& all_found || exists|k: int|
        colocation_fails_first(m0, b0, actors, k) && r == Err::<(), MetaError>(
            colocated_target(m0, b0, actors[k])->Err_0,
        )
    &&& all_found ==> (r is Ok <==> is_partition(inherited_bitmaps(ts)))
    &&& all_found && r is Err ==> r == Err::<(), MetaError>(MetaError::InconsistentMapping)
    &&& all_found && r is Ok ==> {
        &&& f1.vnode_mapping is Some
        &&& agrees_with(f1.vnode_mapping->Some_0@, inherited_bitmaps(ts))
        &&& fragment_placed(f0, f1, f1.vnode_mapping->Some_0@, Some(target_bitmaps(ts)))
        &&& locations_placed(l0, l1, f0, target_units(ts), Some(target_bitmaps(ts)))
    }
}

/// Spreading hash fragment `f0` over the units `placed` (the first units of
/// `units`, by id) under mapping `m` of `f1` gave `f1` and `l1`.
pub open spec fn spread_outcome(
    units: Seq<ParallelUnit>,
    f0: &Fragment,
    l0: &ScheduledLocations,
    f1: &Fragment,
    l1: &ScheduledLocations,
    placed: Seq<ParallelUnit>,
) -> bool {
    let m = f1.vnode_mapping->Some_0@;
    &&& f1.vnode_mapping is Some
    &&& hash_placement(units, f0.actors.len() as int, placed)
    &&& is_balanced_over(m, placed)
    &&& fragment_placed(f0, f1, m, Some(spread_bitmaps(m, placed)))
    &&& locations_placed(l0, l1, f0, placed, Some(spread_bitmaps(m, placed)))
}

/// A random unit is drawn only for a singleton that names no upstream.
pub open spec fn is_random_case(f: &Fragment) -> bool {
    &&& f.distribution_type == FragmentDistributionType::Single
    &&& f.actors.len() == 1
    &&& f.actors@[0].colocated_upstream_actor_id is None
}

impl Scheduler {
    /// What scheduling `f0` against `l0` yields: the result `r`, the fragment
    /// `f1` and the placements `l1`, where `random_unit` is the unit drawn
    /// for a singleton without upstream.
    pub open spec fn schedule_outcome(
        &self,
        f0: &Fragment,
        l0: &ScheduledLocations,
        f1: &Fragment,
        l1: &ScheduledLocations,
        r: Result<(), MetaError>,
        random_unit: Option<ParallelUnit>,
    ) -> bool {
        let actors = f0.actors@;
        let n = actors.len();
        let units = self.all_parallel_units@;
        let m0 = l0.location_map();
        &&& r is Err ==> *f1 == *f0 && *l1 == *l0
        &&& n == 0 ==> r == Err::<(), MetaError>(MetaError::NoActor)
        &&& n > 1 && f0.distribution_type == FragmentDistributionType::Single ==> r == Err::<
            (),
            MetaError,
        >(MetaError::TooManyActors)
        &&& n == 1 && f0.distribution_type == FragmentDistributionType::Single ==> match singleton_target(
            m0,
            actors[0],
            random_unit,
        ) {
            Err(e) => r == Err::<(), MetaError>(e),
            Ok(p) => r is Ok && fragment_placed(f0, f1, single_owner(p.id), None)
                && locations_placed(l0, l1, f0, seq![p], None),
        }
        &&& n > 0 && f0.distribution_type == FragmentDistributionType::Hash && units.len() < n ==> r
            == Err::<(), MetaError>(
            MetaError::NotEnoughCapacity { required: n as usize, available: units.len() as usize },
        )
        &&& f0.distribution_type == FragmentDistributionType::Hash && VNODE_COUNT < n <= units.len()
            ==> r == Err::<(), MetaError>(MetaError::TooManyActors)
        &&& 0 < n <= units.len() && n <= VNODE_COUNT && f0.distribution_type
            == FragmentDistributionType::Hash && any_colocated(actors) ==> colocated_outcome(
            f0,
            l0,
            f1,
            l1,
            r,
        )
        &&& 0 < n <= units.len() && n <= VNODE_COUNT && f0.distribution_type
            == FragmentDistributionType::Hash && !any_colocated(actors) ==> {
            &&& r is Ok
            &&& f1.vnode_mapping is Some
            &&& exists|placed: Seq<ParallelUnit>| #[trigger]
                spread_outcome(units, f0, l0, f1, l1, placed)
        }
    }

    /// Places the actors of `fragment` and records where they went; a
    /// singleton without upstream goes on a unit drawn at random.
    pub fn schedule(&self, fragment: &mut Fragment, locations: &mut ScheduledLocations) -> (r: Result<
        (),
        MetaError,
    >)
        requires
            old(locations).wf(),
        ensures
            final(locations).wf(),
            exists|c: Option<ParallelUnit>|
                (c matches Some(p) ==> self.all_parallel_units@.contains(p))
                && (c is None ==> self.all_parallel_units.len() == 0 || !is_random_case(old(fragment)))
                && #[trigger] self.schedule_outcome(
                    old(fragment),
                    old(locations),
                    final(fragment),
                    final(locations),
                    r,
                    c,
                ),
    {
        let random = fragment.distribution_type == FragmentDistributionType::Single
            && fragment.actors.len() == 1
            && fragment.actors[0].colocated_upstream_actor_id.is_none();
        let chosen = if random {
            choose_unit(&self.all_parallel_units)
        } else {
            None
        };
        self.schedule_with(fragment, locations, chosen)
    }

    /// `schedule`, with `random_unit` as the unit drawn for a singleton that
    /// names no upstream.
    pub fn schedule_with(
        &self,
        fragment: &mut Fragment,
        locations: &mut ScheduledLocations,
        random_unit: Option<ParallelUnit>,
    ) -> (r: Result<(), MetaError>)
        requires
            old(locations).wf(),
        ensures
            final(locations).wf(),
            self.schedule_outcome(
                old(fragment),
                old(locations),
                final(fragment),
                final(locations),
                r,
                random_unit,
            ),
    {
        let n = fragment.actors.len();
        if n == 0 {
            return Err(MetaError::NoActor);
        }
        if fragment.distribution_type == FragmentDistributionType::Single {
            if n > 1 {
                return Err(MetaError::TooManyActors);
            }
            let unit = match fragment.actors[0].colocated_upstream_actor_id {
                Some(c) => {
                    let ids = vec![c];
                    assert(ids@ =~= seq![c]);
                    match locations.schedule_colocate_with(&ids) {
                        Ok(p) => p,
                        Err(e) => {
                            assert(ids@.contains(c) ==> ids@[0] == c);
                            return Err(e);
                        },
                    }
                },
                None => match random_unit {
                    Some(p) => p,
                    None => {
                        return Err(MetaError::NoParallelUnit);
                    },
                },
            };
            let mapping = VnodeMapping::build_single(unit);
            let units = vec![unit];
            assert(units@ =~= seq![unit]);
            commit(fragment, locations, units, None, mapping);
            return Ok(());
        }
        let available = self.all_parallel_units.len();
        if available < n {
            return Err(MetaError::NotEnoughCapacity { required: n, available });
        }
        if n > VNODE_COUNT {
            return Err(MetaError::TooManyActors);
        }
        if has_colocated(&fragment.actors) {
            self.schedule_colocated(fragment, locations)
        } else {
            self.schedule_spread(fragment, locations);
            Ok(())
        }
    }

    /// Places each actor of a co-located hash fragment beside its upstream,
    /// inheriting the upstream's bitmap.
    fn schedule_colocated(
        &self,
        fragment: &mut Fragment,
        locations: &mut ScheduledLocations,
    ) -> (r: Result<(), MetaError>)
        requires
            old(locations).wf(),
            0 < old(fragment).actors.len() <= VNODE_COUNT,
        ensures
            final(locations).wf(),
            colocated_outcome(old(fragment), old(locations), final(fragment), final(locations), r),
    {
        let ghost actors = fragment.actors@;
        let ghost m0 = locations.location_map();
        let ghost b0 = bitmap_map(locations.actor_vnode_bitmaps@);
        proof {
            lemma_bitmap_entries_unique(locations.actor_vnode_bitmaps@);
        }
        let n = fragment.actors.len();
        let mut units: Vec<ParallelUnit> = Vec::new();
        let mut bitmaps: Vec<Option<Bitmap>> = Vec::new();
        let mut inherited: Vec<(u32, Bitmap)> = Vec::new();
        let mut k: usize = 0;
        while k < n
            invariant
                n == fragment.actors.len(),
                actors == fragment.actors@,
                locations.wf(),
                m0 == locations.location_map(),
                b0 == bitmap_map(locations.actor_vnode_bitmaps@),
                keys_unique(bitmap_entries(locations.actor_vnode_bitmaps@)),
                k <= n,
                units.len() == k,
                bitmaps.len() == k,
                forall|j: int| 0 <= j < k ==> (#[trigger] colocated_target(m0, b0, actors[j])) is Ok,
                forall|j: int| 0 <= j < k ==> #[trigger] units@[j] == colocated_target(m0, b0, actors[j])->Ok_0.0,
                forall|j: int| 0 <= j < k ==> bits_of(#[trigger] bitmaps@[j]) == colocated_target(m0, b0, actors[j])->Ok_0.1,
                bitmap_views(inherited@) == inherited_bitmaps(colocated_targets(m0, b0, actors).subrange(0, k as int)),
            decreases n - k,
        {
            let ghost ts = colocated_targets(m0, b0, actors);
            let actor = &fragment.actors[k];
            let c = match actor.colocated_upstream_actor_id {
                Some(c) => c,
                None => {
                    proof {
                        assert(colocation_fails_first(m0, b0, actors, k as int));
                    }
                    return Err(MetaError::MissingColocation { actor_id: actor.actor_id });
                },
            };
            let ids = vec![c];
            let unit = match locations.schedule_colocate_with(&ids) {
                Ok(p) => p,
                Err(e) => {
                    proof {
                        assert(ids@.contains(c) ==> ids@[0] == c);
                        assert(colocation_fails_first(m0, b0, actors, k as int));
                    }
                    return Err(e);
                },
            };
            let bitmap = match find_key(&locations.actor_vnode_bitmaps, c) {
                Some(j) => {
                    proof {
                        lemma_as_map_index(bitmap_entries(locations.actor_vnode_bitmaps@), j as int);
                    }
                    match &locations.actor_vnode_bitmaps[j].1 {
                        Some(b) => Some(b.duplicate()),
                        None => None,
                    }
                },
                None => {
                    proof {
                        lemma_as_map_keys(bitmap_entries(locations.actor_vnode_bitmaps@), c);
                        if b0.contains_key(c) {
                            let i = choose|i: int| 0 <= i < bitmap_entries(locations.actor_vnode_bitmaps@).len() && #[trigger] bitmap_entries(locations.actor_vnode_bitmaps@)[i].0 == c;
                            assert(locations.actor_vnode_bitmaps@[i].0 == c);
                        }
                        assert(colocation_fails_first(m0, b0, actors, k as int));
                    }
                    return Err(MetaError::BitmapNotFound { actor_id: c });
                },
            };
            assert(colocated_target(m0, b0, actors[k as int]) is Ok);
            proof {
                assert(ts.subrange(0, k + 1).drop_last() =~= ts.subrange(0, k as int));
            }
            match &bitmap {
                Some(b) => {
                    inherited.push((unit.id, b.duplicate()));
                    assert(bitmap_views(inherited@) =~= inherited_bitmaps(ts.subrange(0, k + 1)));
                },
                None => {
                    assert(bitmap_views(inherited@) =~= inherited_bitmaps(ts.subrange(0, k + 1)));
                },
            }
            units.push(unit);
            bitmaps.push(bitmap);
            k = k + 1;
        }
        let ghost ts = colocated_targets(m0, b0, actors);
        assert(ts.subrange(0, n as int) =~= ts);
        let mapping = match VnodeMapping::from_bitmaps(&inherited) {
            Ok(m) => m,
            Err(e) => {
                return Err(e);
            },
        };
        let ghost mapping_view = mapping@;
        assert(units@ =~= target_units(ts));
        assert(bitmaps@.map_values(|o: Option<Bitmap>| bits_of(o)) =~= target_bitmaps(ts));
        commit(fragment, locations, units, Some(bitmaps), mapping);
        Ok(())
    }

    /// Places the actors of a hash fragment on the first units of the
    /// round-robin order, sorted by id, each with its share of the vnodes.
    fn schedule_spread(&self, fragment: &mut Fragment, locations: &mut ScheduledLocations)
        requires
            old(locations).wf(),
            0 < old(fragment).actors.len() <= VNODE_COUNT,
            old(fragment).actors.len() <= self.all_parallel_units.len(),
        ensures
            final(locations).wf(),
            final(fragment).vnode_mapping is Some,
            exists|placed: Seq<ParallelUnit>| #[trigger]
                spread_outcome(
                    self.all_parallel_units@,
                    old(fragment),
                    old(locations),
                    final(fragment),
                    final(locations),
                    placed,
                ),
    {
        let n = fragment.actors.len();
        let mut placed: Vec<ParallelUnit> = Vec::new();
        let mut k: usize = 0;
        while k < n
            invariant
                n <= self.all_parallel_units.len(),
                k <= n,
                placed@ == self.all_parallel_units@.subrange(0, k as int),
            decreases n - k,
        {
            placed.push(self.all_parallel_units[k]);
            assert(placed@ =~= self.all_parallel_units@.subrange(0, k + 1));
            k = k + 1;
        }
        let ghost pre = placed@;
        sort_by_id(&mut placed);
        let ghost pv = placed@;
        assert(pre =~= self.all_parallel_units@.subrange(0, n as int));
        let mapping = VnodeMapping::build(&placed);
        let ghost m = mapping@;
        let bms = mapping.to_bitmaps();
        let mut bitmaps: Vec<Option<Bitmap>> = Vec::new();
        let mut k: usize = 0;
        while k < n
            invariant
                n == placed.len(),
                0 < n <= VNODE_COUNT,
                pv == placed@,
                is_balanced_over(m, pv),
                m.len() == VNODE_COUNT,
                are_bitmaps_of(m, bitmap_views(bms@)),
                keys_unique(bms@),
                forall|i: int|
                    #![trigger range_start(n as int, i)]
                    0 <= i < n ==> 0 <= range_start(n as int, i) < range_start(n as int, i + 1) <= VNODE_COUNT,
                k <= n,
                bitmaps.len() == k,
                forall|t: int| 0 <= t < k ==> bits_of(#[trigger] bitmaps@[t]) == Some(owned_by(m, pv[t].id)),
            decreases n - k,
        {
            let id = placed[k];
            let id = id.id;
            proof {
                let v = range_start(n as int, k as int);
                assert(balanced_owner(n as int, k as int, v));
                assert(m[v] == id);
                assert(unit_ids(bitmap_views(bms@)).contains(m[v]));
            }
            match find_key(&bms, id) {
                Some(j) => {
                    assert(bitmap_views(bms@)[j as int].1 == owned_by(m, bitmap_views(bms@)[j as int].0));
                    bitmaps.push(Some(bms[j].1.duplicate()));
                },
                None => {
                    proof {
                        let j = choose|j: int| 0 <= j < unit_ids(bitmap_views(bms@)).len() && unit_ids(bitmap_views(bms@))[j] == id;
                        assert(bms@[j].0 == id);
                    }
                    bitmaps.push(None);
                },
            }
            k = k + 1;
        }
        assert(bitmaps@.map_values(|o: Option<Bitmap>| bits_of(o)) =~= spread_bitmaps(m, pv));
        commit(fragment, locations, placed, Some(bitmaps), mapping);
        assert(hash_placement(self.all_parallel_units@, n as int, pv));
        assert(fragment.vnode_mapping->Some_0@ == m);
        assert(spread_outcome(self.all_parallel_units@, old(fragment), old(locations), fragment, locations, pv));
    }
}

/// The actor ids of a fragment are distinct.
pub open spec fn actor_ids_unique(actors: Seq<StreamActor>) -> bool {
    forall|i: int, j: int|
        0 <= i < actors.len() && 0 <= j < actors.len() && #[trigger] actors[i].actor_id
            == #[trigger] actors[j].actor_id ==> i == j
}

/// Spread over units with distinct ids, the actors' bitmaps split the vnode
/// range.
proof fn lemma_spread_coverage(
    f0: &Fragment,
    f1: &Fragment,
    m: Seq<u32>,
    placed: Seq<ParallelUnit>,
)
    requires
        0 < placed.len() <= VNODE_COUNT,
        placed.len() == f0.actors.len(),
        is_balanced_over(m, placed),
        forall|i: int, j: int| 0 <= i < j < placed.len() ==> placed[i].id != placed[j].id,
        fragment_placed(f0, f1, m, Some(spread_bitmaps(m, placed))),
    ensures
        forall|k: int| 0 <= k < f1.actors.len() ==> (#[trigger] f1.actors@[k]).vnode_bitmap is Some,
        is_partition(actor_bitmaps(f1.actors@)),
{
    let n = placed.len();
    let bms = actor_bitmaps(f1.actors@);
    assert forall|k: int| 0 <= k < n implies (#[trigger] f1.actors@[k]).vnode_bitmap is Some && bms[k].1 == owned_by(m, placed[k].id) by {
        assert(bits_of(f1.actors@[k].vnode_bitmap) == Some(owned_by(m, placed[k].id)));
    }
    assert forall|v: int| 0 <= v < VNODE_COUNT implies #[trigger] covered(bms, v) by {
        lemma_some_range(n as int, v);
        let i = choose|i: int| 0 <= i < n && #[trigger] balanced_owner(n as int, i, v);
        assert(m[v] == placed[i].id);
        assert(holds(bms, i, v));
    }
    assert forall|v: int, j1: int, j2: int|
        0 <= v < VNODE_COUNT && 0 <= j1 < bms.len() && 0 <= j2 < bms.len() && #[trigger] holds(bms, j1, v)
            && #[trigger] holds(bms, j2, v) implies j1 == j2 by {
        assert(bms[j1].1 == owned_by(m, placed[j1].id));
        assert(bms[j2].1 == owned_by(m, placed[j2].id));
        if j1 < j2 {
            assert(placed[j1].id != placed[j2].id);
        } else if j2 < j1 {
            assert(placed[j2].id != placed[j1].id);
        }
    }
}

/// Each actor's id with the flags of its bitmap.
pub open spec fn actor_bitmaps(actors: Seq<StreamActor>) -> Seq<(u32, Seq<bool>)> {
    Seq::new(actors.len(), |k: int| (actors[k].actor_id, actors[k].vnode_bitmap->Some_0@))
}

/// No two units share an id.
pub open spec fn unit_ids_distinct(units: Seq<ParallelUnit>) -> bool {
    forall|i: int, j: int| 0 <= i < j < units.len() ==> units[i].id != units[j].id
}

/// A reordering of units with distinct ids has distinct ids.
proof fn lemma_permuted_ids_distinct(src: Seq<ParallelUnit>, placed: Seq<ParallelUnit>)
    requires
        unit_ids_distinct(src),
        placed.to_multiset() == src.to_multiset(),
    ensures
        unit_ids_distinct(placed),
{
    broadcast use vstd::seq_lib::group_to_multiset_ensures;

    assert(src.no_duplicates()) by {
        assert forall|i: int, j: int| 0 <= i < src.len() && 0 <= j < src.len() && i != j implies src[i] != src[j] by {
            if i < j {
                assert(src[i].id != src[j].id);
            } else {
                assert(src[j].id != src[i].id);
            }
        }
    }
    src.lemma_multiset_has_no_duplicates();
    placed.lemma_multiset_has_no_duplicates_conv();
    assert forall|i: int, j: int| 0 <= i < j < placed.len() implies placed[i].id != placed[j].id by {
        assert(placed.contains(placed[i]));
        assert(placed.contains(placed[j]));
        assert(placed.to_multiset().count(placed[i]) > 0);
        assert(placed.to_multiset().count(placed[j]) > 0);
        assert(src.contains(placed[i]));
        assert(src.contains(placed[j]));
        let a = choose|a: int| 0 <= a < src.len() && src[a] == placed[i];
        let b = choose|b: int| 0 <= b < src.len() && src[b] == placed[j];
        assert(placed[i] != placed[j]);
        if a < b {
            assert(src[a].id != src[b].id);
        } else if b < a {
            assert(src[b].id != src[a].id);
        }
    }
}

/// When every target has a bitmap, the inherited bitmaps are the targets'
/// bitmaps, one per target.
proof fn lemma_inherited_all_some(ts: Seq<(ParallelUnit, Option<Seq<bool>>)>)
    requires
        forall|k: int| 0 <= k < ts.len() ==> (#[trigger] ts[k]).1 is Some,
    ensures
        inherited_bitmaps(ts) == Seq::new(ts.len(), |k: int| (ts[k].0.id, ts[k].1->Some_0)),
    decreases ts.len(),
{
    if ts.len() > 0 {
        let rest = ts.drop_last();
        assert forall|k: int| 0 <= k < rest.len() implies (#[trigger] rest[k]).1 is Some by {
            assert(rest[k] == ts[k]);
        }
        lemma_inherited_all_some(rest);
        assert(ts[ts.len() - 1].1 is Some);
        assert(inherited_bitmaps(ts) =~= Seq::new(ts.len(), |k: int| (ts[k].0.id, ts[k].1->Some_0)));
    } else {
        assert(inherited_bitmaps(ts) =~= Seq::new(ts.len(), |k: int| (ts[k].0.id, ts[k].1->Some_0)));
    }
}

/// Whether bitmaps split the vnode range does not depend on their tags.
proof fn lemma_partition_retagged(a: Seq<(u32, Seq<bool>)>, b: Seq<(u32, Seq<bool>)>)
    requires
        is_partition(a),
        a.len() == b.len(),
        forall|k: int| 0 <= k < a.len() ==> (#[trigger] a[k]).1 == b[k].1,
    ensures
        is_partition(b),
{
    assert forall|j: int, v: int| 0 <= j < a.len() implies holds(a, j, v) == holds(b, j, v) by {
        assert(a[j].1 == b[j].1);
    }
    assert forall|v: int| 0 <= v < VNODE_COUNT implies #[trigger] covered(b, v) by {
        assert(covered(a, v));
        let j = choose|j: int| 0 <= j < a.len() && #[trigger] holds(a, j, v);
        assert(holds(b, j, v));
    }
    assert forall|v: int, j1: int, j2: int|
        0 <= v < VNODE_COUNT && 0 <= j1 < b.len() && 0 <= j2 < b.len() && #[trigger] holds(b, j1, v)
            && #[trigger] holds(b, j2, v) implies j1 == j2 by {
        assert(holds(a, j1, v) && holds(a, j2, v));
    }
    assert forall|j: int| 0 <= j < b.len() implies (#[trigger] b[j]).1.len() == VNODE_COUNT by {
        assert(a[j].1 == b[j].1);
    }
}

impl Scheduler {
    /// After a hash fragment without co-located actors is scheduled on a
    /// cluster whose units have distinct ids, every actor has a bitmap, and
    /// these bitmaps split the vnode range: each vnode is in exactly one.
    pub proof fn lemma_hash_coverage(
        &self,
        f0: &Fragment,
        l0: &ScheduledLocations,
        f1: &Fragment,
        l1: &ScheduledLocations,
        random_unit: Option<ParallelUnit>,
    )
        requires
            self.schedule_outcome(f0, l0, f1, l1, Ok(()), random_unit),
            f0.distribution_type == FragmentDistributionType::Hash,
            !any_colocated(f0.actors@),
            unit_ids_distinct(self.all_parallel_units@),
        ensures
            forall|k: int| 0 <= k < f1.actors.len() ==> (#[trigger] f1.actors@[k]).vnode_bitmap is Some,
            is_partition(actor_bitmaps(f1.actors@)),
    {
        let n = f0.actors.len() as int;
        let units = self.all_parallel_units@;
        let m = f1.vnode_mapping->Some_0@;
        let placed = choose|placed: Seq<ParallelUnit>| #[trigger]
            spread_outcome(units, f0, l0, f1, l1, placed);
        assert(unit_ids_distinct(units.subrange(0, n)));
        lemma_permuted_ids_distinct(units.subrange(0, n), placed);
        lemma_spread_coverage(f0, f1, m, placed);
    }
}

impl Scheduler {
    /// After a hash fragment whose actors sit beside their upstreams is
    /// scheduled, and every actor got a bitmap, these bitmaps split the vnode
    /// range: each vnode is in exactly one of them.
    pub proof fn lemma_colocated_coverage(
        &self,
        f0: &Fragment,
        l0: &ScheduledLocations,
        f1: &Fragment,
        l1: &ScheduledLocations,
        random_unit: Option<ParallelUnit>,
    )
        requires
            self.schedule_outcome(f0, l0, f1, l1, Ok(()), random_unit),
            f0.distribution_type == FragmentDistributionType::Hash,
            any_colocated(f0.actors@),
            forall|k: int| 0 <= k < f1.actors.len() ==> (#[trigger] f1.actors@[k]).vnode_bitmap is Some,
        ensures
            is_partition(actor_bitmaps(f1.actors@)),
    {
        let actors = f0.actors@;
        let n = actors.len();
        let m0 = l0.location_map();
        let b0 = bitmap_map(l0.actor_vnode_bitmaps@);
        if exists|k: int| colocation_fails_first(m0, b0, actors, k) {
            let k = choose|k: int| colocation_fails_first(m0, b0, actors, k);
            assert(colocated_target(m0, b0, actors[k]) is Err);
        }
        let ts = colocated_targets(m0, b0, actors);
        assert forall|k: int| 0 <= k < ts.len() implies (#[trigger] ts[k]).1 is Some by {
            assert(f1.actors@[k].vnode_bitmap is Some);
            assert(bits_of(f1.actors@[k].vnode_bitmap) == target_bitmaps(ts)[k]);
        }
        lemma_inherited_all_some(ts);
        let inh = inherited_bitmaps(ts);
        let ab = actor_bitmaps(f1.actors@);
        assert forall|k: int| 0 <= k < inh.len() implies (#[trigger] inh[k]).1 == ab[k].1 by {
            assert(bits_of(f1.actors@[k].vnode_bitmap) == target_bitmaps(ts)[k]);
        }
        lemma_partition_retagged(inh, ab);
    }

    /// An actor scheduled beside its upstream ends up on the upstream's unit
    /// and, in a hash fragment, with the upstream's bitmap (the upstream
    /// being outside the fragment, whose actor ids are distinct).
    pub proof fn lemma_colocation(
        &self,
        f0: &Fragment,
        l0: &ScheduledLocations,
        f1: &Fragment,
        l1: &ScheduledLocations,
        random_unit: Option<ParallelUnit>,
        k: int,
        upstream: u32,
    )
        requires
            l0.wf(),
            self.schedule_outcome(f0, l0, f1, l1, Ok(()), random_unit),
            actor_ids_unique(f0.actors@),
            0 <= k < f0.actors.len(),
            f0.actors@[k].colocated_upstream_actor_id == Some(upstream),
            forall|j: int| 0 <= j < f0.actors.len() ==> (#[trigger] f0.actors@[j]).actor_id != upstream,
        ensures
            l1.location_map().contains_key(f0.actors@[k].actor_id),
            l1.location_map().contains_key(upstream),
            l1.location_map()[f0.actors@[k].actor_id] == l1.location_map()[upstream],
            f0.distribution_type == FragmentDistributionType::Hash ==> bitmap_map(l1.actor_vnode_bitmaps@).contains_key(upstream)
                && bits_of(f1.actors@[k].vnode_bitmap) == bitmap_map(l1.actor_vnode_bitmaps@)[upstream],
    {
        let actors = f0.actors@;
        let n = actors.len();
        let m0 = l0.location_map();
        let b0 = bitmap_map(l0.actor_vnode_bitmaps@);
        let a = actors[k].actor_id;
        if f0.distribution_type == FragmentDistributionType::Single {
            let p = singleton_target(m0, actors[0], random_unit)->Ok_0;
            let t = placements(actors, seq![p]);
            assert(keys_unique(t));
            lemma_as_map_append(l0.actor_locations@, t, a);
            lemma_as_map_append(l0.actor_locations@, t, upstream);
            assert(t[0].0 == a);
        } else {
            assert(any_colocated(actors)) by {
                assert(actors[k].colocated_upstream_actor_id is Some);
            }
            if exists|j: int| colocation_fails_first(m0, b0, actors, j) {
                let j = choose|j: int| colocation_fails_first(m0, b0, actors, j);
                assert(colocated_target(m0, b0, actors[j]) is Err);
            }
            assert(colocated_target(m0, b0, actors[k]) is Ok);
            let ts = colocated_targets(m0, b0, actors);
            let units = target_units(ts);
            let bs = target_bitmaps(ts);
            let t = placements(actors, units);
            assert(keys_unique(t)) by {
                assert forall|i: int, j: int| 0 <= i < t.len() && 0 <= j < t.len() && #[trigger] t[i].0 == #[trigger] t[j].0 implies i == j by {
                    assert(actors[i].actor_id == actors[j].actor_id);
                }
            }
            lemma_as_map_append(l0.actor_locations@, t, a);
            lemma_as_map_append(l0.actor_locations@, t, upstream);
            assert(t[k].0 == a);
            let e = bitmap_entries(l0.actor_vnode_bitmaps@);
            let tb = bitmap_placements(actors, bs);
            assert(keys_unique(tb)) by {
                assert forall|i: int, j: int| 0 <= i < tb.len() && 0 <= j < tb.len() && #[trigger] tb[i].0 == #[trigger] tb[j].0 implies i == j by {
                    assert(actors[i].actor_id == actors[j].actor_id);
                }
            }
            lemma_as_map_append(e, tb, a);
            lemma_as_map_append(e, tb, upstream);
            assert(tb[k].0 == a);
            assert(bits_of(f1.actors@[k].vnode_bitmap) == bs[k]);
        }
    }
}

/// Whether some actor names a co-located upstream.
fn has_colocated(actors: &Vec<StreamActor>) -> (r: bool)
    ensures
        r == any_colocated(actors@),
{
    let mut k: usize = 0;
    while k < actors.len()
        invariant
            k <= actors.len(),
            forall|j: int| 0 <= j < k ==> (#[trigger] actors@[j]).colocated_upstream_actor_id is None,
        decreases actors.len() - k,
    {
        if actors[k].colocated_upstream_actor_id.is_some() {
            return true;
        }
        k = k + 1;
    }
    false
}

proof fn lemma_bitmap_entries_unique(s: Seq<(u32, Option<Bitmap>)>)
    requires
        keys_unique(s),
    ensures
        keys_unique(bitmap_entries(s)),
{
    let e = bitmap_entries(s);
    assert forall|i: int, j: int|
        0 <= i < e.len() && 0 <= j < e.len() && #[trigger] e[i].0 == #[trigger] e[j].0 implies i == j by {
        assert(s[i].0 == s[j].0);
    }
}

/// Relies on `rand::seq::SliceRandom::choose` with the thread-local
/// generator: one of the units, or `None` when there is none.
#[verifier::external_body]
fn choose_unit(units: &Vec<ParallelUnit>) -> (r: Option<ParallelUnit>)
    ensures
        r is None <==> units.len() == 0,
        r matches Some(p) ==> units@.contains(p),
{
    units.choose(&mut rand::thread_rng()).copied()
}

/// Relies on `slice::sort_unstable_by_key` keyed by the unit id: the same
/// units, in increasing id order.
#[verifier::external_body]
fn sort_by_id(units: &mut Vec<ParallelUnit>)
    ensures
        final(units).len() == old(units).len(),
        final(units)@.to_multiset() == old(units)@.to_multiset(),
        forall|i: int, j: int| 0 <= i < j < final(units).len() ==> final(units)@[i].id <= final(units)@[j].id,
{
    units.sort_unstable_by_key(|p| p.id)
}

/// Index of the last worker of `ws` with id `id` (`-1` when there is none).
pub open spec fn last_with_id(ws: Seq<WorkerNode>, id: u32) -> int
    decreases ws.len(),
{
    if ws.len() == 0 {
        -1
    } else if ws.last().id == id {
        ws.len() - 1
    } else {
        last_with_id(ws.drop_last(), id)
    }
}

proof fn lemma_last_with_id_push(ws: Seq<WorkerNode>, w: WorkerNode, id: u32)
    ensures
        last_with_id(ws.push(w), id) == if w.id == id {
            ws.len() as int
        } else {
            last_with_id(ws, id)
        },
{
    assert(ws.push(w).drop_last() =~= ws);
}

} // verus!
