use vstd::prelude::*;

use crate::assoc::{
    as_map, contains_u32, find_key, keys_unique, lemma_as_map_index, lemma_as_map_keys,
};
use crate::epoch::{next_epoch_spec, Epoch, MAX_PHYSICAL_TIME};
use crate::meta_error::MetaError;
use crate::scheduler::{ActorInfo, WorkerNode};
use crate::vnode::Bitmap;

verus! {

/// The persisted record of one streaming job's fragments, as recovery sees
/// it.
#[derive(Debug)]
pub struct TableFragments {
    pub table_id: u32,
    /// Whether the job finished its initial barrier.
    pub created: bool,
}

/// A table's fragments are dirty when their job is gone or never finished
/// creation.
pub open spec fn is_dirty(job_ids: Seq<u32>, t: TableFragments) -> bool {
    !job_ids.contains(t.table_id) || !t.created
}

/// Ids of the dirty tables of `ts`, in order.
pub open spec fn dirty_ids(job_ids: Seq<u32>, ts: Seq<TableFragments>) -> Seq<u32>
    decreases ts.len(),
{
    if ts.len() == 0 {
        Seq::empty()
    } else {
        dirty_ids(job_ids, ts.drop_last()) + if is_dirty(job_ids, ts.last()) {
            seq![ts.last().table_id]
        } else {
            Seq::empty()
        }
    }
}

/// Ids of the tables of `ts`, in order, that `ids` does not name.
pub open spec fn kept_ids(ids: Seq<u32>, ts: Seq<TableFragments>) -> Seq<u32>
    decreases ts.len(),
{
    if ts.len() == 0 {
        Seq::empty()
    } else {
        kept_ids(ids, ts.drop_last()) + if ids.contains(ts.last().table_id) {
            Seq::empty()
        } else {
            seq![ts.last().table_id]
        }
    }
}

/// The tables to drop during recovery: those whose job is no longer listed
/// or was never created.
pub fn dirty_table_ids(stream_job_ids: &Vec<u32>, table_fragments: &Vec<TableFragments>) -> (r: Vec<
    u32,
>)
    ensures
        r@ == dirty_ids(stream_job_ids@, table_fragments@),
{
    let mut r: Vec<u32> = Vec::new();
    let mut i: usize = 0;
    while i < table_fragments.len()
        invariant
            i <= table_fragments.len(),
            r@ == dirty_ids(stream_job_ids@, table_fragments@.subrange(0, i as int)),
        decreases table_fragments.len() - i,
    {
        assert(table_fragments@.subrange(0, i + 1).drop_last() =~= table_fragments@.subrange(
            0,
            i as int,
        ));
        let t = &table_fragments[i];
        if !contains_u32(stream_job_ids, t.table_id) || !t.created {
            r.push(t.table_id);
        }
        i = i + 1;
    }
    assert(table_fragments@.subrange(0, table_fragments.len() as int) =~= table_fragments@);
    r
}

/// Drops from `store` the tables that `ids` names, keeping the others in
/// order.
pub fn drop_table_fragments(store: &mut Vec<TableFragments>, ids: &Vec<u32>)
    ensures
        final(store)@.map_values(|t: TableFragments| t.table_id) == kept_ids(ids@, old(store)@),
        forall|i: int|
            0 <= i < final(store).len() ==> !ids@.contains(#[trigger] final(store)@[i].table_id),
{
    let ghost all = store@;
    let mut kept: Vec<TableFragments> = Vec::new();
    let mut taken: usize = 0;
    assert(all.len() == store.len());
    while store.len() > 0
        invariant
            all.len() <= usize::MAX,
            taken + store.len() == all.len(),
            store@ == all.subrange(taken as int, all.len() as int),
            kept@.map_values(|t: TableFragments| t.table_id) == kept_ids(
                ids@,
                all.subrange(0, taken as int),
            ),
            forall|i: int| 0 <= i < kept.len() ==> !ids@.contains(#[trigger] kept@[i].table_id),
        decreases store.len(),
    {
        let t = store.remove(0);
        assert(t == all[taken as int]);
        assert(all.subrange(0, taken + 1).drop_last() =~= all.subrange(0, taken as int));
        if !contains_u32(ids, t.table_id) {
            kept.push(t);
        }
        assert(kept@.map_values(|t: TableFragments| t.table_id) =~= kept_ids(
            ids@,
            all.subrange(0, taken + 1),
        ));
        taken = taken + 1;
    }
    assert(all.subrange(0, all.len() as int) =~= all);
    *store = kept;
}

/// A snapshot of the cluster for recovery: the actors of each worker, and
/// the workers that are alive.
#[derive(Debug)]
pub struct BarrierActorInfo {
    pub actor_map: Vec<(u32, Vec<u32>)>,
    pub node_map: Vec<(u32, WorkerNode)>,
}

impl BarrierActorInfo {
    pub open spec fn wf(&self) -> bool {
        &&& keys_unique(self.actor_map@)
        &&& keys_unique(self.node_map@)
    }

    /// Whether worker `w` is alive.
    pub open spec fn alive(&self, w: u32) -> bool {
        as_map(self.node_map@).contains_key(w)
    }
}

/// The workers of `am` that own actors but are not alive, in order.
pub open spec fn expired_spec(am: Seq<(u32, Vec<u32>)>, alive: Map<u32, WorkerNode>) -> Seq<u32>
    decreases am.len(),
{
    if am.len() == 0 {
        Seq::empty()
    } else {
        expired_spec(am.drop_last(), alive) + if am.last().1.len() > 0 && !alive.contains_key(
            am.last().0,
        ) {
            seq![am.last().0]
        } else {
            Seq::empty()
        }
    }
}

/// Whether worker `w` is alive in `info`.
fn is_alive(info: &BarrierActorInfo, w: u32) -> (r: bool)
    ensures
        r == info.alive(w),
{
    match find_key(&info.node_map, w) {
        Some(j) => {
            proof {
                lemma_as_map_keys(info.node_map@, w);
            }
            true
        },
        None => false,
    }
}

/// Workers that own actors but are no longer alive.
pub fn expired_workers(info: &BarrierActorInfo) -> (r: Vec<u32>)
    ensures
        r@ == expired_spec(info.actor_map@, as_map(info.node_map@)),
{
    let am = &info.actor_map;
    let mut r: Vec<u32> = Vec::new();
    let mut i: usize = 0;
    while i < am.len()
        invariant
            i <= am.len(),
            r@ == expired_spec(am@.subrange(0, i as int), as_map(info.node_map@)),
        decreases am.len() - i,
    {
        assert(am@.subrange(0, i + 1).drop_last() =~= am@.subrange(0, i as int));
        let w = am[i].0;
        if am[i].1.len() > 0 && !is_alive(info, w) {
            r.push(w);
        }
        i = i + 1;
    }
    assert(am@.subrange(0, am.len() as int) =~= am@);
    r
}

/// The progress of moving the actors of expired workers onto newly joined
/// ones: the `k`-th expired worker is handed to `assignments[k]`.
#[derive(Debug)]
pub struct MigrationPlan {
    /// Pairs of expired worker and the new worker taking over its actors.
    pub assignments: Vec<(u32, u32)>,
    /// The new workers, by id.
    pub node_map: Vec<(u32, WorkerNode)>,
}

/// Some node of `nodes` has id `w`.
pub open spec fn node_listed(nodes: Seq<WorkerNode>, w: u32) -> bool {
    exists|j: int| 0 <= j < nodes.len() && nodes[j].id == w
}

impl MigrationPlan {
    /// The plan hands the first expired workers, in order, to distinct new
    /// workers that hosted no actors, each recorded in `node_map`.
    pub open spec fn wf(&self, info: &BarrierActorInfo, expired: Seq<u32>) -> bool {
        &&& self.assignments.len() <= expired.len()
        &&& forall|k: int|
            0 <= k < self.assignments.len() ==> (#[trigger] self.assignments@[k]).0 == expired[k]
        &&& forall|k1: int, k2: int|
            0 <= k1 < self.assignments.len() && 0 <= k2 < self.assignments.len() && (
            #[trigger] self.assignments@[k1]).1 == (#[trigger] self.assignments@[k2]).1 ==> k1
                == k2
        &&& forall|k: int|
            0 <= k < self.assignments.len() ==> !as_map(info.actor_map@).contains_key(
                (#[trigger] self.assignments@[k]).1,
            )
        &&& keys_unique(self.node_map@)
        &&& forall|w: u32|
            as_map(self.node_map@).contains_key(w) <==> exists|k: int|
                0 <= k < self.assignments.len() && (#[trigger] self.assignments@[k]).1 == w
    }

    /// Whether every expired worker has been handed over.
    pub open spec fn complete(&self, expired: Seq<u32>) -> bool {
        self.assignments.len() == expired.len()
    }

    /// Whether new worker `w` already takes over some expired worker.
    pub open spec fn uses(&self, w: u32) -> bool {
        exists|k: int| 0 <= k < self.assignments.len() && (#[trigger] self.assignments@[k]).1 == w
    }

    pub fn new() -> (r: MigrationPlan)
        ensures
            r.assignments.len() == 0,
            r.node_map.len() == 0,
    {
        MigrationPlan { assignments: Vec::new(), node_map: Vec::new() }
    }

    /// Hands expired workers, in order, to the running workers of
    /// `current_nodes` that host no actors and are not used yet, in the
    /// order of `current_nodes`, until every expired worker is handed over.
    pub fn offer(&mut self, info: &BarrierActorInfo, expired: &Vec<u32>, current_nodes: Vec<WorkerNode>)
        requires
            info.wf(),
            old(self).wf(info, expired@),
        ensures
            final(self).wf(info, expired@),
            final(self).assignments.len() >= old(self).assignments.len(),
            final(self).assignments@.subrange(0, old(self).assignments.len() as int)
                == old(self).assignments@,
            forall|k: int|
                old(self).assignments.len() <= k < final(self).assignments.len() ==> node_listed(
                    current_nodes@,
                    (#[trigger] final(self).assignments@[k]).1,
                ),
            forall|w: u32|
                #![trigger as_map(old(self).node_map@).contains_key(w)]
                as_map(old(self).node_map@).contains_key(w) ==> as_map(final(self).node_map@)[w]
                    == as_map(old(self).node_map@)[w],
            forall|w: u32|
                #![trigger as_map(final(self).node_map@).contains_key(w)]
                as_map(final(self).node_map@).contains_key(w) && !as_map(
                    old(self).node_map@,
                ).contains_key(w) ==> current_nodes@.contains(as_map(final(self).node_map@)[w])
                    && as_map(final(self).node_map@)[w].id == w,
            !final(self).complete(expired@) ==> forall|j: int|
                0 <= j < current_nodes@.len() ==> as_map(info.actor_map@).contains_key(
                    #[trigger] current_nodes@[j].id,
                ) || final(self).uses(current_nodes@[j].id),
    {
        let ghost start = self.assignments@;
        let ghost start_nm = as_map(self.node_map@);
        let ghost nodes = current_nodes@;
        let mut pending = current_nodes;
        let mut taken: usize = 0;
        assert(nodes.len() == pending.len());
        while pending.len() > 0 && self.assignments.len() < expired.len()
            invariant
                info.wf(),
                self.wf(info, expired@),
                nodes.len() <= usize::MAX,
                taken + pending.len() == nodes.len(),
                pending@ == nodes.subrange(taken as int, nodes.len() as int),
                self.assignments.len() >= start.len(),
                self.assignments@.subrange(0, start.len() as int) == start,
                start_nm == as_map(old(self).node_map@),
                forall|w: u32|
                    #![trigger start_nm.contains_key(w)]
                    start_nm.contains_key(w) ==> as_map(self.node_map@).contains_key(w) && as_map(self.node_map@)[w]
                        == start_nm[w],
                forall|w: u32|
                    #![trigger as_map(self.node_map@).contains_key(w)]
                    as_map(self.node_map@).contains_key(w) && !start_nm.contains_key(w)
                        ==> nodes.contains(as_map(self.node_map@)[w]) && as_map(self.node_map@)[w].id
                        == w,
                forall|k: int|
                    start.len() <= k < self.assignments.len() ==> node_listed(
                        nodes,
                        (#[trigger] self.assignments@[k]).1,
                    ),
                forall|j: int|
                    0 <= j < taken ==> as_map(info.actor_map@).contains_key(#[trigger] nodes[j].id)
                        || self.uses(nodes[j].id),
            decreases pending.len(),
        {
            let node = pending.remove(0);
            assert(node == nodes[taken as int]);
            let id = node.id;
            let hosts_actors = match find_key(&info.actor_map, id) {
                Some(_) => {
                    proof {
                        lemma_as_map_keys(info.actor_map@, id);
                    }
                    true
                },
                None => false,
            };
            let used = match find_key(&self.node_map, id) {
                Some(_) => {
                    proof {
                        lemma_as_map_keys(self.node_map@, id);
                    }
                    true
                },
                None => false,
            };
            let ghost before = self.assignments@;
            if !hosts_actors && !used {
                let k = self.assignments.len();
                let w = expired[k];
                self.assignments.push((w, id));
                let ghost nm = self.node_map@;
                proof {
                    crate::assoc::lemma_as_map_push(nm, (id, node));
                }
                self.node_map.push((id, node));
                proof {
                    assert(keys_unique(self.node_map@)) by {
                        assert forall|i: int, j: int|
                            0 <= i < self.node_map.len() && 0 <= j < self.node_map.len()
                                && #[trigger] self.node_map@[i].0 == #[trigger] self.node_map@[j].0 implies i
                            == j by {
                            if i < nm.len() && j == nm.len() {
                                assert(nm[i].0 == id);
                                lemma_as_map_keys(nm, id);
                            } else if j < nm.len() && i == nm.len() {
                                assert(nm[j].0 == id);
                                lemma_as_map_keys(nm, id);
                            }
                        }
                    }
                    assert(self.assignments@.subrange(0, start.len() as int) =~= before.subrange(0, start.len() as int));
                    assert forall|w2: u32|
                        as_map(self.node_map@).contains_key(w2) <==> exists|k2: int|
                            0 <= k2 < self.assignments.len() && (#[trigger] self.assignments@[k2]).1
                                == w2 by {
                        if w2 == id {
                            assert(self.assignments@[self.assignments.len() - 1].1 == id);
                        } else {
                            if exists|k2: int|
                                0 <= k2 < self.assignments.len() && (#[trigger] self.assignments@[k2]).1 == w2 {
                                let k2 = choose|k2: int|
                                    0 <= k2 < self.assignments.len() && (#[trigger] self.assignments@[k2]).1 == w2;
                                assert(before[k2].1 == w2);
                            }
                            if as_map(nm).contains_key(w2) {
                                let k2 = choose|k2: int| 0 <= k2 < before.len() && (#[trigger] before[k2]).1 == w2;
                                assert(self.assignments@[k2].1 == w2);
                            }
                        }
                    }
                    assert forall|k1: int, k2: int|
                        0 <= k1 < self.assignments.len() && 0 <= k2 < self.assignments.len() && (
                        #[trigger] self.assignments@[k1]).1 == (#[trigger] self.assignments@[k2]).1 implies k1
                        == k2 by {
                        if k1 < before.len() && k2 == before.len() {
                            assert(as_map(nm).contains_key(before[k1].1));
                        } else if k2 < before.len() && k1 == before.len() {
                            assert(as_map(nm).contains_key(before[k2].1));
                        }
                    }
                    assert forall|k2: int|
                        start.len() <= k2 < self.assignments.len() implies node_listed(
                            nodes,
                            (#[trigger] self.assignments@[k2]).1,
                        ) by {
                        if k2 < before.len() {
                            assert(self.assignments@[k2] == before[k2]);
                        } else {
                            assert(nodes[taken as int].id == self.assignments@[k2].1);
                        }
                    }
                    assert forall|k2: int| 0 <= k2 < before.len() implies #[trigger] self.assignments@[k2] == before[k2] by {}
                }
            } else {
                proof {
                    if used {
                        lemma_as_map_keys(self.node_map@, id);
                    }
                }
            }
            proof {
                assert forall|j: int|
                    0 <= j < taken + 1 implies as_map(info.actor_map@).contains_key(#[trigger] nodes[j].id)
                        || self.uses(nodes[j].id) by {
                    if j < taken {
                        if self.uses(nodes[j].id) {
                        } else if !as_map(info.actor_map@).contains_key(nodes[j].id) {
                            let k2 = choose|k2: int| 0 <= k2 < before.len() && (#[trigger] before[k2]).1 == nodes[j].id;
                            assert(self.assignments@[k2] == before[k2]);
                        }
                    } else {
                        if !hosts_actors && !used {
                            assert(self.assignments@[self.assignments.len() - 1].1 == id);
                        }
                    }
                }
            }
            taken = taken + 1;
        }
        proof {
            assert forall|j: int|
                0 <= j < nodes.len() && !self.complete(expired@) implies as_map(info.actor_map@).contains_key(
                #[trigger] nodes[j].id) || self.uses(nodes[j].id) by {
                assert(taken == nodes.len());
            }

        }
    }
}

/// The actors of worker `w` in `am` (none when it is not listed).
pub open spec fn actors_of(am: Seq<(u32, Vec<u32>)>, w: u32) -> Seq<u32> {
    if as_map(am).contains_key(w) {
        as_map(am)[w]@
    } else {
        Seq::empty()
    }
}

/// For each assignment in order, every actor of the expired worker paired
/// with the new worker.
pub open spec fn migration_entries(am: Seq<(u32, Vec<u32>)>, assignments: Seq<(u32, u32)>) -> Seq<(u32, u32)>
    decreases assignments.len(),
{
    if assignments.len() == 0 {
        Seq::empty()
    } else {
        let (from, to) = assignments.last();
        migration_entries(am, assignments.drop_last()) + actors_of(am, from).map_values(
            |a: u32| (a, to),
        )
    }
}

impl MigrationPlan {
    /// The new worker of each actor of the handed-over expired workers.
    pub fn migrate_map(&self, info: &BarrierActorInfo) -> (r: Vec<(u32, u32)>)
        requires
            info.wf(),
        ensures
            r@ == migration_entries(info.actor_map@, self.assignments@),
    {
        let mut r: Vec<(u32, u32)> = Vec::new();
        let mut k: usize = 0;
        while k < self.assignments.len()
            invariant
                info.wf(),
                k <= self.assignments.len(),
                r@ == migration_entries(info.actor_map@, self.assignments@.subrange(0, k as int)),
            decreases self.assignments.len() - k,
        {
            let (from, to) = self.assignments[k];
            let ghost prefix = r@;
            let ghost sub = self.assignments@.subrange(0, k + 1);
            assert(sub.drop_last() =~= self.assignments@.subrange(0, k as int));
            match find_key(&info.actor_map, from) {
                Some(j) => {
                    proof {
                        lemma_as_map_index(info.actor_map@, j as int);
                    }
                    let actors = &info.actor_map[j].1;
                    let mut t: usize = 0;
                    while t < actors.len()
                        invariant
                            t <= actors.len(),
                            r@ == prefix + actors@.subrange(0, t as int).map_values(|a: u32| (a, to)),
                        decreases actors.len() - t,
                    {
                        r.push((actors[t], to));
                        assert(actors@.subrange(0, t + 1).map_values(|a: u32| (a, to)) =~= actors@.subrange(0, t as int).map_values(|a: u32| (a, to)).push((actors@[t as int], to)));
                        assert(r@ =~= prefix + actors@.subrange(0, t + 1).map_values(|a: u32| (a, to)));
                        t = t + 1;
                    }
                    assert(actors@.subrange(0, actors.len() as int) =~= actors@);
                    assert(actors_of(info.actor_map@, from) == actors@);
                },
                None => {
                    assert(actors_of(info.actor_map@, from) =~= Seq::<u32>::empty());
                    assert(r@ =~= prefix + actors_of(info.actor_map@, from).map_values(|a: u32| (a, to)));
                },
            }
            k = k + 1;
        }
        assert(self.assignments@.subrange(0, self.assignments.len() as int) =~= self.assignments@);
        r
    }
}

/// A placed actor as the fragment manager records it.
#[derive(Debug)]
pub struct ActorStatus {
    pub actor_id: u32,
    pub worker_id: u32,
    pub upstream_actor_ids: Vec<u32>,
    pub vnode_bitmap: Option<Bitmap>,
}

/// The value of key `k` in `s`, the last entry winning.
fn lookup_last(s: &Vec<(u32, u32)>, k: u32) -> (r: Option<u32>)
    ensures
        r is Some <==> as_map(s@).contains_key(k),
        r matches Some(v) ==> v == as_map(s@)[k],
{
    let mut r: Option<u32> = None;
    let mut i: usize = 0;
    while i < s.len()
        invariant
            i <= s.len(),
            r is Some <==> as_map(s@.subrange(0, i as int)).contains_key(k),
            r matches Some(v) ==> v == as_map(s@.subrange(0, i as int))[k],
        decreases s.len() - i,
    {
        assert(s@.subrange(0, i + 1).drop_last() =~= s@.subrange(0, i as int));
        if s[i].0 == k {
            r = Some(s[i].1);
        }
        i = i + 1;
    }
    assert(s@.subrange(0, s.len() as int) =~= s@);
    r
}

/// Moves each actor that `migrate_map` names onto its new worker; ids,
/// upstreams and bitmaps are kept, and the other actors stay where they are.
pub fn migrate_actors(actors: &mut Vec<ActorStatus>, migrate_map: &Vec<(u32, u32)>)
    ensures
        final(actors).len() == old(actors).len(),
        forall|i: int|
            0 <= i < old(actors).len() ==> {
                &&& (#[trigger] final(actors)@[i]).actor_id == old(actors)@[i].actor_id
                &&& final(actors)@[i].upstream_actor_ids == old(actors)@[i].upstream_actor_ids
                &&& final(actors)@[i].vnode_bitmap == old(actors)@[i].vnode_bitmap
                &&& final(actors)@[i].worker_id == if as_map(migrate_map@).contains_key(
                    old(actors)@[i].actor_id,
                ) {
                    as_map(migrate_map@)[old(actors)@[i].actor_id]
                } else {
                    old(actors)@[i].worker_id
                }
            },
{
    let ghost all = actors@;
    let mut moved: Vec<ActorStatus> = Vec::new();
    let mut taken: usize = 0;
    assert(all.len() == actors.len());
    while actors.len() > 0
        invariant
            all.len() <= usize::MAX,
            taken + actors.len() == all.len(),
            actors@ == all.subrange(taken as int, all.len() as int),
            moved.len() == taken,
            forall|i: int|
                0 <= i < taken ==> {
                    &&& (#[trigger] moved@[i]).actor_id == all[i].actor_id
                    &&& moved@[i].upstream_actor_ids == all[i].upstream_actor_ids
                    &&& moved@[i].vnode_bitmap == all[i].vnode_bitmap
                    &&& moved@[i].worker_id == if as_map(migrate_map@).contains_key(all[i].actor_id) {
                        as_map(migrate_map@)[all[i].actor_id]
                    } else {
                        all[i].worker_id
                    }
                },
        decreases actors.len(),
    {
        let mut a = actors.remove(0);
        assert(a == all[taken as int]);
        match lookup_last(migrate_map, a.actor_id) {
            Some(w) => {
                a.worker_id = w;
            },
            None => {},
        }
        moved.push(a);
        taken = taken + 1;
    }
    *actors = moved;
}

/// The address of the live worker of each actor, worker by worker.
pub open spec fn info_table(am: Seq<(u32, Vec<u32>)>, nm: Map<u32, WorkerNode>) -> Seq<
    (u32, (Seq<char>, i32)),
>
    decreases am.len(),
{
    if am.len() == 0 {
        Seq::empty()
    } else {
        info_table(am.drop_last(), nm) + am.last().1@.map_values(|a: u32| (a, nm[am.last().0].host@))
    }
}

/// The id and address of an actor's entry.
pub open spec fn info_view(i: ActorInfo) -> (u32, (Seq<char>, i32)) {
    (i.actor_id, i.host@)
}

/// The table of actor addresses sent to every worker: each actor with the
/// address of its worker, or `WorkerEvicted` for a worker that is not alive.
pub fn actor_info_table(info: &BarrierActorInfo) -> (r: Result<Vec<ActorInfo>, MetaError>)
    requires
        info.wf(),
    ensures
        r is Ok <==> forall|k: int|
            0 <= k < info.actor_map.len() ==> info.alive((#[trigger] info.actor_map@[k]).0),
        r matches Ok(v) ==> v@.map_values(|i: ActorInfo| info_view(i)) == info_table(
            info.actor_map@,
            as_map(info.node_map@),
        ),
        r matches Err(e) ==> exists|k: int|
            0 <= k < info.actor_map.len() && !info.alive((#[trigger] info.actor_map@[k]).0) && e
                == (MetaError::WorkerEvicted { worker_id: info.actor_map@[k].0 }),
{
    let am = &info.actor_map;
    let mut r: Vec<ActorInfo> = Vec::new();
    let mut k: usize = 0;
    while k < am.len()
        invariant
            info.wf(),
            am@ == info.actor_map@,
            k <= am.len(),
            forall|t: int| 0 <= t < k ==> info.alive((#[trigger] am@[t]).0),
            r@.map_values(|i: ActorInfo| info_view(i)) == info_table(am@.subrange(0, k as int), as_map(info.node_map@)),
        decreases am.len() - k,
    {
        let node_id = am[k].0;
        let j = match find_key(&info.node_map, node_id) {
            Some(j) => j,
            None => {
                assert(!info.alive(info.actor_map@[k as int].0));
                return Err(MetaError::WorkerEvicted { worker_id: node_id });
            },
        };
        proof {
            lemma_as_map_index(info.node_map@, j as int);
        }
        let host = &info.node_map[j].1.host;
        let actors = &am[k].1;
        let ghost prefix = r@.map_values(|i: ActorInfo| info_view(i));
        let ghost h = as_map(info.node_map@)[node_id].host@;
        let mut t: usize = 0;
        while t < actors.len()
            invariant
                t <= actors.len(),
                host@ == h,
                r@.map_values(|i: ActorInfo| info_view(i)) == prefix + actors@.subrange(0, t as int).map_values(|a: u32| (a, h)),
            decreases actors.len() - t,
        {
            let ghost before = r@;
            let entry = ActorInfo { actor_id: actors[t], host: host.duplicate() };
            assert(info_view(entry) == (actors@[t as int], h));
            r.push(entry);
            assert(r@.map_values(|i: ActorInfo| info_view(i)) =~= before.map_values(|i: ActorInfo| info_view(i)).push((actors@[t as int], h)));
            assert(actors@.subrange(0, t + 1).map_values(|a: u32| (a, h)) =~= actors@.subrange(0, t as int).map_values(|a: u32| (a, h)).push((actors@[t as int], h)));
            assert(r@.map_values(|i: ActorInfo| info_view(i)) =~= prefix + actors@.subrange(0, t + 1).map_values(|a: u32| (a, h)));
            t = t + 1;
        }
        assert(actors@.subrange(0, actors.len() as int) =~= actors@);
        assert(am@.subrange(0, k + 1).drop_last() =~= am@.subrange(0, k as int));
        k = k + 1;
    }
    assert(am@.subrange(0, am.len() as int) =~= am@);
    Ok(r)
}

/// Where a recovery attempt stands.
#[derive(Debug, Clone, Copy, PartialEq, Eq, Structural)]
pub enum RecoveryPhase {
    /// Snapshot the live workers and their actors.
    ResolveInfo,
    /// Move the actors of expired workers to new ones.
    MigrateActors,
    /// Snapshot again after a migration.
    ResolveMigrated,
    /// Stop every actor on every live worker.
    ResetComputeNodes,
    /// Send the actor table and each worker's actors.
    UpdateActors,
    /// Start the actors.
    BuildActors,
    /// Fetch the source split assignments.
    CollectSplits,
    /// Inject the initial barrier and wait for it.
    InjectBarrier { prev_epoch: Epoch, curr_epoch: Epoch },
    /// The cluster runs again at `epoch`.
    Finished { epoch: Epoch },
}

/// What the driver of a recovery does next.
#[derive(Debug, Clone, Copy, PartialEq, Eq, Structural)]
pub enum RecoveryAction {
    ResolveActorInfo,
    MigrateActors,
    ResetComputeNodes,
    UpdateActors,
    BuildActors,
    ListSplitAssignments,
    /// Inject the initial barrier between these epochs and await it.
    InjectBarrier { prev_epoch: Epoch, curr_epoch: Epoch },
    /// Recovery is over; normal processing resumes at `epoch`.
    Finish { epoch: Epoch },
}

/// The outcome of the driver's last action.
#[derive(Debug, Clone, Copy, PartialEq, Eq, Structural)]
pub enum RecoveryEvent {
    /// It succeeded (for a migration: nothing had to move).
    Succeeded,
    /// A migration moved actors, so the snapshot must be taken again.
    Migrated,
    /// It failed; the attempt starts over after a backoff.
    Failed,
}

/// The decisions of recovery after a failure, from the last committed
/// epoch to the epoch at which processing resumes. Sources stay paused,
/// buffered barriers are aborted and dirty fragments are dropped before the
/// first attempt.
#[derive(Debug)]
pub struct Recovery {
    pub prev_epoch: Epoch,
    pub phase: RecoveryPhase,
    /// Failed attempts so far.
    pub retries: u64,
}

/// The action that starts phase `p`.
pub open spec fn action_of(p: RecoveryPhase) -> RecoveryAction {
    match p {
        RecoveryPhase::ResolveInfo => RecoveryAction::ResolveActorInfo,
        RecoveryPhase::MigrateActors => RecoveryAction::MigrateActors,
        RecoveryPhase::ResolveMigrated => RecoveryAction::ResolveActorInfo,
        RecoveryPhase::ResetComputeNodes => RecoveryAction::ResetComputeNodes,
        RecoveryPhase::UpdateActors => RecoveryAction::UpdateActors,
        RecoveryPhase::BuildActors => RecoveryAction::BuildActors,
        RecoveryPhase::CollectSplits => RecoveryAction::ListSplitAssignments,
        RecoveryPhase::InjectBarrier { prev_epoch, curr_epoch } => RecoveryAction::InjectBarrier {
            prev_epoch,
            curr_epoch,
        },
        RecoveryPhase::Finished { epoch } => RecoveryAction::Finish { epoch },
    }
}

impl Recovery {
    /// The initial barrier starts at the last committed epoch; epochs handed
    /// out lie beyond it.
    pub open spec fn wf(&self) -> bool {
        &&& self.prev_epoch.0 < u64::MAX
        &&& self.phase matches RecoveryPhase::InjectBarrier { prev_epoch, curr_epoch } ==> self.prev_epoch
            == prev_epoch && prev_epoch.0 < curr_epoch.0
        &&& self.phase matches RecoveryPhase::Finished { epoch } ==> self.prev_epoch.0 < epoch.0
    }

    /// A recovery from `prev_epoch`, about to take its first snapshot.
    pub fn new(prev_epoch: Epoch) -> (r: Recovery)
        requires
            prev_epoch.0 < u64::MAX,
        ensures
            r.wf(),
            r.prev_epoch == prev_epoch,
            r.phase == RecoveryPhase::ResolveInfo,
            r.retries == 0,
    {
        Recovery { prev_epoch, phase: RecoveryPhase::ResolveInfo, retries: 0 }
    }

    /// The action of the current phase.
    pub fn action(&self) -> (r: RecoveryAction)
        ensures
            r == action_of(self.phase),
    {
        match self.phase {
            RecoveryPhase::ResolveInfo => RecoveryAction::ResolveActorInfo,
            RecoveryPhase::MigrateActors => RecoveryAction::MigrateActors,
            RecoveryPhase::ResolveMigrated => RecoveryAction::ResolveActorInfo,
            RecoveryPhase::ResetComputeNodes => RecoveryAction::ResetComputeNodes,
            RecoveryPhase::UpdateActors => RecoveryAction::UpdateActors,
            RecoveryPhase::BuildActors => RecoveryAction::BuildActors,
            RecoveryPhase::CollectSplits => RecoveryAction::ListSplitAssignments,
            RecoveryPhase::InjectBarrier { prev_epoch, curr_epoch } => RecoveryAction::InjectBarrier {
                prev_epoch,
                curr_epoch,
            },
            RecoveryPhase::Finished { epoch } => RecoveryAction::Finish { epoch },
        }
    }

    /// Takes the outcome of the last action and returns the next one. A
    /// failure restarts the attempt from the snapshot; once the splits are
    /// known, the initial barrier goes from the last committed epoch to the
    /// one after it at clock reading `now`; once it is collected, recovery
    /// finishes at that new epoch.
    pub fn on_event(&mut self, event: RecoveryEvent, now: u64) -> (r: RecoveryAction)
        requires
            old(self).wf(),
            now <= MAX_PHYSICAL_TIME,
        ensures
            final(self).wf(),
            final(self).prev_epoch == old(self).prev_epoch,
            r == action_of(final(self).phase),
            old(self).phase is Finished ==> *final(self) == *old(self),
            !(old(self).phase is Finished) && event == RecoveryEvent::Failed ==> final(self).phase
                == RecoveryPhase::ResolveInfo && final(self).retries == if old(self).retries
                == u64::MAX {
                u64::MAX
            } else {
                (old(self).retries + 1) as u64
            },
            !(old(self).phase is Finished) && event != RecoveryEvent::Failed ==> final(self).retries
                == old(self).retries && final(self).phase == match old(self).phase {
                RecoveryPhase::ResolveInfo => RecoveryPhase::MigrateActors,
                RecoveryPhase::MigrateActors => if event == RecoveryEvent::Migrated {
                    RecoveryPhase::ResolveMigrated
                } else {
                    RecoveryPhase::ResetComputeNodes
                },
                RecoveryPhase::ResolveMigrated => RecoveryPhase::ResetComputeNodes,
                RecoveryPhase::ResetComputeNodes => RecoveryPhase::UpdateActors,
                RecoveryPhase::UpdateActors => RecoveryPhase::BuildActors,
                RecoveryPhase::BuildActors => RecoveryPhase::CollectSplits,
                RecoveryPhase::CollectSplits => RecoveryPhase::InjectBarrier {
                    prev_epoch: old(self).prev_epoch,
                    curr_epoch: Epoch(next_epoch_spec(old(self).prev_epoch.0, now)),
                },
                RecoveryPhase::InjectBarrier { prev_epoch, curr_epoch } => RecoveryPhase::Finished {
                    epoch: curr_epoch,
                },
                RecoveryPhase::Finished { epoch } => RecoveryPhase::Finished { epoch },
            },
    {
        if let RecoveryPhase::Finished { .. } = self.phase {
            return self.action();
        }
        if event == RecoveryEvent::Failed {
            self.phase = RecoveryPhase::ResolveInfo;
            if self.retries < u64::MAX {
                self.retries = self.retries + 1;
            }
            return self.action();
        }
        let next = match self.phase {
            RecoveryPhase::ResolveInfo => RecoveryPhase::MigrateActors,
            RecoveryPhase::MigrateActors => if event == RecoveryEvent::Migrated {
                RecoveryPhase::ResolveMigrated
            } else {
                RecoveryPhase::ResetComputeNodes
            },
            RecoveryPhase::ResolveMigrated => RecoveryPhase::ResetComputeNodes,
            RecoveryPhase::ResetComputeNodes => RecoveryPhase::UpdateActors,
            RecoveryPhase::UpdateActors => RecoveryPhase::BuildActors,
            RecoveryPhase::BuildActors => RecoveryPhase::CollectSplits,
            RecoveryPhase::CollectSplits => {
                let curr = self.prev_epoch.next_at(now);
                RecoveryPhase::InjectBarrier { prev_epoch: self.prev_epoch, curr_epoch: curr }
            },
            RecoveryPhase::InjectBarrier { prev_epoch, curr_epoch } => RecoveryPhase::Finished {
                epoch: curr_epoch,
            },
            RecoveryPhase::Finished { epoch } => RecoveryPhase::Finished { epoch },
        };
        self.phase = next;
        self.action()
    }
}

/// Recovery resumes beyond the last committed epoch: the initial barrier
/// goes from that epoch to a greater one, and the epoch recovery finishes at
/// is greater than the one it started from.
pub proof fn lemma_recovery_epochs(before: Recovery, after: Recovery, action: RecoveryAction)
    requires
        before.wf(),
        after.wf(),
        after.prev_epoch == before.prev_epoch,
        action == action_of(after.phase),
    ensures
        action matches RecoveryAction::InjectBarrier { prev_epoch, curr_epoch } ==> prev_epoch
            == before.prev_epoch && before.prev_epoch.0 < curr_epoch.0,
        action matches RecoveryAction::Finish { epoch } ==> before.prev_epoch.0 < epoch.0,
{
}

} // verus!
