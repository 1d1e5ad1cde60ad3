use vstd::prelude::*;

use crate::scheduler::{HostAddress, WorkerNode};
use crate::vnode::ParallelUnit;

verus! {

/// The life stage of a worker.
#[derive(Debug, Clone, Copy, PartialEq, Eq, Structural)]
pub enum WorkerState {
    /// Registered, not serving yet.
    Starting,
    /// Serving and heartbeating.
    Running,
    /// Expired; kept as a tombstone until recovery moves its actors.
    Gone,
}

/// A registered worker with its parallel units.
#[derive(Debug)]
pub struct ClusterWorker {
    pub node: WorkerNode,
    pub state: WorkerState,
    pub parallel_units: Vec<ParallelUnit>,
}

/// Errors of cluster membership.
#[derive(Debug, Clone, Copy, PartialEq, Eq, Structural)]
pub enum ClusterError {
    /// No worker has that address or id.
    WorkerNotFound,
    /// Worker or unit ids are exhausted.
    IdsExhausted,
}

/// The workers of the cluster and the ids handed out so far.
#[derive(Debug)]
pub struct ClusterMembership {
    pub workers: Vec<ClusterWorker>,
    pub next_worker_id: u32,
    pub next_unit_id: u32,
}

/// The units `first..first + n` of worker `w`, in order.
pub open spec fn fresh_units(w: u32, first: u32, n: u32) -> Seq<ParallelUnit> {
    Seq::new(n as nat, |k: int| ParallelUnit { id: (first + k) as u32, worker_node_id: w })
}

/// Some worker of `ws` has address `host`.
pub open spec fn registered(ws: Seq<ClusterWorker>, host: (Seq<char>, i32)) -> bool {
    exists|i: int| 0 <= i < ws.len() && (#[trigger] ws[i]).node.host@ == host
}

/// Running workers' units, worker by worker.
pub open spec fn active_units(ws: Seq<ClusterWorker>) -> Seq<ParallelUnit>
    decreases ws.len(),
{
    if ws.len() == 0 {
        Seq::empty()
    } else {
        active_units(ws.drop_last()) + if ws.last().state == WorkerState::Running {
            ws.last().parallel_units@
        } else {
            Seq::empty()
        }
    }
}

/// Ids of the workers of `ws` in state `state`, in order.
pub open spec fn ids_in_state(ws: Seq<ClusterWorker>, state: WorkerState) -> Seq<u32>
    decreases ws.len(),
{
    if ws.len() == 0 {
        Seq::empty()
    } else {
        ids_in_state(ws.drop_last(), state) + if ws.last().state == state {
            seq![ws.last().node.id]
        } else {
            Seq::empty()
        }
    }
}

impl ClusterMembership {
    /// Worker ids are distinct and below the next one; each worker's units
    /// name it as their worker.
    pub open spec fn wf(&self) -> bool {
        &&& forall|i: int, j: int|
            0 <= i < self.workers.len() && 0 <= j < self.workers.len() && #[trigger] self.workers@[i].node.id
                == #[trigger] self.workers@[j].node.id ==> i == j
        &&& forall|i: int|
            0 <= i < self.workers.len() ==> (#[trigger] self.workers@[i]).node.id < self.next_worker_id
        &&& forall|i: int, k: int|
            0 <= i < self.workers.len() && 0 <= k < self.workers@[i].parallel_units.len() ==> (
            #[trigger] self.workers@[i].parallel_units@[k]).worker_node_id == self.workers@[i].node.id
    }

    pub fn new() -> (r: Self)
        ensures
            r.wf(),
            r.workers.len() == 0,
    {
        ClusterMembership { workers: Vec::new(), next_worker_id: 1, next_unit_id: 0 }
    }

    /// Index of the worker at `host`.
    fn find_host(&self, host: &HostAddress) -> (r: Option<usize>)
        ensures
            r matches Some(i) ==> i < self.workers.len() && self.workers@[i as int].node.host@ == host@,
            r is None ==> forall|i: int| 0 <= i < self.workers.len() ==> (#[trigger] self.workers@[i]).node.host@ != host@,
    {
        let mut i: usize = 0;
        while i < self.workers.len()
            invariant
                i <= self.workers.len(),
                forall|t: int| 0 <= t < i ==> (#[trigger] self.workers@[t]).node.host@ != host@,
            decreases self.workers.len() - i,
        {
            let h = &self.workers[i].node.host;
            if String::eq(&h.host, &host.host) && h.port == host.port {
                return Some(i);
            }
            i = i + 1;
        }
        None
    }

    /// Registers a worker at `host` with `parallelism` units, or returns the
    /// id of the worker already registered there.
    pub fn add_worker(&mut self, host: HostAddress, parallelism: u32) -> (r: Result<u32, ClusterError>)
        requires
            old(self).wf(),
        ensures
            final(self).wf(),
            registered(old(self).workers@, host@) ==> (r matches Ok(id) && *final(self) == *old(
                self,
            ) && exists|i: int|
                0 <= i < old(self).workers.len() && (#[trigger] old(self).workers@[i]).node.host@
                    == host@ && old(self).workers@[i].node.id == id),
            r is Err ==> *final(self) == *old(self) && r == Err::<u32, ClusterError>(ClusterError::IdsExhausted),
            r is Ok && !registered(old(self).workers@, host@) ==> {
                let id = r->Ok_0;
                let w = final(self).workers@.last();
                &&& id == old(self).next_worker_id
                &&& final(self).workers.len() == old(self).workers.len() + 1
                &&& final(self).workers@.drop_last() == old(self).workers@
                &&& w.node.id == id && w.node.host@ == host@
                &&& w.state == WorkerState::Starting
                &&& w.parallel_units@ == fresh_units(id, old(self).next_unit_id, parallelism)
            },
            old(self).next_worker_id < u32::MAX && old(self).next_unit_id as int + parallelism
                <= u32::MAX ==> r is Ok,
    {
        match self.find_host(&host) {
            Some(i) => {
                return Ok(self.workers[i].node.id);
            },
            None => {},
        }
        if self.next_worker_id == u32::MAX || parallelism > u32::MAX - self.next_unit_id {
            return Err(ClusterError::IdsExhausted);
        }
        let id = self.next_worker_id;
        let first = self.next_unit_id;
        let mut units: Vec<ParallelUnit> = Vec::new();
        let mut k: u32 = 0;
        while k < parallelism
            invariant
                k <= parallelism,
                first as int + parallelism <= u32::MAX,
                units@ == fresh_units(id, first, k),
            decreases parallelism - k,
        {
            units.push(ParallelUnit { id: first + k, worker_node_id: id });
            assert(units@ =~= fresh_units(id, first, (k + 1) as u32));
            k = k + 1;
        }
        let ghost before = self.workers@;
        let ghost uv = units@;
        self.workers.push(
            ClusterWorker { node: WorkerNode { id, host }, state: WorkerState::Starting, parallel_units: units },
        );
        self.next_worker_id = id + 1;
        self.next_unit_id = first + parallelism;
        assert(self.workers@.drop_last() =~= before);
        proof {
            let n = before.len() as int;
            assert forall|i: int| 0 <= i < n implies #[trigger] self.workers@[i] == before[i] by {}
            assert forall|i: int, j: int|
                0 <= i < self.workers.len() && 0 <= j < self.workers.len() && #[trigger] self.workers@[i].node.id
                    == #[trigger] self.workers@[j].node.id implies i == j by {
                if i < n && j < n {
                    assert(before[i].node.id == before[j].node.id);
                } else if i < n {
                    assert(before[i].node.id < id);
                } else if j < n {
                    assert(before[j].node.id < id);
                }
            }
            assert forall|i: int| 0 <= i < self.workers.len() implies (#[trigger] self.workers@[i]).node.id
                < self.next_worker_id by {
                if i < n {
                    assert(before[i].node.id < id);
                }
            }
            assert forall|i: int, k: int|
                0 <= i < self.workers.len() && 0 <= k < self.workers@[i].parallel_units.len() implies (
                #[trigger] self.workers@[i].parallel_units@[k]).worker_node_id == self.workers@[i].node.id by {
                if i < n {
                    assert(self.workers@[i] == before[i]);
                    assert(before[i].parallel_units@[k].worker_node_id == before[i].node.id);
                } else {
                    assert(i == n);
                    assert(self.workers@[i].node.id == id);
                    assert(self.workers@[i].parallel_units@ == uv);
                    assert(uv[k] == fresh_units(id, first, parallelism)[k]);
                }
            }
        }
        Ok(id)
    }

    /// Sets the state of the worker at `host`.
    fn set_state(&mut self, i: usize, state: WorkerState)
        requires
            old(self).wf(),
            i < old(self).workers.len(),
        ensures
            final(self).wf(),
            final(self).next_worker_id == old(self).next_worker_id,
            final(self).next_unit_id == old(self).next_unit_id,
            final(self).workers.len() == old(self).workers.len(),
            forall|j: int| 0 <= j < old(self).workers.len() && j != i ==> #[trigger] final(self).workers@[j] == old(self).workers@[j],
            final(self).workers@[i as int].node == old(self).workers@[i as int].node,
            final(self).workers@[i as int].parallel_units == old(self).workers@[i as int].parallel_units,
            final(self).workers@[i as int].state == state,
    {
        let ghost before = self.workers@;
        let mut w = self.workers.remove(i);
        w.state = state;
        self.workers.insert(i, w);
        assert forall|j: int| 0 <= j < before.len() && j != i implies #[trigger] self.workers@[j] == before[j] by {
            if j < i {
                assert(self.workers@[j] == before[j]);
            } else {
                assert(self.workers@[j] == before[j]);
            }
        }
        assert forall|j: int| 0 <= j < before.len() implies (#[trigger] self.workers@[j]).node == before[j].node
            && self.workers@[j].parallel_units == before[j].parallel_units by {
            if j != i {
                assert(self.workers@[j] == before[j]);
            }
        }
    }

    /// Marks the worker at `host` as running.
    pub fn activate_worker(&mut self, host: &HostAddress) -> (r: Result<(), ClusterError>)
        requires
            old(self).wf(),
        ensures
            final(self).wf(),
            r is Ok <==> registered(old(self).workers@, host@),
            r is Err ==> *final(self) == *old(self) && r == Err::<(), ClusterError>(ClusterError::WorkerNotFound),
            r is Ok ==> exists|i: int|
                0 <= i < old(self).workers.len() && (#[trigger] old(self).workers@[i]).node.host@ == host@
                    && final(self).workers@[i].state == WorkerState::Running
                    && final(self).workers@[i].node == old(self).workers@[i].node
                    && final(self).workers@[i].parallel_units == old(self).workers@[i].parallel_units
                    && forall|j: int| 0 <= j < old(self).workers.len() && j != i ==> #[trigger] final(self).workers@[j] == old(self).workers@[j],
    {
        match self.find_host(host) {
            Some(i) => {
                let ghost old_self = self.workers@;
                self.set_state(i, WorkerState::Running);
                assert(old_self[i as int].node.host@ == host@);
                Ok(())
            },
            None => Err(ClusterError::WorkerNotFound),
        }
    }

    /// Marks worker `id` as gone; it stays listed as a tombstone.
    pub fn expire_worker(&mut self, id: u32) -> (r: Result<(), ClusterError>)
        requires
            old(self).wf(),
        ensures
            final(self).wf(),
            r is Ok <==> exists|i: int| 0 <= i < old(self).workers.len() && (#[trigger] old(self).workers@[i]).node.id == id,
            r is Err ==> *final(self) == *old(self) && r == Err::<(), ClusterError>(ClusterError::WorkerNotFound),
            r is Ok ==> exists|i: int|
                0 <= i < old(self).workers.len() && (#[trigger] old(self).workers@[i]).node.id == id
                    && final(self).workers@[i].state == WorkerState::Gone
                    && final(self).workers@[i].node == old(self).workers@[i].node
                    && final(self).workers@[i].parallel_units == old(self).workers@[i].parallel_units
                    && forall|j: int| 0 <= j < old(self).workers.len() && j != i ==> #[trigger] final(self).workers@[j] == old(self).workers@[j],
    {
        let ghost orig = *self;
        let mut i: usize = 0;
        while i < self.workers.len()
            invariant
                *self == orig,
                orig == *old(self),
                orig.wf(),
                i <= self.workers.len(),
                forall|t: int| 0 <= t < i ==> (#[trigger] self.workers@[t]).node.id != id,
            decreases self.workers.len() - i,
        {
            if self.workers[i].node.id == id {
                let ghost old_self = self.workers@;
                self.set_state(i, WorkerState::Gone);
                assert(old_self[i as int].node.id == id);
                return Ok(());
            }
            i = i + 1;
        }
        Err(ClusterError::WorkerNotFound)
    }

    /// Ids of the workers in `state`, in registration order.
    pub fn list_worker_ids(&self, state: WorkerState) -> (r: Vec<u32>)
        ensures
            r@ == ids_in_state(self.workers@, state),
    {
        let mut r: Vec<u32> = Vec::new();
        let mut i: usize = 0;
        while i < self.workers.len()
            invariant
                i <= self.workers.len(),
                r@ == ids_in_state(self.workers@.subrange(0, i as int), state),
            decreases self.workers.len() - i,
        {
            assert(self.workers@.subrange(0, i + 1).drop_last() =~= self.workers@.subrange(0, i as int));
            if self.workers[i].state == state {
                r.push(self.workers[i].node.id);
            }
            i = i + 1;
        }
        assert(self.workers@.subrange(0, self.workers.len() as int) =~= self.workers@);
        r
    }

    /// The units of the running workers, worker by worker.
    pub fn list_active_parallel_units(&self) -> (r: Vec<ParallelUnit>)
        ensures
            r@ == active_units(self.workers@),
    {
        let mut r: Vec<ParallelUnit> = Vec::new();
        let mut i: usize = 0;
        while i < self.workers.len()
            invariant
                i <= self.workers.len(),
                r@ == active_units(self.workers@.subrange(0, i as int)),
            decreases self.workers.len() - i,
        {
            assert(self.workers@.subrange(0, i + 1).drop_last() =~= self.workers@.subrange(0, i as int));
            if self.workers[i].state == WorkerState::Running {
                let units = &self.workers[i].parallel_units;
                let ghost base = r@;
                let mut k: usize = 0;
                while k < units.len()
                    invariant
                        k <= units.len(),
                        r@ == base + units@.subrange(0, k as int),
                    decreases units.len() - k,
                {
                    r.push(units[k]);
                    assert(r@ =~= base + units@.subrange(0, k + 1));
                    k = k + 1;
                }
                assert(units@.subrange(0, units.len() as int) =~= units@);
            }
            i = i + 1;
        }
        assert(self.workers@.subrange(0, self.workers.len() as int) =~= self.workers@);
        r
    }
}

} // verus!
