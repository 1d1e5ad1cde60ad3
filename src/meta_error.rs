use vstd::prelude::*;

verus! {

/// Errors raised by the scheduling and mapping logic of the meta service.
#[derive(Debug, PartialEq, Eq, Structural, Clone, Copy)]
pub enum MetaError {
    /// A fragment was handed to the scheduler without any actor.
    NoActor,
    /// A singleton fragment holds more than one actor.
    TooManyActors,
    /// More actors were requested than there are parallel units.
    NotEnoughCapacity { required: usize, available: usize },
    /// Vnode bitmaps overlap or leave some vnode uncovered.
    InconsistentMapping,
    /// An actor that placement depends on has not been placed yet.
    LocationNotFound { actor_id: u32 },
    /// Co-location asked for actors that sit on different parallel units.
    PlacementConflict { actor_id: u32 },
    /// An actor of a co-located hash fragment names no upstream to sit beside.
    MissingColocation { actor_id: u32 },
    /// The vnode bitmap of an upstream actor is not recorded.
    BitmapNotFound { actor_id: u32 },
    /// No parallel unit exists to place a singleton on.
    NoParallelUnit,
    /// An actor is hosted on a worker that is not alive.
    WorkerEvicted { worker_id: u32 },
}

} // verus!
