use vstd::prelude::*;

use crate::assoc::{contains_u32, keys_unique};
use crate::meta_error::MetaError;

verus! {

/// Number of virtual nodes; every node of the cluster agrees on it.
pub const VNODE_COUNT: usize = 256;

/// A scheduling slot hosted on a worker.
#[derive(Debug, Clone, Copy, PartialEq, Eq, Structural)]
pub struct ParallelUnit {
    pub id: u32,
    pub worker_node_id: u32,
}

/// A set of vnodes, one flag per vnode.
#[derive(Debug)]
pub struct Bitmap {
    pub bits: Vec<bool>,
}

impl View for Bitmap {
    type V = Seq<bool>;

    open spec fn view(&self) -> Seq<bool> {
        self.bits@
    }
}

/// Number of set flags among the first `k` flags of `s`.
pub open spec fn ones_upto(s: Seq<bool>, k: int) -> nat
    decreases k,
{
    if k <= 0 {
        0
    } else {
        ones_upto(s, k - 1) + if s[k - 1] { 1nat } else { 0nat }
    }
}

pub open spec fn count_ones_spec(s: Seq<bool>) -> nat {
    ones_upto(s, s.len() as int)
}

impl Bitmap {
    /// Copies the flags into a new bitmap.
    pub fn duplicate(&self) -> (r: Bitmap)
        ensures
            r@ == self@,
    {
        Bitmap { bits: self.bits.clone() }
    }

    /// Number of vnodes in the set.
    pub fn count_ones(&self) -> (r: usize)
        ensures
            r == count_ones_spec(self@),
    {
        let mut n: usize = 0;
        let mut i: usize = 0;
        while i < self.bits.len()
            invariant
                i <= self.bits.len(),
                n == ones_upto(self@, i as int),
                n <= i,
            decreases self.bits.len() - i,
        {
            if self.bits[i] {
                n = n + 1;
            }
            i = i + 1;
        }
        n
    }
}

/// A total map from vnode to the id of the parallel unit owning it.
#[derive(Debug)]
pub struct VnodeMapping {
    pub owners: Vec<u32>,
}

impl View for VnodeMapping {
    type V = Seq<u32>;

    open spec fn view(&self) -> Seq<u32> {
        self.owners@
    }
}

/// Number of vnodes each of `n` units receives at least.
pub open spec fn shard_size(n: int) -> int {
    VNODE_COUNT as int / n
}

/// Number of units (the first ones) that receive one vnode more.
pub open spec fn shard_extra(n: int) -> int {
    VNODE_COUNT as int % n
}

/// First vnode of the contiguous range given to the `i`-th of `n` units.
pub open spec fn range_start(n: int, i: int) -> int {
    i * shard_size(n) + if i < shard_extra(n) { i } else { shard_extra(n) }
}

/// Vnode `v` falls in the range of the `i`-th of `n` units.
pub open spec fn balanced_owner(n: int, i: int, v: int) -> bool {
    range_start(n, i) <= v < range_start(n, i + 1)
}

/// The bitmap of the vnodes that `owners` gives to `id`.
pub open spec fn owned_by(owners: Seq<u32>, id: u32) -> Seq<bool> {
    Seq::new(owners.len(), |v: int| owners[v] == id)
}

/// The `j`-th bitmap of `bms` holds vnode `v`.
pub open spec fn holds(bms: Seq<(u32, Seq<bool>)>, j: int, v: int) -> bool {
    bms[j].1[v]
}

/// Some bitmap of `bms` holds vnode `v`.
pub open spec fn covered(bms: Seq<(u32, Seq<bool>)>, v: int) -> bool {
    exists|j: int| 0 <= j < bms.len() && #[trigger] holds(bms, j, v)
}

/// `bms` splits the vnode range: every bitmap spans all vnodes, and each vnode
/// is set in exactly one of them.
pub open spec fn is_partition(bms: Seq<(u32, Seq<bool>)>) -> bool {
    &&& forall|j: int| 0 <= j < bms.len() ==> (#[trigger] bms[j]).1.len() == VNODE_COUNT
    &&& forall|v: int| 0 <= v < VNODE_COUNT ==> #[trigger] covered(bms, v)
    &&& forall|v: int, j1: int, j2: int|
        0 <= v < VNODE_COUNT && 0 <= j1 < bms.len() && 0 <= j2 < bms.len() && #[trigger] holds(
            bms,
            j1,
            v,
        ) && #[trigger] holds(bms, j2, v) ==> j1 == j2
}

/// `m` gives each vnode to the unit whose bitmap in `bms` holds it.
pub open spec fn agrees_with(m: Seq<u32>, bms: Seq<(u32, Seq<bool>)>) -> bool {
    forall|v: int, j: int|
        0 <= v < VNODE_COUNT && 0 <= j < bms.len() && #[trigger] holds(bms, j, v) ==> m[v]
            == bms[j].0
}

proof fn lemma_range_start_total(n: int)
    requires
        0 < n <= VNODE_COUNT,
    ensures
        range_start(n, n) == VNODE_COUNT,
        shard_size(n) >= 1,
        shard_extra(n) < n,
{
    let q = shard_size(n);
    let r = shard_extra(n);
    assert(n * q + r == 256) by (nonlinear_arith)
        requires
            q == 256int / n,
            r == 256int % n,
            n > 0,
    ;
    assert(q >= 1) by (nonlinear_arith)
        requires
            q == 256int / n,
            0 < n <= 256,
    ;
}

proof fn lemma_range_start_step(n: int, i: int)
    requires
        0 < n <= VNODE_COUNT,
        0 <= i < n,
    ensures
        range_start(n, i + 1) == range_start(n, i) + shard_size(n) + if i < shard_extra(n) {
            1int
        } else {
            0int
        },
        0 <= range_start(n, i) < range_start(n, i + 1) <= VNODE_COUNT,
{
    let q = shard_size(n);
    let r = shard_extra(n);
    lemma_range_start_total(n);
    assert((i + 1) * q == i * q + q) by (nonlinear_arith);
    assert(i * q >= 0) by (nonlinear_arith)
        requires
            i >= 0,
            q >= 1,
    ;
    assert((i + 1) * q <= n * q) by (nonlinear_arith)
        requires
            i + 1 <= n,
            q >= 1,
    ;
}

proof fn lemma_range_start_mono(n: int, a: int, b: int)
    requires
        0 < n <= VNODE_COUNT,
        0 <= a <= b <= n,
    ensures
        range_start(n, a) <= range_start(n, b),
    decreases b - a,
{
    if a < b {
        lemma_range_start_step(n, b - 1);
        lemma_range_start_mono(n, a, b - 1);
    }
}

impl VnodeMapping {
    pub open spec fn wf(&self) -> bool {
        self@.len() == VNODE_COUNT
    }

    /// Spreads the vnodes over `pus` in contiguous ranges, in the order of
    /// `pus`; the first `VNODE_COUNT % n` units get one vnode more than the
    /// others.
    pub fn build(pus: &Vec<ParallelUnit>) -> (r: VnodeMapping)
        requires
            0 < pus.len() <= VNODE_COUNT,
        ensures
            r.wf(),
            is_balanced_over(r@, pus@),
            forall|i: int, v: int|
                #![trigger balanced_owner(pus.len() as int, i, v)]
                0 <= i < pus.len() && balanced_owner(pus.len() as int, i, v) ==> r@[v]
                    == pus@[i].id,
            forall|i: int|
                #![trigger range_start(pus.len() as int, i)]
                0 <= i < pus.len() ==> 0 <= range_start(pus.len() as int, i) < range_start(
                    pus.len() as int,
                    i + 1,
                ) <= VNODE_COUNT,
    {
        let n = pus.len();
        let q: usize = VNODE_COUNT / n;
        let extra: usize = VNODE_COUNT % n;
        proof {
            lemma_range_start_total(n as int);
        }
        let mut owners: Vec<u32> = Vec::new();
        let mut i: usize = 0;
        while i < n
            invariant
                n == pus.len(),
                0 < n <= VNODE_COUNT,
                q == shard_size(n as int),
                extra == shard_extra(n as int),
                q >= 1,
                i <= n,
                owners.len() == range_start(n as int, i as int),
                forall|j: int, v: int|
                    #![trigger balanced_owner(n as int, j, v)]
                    0 <= j < i && balanced_owner(n as int, j, v) ==> owners@[v] == pus@[j].id,
            decreases n - i,
        {
            proof {
                lemma_range_start_step(n as int, i as int);
            }
            let count: usize = if i < extra {
                q + 1
            } else {
                q
            };
            let id = pus[i].id;
            let start = owners.len();
            let ghost prev = owners@;
            let mut k: usize = 0;
            while k < count
                invariant
                    k <= count,
                    owners.len() == start + k,
                    start == range_start(n as int, i as int),
                    start + count == range_start(n as int, i as int + 1),
                    range_start(n as int, i as int + 1) <= VNODE_COUNT,
                    id == pus@[i as int].id,
                    forall|v: int| start <= v < start + k ==> owners@[v] == id,
                    forall|v: int| 0 <= v < start ==> owners@[v] == prev[v],
                decreases count - k,
            {
                owners.push(id);
                k = k + 1;
            }
            assert forall|j: int, v: int|
                #![trigger balanced_owner(n as int, j, v)]
                0 <= j < i + 1 && balanced_owner(n as int, j, v) implies owners@[v] == pus@[j].id by {
                if j < i {
                    lemma_range_start_step(n as int, j);
                    assert(range_start(n as int, j + 1) <= range_start(n as int, i as int)) by {
                        lemma_range_start_mono(n as int, j + 1, i as int);
                    }
                    assert(owners@[v] == prev[v]);
                }
            }
            i = i + 1;
        }
        proof {
            lemma_range_start_total(n as int);
        }
        let r = VnodeMapping { owners };
        assert forall|i: int|
            #![trigger range_start(pus.len() as int, i)]
            0 <= i < pus.len() implies 0 <= range_start(pus.len() as int, i) < range_start(
                pus.len() as int,
                i + 1,
            ) <= VNODE_COUNT by {
            lemma_range_start_step(n as int, i);
        }
        r
    }
}

/// `bms` is the bitmap form of `owners`: one entry per unit that owns a vnode,
/// each unit once, with the bitmap of exactly the vnodes it owns.
pub open spec fn are_bitmaps_of(owners: Seq<u32>, bms: Seq<(u32, Seq<bool>)>) -> bool {
    &&& forall|j: int| 0 <= j < bms.len() ==> (#[trigger] bms[j]).1 == owned_by(owners, bms[j].0)
    &&& forall|j1: int, j2: int|
        0 <= j1 < bms.len() && 0 <= j2 < bms.len() && (#[trigger] bms[j1]).0 == (
        #[trigger] bms[j2]).0 ==> j1 == j2
    &&& forall|v: int|
        0 <= v < owners.len() ==> #[trigger] unit_ids(bms).contains(owners[v])
}

/// The unit ids of a bitmap form, in order.
pub open spec fn unit_ids(bms: Seq<(u32, Seq<bool>)>) -> Seq<u32> {
    bms.map_values(|e: (u32, Seq<bool>)| e.0)
}

/// The flags of each bitmap of a bitmap form.
pub open spec fn bitmap_views(bms: Seq<(u32, Bitmap)>) -> Seq<(u32, Seq<bool>)> {
    bms.map_values(|e: (u32, Bitmap)| (e.0, e.1@))
}

impl VnodeMapping {
    /// The bitmap form of the mapping: for each unit that owns some vnode, in
    /// the order of its first vnode, the set of vnodes it owns.
    pub fn to_bitmaps(&self) -> (r: Vec<(u32, Bitmap)>)
        requires
            self.wf(),
        ensures
            are_bitmaps_of(self@, bitmap_views(r@)),
            keys_unique(r@),
    {
        let mut ids: Vec<u32> = Vec::new();
        let mut v: usize = 0;
        while v < VNODE_COUNT
            invariant
                self.wf(),
                v <= VNODE_COUNT,
                forall|k1: int, k2: int|
                    0 <= k1 < ids.len() && 0 <= k2 < ids.len() && #[trigger] ids@[k1]
                        == #[trigger] ids@[k2] ==> k1 == k2,
                forall|u: int| 0 <= u < v ==> ids@.contains(#[trigger] self@[u]),
            decreases VNODE_COUNT - v,
        {
            let id = self.owners[v];
            let ghost old_ids = ids@;
            if !contains_u32(&ids, id) {
                ids.push(id);
                assert(ids@[ids.len() - 1] == id);
            }
            assert(ids@.contains(id));
            assert forall|u: int| 0 <= u < v + 1 implies ids@.contains(#[trigger] self@[u]) by {
                if u < v {
                    assert(old_ids.contains(self@[u]));
                    let k = choose|k: int| 0 <= k < old_ids.len() && old_ids[k] == self@[u];
                    assert(ids@[k] == self@[u]);
                }
            }
            v = v + 1;
        }
        let mut r: Vec<(u32, Bitmap)> = Vec::new();
        let mut k: usize = 0;
        while k < ids.len()
            invariant
                self.wf(),
                k <= ids.len(),
                r.len() == k,
                forall|k1: int, k2: int|
                    0 <= k1 < ids.len() && 0 <= k2 < ids.len() && #[trigger] ids@[k1]
                        == #[trigger] ids@[k2] ==> k1 == k2,
                forall|u: int| 0 <= u < VNODE_COUNT ==> ids@.contains(#[trigger] self@[u]),
                forall|j: int| 0 <= j < k ==> (#[trigger] r@[j]).0 == ids@[j],
                forall|j: int|
                    0 <= j < k ==> (#[trigger] r@[j]).1@ == owned_by(self@, r@[j].0),
            decreases ids.len() - k,
        {
            let id = ids[k];
            let mut bits: Vec<bool> = Vec::new();
            let mut u: usize = 0;
            while u < VNODE_COUNT
                invariant
                    self.wf(),
                    u <= VNODE_COUNT,
                    bits.len() == u,
                    forall|w: int| 0 <= w < u ==> bits@[w] == (self@[w] == id),
                decreases VNODE_COUNT - u,
            {
                bits.push(self.owners[u] == id);
                u = u + 1;
            }
            assert(bits@ == owned_by(self@, id));
            r.push((id, Bitmap { bits }));
            k = k + 1;
        }
        proof {
            assert(unit_ids(bitmap_views(r@)) =~= ids@);
        }
        r
    }

    /// Rebuilds a mapping from per-unit bitmaps; fails with
    /// `InconsistentMapping` when the bitmaps overlap, leave a vnode uncovered
    /// or do not span the vnode range.
    pub fn from_bitmaps(bms: &Vec<(u32, Bitmap)>) -> (r: Result<VnodeMapping, MetaError>)
        ensures
            r is Ok <==> is_partition(bitmap_views(bms@)),
            r is Err ==> r == Err::<VnodeMapping, MetaError>(MetaError::InconsistentMapping),
            r matches Ok(m) ==> m.wf() && agrees_with(m@, bitmap_views(bms@)),
    {
        let n = bms.len();
        let mut j: usize = 0;
        while j < n
            invariant
                n == bms.len(),
                j <= n,
                forall|i: int| 0 <= i < j ==> (#[trigger] bms@[i]).1@.len() == VNODE_COUNT,
            decreases n - j,
        {
            if bms[j].1.bits.len() != VNODE_COUNT {
                assert(bitmap_views(bms@)[j as int].1.len() != VNODE_COUNT);
                return Err(MetaError::InconsistentMapping);
            }
            j = j + 1;
        }
        let mut owners: Vec<u32> = Vec::new();
        let mut v: usize = 0;
        while v < VNODE_COUNT
            invariant
                n == bms.len(),
                v <= VNODE_COUNT,
                owners.len() == v,
                forall|i: int| 0 <= i < n ==> (#[trigger] bms@[i]).1@.len() == VNODE_COUNT,
                forall|w: int| 0 <= w < v ==> #[trigger] covered(bitmap_views(bms@), w),
                forall|w: int, j1: int, j2: int|
                    0 <= w < v && 0 <= j1 < n && 0 <= j2 < n && #[trigger] holds(bitmap_views(bms@), j1, w)
                        && #[trigger] holds(bitmap_views(bms@), j2, w) ==> j1 == j2,
                forall|w: int, i: int|
                    0 <= w < v && 0 <= i < n && #[trigger] holds(bitmap_views(bms@), i, w) ==> owners@[w]
                        == bms@[i].0,
            decreases VNODE_COUNT - v,
        {
            let mut first: Option<usize> = None;
            let mut i: usize = 0;
            while i < n
                invariant
                    n == bms.len(),
                    v < VNODE_COUNT,
                    i <= n,
                    forall|t: int| 0 <= t < n ==> (#[trigger] bms@[t]).1@.len() == VNODE_COUNT,
                    first matches None ==> forall|t: int|
                        0 <= t < i ==> !#[trigger] holds(bitmap_views(bms@), t, v as int),
                    first matches Some(f) ==> f < i && holds(bitmap_views(bms@), f as int, v as int) && forall|
                        t: int,
                    |
                        0 <= t < i && #[trigger] holds(bitmap_views(bms@), t, v as int) ==> t == f,
                decreases n - i,
            {
                if bms[i].1.bits[v] {
                    assert(holds(bitmap_views(bms@), i as int, v as int));
                    match first {
                        Some(f) => {
                            assert(holds(bitmap_views(bms@), f as int, v as int));
                            return Err(MetaError::InconsistentMapping);
                        },
                        None => {
                            first = Some(i);
                        },
                    }
                } else {
                    assert(!holds(bitmap_views(bms@), i as int, v as int));
                }
                i = i + 1;
            }
            match first {
                Some(f) => {
                    owners.push(bms[f].0);
                    assert(covered(bitmap_views(bms@), v as int));
                },
                None => {
                    assert(!covered(bitmap_views(bms@), v as int));
                    return Err(MetaError::InconsistentMapping);
                },
            }
            v = v + 1;
        }
        Ok(VnodeMapping { owners })
    }
}

/// Decoding the bitmap form of a mapping gives the mapping back: the bitmaps
/// split the vnode range, and the only mapping that agrees with them is the
/// one they came from.
pub proof fn lemma_bitmaps_round_trip(m: Seq<u32>, bms: Seq<(u32, Seq<bool>)>, back: Seq<u32>)
    requires
        m.len() == VNODE_COUNT,
        are_bitmaps_of(m, bms),
        back.len() == VNODE_COUNT,
        agrees_with(back, bms),
    ensures
        is_partition(bms),
        back == m,
{
    let ids = unit_ids(bms);
    assert forall|v: int| 0 <= v < VNODE_COUNT implies #[trigger] covered(bms, v) by {
        assert(ids.contains(m[v]));
        let j = choose|j: int| 0 <= j < ids.len() && ids[j] == m[v];
        assert(bms[j].1 == owned_by(m, bms[j].0));
        assert(holds(bms, j, v));
    }
    assert forall|v: int, j1: int, j2: int|
        0 <= v < VNODE_COUNT && 0 <= j1 < bms.len() && 0 <= j2 < bms.len() && #[trigger] holds(
            bms,
            j1,
            v,
        ) && #[trigger] holds(bms, j2, v) implies j1 == j2 by {
        assert(bms[j1].1 == owned_by(m, bms[j1].0));
        assert(bms[j2].1 == owned_by(m, bms[j2].0));
    }
    assert forall|v: int| 0 <= v < VNODE_COUNT implies back[v] == m[v] by {
        assert(covered(bms, v));
        let j = choose|j: int| 0 <= j < bms.len() && holds(bms, j, v);
        assert(bms[j].1 == owned_by(m, bms[j].0));
    }
    assert(back =~= m);
}

/// The mapping that gives every vnode to unit `id`.
pub open spec fn single_owner(id: u32) -> Seq<u32> {
    Seq::new(VNODE_COUNT as nat, |v: int| id)
}

/// `m` is the balanced mapping over `pus`, in their order.
pub open spec fn is_balanced_over(m: Seq<u32>, pus: Seq<ParallelUnit>) -> bool {
    &&& m.len() == VNODE_COUNT
    &&& forall|i: int, v: int|
        #![trigger balanced_owner(pus.len() as int, i, v)]
        0 <= i < pus.len() && balanced_owner(pus.len() as int, i, v) ==> m[v] == pus[i].id
}

impl VnodeMapping {
    /// The mapping of all vnodes to one unit.
    pub fn build_single(pu: ParallelUnit) -> (r: VnodeMapping)
        ensures
            r.wf(),
            r@ == single_owner(pu.id),
    {
        let pus = vec![pu];
        let r = VnodeMapping::build(&pus);
        proof {
            lemma_range_start_total(1);
            assert forall|v: int| 0 <= v < VNODE_COUNT implies r@[v] == pu.id by {
                assert(balanced_owner(1, 0, v));
            }
            assert(r@ =~= single_owner(pu.id));
        }
        r
    }
}

/// Every vnode lies in the range of one of `n` units.
pub proof fn lemma_some_range(n: int, v: int)
    requires
        0 < n <= VNODE_COUNT,
        0 <= v < VNODE_COUNT,
    ensures
        exists|i: int| 0 <= i < n && #[trigger] balanced_owner(n, i, v),
{
    lemma_range_start_total(n);
    lemma_some_range_upto(n, v, n);
}

proof fn lemma_some_range_upto(n: int, v: int, k: int)
    requires
        0 < n <= VNODE_COUNT,
        0 <= k <= n,
        0 <= v < range_start(n, k),
    ensures
        exists|i: int| 0 <= i < k && #[trigger] balanced_owner(n, i, v),
    decreases k,
{
    if k > 0 {
        lemma_range_start_step(n, k - 1);
        if v >= range_start(n, k - 1) {
            assert(balanced_owner(n, k - 1, v));
        } else {
            lemma_some_range_upto(n, v, k - 1);
            let i = choose|i: int| 0 <= i < k - 1 && #[trigger] balanced_owner(n, i, v);
            assert(balanced_owner(n, i, v));
        }
    } else {
        assert(range_start(n, 0) == 0);
    }
}

/// For any list of at most `VNODE_COUNT` units, decoding the bitmap form of
/// the mapping that `build` makes over them gives that mapping back.
pub proof fn lemma_build_round_trip(
    pus: Seq<ParallelUnit>,
    m: Seq<u32>,
    bms: Seq<(u32, Seq<bool>)>,
    back: Seq<u32>,
)
    requires
        0 < pus.len() <= VNODE_COUNT,
        is_balanced_over(m, pus),
        are_bitmaps_of(m, bms),
        back.len() == VNODE_COUNT,
        agrees_with(back, bms),
    ensures
        is_partition(bms),
        back == m,
{
    lemma_bitmaps_round_trip(m, bms, back);
}

/// The CRC-32 checksum of a byte string.
pub uninterp spec fn crc32_of(bytes: Seq<u8>) -> u32;

/// Relies on `crc32fast::hash`: the CRC-32 checksum of the bytes, which
/// depends on the bytes alone.
#[verifier::external_body]
fn crc32(bytes: &[u8]) -> (r: u32)
    ensures
        r == crc32_of(bytes@),
{
    crc32fast::hash(bytes)
}

/// The vnode that a key hashing to `h` falls into.
pub open spec fn vnode_of_hash(h: u32) -> int {
    h as int % VNODE_COUNT as int
}

/// The vnode of an encoded key: its CRC-32 checksum modulo `VNODE_COUNT`.
pub open spec fn vnode_of_spec(key: Seq<u8>) -> int {
    vnode_of_hash(crc32_of(key))
}

/// Hashes an encoded key to its vnode.
pub fn vnode_of_key(key: &[u8]) -> (r: usize)
    ensures
        r == vnode_of_spec(key@),
        r < VNODE_COUNT,
{
    let h = crc32(key);
    (h % (VNODE_COUNT as u32)) as usize
}

} // verus!
