use vstd::prelude::*;

use itertools::Itertools;

use crate::chunk::{encode_key, DataChunk};
use crate::vnode::{vnode_of_key, vnode_of_spec, Bitmap, VNODE_COUNT};

verus! {

/// How a chunk is spread over the downstream queues: the key columns that are
/// hashed, and the queue that each vnode is routed to.
#[derive(Debug)]
pub struct ConsistentHashInfo {
    pub vmap: Vec<u32>,
    pub key: Vec<u32>,
}

/// Errors of the consistent-hash exchange.
#[derive(Debug, Clone, Copy, PartialEq, Eq, Structural)]
pub enum ShuffleError {
    /// The queue closed before the end of the stream was seen.
    BrokenChannel,
    /// A downstream queue is gone, so the sender cannot deliver.
    SenderError,
}

impl ConsistentHashInfo {
    /// The key columns as column indices.
    pub open spec fn key_columns(&self) -> Seq<usize> {
        self.key@.map_values(|k: u32| k as usize)
    }

    /// The map covers every vnode and the key columns exist in `chunk`.
    pub open spec fn fits(&self, chunk: &DataChunk) -> bool {
        &&& self.vmap.len() == VNODE_COUNT
        &&& forall|j: int| 0 <= j < self.key.len() ==> (#[trigger] self.key@[j]) < chunk.columns.len()
    }

    /// The queue that row `i` of `chunk` is routed to.
    pub open spec fn sink_of_row(&self, chunk: &DataChunk, i: int) -> int {
        self.vmap@[vnode_of_spec(encode_key(chunk.row(i), self.key_columns()))] as int
    }
}

/// Relies on itertools' `sorted` followed by `dedup`: the values in
/// increasing order, each value once.
#[verifier::external_body]
fn sorted_distinct(values: &Vec<u32>) -> (r: Vec<u32>)
    ensures
        forall|i: int, j: int| 0 <= i < j < r.len() ==> r@[i] < r@[j],
        r@.to_set() == values@.to_set(),
{
    values.iter().copied().sorted().dedup().collect()
}

/// The number of downstream queues: the number of distinct queue ids in the
/// vnode map.
pub fn output_count(info: &ConsistentHashInfo) -> (r: usize)
    ensures
        r == info.vmap@.to_set().len(),
{
    let ids = sorted_distinct(&info.vmap);
    proof {
        assert(ids@.no_duplicates());
        ids@.unique_seq_to_set();
    }
    ids.len()
}

/// The queue of every row of the chunk, visible or not.
fn generate_hash_values(chunk: &DataChunk, info: &ConsistentHashInfo) -> (r: Vec<usize>)
    requires
        chunk.wf(),
        info.fits(chunk),
    ensures
        r.len() == chunk.capacity,
        forall|i: int| 0 <= i < chunk.capacity ==> r@[i] == info.sink_of_row(chunk, i),
{
    let mut key: Vec<usize> = Vec::new();
    let mut j: usize = 0;
    while j < info.key.len()
        invariant
            j <= info.key.len(),
            key.len() == j,
            forall|t: int| 0 <= t < j ==> key@[t] == info.key@[t] as usize,
        decreases info.key.len() - j,
    {
        key.push(info.key[j] as usize);
        j = j + 1;
    }
    assert(key@ =~= info.key_columns());
    let mut r: Vec<usize> = Vec::new();
    let mut i: usize = 0;
    while i < chunk.capacity
        invariant
            chunk.wf(),
            info.fits(chunk),
            key@ == info.key_columns(),
            i <= chunk.capacity,
            r.len() == i,
            forall|t: int| 0 <= t < i ==> r@[t] == info.sink_of_row(chunk, t),
        decreases chunk.capacity - i,
    {
        assert forall|t: int| 0 <= t < key.len() implies #[trigger] key@[t] < chunk.columns.len() by {
            assert(info.key@[t] < chunk.columns.len());
        }
        let bytes = chunk.row_key(&key, i);
        let v = vnode_of_key(bytes.as_slice());
        r.push(info.vmap[v] as usize);
        i = i + 1;
    }
    r
}

/// `d` is `chunk` restricted to its visible rows whose hash value is `s`.
pub open spec fn restricted_to(chunk: &DataChunk, hash_values: Seq<usize>, s: int, d: &DataChunk) -> bool {
    &&& d.wf()
    &&& d.capacity == chunk.capacity
    &&& d.column_values() == chunk.column_values()
    &&& forall|i: int|
        0 <= i < chunk.capacity ==> #[trigger] d.visible(i) == (hash_values[i] == s && chunk.visible(i))
}

/// One chunk per queue, equal to the input but for its visibility: a row is
/// visible in the chunk of queue `s` when it is visible in the input and its
/// hash value is `s`.
fn generate_new_data_chunks(chunk: &DataChunk, output_count: usize, hash_values: &Vec<usize>) -> (r:
    Vec<DataChunk>)
    requires
        chunk.wf(),
        hash_values.len() == chunk.capacity,
    ensures
        r.len() == output_count,
        forall|s: int| 0 <= s < output_count ==> restricted_to(chunk, hash_values@, s, #[trigger] &r@[s]),
{
    let mut r: Vec<DataChunk> = Vec::new();
    let mut s: usize = 0;
    while s < output_count
        invariant
            chunk.wf(),
            hash_values.len() == chunk.capacity,
            s <= output_count,
            r.len() == s,
            forall|t: int| 0 <= t < s ==> restricted_to(chunk, hash_values@, t, #[trigger] &r@[t]),
        decreases output_count - s,
    {
        let mut bits: Vec<bool> = Vec::new();
        let mut i: usize = 0;
        while i < chunk.capacity
            invariant
                chunk.wf(),
                hash_values.len() == chunk.capacity,
                i <= chunk.capacity,
                bits.len() == i,
                forall|t: int|
                    0 <= t < i ==> #[trigger] bits@[t] == (hash_values@[t] == s && chunk.visible(t)),
            decreases chunk.capacity - i,
        {
            let vis = chunk.is_visible(i);
            let routed = hash_values[i] == s;
            bits.push(routed && vis);
            i = i + 1;
        }
        let ghost flags = bits@;
        let derived = chunk.with_visibility(Bitmap { bits });
        assert forall|i: int| 0 <= i < chunk.capacity implies #[trigger] derived.visible(i) == (
        hash_values@[i] == s && chunk.visible(i)) by {
            assert(flags[i] == (hash_values@[i] == s && chunk.visible(i)));
        }
        assert(restricted_to(chunk, hash_values@, s as int, &derived));
        r.push(derived);
        s = s + 1;
    }
    r
}

proof fn lemma_visible_upto_positive(c: &DataChunk, i: int, k: int)
    requires
        0 <= i < k,
        c.visible(i),
    ensures
        c.visible_upto(k) > 0,
    decreases k,
{
    if i < k - 1 {
        lemma_visible_upto_positive(c, i, k - 1);
    }
}

proof fn lemma_visible_upto_witness(c: &DataChunk, k: int)
    requires
        c.visible_upto(k) > 0,
    ensures
        exists|i: int| 0 <= i < k && c.visible(i),
    decreases k,
{
    if k > 0 && !c.visible(k - 1) {
        lemma_visible_upto_witness(c, k - 1);
    }
}

/// Some row of `d` is visible.
pub open spec fn has_visible_row(d: &DataChunk) -> bool {
    exists|i: int| 0 <= i < d.capacity && d.visible(i)
}

/// `out` is the routing of `chunk` over `n` queues: the non-empty derived
/// chunks in increasing queue order, each one the input restricted to the
/// visible rows routed to its queue, and every queue that receives a visible
/// row present.
pub open spec fn is_routing(
    chunk: &DataChunk,
    info: &ConsistentHashInfo,
    n: nat,
    out: Seq<(usize, DataChunk)>,
) -> bool {
    &&& forall|k: int|
        0 <= k < out.len() ==> {
            &&& (#[trigger] out[k]).0 < n
            &&& out[k].1.wf()
            &&& out[k].1.capacity == chunk.capacity
            &&& out[k].1.column_values() == chunk.column_values()
            &&& has_visible_row(&out[k].1)
        }
    &&& forall|k: int, i: int|
        0 <= k < out.len() && 0 <= i < chunk.capacity ==> #[trigger] out[k].1.visible(i) == (
        info.sink_of_row(chunk, i) == out[k].0 && chunk.visible(i))
    &&& forall|k1: int, k2: int| 0 <= k1 < k2 < out.len() ==> (#[trigger] out[k1]).0 < (
    #[trigger] out[k2]).0
    &&& forall|i: int|
        0 <= i < chunk.capacity && chunk.visible(i) && info.sink_of_row(chunk, i) < n ==> exists|
            k: int,
        |
            0 <= k < out.len() && (#[trigger] out[k]).0 == info.sink_of_row(chunk, i)
}

/// Splits a chunk over `output_count` queues by consistent hashing of its key
/// columns; derived chunks without visible rows are left out.
pub fn route_chunk(chunk: &DataChunk, info: &ConsistentHashInfo, output_count: usize) -> (r: Vec<
    (usize, DataChunk),
>)
    requires
        chunk.wf(),
        info.fits(chunk),
    ensures
        is_routing(chunk, info, output_count as nat, r@),
{
    let hash_values = generate_hash_values(chunk, info);
    let derived = generate_new_data_chunks(chunk, output_count, &hash_values);
    let mut derived = derived;
    let mut out: Vec<(usize, DataChunk)> = Vec::new();
    let ghost all = derived@;
    let mut s: usize = 0;
    while derived.len() > 0
        invariant
            chunk.wf(),
            info.fits(chunk),
            hash_values.len() == chunk.capacity,
            forall|i: int| 0 <= i < chunk.capacity ==> hash_values@[i] == info.sink_of_row(chunk, i),
            all.len() == output_count,
            forall|t: int|
                0 <= t < output_count ==> restricted_to(chunk, hash_values@, t, #[trigger] &all[t]),
            s + derived.len() == output_count,
            derived@ == all.subrange(s as int, output_count as int),
            forall|k: int|
                0 <= k < out.len() ==> {
                    &&& (#[trigger] out@[k]).0 < s
                    &&& out@[k].1 == all[out@[k].0 as int]
                    &&& has_visible_row(&out@[k].1)
                },
            forall|k1: int, k2: int|
                0 <= k1 < k2 < out.len() ==> (#[trigger] out@[k1]).0 < (#[trigger] out@[k2]).0,
            forall|i: int|
                0 <= i < chunk.capacity && chunk.visible(i) && info.sink_of_row(chunk, i) < s
                    ==> exists|k: int|
                    0 <= k < out.len() && (#[trigger] out@[k]).0 == info.sink_of_row(chunk, i),
        decreases derived.len(),
    {
        let d = derived.remove(0);
        assert(d == all[s as int]);
        assert(restricted_to(chunk, hash_values@, s as int, &all[s as int]));
        let ghost old_out = out@;
        let n = d.cardinality();
        if n > 0 {
            proof {
                lemma_visible_upto_witness(&d, d.capacity as int);
            }
            out.push((s, d));
        } else {
            assert forall|i: int|
                0 <= i < chunk.capacity && chunk.visible(i) implies info.sink_of_row(chunk, i)
                != s by {
                if info.sink_of_row(chunk, i) == s {
                    assert(all[s as int].visible(i));
                    lemma_visible_upto_positive(&all[s as int], i, chunk.capacity as int);
                }
            }
        }
        assert forall|i: int|
            0 <= i < chunk.capacity && chunk.visible(i) && info.sink_of_row(chunk, i) < s
                + 1 implies exists|k: int|
            0 <= k < out.len() && (#[trigger] out@[k]).0 == info.sink_of_row(chunk, i) by {
            if info.sink_of_row(chunk, i) < s {
                let k = choose|k: int|
                    0 <= k < old_out.len() && (#[trigger] old_out[k]).0 == info.sink_of_row(
                        chunk,
                        i,
                    );
                assert(out@[k] == old_out[k]);
            } else {
                assert(out@[out.len() - 1].0 == s);
            }
        }
        s = s + 1;
    }
    out
}

/// What a receiver hands on for one read of its queue: the chunk, or `None`
/// at the end of the stream; a closed queue is a broken channel.
pub fn receive(msg: Option<Option<DataChunk>>) -> (r: Result<Option<DataChunk>, ShuffleError>)
    ensures
        msg matches Some(m) ==> r == Ok::<Option<DataChunk>, ShuffleError>(m),
        msg is None ==> r == Err::<Option<DataChunk>, ShuffleError>(ShuffleError::BrokenChannel),
{
    match msg {
        Some(m) => Ok(m),
        None => Err(ShuffleError::BrokenChannel),
    }
}

/// Every visible row of a chunk reaches exactly one downstream queue, and no
/// invisible row reaches any, provided the vnode map only names existing
/// queues; each derived chunk holds the rows of the input.
pub proof fn lemma_exchange_fidelity(
    chunk: &DataChunk,
    info: &ConsistentHashInfo,
    n: nat,
    out: Seq<(usize, DataChunk)>,
)
    requires
        chunk.wf(),
        info.fits(chunk),
        forall|v: int| 0 <= v < VNODE_COUNT ==> (#[trigger] info.vmap@[v]) < n,
        is_routing(chunk, info, n, out),
    ensures
        forall|k: int|
            0 <= k < out.len() ==> (#[trigger] out[k]).1.column_values() == chunk.column_values(),
        forall|i: int|
            0 <= i < chunk.capacity && chunk.visible(i) ==> exists|k: int|
                0 <= k < out.len() && #[trigger] out[k].1.visible(i),
        forall|i: int, k1: int, k2: int|
            0 <= i < chunk.capacity && 0 <= k1 < out.len() && 0 <= k2 < out.len() && #[trigger] out[k1].1.visible(i)
            && #[trigger] out[k2].1.visible(i) ==> k1 == k2,
        forall|i: int, k: int|
            0 <= i < chunk.capacity && 0 <= k < out.len() && !chunk.visible(i) ==> !#[trigger] out[k].1.visible(
                i,
            ),
{
    assert forall|i: int|
        0 <= i < chunk.capacity && chunk.visible(i) implies exists|k: int|
        0 <= k < out.len() && #[trigger] out[k].1.visible(i) by {
        let v = vnode_of_spec(encode_key(chunk.row(i), info.key_columns()));
        assert(info.vmap@[v] < n);
        let k = choose|k: int|
            0 <= k < out.len() && (#[trigger] out[k]).0 == info.sink_of_row(chunk, i);
        assert(out[k].1.visible(i));
    }
    assert forall|i: int, k1: int, k2: int|
        0 <= i < chunk.capacity && 0 <= k1 < out.len() && 0 <= k2 < out.len() && #[trigger] out[k1].1.visible(i)
        && #[trigger] out[k2].1.visible(i) implies k1
        == k2 by {
        if k1 < k2 {
            assert(out[k1].0 < out[k2].0);
        } else if k2 < k1 {
            assert(out[k2].0 < out[k1].0);
        }
    }
}

} // verus!
