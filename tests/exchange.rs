use stream_meta::chunk::{DataChunk, Datum};
use stream_meta::exchange::{output_count, receive, route_chunk, ConsistentHashInfo, ShuffleError};
use stream_meta::expr_vnode::VnodeExpression;
use stream_meta::vnode::{Bitmap, VNODE_COUNT};

/// A key value of the first column that hashes to vnode `v`.
fn key_for_vnode(v: usize) -> i64 {
    let expr = VnodeExpression::new(vec![0]);
    (0i64..).find(|k| expr.eval_row(&vec![Datum::Int64(*k)]) as usize == v).unwrap()
}

fn chunk_of(keys: &[i64], visibility: Option<Vec<bool>>) -> DataChunk {
    DataChunk {
        columns: vec![
            keys.iter().map(|k| Datum::Int64(*k)).collect(),
            keys.iter().map(|k| Datum::Utf8(format!("row{}", k))).collect(),
        ],
        capacity: keys.len(),
        visibility: visibility.map(|bits| Bitmap { bits }),
    }
}

fn visible_rows(c: &DataChunk) -> Vec<usize> {
    (0..c.capacity).filter(|i| c.visibility.as_ref().map_or(true, |b| b.bits[*i])).collect()
}

#[test]
fn shuffle_by_vnode() {
    let keys = [key_for_vnode(0), key_for_vnode(1), key_for_vnode(255)];
    let mut vmap = vec![0u32; VNODE_COUNT];
    vmap[1] = 1;
    vmap[255] = 2;
    let info = ConsistentHashInfo { vmap, key: vec![0] };
    assert_eq!(output_count(&info), 3);
    let out = route_chunk(&chunk_of(&keys, None), &info, 3);
    assert_eq!(out.len(), 3);
    for (q, (sink, c)) in out.iter().enumerate() {
        assert_eq!(*sink, q);
        assert_eq!(visible_rows(c), vec![q]);
        assert_eq!(c.cardinality(), 1);
    }
    // End of stream reaches the receivers as `None`.
    assert!(matches!(receive(Some(None)), Ok(None)));
}

#[test]
fn every_visible_row_reaches_exactly_one_queue() {
    let keys: Vec<i64> = (0..40).collect();
    let vis: Vec<bool> = (0..40).map(|i| i % 3 != 0).collect();
    let info = ConsistentHashInfo { vmap: (0..VNODE_COUNT as u32).map(|v| v % 4).collect(), key: vec![0] };
    let chunk = chunk_of(&keys, Some(vis.clone()));
    let out = route_chunk(&chunk, &info, output_count(&info));
    for i in 0..40 {
        let holders = out.iter().filter(|(_, c)| visible_rows(c).contains(&i)).count();
        assert_eq!(holders, if vis[i] { 1 } else { 0 });
    }
    let sinks: Vec<usize> = out.iter().map(|(s, _)| *s).collect();
    let mut sorted = sinks.clone();
    sorted.dedup();
    assert_eq!(sinks, sorted);
    for (_, c) in &out {
        assert!(c.cardinality() > 0);
        assert_eq!(c.columns.len(), 2);
        assert_eq!(c.capacity, 40);
    }
}

#[test]
fn empty_queues_get_no_chunk() {
    let k = key_for_vnode(7);
    let mut vmap = vec![0u32; VNODE_COUNT];
    vmap[7] = 1;
    let info = ConsistentHashInfo { vmap, key: vec![0] };
    let out = route_chunk(&chunk_of(&[k], None), &info, 2);
    assert_eq!(out.len(), 1);
    assert_eq!(out[0].0, 1);
    let invisible = route_chunk(&chunk_of(&[k], Some(vec![false])), &info, 2);
    assert!(invisible.is_empty());
}

#[test]
fn output_count_counts_distinct_queues() {
    let info = ConsistentHashInfo { vmap: vec![2, 0, 2, 1, 0, 1, 1], key: vec![] };
    assert_eq!(output_count(&info), 3);
    let none = ConsistentHashInfo { vmap: vec![], key: vec![] };
    assert_eq!(output_count(&none), 0);
}

#[test]
fn closed_queue_is_a_broken_channel() {
    assert!(matches!(receive(None), Err(ShuffleError::BrokenChannel)));
    let c = chunk_of(&[1], None);
    assert!(matches!(receive(Some(Some(c))), Ok(Some(_))));
}
