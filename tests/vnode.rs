use stream_meta::meta_error::MetaError;
use stream_meta::vnode::{vnode_of_key, Bitmap, ParallelUnit, VnodeMapping, VNODE_COUNT};

fn units(ids: &[u32]) -> Vec<ParallelUnit> {
    ids.iter().map(|id| ParallelUnit { id: *id, worker_node_id: id % 2 }).collect()
}

#[test]
fn build_is_balanced_and_contiguous() {
    let m = VnodeMapping::build(&units(&[7, 3, 5]));
    assert_eq!(m.owners.len(), VNODE_COUNT);
    // 256 = 3 * 85 + 1: the first unit takes one vnode more.
    assert!(m.owners[..86].iter().all(|o| *o == 7));
    assert!(m.owners[86..171].iter().all(|o| *o == 3));
    assert!(m.owners[171..].iter().all(|o| *o == 5));
}

#[test]
fn build_single_unit_takes_everything() {
    let m = VnodeMapping::build(&units(&[9]));
    assert!(m.owners.iter().all(|o| *o == 9));
    let m = VnodeMapping::build_single(ParallelUnit { id: 4, worker_node_id: 1 });
    assert!(m.owners.iter().all(|o| *o == 4));
}

#[test]
fn build_with_as_many_units_as_vnodes() {
    let ids: Vec<u32> = (0..VNODE_COUNT as u32).rev().collect();
    let m = VnodeMapping::build(&units(&ids));
    for v in 0..VNODE_COUNT {
        assert_eq!(m.owners[v], ids[v]);
    }
}

#[test]
fn bitmaps_round_trip() {
    for ids in [vec![1u32], vec![4, 2], vec![8, 6, 7, 5, 3, 0, 9]] {
        let m = VnodeMapping::build(&units(&ids));
        let bitmaps = m.to_bitmaps();
        assert_eq!(bitmaps.len(), ids.len());
        let back = VnodeMapping::from_bitmaps(&bitmaps).unwrap();
        assert_eq!(back.owners, m.owners);
    }
}

#[test]
fn to_bitmaps_lists_units_by_first_vnode() {
    let m = VnodeMapping { owners: (0..VNODE_COUNT).map(|v| if v % 2 == 0 { 5 } else { 2 }).collect() };
    let bitmaps = m.to_bitmaps();
    assert_eq!(bitmaps.iter().map(|(id, _)| *id).collect::<Vec<_>>(), vec![5, 2]);
    assert_eq!(bitmaps[0].1.count_ones(), 128);
    assert!(bitmaps[1].1.bits[1] && !bitmaps[1].1.bits[0]);
}

#[test]
fn from_bitmaps_rejects_overlap_gap_and_short_bitmaps() {
    let full = Bitmap { bits: vec![true; VNODE_COUNT] };
    let empty = Bitmap { bits: vec![false; VNODE_COUNT] };
    let overlap = vec![(1, full.duplicate()), (2, full.duplicate())];
    assert_eq!(VnodeMapping::from_bitmaps(&overlap).unwrap_err(), MetaError::InconsistentMapping);
    let gap = vec![(1, empty.duplicate())];
    assert_eq!(VnodeMapping::from_bitmaps(&gap).unwrap_err(), MetaError::InconsistentMapping);
    let short = vec![(1, Bitmap { bits: vec![true; 3] })];
    assert_eq!(VnodeMapping::from_bitmaps(&short).unwrap_err(), MetaError::InconsistentMapping);
    assert_eq!(VnodeMapping::from_bitmaps(&vec![]).unwrap_err(), MetaError::InconsistentMapping);
    let ok = VnodeMapping::from_bitmaps(&vec![(3, empty), (1, full)]).unwrap();
    assert!(ok.owners.iter().all(|o| *o == 1));
}

#[test]
fn vnode_of_key_uses_crc32() {
    // CRC-32 of "123456789" is 0xCBF43926; of the empty string, 0.
    assert_eq!(vnode_of_key(b"123456789"), 0x26);
    assert_eq!(vnode_of_key(b""), 0);
}
