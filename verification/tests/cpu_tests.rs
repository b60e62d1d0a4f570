use svo_engine::pos::POS_UNIT;
use svo_engine::{CpuOctree, Pos3, Voxel, CHUNK_OFFSET};

#[test]
fn new_marks_occupancy_from_mask_bits() {
    let o = CpuOctree::new(0b0000_0101);
    assert_eq!(o.nodes.len(), 8);
    for i in 0..8 {
        let occupied = (0b0000_0101u8 >> i) & 1 != 0;
        assert_eq!(!o.nodes[i].value.is_empty(), occupied, "octant {}", i);
        if occupied {
            // an occupied placeholder references the prototype block of its octant
            assert_eq!(o.nodes[i].pointer, CHUNK_OFFSET + i as u32 + 1);
        } else {
            assert_eq!(o.nodes[i].pointer, CHUNK_OFFSET);
        }
    }
    assert_eq!(o.top_mip, Voxel::new(50, 255, 50));
}

#[test]
fn get_node_mask_reads_back_a_block() {
    let o = CpuOctree::new(0b1111_0000);
    let mask = o.get_node_mask(0);
    assert_eq!(mask.len(), 8);
    for i in 0..8 {
        let occupied = i >= 4;
        assert_eq!(!mask[i].is_empty(), occupied);
    }
}

#[test]
fn insert_then_resolve_round_trip() {
    let mut o = CpuOctree::new(0);
    let p = Pos3::new(300_000, -70_000, 12_345);
    o.put_in_voxel(&p, Voxel::new(1, 2, 3), 3);
    let (idx, depth, _) = o.find_voxel(&p, None);
    assert_eq!(depth, 3);
    assert_eq!(o.nodes[idx].value, Voxel::new(1, 2, 3));
    assert_eq!(o.nodes[idx].pointer, CHUNK_OFFSET);
}

#[test]
fn inserts_at_distinct_positions_coexist() {
    let mut o = CpuOctree::new(0);
    let a = Pos3::new(-POS_UNIT / 2, -POS_UNIT / 2, -POS_UNIT / 2);
    let b = Pos3::new(POS_UNIT / 2, POS_UNIT / 2, POS_UNIT / 2);
    o.put_in_voxel(&a, Voxel::new(10, 0, 0), 2);
    o.put_in_voxel(&b, Voxel::new(0, 10, 0), 2);
    let (ia, da, _) = o.find_voxel(&a, None);
    let (ib, db, _) = o.find_voxel(&b, None);
    assert_eq!((da, db), (2, 2));
    assert_eq!(o.nodes[ia].value, Voxel::new(10, 0, 0));
    assert_eq!(o.nodes[ib].value, Voxel::new(0, 10, 0));
}

#[test]
fn put_in_block_places_a_chunk_reference() {
    let mut o = CpuOctree::new(0);
    let p = Pos3::new(-POS_UNIT / 2, POS_UNIT / 2, -POS_UNIT / 2);
    o.put_in_block(&p, 77, 1);
    let (idx, depth, _) = o.find_voxel(&p, None);
    assert_eq!(depth, 1);
    assert_eq!(o.nodes[idx].pointer, CHUNK_OFFSET + 77);
    assert_eq!(o.nodes[idx].value, Voxel::new(0, 0, 0));
}

#[test]
fn subdividing_grows_by_whole_blocks() {
    let mut o = CpuOctree::new(0);
    let p = Pos3::new(1, 1, 1);
    o.put_in_voxel(&p, Voxel::new(9, 9, 9), 4);
    // one root block plus one fresh block per added level
    assert_eq!(o.nodes.len(), 8 + 3 * 8);
}

#[test]
fn raw_exposes_pointer_words() {
    let o = CpuOctree::new(0b0000_0010);
    let raw = o.raw();
    assert_eq!(raw.len(), 8);
    assert_eq!(raw[1], CHUNK_OFFSET + 2);
    assert_eq!(raw[0], CHUNK_OFFSET);
}

#[test]
fn to_octree_preserves_structure() {
    let mut o = CpuOctree::new(0);
    let p = Pos3::new(-1, -1, -1);
    o.put_in_voxel(&p, Voxel::new(3, 4, 5), 2);
    let g = o.to_octree();
    assert_eq!(g.nodes.len(), o.nodes.len());
    assert!(g.hole_stack.is_empty());
    let (idx, depth, _) = g.find_voxel(&p, None);
    assert_eq!(depth, 2);
    let cpu = g.get_node(idx) - svo_engine::VOXEL_OFFSET;
    assert_eq!(Voxel::from_value(cpu), Voxel::new(3, 4, 5));
}
