use svo_engine::pos::POS_UNIT;
use svo_engine::world::GENERATED_CHUNK_BASE;
use svo_engine::{CpuOctree, Pos3, Voxel, World, CHUNK_OFFSET};

#[test]
fn fresh_world_is_empty() {
    let w = World::new(String::from("worlds/test"));
    assert_eq!(w.chunk_count(), 0);
    assert!(!w.contains_chunk(0));
    assert_eq!(w.path, String::from("worlds/test"));
}

#[test]
fn insert_then_get_returns_the_chunk() {
    let mut w = World::new(String::new());
    w.insert_chunk(3, CpuOctree::new(0b0000_1111));
    assert!(w.contains_chunk(3));
    assert_eq!(w.chunk_count(), 1);
    let c = w.get_chunk(3).unwrap();
    assert_eq!(c.nodes.len(), 8);
    assert!(w.get_chunk(4).is_none());
}

#[test]
fn top_mip_of_reads_the_advertised_colour() {
    let mut w = World::new(String::new());
    let mut c = CpuOctree::new(0);
    c.top_mip = Voxel::new(40, 60, 80);
    w.insert_chunk(9, c);
    assert_eq!(w.top_mip_of(9), Some(Voxel::new(40, 60, 80)));
    assert_eq!(w.top_mip_of(8), None);
}

#[test]
fn concurrent_load_requests_start_exactly_one_load() {
    let mut w = World::new(String::new());
    assert!(w.load_chunk(42));
    assert!(w.is_loading(42));
    // the duplicate request from the racing path is a no-op
    assert!(!w.load_chunk(42));
    w.finish_load(42, CpuOctree::new(0));
    assert!(!w.is_loading(42));
    assert_eq!(w.chunk_count(), 1);
    // once resident, further requests are no-ops too
    assert!(!w.load_chunk(42));
}

#[test]
fn unload_evicts_a_generated_chunk() {
    let mut w = World::new(String::new());
    w.insert_chunk(GENERATED_CHUNK_BASE + 5, CpuOctree::new(0));
    assert!(w.contains_chunk(GENERATED_CHUNK_BASE + 5));
    w.unload_chunk(GENERATED_CHUNK_BASE + 5);
    assert!(!w.contains_chunk(GENERATED_CHUNK_BASE + 5));
}

#[test]
fn find_voxel_crosses_into_a_resident_chunk() {
    let mut w = World::new(String::new());
    let target = Pos3::new(-3 * POS_UNIT / 4, -3 * POS_UNIT / 4, -3 * POS_UNIT / 4);
    // the root's octant 0 refers to chunk 7, which holds a voxel at depth 2
    let mut root = CpuOctree::new(0);
    root.put_in_block(&target, 7, 1);
    // the crossing re-enters chunk 7's root block one level further down,
    // so the voxel sits in the chunk's own all-negative root octant
    let mut sub = CpuOctree::new(0);
    sub.put_in_voxel(
        &Pos3::new(-POS_UNIT / 2, -POS_UNIT / 2, -POS_UNIT / 2),
        Voxel::new(11, 22, 33),
        1,
    );
    w.insert_chunk(0, root);
    w.insert_chunk(7, sub);
    let (chunk, idx, depth, _) = w.find_voxel(&target, None);
    assert_eq!(chunk, 7);
    assert_eq!(depth, 2);
    let c = w.get_chunk(7).unwrap();
    assert_eq!(c.nodes[idx].value, Voxel::new(11, 22, 33));
}

#[test]
fn find_voxel_stops_at_a_missing_chunk_boundary() {
    let mut w = World::new(String::new());
    let target = Pos3::new(-3 * POS_UNIT / 4, -3 * POS_UNIT / 4, -3 * POS_UNIT / 4);
    let mut root = CpuOctree::new(0);
    root.put_in_block(&target, 7, 1);
    w.insert_chunk(0, root);
    // chunk 7 is not resident: the walk returns the boundary node instead
    let (chunk, idx, depth, _) = w.find_voxel(&target, None);
    assert_eq!((chunk, depth), (0, 1));
    let c = w.get_chunk(0).unwrap();
    assert_eq!(c.nodes[idx].pointer, CHUNK_OFFSET + 7);
}

#[test]
fn find_voxel_respects_depth_bound_before_crossing() {
    let mut w = World::new(String::new());
    let target = Pos3::new(-3 * POS_UNIT / 4, -3 * POS_UNIT / 4, -3 * POS_UNIT / 4);
    let mut root = CpuOctree::new(0);
    root.put_in_block(&target, 7, 1);
    w.insert_chunk(0, root);
    w.insert_chunk(7, CpuOctree::new(0b1111_1111));
    let (chunk, _, depth, _) = w.find_voxel(&target, Some(1));
    assert_eq!((chunk, depth), (0, 1));
}
