use svo_engine::adaptive::{process_subdivision, process_unsubdivision};
use svo_engine::pos::POS_UNIT;
use svo_engine::world::GENERATED_CHUNK_BASE;
use svo_engine::{CpuOctree, Octree, Pos3, Voxel, World, VOXEL_OFFSET};

fn root_values(mask: u8, color: Voxel) -> Vec<Voxel> {
    let mut vals = Vec::new();
    for i in 0..8 {
        if (mask >> i) & 1 != 0 {
            vals.push(color);
        } else {
            vals.push(Voxel::new(0, 0, 0));
        }
    }
    vals
}

fn requests(indices: &[u32]) -> Vec<u32> {
    let mut buf = vec![0u32; 16];
    buf[0] = indices.len() as u32;
    for (k, ix) in indices.iter().enumerate() {
        buf[k + 1] = *ix;
    }
    buf
}

fn is_occupied_leaf(octree: &Octree, i: usize) -> bool {
    let v = octree.get_node(i);
    v >= VOXEL_OFFSET && v != VOXEL_OFFSET
}

/// The end-to-end scenario: grow leaf 4 by one level from the authoritative
/// chunk, then collapse it again and receive the mip colour.
#[test]
fn subdivide_then_collapse_round_trip() {
    let color = Voxel::new(200, 50, 50);
    // authoritative world: octant 4 of the root chunk holds one voxel in
    // its first sub-octant, so its child mask is 0b00000001
    let mut root = CpuOctree::new(0);
    let q = POS_UNIT / 4;
    let centre4 = Pos3::new(POS_UNIT / 2, -POS_UNIT / 2, -POS_UNIT / 2);
    let sub0 = Pos3::new(centre4.x - q, centre4.y - q, centre4.z - q);
    root.put_in_voxel(&sub0, color, 2);
    let mut world = World::new(String::new());
    world.insert_chunk(0, root);
    world.generate_mip_tree(0);

    // GPU working set: an 8-leaf root, leaves 4..7 occupied
    let mut octree = Octree::new(&root_values(0b1111_0000, color));

    let mut subs = requests(&[4]);
    let loads = process_subdivision(&mut octree, &mut world, &mut subs);
    assert!(loads.is_empty());
    assert_eq!(subs, vec![0u32; 16]);
    // the working set grew by one block and leaf 4 became a pointer
    assert_eq!(octree.nodes.len(), 16);
    assert_eq!(octree.get_node(4), 8);
    let occupied: Vec<usize> = (8..16).filter(|&i| is_occupied_leaf(&octree, i)).collect();
    assert_eq!(occupied, vec![8usize]);

    let mut unsubs = requests(&[4]);
    process_unsubdivision(&mut octree, &mut world, &mut unsubs);
    // the block went to the hole stack and leaf 4 shows the mip colour
    assert_eq!(octree.hole_stack, vec![8usize]);
    assert_eq!(octree.get_node(4), VOXEL_OFFSET + color.to_cpu_value());
}

#[test]
fn stale_subdivision_requests_are_skipped() {
    let mut world = World::new(String::new());
    world.insert_chunk(0, CpuOctree::new(0));
    let mut octree = Octree::new(&root_values(0b0000_0001, Voxel::new(9, 9, 9)));
    // an index out of range and an index of an empty region
    let mut subs = requests(&[25, 3]);
    let loads = process_subdivision(&mut octree, &mut world, &mut subs);
    assert!(loads.is_empty());
    assert_eq!(octree.nodes.len(), 8);
}

#[test]
fn subdivision_into_a_missing_chunk_requests_its_load() {
    let color = Voxel::new(9, 9, 9);
    // the authoritative octant 0 refers to chunk 77, which is not resident
    let mut root = CpuOctree::new(0);
    let c0 = Pos3::new(-POS_UNIT / 2, -POS_UNIT / 2, -POS_UNIT / 2);
    root.put_in_block(&c0, 77, 1);
    let mut world = World::new(String::new());
    world.insert_chunk(0, root);
    let mut octree = Octree::new(&root_values(0b0000_0001, color));

    // two requests for the same region must start one load
    let mut subs = requests(&[0, 0]);
    let loads = process_subdivision(&mut octree, &mut world, &mut subs);
    assert_eq!(loads, vec![77u32]);
    assert!(world.is_loading(77));
    // the node stays a leaf until a later frame finds the chunk resident
    assert_eq!(octree.nodes.len(), 8);

    // once the load completes, the retried request succeeds
    world.finish_load(77, CpuOctree::new(0b0000_0011));
    let mut subs2 = requests(&[0]);
    let loads2 = process_subdivision(&mut octree, &mut world, &mut subs2);
    assert!(loads2.is_empty());
    assert_eq!(octree.nodes.len(), 16);
    assert_eq!(octree.get_node(0), 8);
    let occupied: Vec<usize> = (8..16).filter(|&i| is_occupied_leaf(&octree, i)).collect();
    assert_eq!(occupied, vec![8usize, 9usize]);
}

#[test]
fn collapse_below_a_generated_chunk_evicts_it() {
    let color = Voxel::new(9, 9, 9);
    let cid = GENERATED_CHUNK_BASE + 3;
    let mut root = CpuOctree::new(0);
    let c0 = Pos3::new(-POS_UNIT / 2, -POS_UNIT / 2, -POS_UNIT / 2);
    root.put_in_block(&c0, cid, 1);
    let mut world = World::new(String::new());
    world.insert_chunk(0, root);
    world.insert_chunk(cid, CpuOctree::new(0b0000_0001));
    let mut octree = Octree::new(&root_values(0b0000_0001, color));
    // grow into the generated chunk, then collapse back out of it
    let mut subs = requests(&[0]);
    process_subdivision(&mut octree, &mut world, &mut subs);
    assert_eq!(octree.nodes.len(), 16);
    let mut unsubs = requests(&[0]);
    process_unsubdivision(&mut octree, &mut world, &mut unsubs);
    assert!(!world.contains_chunk(cid));
    assert!(world.contains_chunk(0));
}

#[test]
fn clamped_count_ignores_entries_past_the_buffer() {
    let mut world = World::new(String::new());
    world.insert_chunk(0, CpuOctree::new(0));
    let mut octree = Octree::new(&root_values(0, Voxel::new(0, 0, 0)));
    let mut subs = vec![0u32; 4];
    subs[0] = 400;  // the GPU claims more items than the buffer holds
    subs[1] = 99;
    subs[2] = 99;
    subs[3] = 99;
    let loads = process_subdivision(&mut octree, &mut world, &mut subs);
    assert!(loads.is_empty());
    assert_eq!(subs, vec![0u32; 4]);
}
