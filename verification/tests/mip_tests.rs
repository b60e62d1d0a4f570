use svo_engine::pos::POS_UNIT;
use svo_engine::{CpuOctree, Pos3, Voxel, World};

fn octant_pos(i: usize) -> Pos3 {
    let q = POS_UNIT / 2;
    Pos3::new(
        if (i >> 2) & 1 == 1 { q } else { -q },
        if (i >> 1) & 1 == 1 { q } else { -q },
        if i & 1 == 1 { q } else { -q },
    )
}

#[test]
fn mip_averages_only_occupied_children() {
    let mut o = CpuOctree::new(0);
    o.put_in_voxel(&octant_pos(0), Voxel::new(10, 10, 10), 1);
    o.put_in_voxel(&octant_pos(2), Voxel::new(20, 20, 20), 1);
    o.generate_mip_tree(None);
    // (10 + 20) / 2 per channel; the five empty children and the
    // empty sentinel do not dilute the average
    assert_eq!(o.top_mip, Voxel::new(15, 15, 15));
}

#[test]
fn mip_clamps_channels_up_to_one() {
    let mut o = CpuOctree::new(0);
    o.put_in_voxel(&octant_pos(0), Voxel::new(1, 0, 200), 1);
    o.put_in_voxel(&octant_pos(1), Voxel::new(0, 1, 200), 1);
    o.generate_mip_tree(None);
    // r and g average to 0 and are clamped to 1, never the empty sentinel
    assert_eq!(o.top_mip, Voxel::new(1, 1, 200));
}

#[test]
fn mip_of_all_empty_children_is_darkest_grey() {
    let mut o = CpuOctree::new(0);
    o.generate_mip_tree(None);
    assert_eq!(o.top_mip, Voxel::new(1, 1, 1));
}

#[test]
fn mip_fills_interior_nodes_bottom_up() {
    let mut o = CpuOctree::new(0);
    // two voxels inside octant 0, at depth 2
    let base = octant_pos(0);
    let q = POS_UNIT / 4;
    let a = Pos3::new(base.x - q, base.y - q, base.z - q);
    let b = Pos3::new(base.x + q, base.y - q, base.z - q);
    o.put_in_voxel(&a, Voxel::new(100, 0, 0), 2);
    o.put_in_voxel(&b, Voxel::new(200, 0, 0), 2);
    o.generate_mip_tree(None);
    // node 0 now shows the average of its two children
    assert_eq!(o.nodes[0].value, Voxel::new(150, 1, 1));
    assert_eq!(o.top_mip, Voxel::new(150, 1, 1));
    // the structure itself is untouched
    assert_eq!(o.nodes[0].pointer, 8);
}

#[test]
fn mip_takes_resident_chunk_references_from_the_world() {
    let mut w = World::new(String::new());
    let mut sub = CpuOctree::new(0);
    sub.top_mip = Voxel::new(40, 60, 80);
    w.insert_chunk(7, sub);
    let mut root = CpuOctree::new(0);
    root.put_in_block(&octant_pos(0), 7, 1);
    w.insert_chunk(0, root);
    w.generate_mip_tree(0);
    let c = w.get_chunk(0).unwrap();
    assert_eq!(c.nodes[0].value, Voxel::new(40, 60, 80));
    assert_eq!(c.top_mip, Voxel::new(40, 60, 80));
}

#[test]
fn mip_skips_references_to_missing_chunks() {
    let mut w = World::new(String::new());
    let mut root = CpuOctree::new(0);
    root.put_in_block(&octant_pos(0), 99, 1);
    w.insert_chunk(0, root);
    w.generate_mip_tree(0);
    let c = w.get_chunk(0).unwrap();
    // the missing chunk contributes nothing and keeps its stored colour
    assert_eq!(c.nodes[0].value, Voxel::new(0, 0, 0));
    assert_eq!(c.top_mip, Voxel::new(1, 1, 1));
}
