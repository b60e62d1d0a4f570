use svo_engine::pos::POS_UNIT;
use svo_engine::{Octree, Pos3, Voxel, VOXEL_OFFSET};

fn grey_mask(level: u8) -> Vec<Voxel> {
    let mut m = Vec::new();
    for _ in 0..8 {
        m.push(Voxel::new(level, level, level));
    }
    m
}

#[test]
fn new_builds_one_root_block() {
    let o = Octree::new(&grey_mask(5));
    assert_eq!(o.nodes.len(), 8);
    assert_eq!(o.positions.len(), 8);
    assert!(o.hole_stack.is_empty());
    for i in 0..8 {
        assert_eq!(o.get_node(i), VOXEL_OFFSET + Voxel::new(5, 5, 5).to_cpu_value());
    }
}

#[test]
fn subdivide_appends_a_block_at_the_tail() {
    let mut o = Octree::new(&grey_mask(5));
    o.subdivide(3, &grey_mask(9), 2);
    assert_eq!(o.nodes.len(), 16);
    assert_eq!(o.get_node(3), 8);
    for c in 0..8 {
        assert_eq!(o.get_node(8 + c), VOXEL_OFFSET + Voxel::new(9, 9, 9).to_cpu_value());
    }
}

#[test]
fn unsubdivide_reclaims_the_block() {
    let mut o = Octree::new(&grey_mask(5));
    o.subdivide(3, &grey_mask(9), 2);
    o.unsubdivide(3);
    assert_eq!(o.hole_stack, vec![8usize]);
    // the node reverts to a placeholder leaf until the collapse value lands
    assert_eq!(o.get_node(3), VOXEL_OFFSET + Voxel::new(255, 0, 0).to_cpu_value());
    assert_eq!(o.nodes.len(), 16);
}

#[test]
fn hole_reuse_overwrites_every_slot() {
    let mut o = Octree::new(&grey_mask(5));
    o.subdivide(3, &grey_mask(9), 2);
    o.unsubdivide(3);
    o.subdivide(6, &grey_mask(13), 2);
    // the freed block is reused, not a fresh one
    assert_eq!(o.get_node(6), 8);
    assert_eq!(o.nodes.len(), 16);
    assert!(o.hole_stack.is_empty());
    // and no residue of the previous occupant survives
    for c in 0..8 {
        assert_eq!(o.get_node(8 + c), VOXEL_OFFSET + Voxel::new(13, 13, 13).to_cpu_value());
    }
}

#[test]
fn unsubdivide_twice_is_a_tolerated_no_op() {
    let mut o = Octree::new(&grey_mask(5));
    o.subdivide(2, &grey_mask(9), 2);
    o.unsubdivide(2);
    let holes_after_first = o.hole_stack.clone();
    let nodes_after_first = o.nodes.clone();
    o.unsubdivide(2);
    assert_eq!(o.hole_stack, holes_after_first);
    assert_eq!(o.nodes, nodes_after_first);
}

#[test]
fn boundary_position_resolves_to_positive_child() {
    let o = Octree::new(&grey_mask(5));
    let q = POS_UNIT / 4;
    // one boundary plane: x exactly on the root centre
    let (idx, depth, _) = o.find_voxel(&Pos3::new(0, -q, -q), None);
    assert_eq!((idx, depth), (4, 1));
    // two boundary planes
    let (idx, depth, _) = o.find_voxel(&Pos3::new(0, 0, -q), None);
    assert_eq!((idx, depth), (6, 1));
    // three boundary planes: dead centre goes to the all-positive octant
    let (idx, depth, _) = o.find_voxel(&Pos3::new(0, 0, 0), None);
    assert_eq!((idx, depth), (7, 1));
}

#[test]
fn boundary_tie_break_holds_one_level_down() {
    let mut o = Octree::new(&grey_mask(5));
    o.subdivide(7, &grey_mask(9), 2);
    // node 7's centre: a query exactly there descends positive on all axes
    let c = POS_UNIT / 2;
    let (idx, depth, _) = o.find_voxel(&Pos3::new(c, c, c), None);
    assert_eq!((idx, depth), (8 + 7, 2));
}

#[test]
fn find_voxel_respects_max_depth() {
    let mut o = Octree::new(&grey_mask(5));
    o.subdivide(0, &grey_mask(9), 2);
    let p = Pos3::new(-3 * POS_UNIT / 4, -3 * POS_UNIT / 4, -3 * POS_UNIT / 4);
    let (idx, depth, _) = o.find_voxel(&p, Some(1));
    assert_eq!((idx, depth), (0, 1));
    let (_, depth2, _) = o.find_voxel(&p, None);
    assert_eq!(depth2, 2);
}

#[test]
fn expanded_pads_with_zeros() {
    let o = Octree::new(&grey_mask(5));
    let raw = o.expanded(12);
    assert_eq!(raw.len(), 12);
    assert_eq!(raw[0], o.nodes[0]);
    assert_eq!(raw[8], 0);
    assert_eq!(raw[11], 0);
}

#[test]
fn in_free_block_tracks_the_hole_stack() {
    let mut o = Octree::new(&grey_mask(5));
    o.subdivide(1, &grey_mask(9), 2);
    assert!(!o.in_free_block(9));
    o.unsubdivide(1);
    assert!(o.in_free_block(8));
    assert!(o.in_free_block(15));
    assert!(!o.in_free_block(7));
    assert!(!o.in_free_block(16));
}
