use svo_engine::pos::POS_UNIT;
use svo_engine::codec::{load_file_data, load_structure};
use svo_engine::{CpuOctree, LoadError, Pos3, Voxel, CHUNK_OFFSET};

/// A minimal `.rsvo` byte dump: top level at byte 16, per-level counts from
/// byte 20, mask stream after the count table.
fn rsvo_bytes(top_level: u8, counts: &[u32], masks: &[u8]) -> Vec<u8> {
    let mut data = vec![0u8; 20];
    data[16] = top_level;
    for c in counts {
        data.extend_from_slice(&c.to_le_bytes());
    }
    data.extend_from_slice(masks);
    data
}

#[test]
fn load_octree_builds_the_masked_tree() {
    // root mask 0b11: children 0 and 1 occupied; level-0 count 3 admits
    // both their masks; child 0 gets one occupied grandchild, child 1 none.
    let data = rsvo_bytes(2, &[3, 0, 0], &[0b0000_0011, 0b0000_0001, 0]);
    let o = CpuOctree::load_octree(&data, 1).unwrap();
    assert_eq!(o.nodes.len(), 24);
    assert_eq!(o.nodes[0].pointer, 8);
    assert_eq!(o.nodes[1].pointer, 16);
    for i in 2..8 {
        assert_eq!(o.nodes[i].pointer, CHUNK_OFFSET);
    }
    assert_eq!(o.nodes[8].pointer, CHUNK_OFFSET + 1);
    assert_eq!(o.nodes[8].value, Voxel::new(255, 0, 0));
    for i in 9..24 {
        assert_eq!(o.nodes[i].pointer, CHUNK_OFFSET, "node {}", i);
    }
}

#[test]
fn load_octree_rejects_short_data() {
    let data = vec![0u8; 10];
    assert_eq!(CpuOctree::load_octree(&data, 0).err(), Some(LoadError::Truncated));
}

#[test]
fn load_octree_rejects_excessive_depth() {
    let data = rsvo_bytes(2, &[0, 0, 0], &[0]);
    assert_eq!(CpuOctree::load_octree(&data, 3).err(), Some(LoadError::DepthTooDeep));
}

#[test]
fn load_octree_rejects_mask_stream_past_the_data() {
    // level-0 count says 5 masks but the data ends right after the root mask
    let data = rsvo_bytes(1, &[5, 0], &[0b0000_0001]);
    assert_eq!(CpuOctree::load_octree(&data, 1).err(), Some(LoadError::Truncated));
}

#[test]
fn bin_round_trip_restores_the_nodes() {
    let mut o = CpuOctree::new(0b0011_0000);
    let p = Pos3::new(-POS_UNIT / 2, -POS_UNIT / 2, POS_UNIT / 2);
    o.put_in_voxel(&p, Voxel::new(4, 5, 6), 2);
    let dump = o.bin();
    assert_eq!(dump.len(), o.nodes.len() * 8);
    let back = CpuOctree::from_bin(&dump).unwrap();
    assert_eq!(back.nodes, o.nodes);
    // the dump carries no mip colour
    assert_eq!(back.top_mip, Voxel::new(0, 0, 0));
}

#[test]
fn from_bin_rejects_ragged_length() {
    assert_eq!(CpuOctree::from_bin(&vec![1u8, 2, 3]).err(), Some(LoadError::BadLength));
}

#[test]
fn from_bin_rejects_malformed_pointers() {
    // 8 whole records, but every pointer word is 0: a child pointer into
    // the root block itself, which no well-formed tree contains
    let dump = vec![0u8; 64];
    assert_eq!(CpuOctree::from_bin(&dump).err(), Some(LoadError::Malformed));
}

/// A minimal MagicaVoxel file: SIZE + XYZI + RGBA chunks under MAIN.
/// Voxels are `(x, y, z, file_palette_index)`.
fn vox_bytes(sx: u32, sy: u32, sz: u32, voxels: &[(u8, u8, u8, u8)], first_color: (u8, u8, u8)) -> Vec<u8> {
    fn chunk(id: &[u8; 4], content: &[u8]) -> Vec<u8> {
        let mut out = Vec::new();
        out.extend_from_slice(id);
        out.extend_from_slice(&(content.len() as u32).to_le_bytes());
        out.extend_from_slice(&0u32.to_le_bytes());
        out.extend_from_slice(content);
        out
    }
    let mut size_content = Vec::new();
    size_content.extend_from_slice(&sx.to_le_bytes());
    size_content.extend_from_slice(&sy.to_le_bytes());
    size_content.extend_from_slice(&sz.to_le_bytes());
    let mut xyzi_content = Vec::new();
    xyzi_content.extend_from_slice(&(voxels.len() as u32).to_le_bytes());
    for &(x, y, z, i) in voxels {
        xyzi_content.extend_from_slice(&[x, y, z, i]);
    }
    let mut rgba_content = Vec::new();
    rgba_content.extend_from_slice(&[first_color.0, first_color.1, first_color.2, 255]);
    for _ in 1..256 {
        rgba_content.extend_from_slice(&[9, 9, 9, 255]);
    }
    let mut children = chunk(b"SIZE", &size_content);
    children.extend_from_slice(&chunk(b"XYZI", &xyzi_content));
    children.extend_from_slice(&chunk(b"RGBA", &rgba_content));
    let mut out = Vec::new();
    out.extend_from_slice(b"VOX ");
    out.extend_from_slice(&150u32.to_le_bytes());
    out.extend_from_slice(b"MAIN");
    out.extend_from_slice(&0u32.to_le_bytes());
    out.extend_from_slice(&(children.len() as u32).to_le_bytes());
    out.extend_from_slice(&children);
    out
}

#[test]
fn load_vox_places_the_voxel_at_model_depth() {
    // a 4-cube with one voxel at grid (0, 0, 0), first palette colour
    let data = vox_bytes(4, 4, 4, &[(0, 0, 0, 1)], (120, 30, 40));
    let o = CpuOctree::load_vox(&data).unwrap();
    // grid (0,0,0) maps to cube x mirrored: ((4-1-0)/4, 0, 0) rescaled
    let unit = POS_UNIT / 4;
    let p = Pos3::new(2 * 3 * unit - POS_UNIT, -POS_UNIT, -POS_UNIT);
    let (idx, depth, _) = o.find_voxel(&p, None);
    assert_eq!(depth, 2);
    assert_eq!(o.nodes[idx].value, Voxel::new(120, 30, 40));
    assert_eq!(o.nodes[idx].pointer, CHUNK_OFFSET);
}

#[test]
fn load_vox_rejects_non_cubes() {
    let data = vox_bytes(4, 2, 4, &[], (0, 0, 0));
    assert_eq!(
        CpuOctree::load_vox(&data).err(),
        Some(LoadError::NotACube)
    );
}

#[test]
fn load_vox_rejects_non_power_of_two_sides() {
    let data = vox_bytes(3, 3, 3, &[], (0, 0, 0));
    assert_eq!(
        CpuOctree::load_vox(&data).err(),
        Some(LoadError::NotPowerOfTwo)
    );
}

#[test]
fn load_vox_rejects_side_one() {
    let data = vox_bytes(1, 1, 1, &[], (0, 0, 0));
    assert_eq!(
        CpuOctree::load_vox(&data).err(),
        Some(LoadError::UnsupportedSize)
    );
}

#[test]
fn load_vox_rejects_garbage_bytes() {
    let data = vec![1u8, 2, 3, 4, 5];
    match CpuOctree::load_vox(&data) {
        Err(LoadError::ParseFailed(_)) => {}
        other => panic!("expected a parse failure, got {:?}", other.map(|o| o.nodes.len())),
    }
}

#[test]
fn load_structure_recentres_the_grid() {
    let data = vox_bytes(4, 2, 2, &[(1, 0, 1, 3)], (0, 0, 0));
    let out = load_structure(&data).unwrap();
    // (size_x/2 - x, z, y - size_y/2, file index kept one-based)
    assert_eq!(out, vec![(1i32, 1i32, -1i32, 3u32)]);
}

/// A MagicaVoxel file holding no model at all (only a palette).
fn vox_bytes_without_models() -> Vec<u8> {
    let mut rgba_content = Vec::new();
    for _ in 0..256 {
        rgba_content.extend_from_slice(&[9, 9, 9, 255]);
    }
    let mut children = Vec::new();
    children.extend_from_slice(b"RGBA");
    children.extend_from_slice(&(rgba_content.len() as u32).to_le_bytes());
    children.extend_from_slice(&0u32.to_le_bytes());
    children.extend_from_slice(&rgba_content);
    let mut out = Vec::new();
    out.extend_from_slice(b"VOX ");
    out.extend_from_slice(&150u32.to_le_bytes());
    out.extend_from_slice(b"MAIN");
    out.extend_from_slice(&0u32.to_le_bytes());
    out.extend_from_slice(&(children.len() as u32).to_le_bytes());
    out.extend_from_slice(&children);
    out
}

#[test]
fn empty_vox_files_are_rejected() {
    let data = vox_bytes_without_models();
    assert_eq!(CpuOctree::load_vox(&data).err(), Some(LoadError::EmptyModel));
    assert_eq!(load_structure(&data).err(), Some(LoadError::EmptyModel));
}

#[test]
fn load_structure_rejects_oversized_grids() {
    let data = vox_bytes(70000, 2, 2, &[], (0, 0, 0));
    assert_eq!(load_structure(&data).err(), Some(LoadError::TooLarge));
}

#[test]
fn load_vox_rejects_palette_indices_past_the_palette() {
    // a 4-byte RGBA chunk yields a single palette entry; the voxel's
    // in-memory index 4 has no entry
    let data = {
        let mut size_content = Vec::new();
        for s in [2u32, 2, 2] {
            size_content.extend_from_slice(&s.to_le_bytes());
        }
        let mut xyzi_content = Vec::new();
        xyzi_content.extend_from_slice(&1u32.to_le_bytes());
        xyzi_content.extend_from_slice(&[0, 0, 0, 5]);
        let rgba_content = vec![1u8, 2, 3, 255];
        let mut children = Vec::new();
        for (id, content) in [
            (b"SIZE", &size_content),
            (b"XYZI", &xyzi_content),
            (b"RGBA", &rgba_content),
        ] {
            children.extend_from_slice(id);
            children.extend_from_slice(&(content.len() as u32).to_le_bytes());
            children.extend_from_slice(&0u32.to_le_bytes());
            children.extend_from_slice(content);
        }
        let mut out = Vec::new();
        out.extend_from_slice(b"VOX ");
        out.extend_from_slice(&150u32.to_le_bytes());
        out.extend_from_slice(b"MAIN");
        out.extend_from_slice(&0u32.to_le_bytes());
        out.extend_from_slice(&(children.len() as u32).to_le_bytes());
        out.extend_from_slice(&children);
        out
    };
    assert_eq!(CpuOctree::load_vox(&data).err(), Some(LoadError::BadPalette));
}

#[test]
fn load_file_data_dispatches_on_extension() {
    let rsvo = rsvo_bytes(1, &[0, 0], &[0]);
    assert!(load_file_data("rsvo", &rsvo, 0).is_ok());
    let vox = vox_bytes(2, 2, 2, &[], (0, 0, 0));
    assert!(load_file_data("vox", &vox, 0).is_ok());
    assert_eq!(
        load_file_data("png", &rsvo, 0).err(),
        Some(LoadError::UnknownFileType)
    );
}
