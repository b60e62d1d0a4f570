use svo_engine::{Voxel, VOXEL_OFFSET};

#[test]
fn packs_channels_into_cpu_value() {
    let v = Voxel::new(0x12, 0x34, 0x56);
    assert_eq!(v.to_cpu_value(), 0x123456);
}

#[test]
fn packs_cpu_value_into_gpu_word() {
    let v = Voxel::new(0, 0, 1);
    assert_eq!(v.to_value(), (VOXEL_OFFSET + 1) << 4);
}

#[test]
fn unpacks_value_back_to_channels() {
    let v = Voxel::new(7, 250, 33);
    let w = Voxel::from_value(v.to_cpu_value());
    assert_eq!(w, v);
}

#[test]
fn gpu_word_round_trip() {
    let v = Voxel::new(200, 50, 50);
    let cpu = (v.to_value() >> 4) - VOXEL_OFFSET;
    assert_eq!(Voxel::from_value(cpu), v);
}

#[test]
fn empty_sentinel_is_black_only() {
    assert!(Voxel::new(0, 0, 0).is_empty());
    assert!(!Voxel::new(0, 0, 1).is_empty());
    assert!(!Voxel::new(1, 0, 0).is_empty());
}
