//! An adaptive sparse-voxel-octree maintenance engine.
//!
//! The world is a cube encoded as flat arrays of octree nodes. A CPU-side
//! store ([`cpu_octree::CpuOctree`]) holds the authoritative voxel data of one
//! chunk; a GPU-resident working set ([`octree::Octree`]) mirrors that layout
//! and grows or shrinks each frame from feedback requests; a paged chunk index
//! ([`world::World`]) resolves positions across chunk boundaries and loads or
//! evicts chunks on demand; the feedback processor ([`adaptive`]) applies one
//! frame's subdivision and unsubdivision requests to the working set.

pub mod voxel;
pub mod pos;

pub use voxel::Voxel;
pub use voxel::VOXEL_OFFSET;
pub use pos::Pos3;
pub use pos::POS_UNIT;
pub mod octree;
pub use octree::Octree;
pub mod cpu_octree;
pub use cpu_octree::{CpuOctree, Node, CHUNK_OFFSET};
pub mod codec;
pub use codec::LoadError;
pub mod world;
pub use world::World;
pub mod mip;
pub mod adaptive;
