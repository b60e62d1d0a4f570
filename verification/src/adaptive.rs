use vstd::prelude::*;

use crate::cpu_octree::{CpuOctree, Node, CHUNK_OFFSET};
use crate::octree::{
    spec_get_node, spec_in_free_block, spec_is_leaf, spec_resolve, spec_subdivide,
    spec_unsubdivide, Octree, OctreeModel,
};
use crate::pos::Pos3;
use crate::voxel::{Voxel, VOXEL_OFFSET};
use crate::world::{spec_load_request, spec_resolve_world, World, GENERATED_CHUNK_BASE};

verus! {

/// Capacity of the per-frame subdivision feedback buffer, counting slot 0
/// (the item count the GPU maintains atomically).
pub const MAX_SUBDIVISIONS_PER_FRAME: usize = 1024000;

/// Capacity of the per-frame unsubdivision feedback buffer.
pub const MAX_UNSUBDIVISIONS_PER_FRAME: usize = 1024000;

/// The combined state one feedback request acts on: the GPU working set,
/// the resident chunks, the in-flight loads, and the chunk loads this frame
/// has asked for so far.
pub struct FrameState {
    pub octree: OctreeModel,
    pub chunks: Map<u32, CpuOctree>,
    pub loading: Set<u32>,
    pub loads: Seq<u32>,
}

/// The 8 child colours of the block at `p`.
pub open spec fn spec_mask_of(nodes: Seq<Node>, p: int) -> Seq<Voxel> {
    Seq::new(8, |i: int| nodes[p + i].value)
}

/// How many feedback items a frame consumes: the GPU-written count in slot
/// 0, clamped to the slots actually present and to the buffer capacity.
/// The clamp only prevents reading past the allocated region; items past it
/// are lost, an accepted behaviour under extreme bursts.
pub open spec fn spec_req_count(reqs: Seq<u32>, cap: int) -> int {
    let c = reqs[0] as int;
    let c2 = if c <= reqs.len() - 1 {
        c
    } else {
        reqs.len() - 1
    };
    if c2 <= cap - 1 {
        c2
    } else {
        cap - 1
    }
}

/// One subdivision request against the frame state. A request that no
/// longer matches the working set — an index out of range, a node already
/// subdivided, or an index inside a freed block — is skipped: such entries
/// arise legitimately from the asynchronous GPU/CPU race and never corrupt
/// the tree. Otherwise the node's position is resolved against the world at
/// the node's own depth: a plain interior node donates its child mask; a
/// cross-chunk reference donates the referenced chunk's root mask when that
/// chunk is resident, and otherwise becomes a load request (deduplicated
/// against chunks already resident or loading), leaving the node for a
/// future frame.
pub open spec fn spec_subdiv_step(s: FrameState, req: u32) -> FrameState {
    let m = s.octree;
    let node = req as int;
    if node >= m.nodes.len() {
        s
    } else if spec_get_node(m.nodes, node) < VOXEL_OFFSET {
        s
    } else if spec_in_free_block(m.holes, node) {
        s
    } else {
        let pos = m.positions[node];
        let gd = spec_resolve(m.nodes, 0, Pos3::spec_origin(), 0, u32::MAX, pos).1;
        if gd >= u32::MAX {
            s
        } else {
            let w = spec_resolve_world(s.chunks, 0, 0, Pos3::spec_origin(), 0, gd, pos);
            let tnipt = s.chunks[w.0].nodes@[w.1].pointer;
            if tnipt < CHUNK_OFFSET {
                if m.nodes.len() + 8 <= VOXEL_OFFSET {
                    FrameState {
                        octree: spec_subdivide(
                            m,
                            node,
                            spec_mask_of(s.chunks[w.0].nodes@, tnipt as int),
                            (gd + 1) as u32,
                        ),
                        ..s
                    }
                } else {
                    s
                }
            } else if tnipt > CHUNK_OFFSET {
                let cid = (tnipt - CHUNK_OFFSET) as u32;
                if s.chunks.dom().contains(cid) {
                    if m.nodes.len() + 8 <= VOXEL_OFFSET {
                        FrameState {
                            octree: spec_subdivide(
                                m,
                                node,
                                spec_mask_of(s.chunks[cid].nodes@, 0),
                                (gd + 1) as u32,
                            ),
                            ..s
                        }
                    } else {
                        s
                    }
                } else {
                    let lr = spec_load_request(s.chunks, s.loading, cid);
                    FrameState {
                        loading: lr.0,
                        loads: if lr.1 {
                            s.loads.push(cid)
                        } else {
                            s.loads
                        },
                        ..s
                    }
                }
            } else {
                s
            }
        }
    }
}

/// One unsubdivision request against the frame state. An index out of
/// range, or an interior node carrying no centre position, is skipped. The
/// node's child block is reclaimed onto the hole stack (a node already
/// collapsed by a duplicate request is tolerated unchanged), the node's
/// position is resolved against the world for the authoritative collapse
/// colour, and a collapse that lands on a reference to a generated chunk
/// evicts that chunk — unsubdivision is also the chunk-eviction signal.
pub open spec fn spec_unsubdiv_step(s: FrameState, req: u32) -> FrameState {
    let m = s.octree;
    let node = req as int;
    if node >= m.nodes.len() {
        s
    } else if !spec_is_leaf(m.nodes, node) && m.positions[node] == Pos3::spec_origin() {
        s
    } else {
        let m1 = spec_unsubdivide(m, node);
        let pos = m.positions[node];
        let gd = spec_resolve(m1.nodes, 0, Pos3::spec_origin(), 0, u32::MAX, pos).1;
        let w = spec_resolve_world(s.chunks, 0, 0, Pos3::spec_origin(), 0, gd, pos);
        let tn = s.chunks[w.0].nodes@[w.1];
        let evict = tn.pointer > CHUNK_OFFSET && tn.pointer - CHUNK_OFFSET
            >= GENERATED_CHUNK_BASE;
        FrameState {
            octree: OctreeModel {
                nodes: m1.nodes.update(node, tn.value.spec_value()),
                positions: m1.positions,
                holes: m1.holes,
            },
            chunks: if evict {
                s.chunks.remove((tn.pointer - CHUNK_OFFSET) as u32)
            } else {
                s.chunks
            },
            loading: s.loading,
            loads: s.loads,
        }
    }
}

/// The subdivision requests `i..=count` applied in order.
pub open spec fn spec_subdiv_run(s: FrameState, reqs: Seq<u32>, i: int, count: int) -> FrameState
    decreases count + 1 - i,
{
    if i < 1 || i > count {
        s
    } else {
        spec_subdiv_run(spec_subdiv_step(s, reqs[i]), reqs, i + 1, count)
    }
}

/// The unsubdivision requests `i..=count` applied in order.
pub open spec fn spec_unsubdiv_run(s: FrameState, reqs: Seq<u32>, i: int, count: int) -> FrameState
    decreases count + 1 - i,
{
    if i < 1 || i > count {
        s
    } else {
        spec_unsubdiv_run(spec_unsubdiv_step(s, reqs[i]), reqs, i + 1, count)
    }
}

/// The frame state a working set, a world and a list of pending loads make.
pub open spec fn spec_state_of(octree: Octree, world: World, loads: Seq<u32>) -> FrameState {
    FrameState {
        octree: octree@,
        chunks: world.chunks_map(),
        loading: world.loading_ids(),
        loads,
    }
}

/// Drain one frame's subdivision feedback: read the clamped count, apply
/// each request in order, and zero the counter and every consumed slot so a
/// partially overwritten buffer cannot be reprocessed next frame. Returns
/// the chunk ids whose loads this frame started; the surrounding I/O layer
/// performs those loads and hands the chunks back to the world.
pub fn process_subdivision(octree: &mut Octree, world: &mut World, requests: &mut Vec<u32>) -> (loads: Vec<u32>)
    requires
        old(octree).wf(),
        old(world).wf(),
        old(world).chunks_map().dom().contains(0),
        old(requests)@.len() >= 1,
    ensures
        final(octree).wf(),
        final(world).wf(),
        final(world).chunks_map().dom().contains(0),
        final(world).path == old(world).path,
        ({
            let count = spec_req_count(old(requests)@, MAX_SUBDIVISIONS_PER_FRAME as int);
            let end = spec_subdiv_run(
                spec_state_of(*old(octree), *old(world), Seq::empty()),
                old(requests)@,
                1,
                count,
            );
            &&& final(octree)@ == end.octree
            &&& final(world).chunks_map() == end.chunks
            &&& final(world).loading_ids() == end.loading
            &&& loads@ == end.loads
            &&& final(requests)@.len() == old(requests)@.len()
            &&& final(requests)@[0] == 0
            &&& forall|j: int| 1 <= j <= count ==> final(requests)@[j] == 0
            &&& forall|j: int|
                count < j < old(requests)@.len() ==> final(requests)@[j] == old(requests)@[j]
        }),
{
    let ghost reqs0 = requests@;
    let ghost count_g = spec_req_count(reqs0, MAX_SUBDIVISIONS_PER_FRAME as int);
    let len = requests.len();
    let raw = requests[0] as usize;
    let mut count = if raw <= len - 1 {
        raw
    } else {
        len - 1
    };
    if count > MAX_SUBDIVISIONS_PER_FRAME - 1 {
        count = MAX_SUBDIVISIONS_PER_FRAME - 1;
    }
    requests.set(0, 0);
    let mut loads: Vec<u32> = Vec::new();
    let ghost start = spec_state_of(*old(octree), *old(world), Seq::empty());
    let mut i: usize = 1;
    while i <= count
        invariant
            1 <= i <= count + 1,
            count == count_g,
            count < len == requests@.len(),
            reqs0.len() == len,
            octree.wf(),
            world.wf(),
            world.chunks_map().dom().contains(0),
            world.path == old(world).path,
            requests@[0] == 0,
            forall|j: int| 1 <= j < i ==> requests@[j] == 0,
            forall|j: int| i <= j < len ==> requests@[j] == reqs0[j],
            spec_subdiv_run(
                spec_state_of(*octree, *world, loads@),
                reqs0,
                i as int,
                count as int,
            ) == spec_subdiv_run(start, reqs0, 1, count as int),
        decreases count + 1 - i,
    {
        let ghost s_pre = spec_state_of(*octree, *world, loads@);
        let req = requests[i];
        let node_index = req as usize;
        if node_index >= octree.nodes.len() {
        } else if octree.get_node(node_index) < VOXEL_OFFSET {
        } else if octree.in_free_block(node_index) {
        } else {
            let pos = octree.positions[node_index];
            let found = octree.find_voxel(&pos, None);
            let gd = found.1;
            if gd == u32::MAX {
            } else {
                let wfound = world.find_voxel(&pos, Some(gd));
                let chunk = world.get_chunk(wfound.0).unwrap();
                let tn = chunk.nodes[wfound.1];
                if tn.pointer < CHUNK_OFFSET {
                    if octree.nodes.len() + 8 <= VOXEL_OFFSET as usize {
                        let mask = chunk.get_node_mask(tn.pointer as usize);
                        proof {
                            assert(mask@ =~= spec_mask_of(chunk.nodes@, tn.pointer as int));
                        }
                        octree.subdivide(node_index, &mask, gd + 1);
                    }
                } else if tn.pointer > CHUNK_OFFSET {
                    let cid = tn.pointer - CHUNK_OFFSET;
                    match world.get_chunk(cid) {
                        Some(c2) => {
                            if octree.nodes.len() + 8 <= VOXEL_OFFSET as usize {
                                let mask = c2.get_node_mask(0);
                                proof {
                                    assert(mask@ =~= spec_mask_of(c2.nodes@, 0));
                                }
                                octree.subdivide(node_index, &mask, gd + 1);
                            }
                        },
                        None => {
                            if world.load_chunk(cid) {
                                loads.push(cid);
                            }
                        },
                    }
                }
            }
        }
        requests.set(i, 0);
        proof {
            assert(spec_state_of(*octree, *world, loads@) == spec_subdiv_step(s_pre, req));
        }
        i += 1;
    }
    loads
}

/// Drain one frame's unsubdivision feedback: apply each collapse request in
/// order — after all of the frame's subdivisions, so a node targeted by
/// both deterministically subdivides first and then collapses — and zero
/// the counter and the consumed slots.
pub fn process_unsubdivision(octree: &mut Octree, world: &mut World, requests: &mut Vec<u32>)
    requires
        old(octree).wf(),
        old(world).wf(),
        old(world).chunks_map().dom().contains(0),
        old(requests)@.len() >= 1,
    ensures
        final(octree).wf(),
        final(world).wf(),
        final(world).chunks_map().dom().contains(0),
        final(world).path == old(world).path,
        final(world).loading_ids() == old(world).loading_ids(),
        ({
            let count = spec_req_count(old(requests)@, MAX_UNSUBDIVISIONS_PER_FRAME as int);
            let end = spec_unsubdiv_run(
                spec_state_of(*old(octree), *old(world), Seq::empty()),
                old(requests)@,
                1,
                count,
            );
            &&& final(octree)@ == end.octree
            &&& final(world).chunks_map() == end.chunks
            &&& final(requests)@.len() == old(requests)@.len()
            &&& final(requests)@[0] == 0
            &&& forall|j: int| 1 <= j <= count ==> final(requests)@[j] == 0
            &&& forall|j: int|
                count < j < old(requests)@.len() ==> final(requests)@[j] == old(requests)@[j]
        }),
{
    let ghost reqs0 = requests@;
    let ghost count_g = spec_req_count(reqs0, MAX_UNSUBDIVISIONS_PER_FRAME as int);
    let len = requests.len();
    let raw = requests[0] as usize;
    let mut count = if raw <= len - 1 {
        raw
    } else {
        len - 1
    };
    if count > MAX_UNSUBDIVISIONS_PER_FRAME - 1 {
        count = MAX_UNSUBDIVISIONS_PER_FRAME - 1;
    }
    requests.set(0, 0);
    let ghost start = spec_state_of(*old(octree), *old(world), Seq::empty());
    let mut i: usize = 1;
    while i <= count
        invariant
            1 <= i <= count + 1,
            count == count_g,
            count < len == requests@.len(),
            reqs0.len() == len,
            octree.wf(),
            world.wf(),
            world.chunks_map().dom().contains(0),
            world.path == old(world).path,
            world.loading_ids() == old(world).loading_ids(),
            requests@[0] == 0,
            forall|j: int| 1 <= j < i ==> requests@[j] == 0,
            forall|j: int| i <= j < len ==> requests@[j] == reqs0[j],
            spec_unsubdiv_run(
                spec_state_of(*octree, *world, Seq::empty()),
                reqs0,
                i as int,
                count as int,
            ) == spec_unsubdiv_run(start, reqs0, 1, count as int),
        decreases count + 1 - i,
    {
        let ghost s_pre = spec_state_of(*octree, *world, Seq::empty());
        let req = requests[i];
        let node_index = req as usize;
        if node_index >= octree.nodes.len() {
        } else {
            let t = octree.get_node(node_index);
            let at_origin = octree.positions[node_index].is_origin();
            if t < VOXEL_OFFSET && at_origin {
            } else {
                octree.unsubdivide(node_index);
                proof {
                    crate::voxel::lemma_value_is_leaf(Voxel { r: 255, g: 0, b: 0 });
                    assert(spec_is_leaf(octree@.nodes, node_index as int));
                }
                let pos = octree.positions[node_index];
                let found = octree.find_voxel(&pos, None);
                let gd = found.1;
                let wfound = world.find_voxel(&pos, Some(gd));
                let chunk = world.get_chunk(wfound.0).unwrap();
                let tn = chunk.nodes[wfound.1];
                if tn.pointer > CHUNK_OFFSET {
                    let cid = tn.pointer - CHUNK_OFFSET;
                    if cid >= GENERATED_CHUNK_BASE {
                        world.unload_chunk(cid);
                    }
                }
                octree.set_leaf(node_index, tn.value);
            }
        }
        requests.set(i, 0);
        proof {
            assert(spec_state_of(*octree, *world, Seq::empty()) == spec_unsubdiv_step(
                s_pre,
                req,
            ));
        }
        i += 1;
    }
}

} // verus!
