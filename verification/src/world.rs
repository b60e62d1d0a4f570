use vstd::prelude::*;

use crate::cpu_octree::{cpu_wf, CpuOctree, CHUNK_OFFSET};
use crate::octree::spec_limit;
use crate::pos::{child_index, pos_offset, spec_child_index, spec_pos_offset, Pos3};
use crate::voxel::Voxel;

verus! {

/// First chunk id of the procedurally generated, on-demand-paged world
/// regions. Ids below it are the pinned prototype block chunks and the
/// resident root; only ids from here up are ever evicted.
pub const GENERATED_CHUNK_BASE: u32 = 1073741824;

#[verifier::external_type_specification]
#[verifier::external_body]
#[verifier::reject_recursive_types(K)]
#[verifier::reject_recursive_types(V)]
#[verifier::reject_recursive_types(S)]
pub struct ExDashMap<K, V, S>(dashmap::DashMap<K, V, S>);

#[verifier::external_type_specification]
#[verifier::external_body]
#[verifier::reject_recursive_types(K)]
#[verifier::reject_recursive_types(S)]
pub struct ExDashSet<K, S>(dashmap::DashSet<K, S>);

/// The chunks a concurrent chunk map holds, by chunk id.
pub uninterp spec fn chunk_map_of(m: dashmap::DashMap<u32, CpuOctree>) -> Map<u32, CpuOctree>;

/// The chunk ids a concurrent id set holds.
pub uninterp spec fn id_set_of(s: dashmap::DashSet<u32>) -> Set<u32>;

/// Relies on dashmap::DashMap::new: a fresh map holds nothing.
#[verifier::external_body]
fn chunk_map_new() -> (m: dashmap::DashMap<u32, CpuOctree>)
    ensures
        chunk_map_of(m) =~= Map::empty(),
{
    dashmap::DashMap::new()
}

/// Relies on dashmap::DashMap::insert: the map then holds `v` under `k`,
/// replacing any previous occupant.
#[verifier::external_body]
fn chunk_map_insert(m: &mut dashmap::DashMap<u32, CpuOctree>, k: u32, v: CpuOctree)
    ensures
        chunk_map_of(*final(m)) == chunk_map_of(*old(m)).insert(k, v),
{
    m.insert(k, v);
}

/// Relies on dashmap::DashMap::get (and the derived clone of the plain
/// chunk data): the value under `k`, if one is present.
#[verifier::external_body]
fn chunk_map_get(m: &dashmap::DashMap<u32, CpuOctree>, k: u32) -> (r: Option<CpuOctree>)
    ensures
        chunk_map_of(*m).dom().contains(k) ==> r == Some(chunk_map_of(*m)[k]),
        !chunk_map_of(*m).dom().contains(k) ==> r == None::<CpuOctree>,
{
    m.get(&k).map(|entry| entry.value().clone())
}

/// Relies on dashmap::DashMap::get: the advertised mip colour of the chunk
/// under `k`, if one is present.
#[verifier::external_body]
fn chunk_map_top_mip(m: &dashmap::DashMap<u32, CpuOctree>, k: u32) -> (r: Option<Voxel>)
    ensures
        chunk_map_of(*m).dom().contains(k) ==> r == Some(chunk_map_of(*m)[k].top_mip),
        !chunk_map_of(*m).dom().contains(k) ==> r == None::<Voxel>,
{
    m.get(&k).map(|entry| entry.value().top_mip)
}

/// Relies on dashmap::DashMap::contains_key.
#[verifier::external_body]
fn chunk_map_contains(m: &dashmap::DashMap<u32, CpuOctree>, k: u32) -> (r: bool)
    ensures
        r == chunk_map_of(*m).dom().contains(k),
{
    m.contains_key(&k)
}

/// Relies on dashmap::DashMap::remove: the map no longer holds `k`.
#[verifier::external_body]
fn chunk_map_remove(m: &mut dashmap::DashMap<u32, CpuOctree>, k: u32)
    ensures
        chunk_map_of(*final(m)) == chunk_map_of(*old(m)).remove(k),
{
    m.remove(&k);
}

/// Relies on dashmap::DashMap::len: how many chunks are resident.
#[verifier::external_body]
fn chunk_map_len(m: &dashmap::DashMap<u32, CpuOctree>) -> (n: usize)
    ensures
        n == chunk_map_of(*m).dom().len(),
{
    m.len()
}

/// Relies on dashmap::DashSet::new: a fresh set holds nothing.
#[verifier::external_body]
fn id_set_new() -> (s: dashmap::DashSet<u32>)
    ensures
        id_set_of(s) == Set::<u32>::empty(),
{
    dashmap::DashSet::new()
}

/// Relies on dashmap::DashSet::insert: the set then contains `k`, and the
/// result says whether `k` was newly inserted.
#[verifier::external_body]
fn id_set_insert(s: &mut dashmap::DashSet<u32>, k: u32) -> (fresh: bool)
    ensures
        id_set_of(*final(s)) == id_set_of(*old(s)).insert(k),
        fresh == !id_set_of(*old(s)).contains(k),
{
    s.insert(k)
}

/// Relies on dashmap::DashSet::contains.
#[verifier::external_body]
fn id_set_contains(s: &dashmap::DashSet<u32>, k: u32) -> (r: bool)
    ensures
        r == id_set_of(*s).contains(k),
{
    s.contains(&k)
}

/// Relies on dashmap::DashSet::remove: the set no longer contains `k`.
#[verifier::external_body]
fn id_set_remove(s: &mut dashmap::DashSet<u32>, k: u32)
    ensures
        id_set_of(*final(s)) == id_set_of(*old(s)).remove(k),
{
    s.remove(&k);
}

/// The paged world: resident chunks by id, and the set of chunk ids whose
/// load is in flight. Chunk id 0 is the root region; a cross-chunk
/// reference found while resolving a position re-enters at the referenced
/// chunk's root. The `loading` set is the mutual-exclusion mechanism that
/// keeps at most one load in flight per chunk id.
///
/// The two collections mutate through `&self` when shared; every mutation
/// this crate performs goes through `&mut World`, and callers that share a
/// `World` must route theirs the same way, or the contracts' exclusive view
/// of the contents no longer matches what runs.
pub struct World {
    /// Directory of the world's chunk files; the world's own logic never
    /// reads it, the surrounding I/O does.
    pub path: String,
    pub chunks: dashmap::DashMap<u32, CpuOctree>,
    pub loading: dashmap::DashSet<u32>,
}

/// The cross-chunk traversal: like the single-store walk, but a cross-chunk
/// reference re-enters at the referenced chunk's root block with the depth
/// count carried over. A reference to a chunk that is not resident acts as
/// a leaf: the walk stops at the boundary node, whose stored colour is the
/// missing chunk's advertised mip.
pub open spec fn spec_resolve_world(
    chunks: Map<u32, CpuOctree>,
    chunk: u32,
    base: int,
    node_pos: Pos3,
    depth: u32,
    limit: u32,
    pos: Pos3,
) -> (u32, int, u32, Pos3)
    decreases limit - depth,
{
    let nodes = chunks[chunk].nodes@;
    let d2 = (depth + 1) as u32;
    let child = spec_child_index(pos, node_pos);
    let idx = base + child;
    let np = node_pos.spec_add(spec_pos_offset(child, d2));
    let tnipt = nodes[idx].pointer;
    if tnipt == CHUNK_OFFSET || depth + 1 >= limit {
        (chunk, idx, d2, np)
    } else if tnipt > CHUNK_OFFSET {
        let next = (tnipt - CHUNK_OFFSET) as u32;
        if chunks.dom().contains(next) {
            spec_resolve_world(chunks, next, 0, np, d2, limit, pos)
        } else {
            (chunk, idx, d2, np)
        }
    } else {
        spec_resolve_world(chunks, chunk, tnipt as int, np, d2, limit, pos)
    }
}

/// A cross-chunk walk over well-formed resident chunks stays on resident
/// chunks and inside their arrays, and deepens by at least one level.
pub proof fn lemma_resolve_world_bounds(
    chunks: Map<u32, CpuOctree>,
    chunk: u32,
    base: int,
    node_pos: Pos3,
    depth: u32,
    limit: u32,
    pos: Pos3,
)
    requires
        forall|id: u32|
            chunks.dom().contains(id) ==> cpu_wf((#[trigger] chunks[id]).nodes@),
        chunks.dom().contains(chunk),
        0 <= base,
        base + 8 <= chunks[chunk].nodes@.len(),
        depth < limit,
    ensures
        ({
            let r = spec_resolve_world(chunks, chunk, base, node_pos, depth, limit, pos);
            &&& chunks.dom().contains(r.0)
            &&& 0 <= r.1 < chunks[r.0].nodes@.len()
            &&& depth < r.2 <= limit
        }),
    decreases limit - depth,
{
    let nodes = chunks[chunk].nodes@;
    let d2 = (depth + 1) as u32;
    let child = spec_child_index(pos, node_pos);
    let idx = base + child;
    let np = node_pos.spec_add(spec_pos_offset(child, d2));
    let tnipt = nodes[idx].pointer;
    if tnipt == CHUNK_OFFSET || depth + 1 >= limit {
    } else if tnipt > CHUNK_OFFSET {
        let next = (tnipt - CHUNK_OFFSET) as u32;
        if chunks.dom().contains(next) {
            lemma_resolve_world_bounds(chunks, next, 0, np, d2, limit, pos);
        }
    } else {
        lemma_resolve_world_bounds(chunks, chunk, tnipt as int, np, d2, limit, pos);
    }
}

/// One load request on the world model: if the chunk is already resident or
/// already loading nothing changes; otherwise the id is marked loading.
pub open spec fn spec_load_request(
    chunks: Map<u32, CpuOctree>,
    loading: Set<u32>,
    id: u32,
) -> (Set<u32>, bool) {
    if chunks.dom().contains(id) || loading.contains(id) {
        (loading, false)
    } else {
        (loading.insert(id), true)
    }
}

/// Chunk-load mutual exclusion: however many times a load of the same chunk
/// is requested, only the first request starts a load, and the loading set
/// after any number of repeats equals the set after the first.
pub proof fn lemma_load_request_exclusive(chunks: Map<u32, CpuOctree>, loading: Set<u32>, id: u32)
    ensures
        ({
            let once = spec_load_request(chunks, loading, id);
            let twice = spec_load_request(chunks, once.0, id);
            &&& twice.0 == once.0
            &&& !twice.1
        }),
{
    let once = spec_load_request(chunks, loading, id);
    if !(chunks.dom().contains(id) || loading.contains(id)) {
        assert(once.0.contains(id));
    }
}

impl World {
    /// The resident chunks, by id.
    pub open spec fn chunks_map(&self) -> Map<u32, CpuOctree> {
        chunk_map_of(self.chunks)
    }

    /// The chunk ids whose load is in flight.
    pub open spec fn loading_ids(&self) -> Set<u32> {
        id_set_of(self.loading)
    }

    /// Every resident chunk's node array is a well-formed tree.
    pub open spec fn wf(&self) -> bool {
        forall|id: u32|
            self.chunks_map().dom().contains(id) ==> cpu_wf(
                (#[trigger] self.chunks_map()[id]).nodes@,
            )
    }

    /// A fresh world over the chunk directory at `path`: nothing resident,
    /// nothing loading. The engine pins its prototype block chunks (ids 1
    /// through 8) right after construction; reading them from disk is I/O
    /// and stays outside, entering through `insert_chunk`.
    pub fn new(path: String) -> (w: World)
        ensures
            w.wf(),
            w.chunks_map() == Map::<u32, CpuOctree>::empty(),
            w.loading_ids() == Set::<u32>::empty(),
            w.path == path,
    {
        World { path, chunks: chunk_map_new(), loading: id_set_new() }
    }

    /// Make `chunk` resident under `id`, replacing any previous occupant.
    pub fn insert_chunk(&mut self, id: u32, chunk: CpuOctree)
        requires
            old(self).wf(),
            cpu_wf(chunk.nodes@),
        ensures
            final(self).wf(),
            final(self).chunks_map() == old(self).chunks_map().insert(id, chunk),
            final(self).loading_ids() == old(self).loading_ids(),
            final(self).path == old(self).path,
    {
        chunk_map_insert(&mut self.chunks, id, chunk);
        proof {
            assert forall|id2: u32|
                self.chunks_map().dom().contains(id2) implies cpu_wf(
                (#[trigger] self.chunks_map()[id2]).nodes@,
            ) by {
                if id2 != id {
                    assert(self.chunks_map()[id2] == old(self).chunks_map()[id2]);
                }
            }
        }
    }

    /// The chunk under `id`, if resident.
    pub fn get_chunk(&self, id: u32) -> (r: Option<CpuOctree>)
        ensures
            self.chunks_map().dom().contains(id) ==> r == Some(self.chunks_map()[id]),
            !self.chunks_map().dom().contains(id) ==> r == None::<CpuOctree>,
    {
        chunk_map_get(&self.chunks, id)
    }

    /// Whether the chunk under `id` is resident.
    pub fn contains_chunk(&self, id: u32) -> (r: bool)
        ensures
            r == self.chunks_map().dom().contains(id),
    {
        chunk_map_contains(&self.chunks, id)
    }

    /// The advertised mip colour of the chunk under `id`, if resident.
    pub fn top_mip_of(&self, id: u32) -> (r: Option<Voxel>)
        ensures
            self.chunks_map().dom().contains(id) ==> r == Some(self.chunks_map()[id].top_mip),
            !self.chunks_map().dom().contains(id) ==> r == None::<Voxel>,
    {
        chunk_map_top_mip(&self.chunks, id)
    }

    /// How many chunks are resident.
    pub fn chunk_count(&self) -> (n: usize)
        ensures
            n == self.chunks_map().dom().len(),
    {
        chunk_map_len(&self.chunks)
    }

    /// Whether a load of `id` is in flight.
    pub fn is_loading(&self, id: u32) -> (r: bool)
        ensures
            r == self.loading_ids().contains(id),
    {
        id_set_contains(&self.loading, id)
    }

    /// Request an asynchronous load of chunk `id`: idempotent. If the chunk
    /// is already resident or already loading this is a no-op; otherwise
    /// the id is marked loading and the caller must perform the load and
    /// hand the chunk back through `finish_load`. The check and the mark
    /// happen before control returns, so at most one load is ever started
    /// per id.
    pub fn load_chunk(&mut self, id: u32) -> (start: bool)
        ensures
            (final(self).loading_ids(), start) == spec_load_request(
                old(self).chunks_map(),
                old(self).loading_ids(),
                id,
            ),
            start == (!old(self).chunks_map().dom().contains(id) && !old(
                self,
            ).loading_ids().contains(id)),
            final(self).chunks_map() == old(self).chunks_map(),
            final(self).path == old(self).path,
            final(self).wf() == old(self).wf(),
    {
        if chunk_map_contains(&self.chunks, id) {
            return false;
        }
        if id_set_contains(&self.loading, id) {
            return false;
        }
        id_set_insert(&mut self.loading, id);
        true
    }

    /// Complete a load started by `load_chunk`: the chunk becomes resident
    /// and its id stops loading.
    pub fn finish_load(&mut self, id: u32, chunk: CpuOctree)
        requires
            old(self).wf(),
            cpu_wf(chunk.nodes@),
        ensures
            final(self).wf(),
            final(self).chunks_map() == old(self).chunks_map().insert(id, chunk),
            final(self).loading_ids() == old(self).loading_ids().remove(id),
            final(self).path == old(self).path,
    {
        self.insert_chunk(id, chunk);
        id_set_remove(&mut self.loading, id);
    }

    /// Evict the chunk under `id`. Only generated world regions are ever
    /// evicted — the root and the pinned prototype blocks stay — and the
    /// mip colour already baked into the referencing parent keeps rendering
    /// for the evicted region.
    pub fn unload_chunk(&mut self, id: u32)
        requires
            old(self).wf(),
            id >= GENERATED_CHUNK_BASE,
        ensures
            final(self).wf(),
            final(self).chunks_map() == old(self).chunks_map().remove(id),
            final(self).loading_ids() == old(self).loading_ids(),
            final(self).path == old(self).path,
    {
        chunk_map_remove(&mut self.chunks, id);
        proof {
            assert forall|id2: u32|
                self.chunks_map().dom().contains(id2) implies cpu_wf(
                (#[trigger] self.chunks_map()[id2]).nodes@,
            ) by {
                assert(self.chunks_map()[id2] == old(self).chunks_map()[id2]);
            }
        }
    }

    /// Resolve `pos` across chunk boundaries: walk from the root chunk's
    /// root block, re-entering referenced chunks as the walk meets them,
    /// and stop at the first empty leaf, at the boundary of a chunk that is
    /// not resident, or at `max_depth`. Returns the chunk id, the node
    /// index in that chunk, the depth and the node's centre.
    pub fn find_voxel(&self, pos: &Pos3, max_depth: Option<u32>) -> (r: (u32, usize, u32, Pos3))
        requires
            self.wf(),
            self.chunks_map().dom().contains(0),
            max_depth matches Some(d) ==> d >= 1,
        ensures
            ({
                let lim = spec_limit(max_depth);
                let s = spec_resolve_world(
                    self.chunks_map(),
                    0,
                    0,
                    Pos3::spec_origin(),
                    0,
                    lim,
                    *pos,
                );
                &&& r.0 == s.0
                &&& r.1 == s.1
                &&& r.2 == s.2
                &&& r.3 == s.3
                &&& self.chunks_map().dom().contains(r.0)
                &&& r.1 < self.chunks_map()[r.0].nodes@.len()
                &&& 1 <= r.2 <= lim
            }),
    {
        let limit: u32 = match max_depth {
            Some(d) => d,
            None => u32::MAX,
        };
        let mut chunk: u32 = 0;
        let mut cur = self.get_chunk(0).unwrap();
        let mut base: usize = 0;
        let mut node_pos = Pos3::origin();
        let mut depth: u32 = 0;
        proof {
            lemma_resolve_world_bounds(
                self.chunks_map(),
                0,
                0,
                Pos3::spec_origin(),
                0,
                limit,
                *pos,
            );
        }
        loop
            invariant
                self.wf(),
                limit == spec_limit(max_depth),
                depth < limit,
                self.chunks_map().dom().contains(chunk),
                cur == self.chunks_map()[chunk],
                base + 8 <= cur.nodes@.len(),
                spec_resolve_world(
                    self.chunks_map(),
                    chunk,
                    base as int,
                    node_pos,
                    depth,
                    limit,
                    *pos,
                ) == spec_resolve_world(
                    self.chunks_map(),
                    0,
                    0,
                    Pos3::spec_origin(),
                    0,
                    limit,
                    *pos,
                ),
            decreases limit - depth,
        {
            proof {
                lemma_resolve_world_bounds(
                    self.chunks_map(),
                    chunk,
                    base as int,
                    node_pos,
                    depth,
                    limit,
                    *pos,
                );
            }
            depth = depth + 1;
            let child = child_index(pos, &node_pos);
            let idx = base + child;
            node_pos = node_pos.add(&pos_offset(child, depth));
            let tnipt = cur.nodes[idx].pointer;
            if tnipt == CHUNK_OFFSET || depth >= limit {
                return (chunk, idx, depth, node_pos);
            } else if tnipt > CHUNK_OFFSET {
                let next = tnipt - CHUNK_OFFSET;
                match self.get_chunk(next) {
                    Some(c) => {
                        chunk = next;
                        cur = c;
                        base = 0;
                    },
                    None => {
                        return (chunk, idx, depth, node_pos);
                    },
                }
            } else {
                base = tnipt as usize;
            }
        }
    }
}

} // verus!
