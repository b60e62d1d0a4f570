use vstd::prelude::*;

use crate::pos::{child_index, pos_offset, spec_child_index, spec_pos_offset, Pos3};
use crate::voxel::Voxel;

verus! {

/// Threshold in a CPU node's pointer field: below it the pointer names the
/// block of 8 children, equal to it the node is an empty or plain voxel leaf,
/// and above it the excess over `CHUNK_OFFSET` is a chunk id to resolve into.
pub const CHUNK_OFFSET: u32 = 2147483648;

/// One node of the authoritative CPU-side store: a pointer word in the
/// `CHUNK_OFFSET` encoding and the node's colour.
#[derive(Copy, Clone, PartialEq, Eq, Structural, Debug)]
pub struct Node {
    pub pointer: u32,
    pub value: Voxel,
}

impl Node {
    pub fn new(pointer: u32, value: Voxel) -> (n: Node)
        ensures
            n == (Node { pointer, value }),
    {
        Node { value, pointer }
    }
}

/// Whether node `i` points to a child block (rather than being a leaf or a
/// cross-chunk reference).
pub open spec fn cpu_is_internal(nodes: Seq<Node>, i: int) -> bool {
    nodes[i].pointer < CHUNK_OFFSET
}

/// A valid child-block pointer seen from node `i`: block-aligned, whole, and
/// strictly beyond its parent, so walks towards children always move towards
/// the tail of the array.
pub open spec fn cpu_block_ok(len: int, p: int, i: int) -> bool {
    &&& i < p
    &&& 8 <= p
    &&& p % 8 == 0
    &&& p + 8 <= len
}

/// Well-formedness of a CPU node array: whole blocks beginning with the root
/// block, every child pointer valid and tailward, and the array never grows
/// into the range where a pointer would be read as a leaf or chunk reference.
pub open spec fn cpu_wf(nodes: Seq<Node>) -> bool {
    &&& 8 <= nodes.len() <= CHUNK_OFFSET
    &&& nodes.len() % 8 == 0
    &&& forall|i: int|
        0 <= i < nodes.len() && cpu_is_internal(nodes, i) ==> cpu_block_ok(
            nodes.len() as int,
            (#[trigger] nodes[i].pointer) as int,
            i,
        )
}

/// The traversal primitive on CPU nodes: from the block at `base` (a node
/// centred at `node_pos` reached at `depth`), descend through the octant of
/// `pos` at each level — ties on a centre plane go to the positive side —
/// and stop at the first non-internal node or at the depth bound. Returns
/// the node index, its depth and its centre.
pub open spec fn spec_resolve_cpu(
    nodes: Seq<Node>,
    base: int,
    node_pos: Pos3,
    depth: u32,
    limit: u32,
    pos: Pos3,
) -> (int, u32, Pos3)
    decreases limit - depth,
{
    let d2 = (depth + 1) as u32;
    let child = spec_child_index(pos, node_pos);
    let idx = base + child;
    let np = node_pos.spec_add(spec_pos_offset(child, d2));
    if nodes[idx].pointer >= CHUNK_OFFSET || depth + 1 >= limit {
        (idx, d2, np)
    } else {
        spec_resolve_cpu(nodes, nodes[idx].pointer as int, np, d2, limit, pos)
    }
}

/// A traversal that starts inside a well-formed array stays inside it,
/// deepens by at least one level, never passes the bound, and when it stops
/// short of the bound it stopped at a non-internal node.
pub proof fn lemma_resolve_cpu_bounds(
    nodes: Seq<Node>,
    base: int,
    node_pos: Pos3,
    depth: u32,
    limit: u32,
    pos: Pos3,
)
    requires
        forall|i: int|
            0 <= i < nodes.len() && cpu_is_internal(nodes, i) ==> cpu_block_ok(
                nodes.len() as int,
                (#[trigger] nodes[i].pointer) as int,
                i,
            ),
        0 <= base,
        base + 8 <= nodes.len(),
        depth < limit,
    ensures
        ({
            let r = spec_resolve_cpu(nodes, base, node_pos, depth, limit, pos);
            &&& 0 <= r.0 < nodes.len()
            &&& depth < r.1 <= limit
            &&& (r.1 < limit ==> nodes[r.0].pointer >= CHUNK_OFFSET)
        }),
    decreases limit - depth,
{
    let d2 = (depth + 1) as u32;
    let child = spec_child_index(pos, node_pos);
    let idx = base + child;
    let np = node_pos.spec_add(spec_pos_offset(child, d2));
    if nodes[idx].pointer >= CHUNK_OFFSET || depth + 1 >= limit {
    } else {
        lemma_resolve_cpu_bounds(nodes, nodes[idx].pointer as int, np, d2, limit, pos);
    }
}

/// How a traversal changes when only its own result node is rewritten (and
/// the array possibly extended past its old length): the walk follows the
/// unchanged interior path to the same node; if the new occupant is still
/// non-internal the result is unchanged, and if it became a child pointer
/// the walk continues from exactly that node's block.
pub proof fn lemma_resolve_cpu_update(
    nodes: Seq<Node>,
    n2: Seq<Node>,
    base: int,
    node_pos: Pos3,
    depth: u32,
    limit: u32,
    pos: Pos3,
)
    requires
        forall|i: int|
            0 <= i < nodes.len() && cpu_is_internal(nodes, i) ==> cpu_block_ok(
                nodes.len() as int,
                (#[trigger] nodes[i].pointer) as int,
                i,
            ),
        0 <= base,
        base + 8 <= nodes.len(),
        depth < limit,
        nodes[spec_resolve_cpu(nodes, base, node_pos, depth, limit, pos).0].pointer
            >= CHUNK_OFFSET,
        n2.len() >= nodes.len(),
        forall|j: int|
            0 <= j < nodes.len() && j != spec_resolve_cpu(
                nodes,
                base,
                node_pos,
                depth,
                limit,
                pos,
            ).0 ==> n2[j] == nodes[j],
    ensures
        ({
            let r = spec_resolve_cpu(nodes, base, node_pos, depth, limit, pos);
            &&& n2[r.0].pointer >= CHUNK_OFFSET ==> spec_resolve_cpu(
                n2,
                base,
                node_pos,
                depth,
                limit,
                pos,
            ) == r
            &&& n2[r.0].pointer < CHUNK_OFFSET && r.1 < limit ==> spec_resolve_cpu(
                n2,
                base,
                node_pos,
                depth,
                limit,
                pos,
            ) == spec_resolve_cpu(n2, n2[r.0].pointer as int, r.2, r.1, limit, pos)
        }),
    decreases limit - depth,
{
    let r = spec_resolve_cpu(nodes, base, node_pos, depth, limit, pos);
    let d2 = (depth + 1) as u32;
    let child = spec_child_index(pos, node_pos);
    let idx = base + child;
    let np = node_pos.spec_add(spec_pos_offset(child, d2));
    if nodes[idx].pointer >= CHUNK_OFFSET || depth + 1 >= limit {
    } else {
        assert(r == spec_resolve_cpu(nodes, nodes[idx].pointer as int, np, d2, limit, pos));
        lemma_resolve_cpu_bounds(nodes, nodes[idx].pointer as int, np, d2, limit, pos);
        assert(idx != r.0);
        assert(n2[idx] == nodes[idx]);
        lemma_resolve_cpu_update(nodes, n2, nodes[idx].pointer as int, np, d2, limit, pos);
    }
}

/// The depth at which an unbounded walk towards `pos` stops.
pub open spec fn spec_resolve_depth(nodes: Seq<Node>, pos: Pos3) -> u32 {
    spec_resolve_cpu(nodes, 0, Pos3::spec_origin(), 0, u32::MAX, pos).1
}

/// One step of deepening the tree along the path of `pos`: the leaf the walk
/// stops at becomes a child pointer to a fresh all-empty block appended at
/// the tail, keeping its colour word.
pub open spec fn spec_extend_step(nodes: Seq<Node>, pos: Pos3) -> Seq<Node> {
    let r = spec_resolve_cpu(nodes, 0, Pos3::spec_origin(), 0, u32::MAX, pos);
    nodes.update(r.0, Node { pointer: nodes.len() as u32, value: nodes[r.0].value })
        + spec_added_block(0, nodes.len() as int)
}

/// Deepening steps repeated until the walk towards `pos` stops at exactly
/// `target` levels (the step count is bounded by `fuel`, which callers pick
/// as the number of missing levels).
pub open spec fn spec_extend_to(nodes: Seq<Node>, pos: Pos3, target: u32, fuel: nat) -> Seq<Node>
    decreases fuel,
{
    if fuel == 0 {
        nodes
    } else if spec_resolve_depth(nodes, pos) == target {
        nodes
    } else {
        spec_extend_to(spec_extend_step(nodes, pos), pos, target, (fuel - 1) as nat)
    }
}

/// The array after placing `leaf` at the path of `pos` on level `target`:
/// the tree is deepened along that path as far as needed, then the node the
/// walk stops at is overwritten.
pub open spec fn spec_put_leaf(nodes: Seq<Node>, pos: Pos3, leaf: Node, target: u32) -> Seq<Node> {
    let d0 = spec_resolve_depth(nodes, pos);
    let ext = spec_extend_to(
        nodes,
        pos,
        target,
        if d0 <= target {
            (target - d0) as nat
        } else {
            0nat
        },
    );
    ext.update(spec_resolve_cpu(ext, 0, Pos3::spec_origin(), 0, u32::MAX, pos).0, leaf)
}

/// Mask round trip: in a freshly created block, child `i` holds a non-empty
/// colour exactly when bit `i` of the occupancy mask was set, so reading the
/// block's occupancy back recovers the mask that built it.
pub proof fn lemma_mask_round_trip(mask: u8, old_len: int)
    ensures
        forall|i: int|
            0 <= i < 8 ==> (!(#[trigger] spec_added_block(mask, old_len)[i]).value.spec_is_empty()
                <==> (mask >> (i as u32)) & 1 != 0),
{
    assert forall|i: int|
        0 <= i < 8 implies (!(#[trigger] spec_added_block(mask, old_len)[i]).value.spec_is_empty()
        <==> (mask >> (i as u32)) & 1 != 0) by {
        if (mask >> (i as u32)) & 1 != 0 {
            assert(spec_added_block(mask, old_len)[i].value == Voxel { r: 255, g: 0, b: 0 });
        } else {
            assert(spec_added_block(mask, old_len)[i].value == Voxel { r: 0, g: 0, b: 0 });
        }
    }
}

/// A block appended for the all-clear mask holds only empty-leaf sentinels.
pub proof fn lemma_empty_block_nodes(old_len: int)
    ensures
        forall|i: int|
            0 <= i < 8 ==> #[trigger] spec_added_block(0, old_len)[i] == (Node {
                pointer: CHUNK_OFFSET,
                value: Voxel { r: 0, g: 0, b: 0 },
            }),
{
    assert forall|i: int|
        0 <= i < 8 implies #[trigger] spec_added_block(0, old_len)[i] == (Node {
        pointer: CHUNK_OFFSET,
        value: Voxel { r: 0, g: 0, b: 0 },
    }) by {
        let k = i as u32;
        assert((0u8 >> k) & 1 == 0) by (bit_vector);
    }
}

/// The authoritative CPU-side store of one chunk: the flat node array and
/// the single colour (`top_mip`) a distant viewer sees when the chunk's
/// detail is not resident.
#[derive(Clone)]
pub struct CpuOctree {
    pub nodes: Vec<Node>,
    pub top_mip: Voxel,
}

/// The colour a fresh store advertises before any mip pass has run.
pub open spec fn spec_default_top_mip() -> Voxel {
    Voxel { r: 50, g: 255, b: 50 }
}

/// The 8 nodes `add_voxels` appends for `mask` when the array holds
/// `old_len` nodes: a set bit yields an occupied placeholder referencing the
/// prototype block chunk of its octant, a clear bit the empty-leaf sentinel.
pub open spec fn spec_added_block(mask: u8, old_len: int) -> Seq<Node> {
    Seq::new(
        8,
        |i: int|
            if (mask >> (i as u32)) & 1 != 0 {
                Node {
                    pointer: (CHUNK_OFFSET + ((old_len + i) % 8) + 1) as u32,
                    value: Voxel { r: 255, g: 0, b: 0 },
                }
            } else {
                Node { pointer: CHUNK_OFFSET, value: Voxel { r: 0, g: 0, b: 0 } }
            },
    )
}

impl CpuOctree {
    pub open spec fn wf(&self) -> bool {
        cpu_wf(self.nodes@)
    }

    /// A fresh store holding one root block drawn from `mask` and the
    /// default mip colour.
    pub fn new(mask: u8) -> (octree: CpuOctree)
        ensures
            octree.wf(),
            octree.nodes@ == spec_added_block(mask, 0),
            octree.top_mip == spec_default_top_mip(),
    {
        let mut octree = CpuOctree { top_mip: Voxel::new(50, 255, 50), nodes: Vec::new() };
        octree.add_voxels(mask);
        proof {
            assert(octree.nodes@ =~= spec_added_block(mask, 0));
        }
        octree
    }

    /// Append one block of 8 children drawn from the occupancy bits of
    /// `mask`: bit `i` set makes child `i` an occupied placeholder leaf,
    /// clear makes it the empty sentinel. Appended nodes are never child
    /// pointers, so well-formedness of the array is preserved.
    pub fn add_voxels(&mut self, mask: u8)
        requires
            old(self).nodes@.len() + 8 <= CHUNK_OFFSET,
        ensures
            final(self).nodes@ == old(self).nodes@ + spec_added_block(
                mask,
                old(self).nodes@.len() as int,
            ),
            final(self).top_mip == old(self).top_mip,
    {
        let ghost old_len = self.nodes@.len() as int;
        let mut i: usize = 0;
        while i < 8
            invariant
                i <= 8,
                old_len == old(self).nodes@.len(),
                self.nodes@.len() == old_len + i,
                self.top_mip == old(self).top_mip,
                forall|j: int| 0 <= j < old_len ==> self.nodes@[j] == old(self).nodes@[j],
                forall|j: int|
                    0 <= j < i ==> self.nodes@[old_len + j] == spec_added_block(mask, old_len)[j],
                old_len + 8 <= CHUNK_OFFSET,
            decreases 8 - i,
        {
            let ghost j0 = i as int;
            let ghost pre = self.nodes@;
            let node = if (mask >> (i as u32)) & 1 != 0 {
                let octant = self.nodes.len() % 8;
                Node::new(CHUNK_OFFSET + (octant as u32) + 1, Voxel::new(255, 0, 0))
            } else {
                Node::new(CHUNK_OFFSET, Voxel::new(0, 0, 0))
            };
            self.nodes.push(node);
            i += 1;
            proof {
                assert(self.nodes@ == pre.push(node));
                assert(pre.len() == old_len + j0);
                assert(node == spec_added_block(mask, old_len)[j0]);
                assert forall|j: int|
                    0 <= j < i implies self.nodes@[old_len + j] == spec_added_block(
                    mask,
                    old_len,
                )[j] by {
                    if j < j0 {
                        assert(pre.push(node)[old_len + j] == pre[old_len + j]);
                    } else {
                        assert(pre.push(node)[old_len + j] == node);
                    }
                }
            }
        }
        proof {
            assert(self.nodes@ =~= old(self).nodes@ + spec_added_block(mask, old_len));
        }
    }

    /// Resolve `pos` to a node of this store: walk from the root block,
    /// descending into the `>=`-side octant at each centre plane, and stop
    /// at the first leaf or chunk reference, or at `max_depth`. Returns the
    /// node index, the depth reached and the node's centre.
    pub fn find_voxel(&self, pos: &Pos3, max_depth: Option<u32>) -> (r: (usize, u32, Pos3))
        requires
            self.wf(),
            max_depth matches Some(d) ==> d >= 1,
        ensures
            ({
                let lim = crate::octree::spec_limit(max_depth);
                let s = spec_resolve_cpu(self.nodes@, 0, Pos3::spec_origin(), 0, lim, *pos);
                &&& r.0 == s.0
                &&& r.1 == s.1
                &&& r.2 == s.2
                &&& r.0 < self.nodes@.len()
                &&& 1 <= r.1 <= lim
                &&& (r.1 < lim ==> self.nodes@[r.0 as int].pointer >= CHUNK_OFFSET)
            }),
    {
        let limit: u32 = match max_depth {
            Some(d) => d,
            None => u32::MAX,
        };
        let mut base: usize = 0;
        let mut node_pos = Pos3::origin();
        let mut depth: u32 = 0;
        proof {
            lemma_resolve_cpu_bounds(self.nodes@, 0, Pos3::spec_origin(), 0, limit, *pos);
        }
        loop
            invariant
                self.wf(),
                limit == crate::octree::spec_limit(max_depth),
                depth < limit,
                base + 8 <= self.nodes@.len(),
                spec_resolve_cpu(self.nodes@, base as int, node_pos, depth, limit, *pos)
                    == spec_resolve_cpu(
                    self.nodes@,
                    0,
                    Pos3::spec_origin(),
                    0,
                    limit,
                    *pos,
                ),
            decreases limit - depth,
        {
            proof {
                lemma_resolve_cpu_bounds(self.nodes@, base as int, node_pos, depth, limit, *pos);
            }
            depth = depth + 1;
            let child = child_index(pos, &node_pos);
            let idx = base + child;
            node_pos = node_pos.add(&pos_offset(child, depth));
            let p = self.nodes[idx].pointer;
            if p >= CHUNK_OFFSET || depth >= limit {
                return (idx, depth, node_pos);
            }
            base = p as usize;
        }
    }

    /// The 8 child colours of the block starting at `node` (a pointer to the
    /// first child, not to the parent), in octant order.
    pub fn get_node_mask(&self, node: usize) -> (mask: Vec<Voxel>)
        requires
            node + 8 <= self.nodes@.len(),
        ensures
            mask@.len() == 8,
            forall|i: int| 0 <= i < 8 ==> mask@[i] == self.nodes@[node + i].value,
    {
        let mut mask: Vec<Voxel> = Vec::new();
        let n = self.nodes.len();
        let mut i: usize = 0;
        while i < 8
            invariant
                i <= 8,
                node + 8 <= n,
                n == self.nodes@.len(),
                mask@.len() == i,
                forall|j: int| 0 <= j < i ==> mask@[j] == self.nodes@[node + j].value,
            decreases 8 - i,
        {
            mask.push(self.nodes[node + i].value);
            i += 1;
        }
        mask
    }

    /// Descend to `pos` and overwrite the node there with `leaf`, first
    /// subdividing empty leaves along the path until the target depth is
    /// reached. The shared core of `put_in_voxel` and `put_in_block`.
    fn put_node(&mut self, pos: &Pos3, leaf: Node, depth: u32)
        requires
            old(self).wf(),
            leaf.pointer >= CHUNK_OFFSET,
            1 <= depth < u32::MAX,
            spec_resolve_depth(old(self).nodes@, *pos) <= depth,
            old(self).nodes@.len() + 8 * (depth - spec_resolve_depth(old(self).nodes@, *pos))
                <= CHUNK_OFFSET,
        ensures
            final(self).wf(),
            final(self).top_mip == old(self).top_mip,
            final(self).nodes@ == spec_put_leaf(old(self).nodes@, *pos, leaf, depth),
            ({
                let r = spec_resolve_cpu(
                    final(self).nodes@,
                    0,
                    Pos3::spec_origin(),
                    0,
                    u32::MAX,
                    *pos,
                );
                &&& r.1 == depth
                &&& final(self).nodes@[r.0] == leaf
            }),
    {
        let ghost orig = old(self).nodes@;
        let ghost fuel0 = (depth - spec_resolve_depth(orig, *pos)) as nat;
        let ghost target_nodes = spec_extend_to(orig, *pos, depth, fuel0);
        loop
            invariant
                self.wf(),
                self.top_mip == old(self).top_mip,
                leaf.pointer >= CHUNK_OFFSET,
                1 <= depth < u32::MAX,
                orig == old(self).nodes@,
                target_nodes == spec_extend_to(orig, *pos, depth, fuel0),
                fuel0 == (depth - spec_resolve_depth(orig, *pos)) as nat,
                spec_resolve_depth(orig, *pos) <= depth,
                spec_resolve_depth(self.nodes@, *pos) <= depth,
                self.nodes@.len() + 8 * (depth - spec_resolve_depth(self.nodes@, *pos))
                    <= CHUNK_OFFSET,
                spec_extend_to(
                    self.nodes@,
                    *pos,
                    depth,
                    (depth - spec_resolve_depth(self.nodes@, *pos)) as nat,
                ) == target_nodes,
            decreases depth - spec_resolve_depth(self.nodes@, *pos),
        {
            let ghost pre = self.nodes@;
            let found = self.find_voxel(pos, None);
            let node = found.0;
            let node_depth = found.1;
            let ghost r = spec_resolve_cpu(pre, 0, Pos3::spec_origin(), 0, u32::MAX, *pos);
            if node_depth == depth {
                self.nodes.set(node, leaf);
                proof {
                    assert(pre == target_nodes);
                    lemma_resolve_cpu_update(
                        pre,
                        self.nodes@,
                        0,
                        Pos3::spec_origin(),
                        0,
                        u32::MAX,
                        *pos,
                    );
                    assert(spec_resolve_cpu(self.nodes@, 0, Pos3::spec_origin(), 0, u32::MAX, *pos)
                        == r);
                    assert(self.nodes@ == spec_put_leaf(orig, *pos, leaf, depth));
                    assert forall|i2: int|
                        0 <= i2 < self.nodes@.len() && cpu_is_internal(self.nodes@, i2)
                            implies cpu_block_ok(
                        self.nodes@.len() as int,
                        self.nodes@[i2].pointer as int,
                        i2,
                    ) by {
                        if i2 != r.0 {
                            assert(self.nodes@[i2] == pre[i2]);
                        }
                    }
                }
                return ;
            }
            let len = self.nodes.len();
            let old_node = self.nodes[node];
            self.nodes.set(node, Node { pointer: #[verifier::truncate] (len as u32), value: old_node.value });
            self.add_voxels(0);
            proof {
                assert(len < CHUNK_OFFSET);
                lemma_empty_block_nodes(len as int);
                assert(self.nodes@ =~= spec_extend_step(pre, *pos));
                let n2 = self.nodes@;
                assert forall|i2: int|
                    0 <= i2 < n2.len() && cpu_is_internal(n2, i2) implies cpu_block_ok(
                    n2.len() as int,
                    n2[i2].pointer as int,
                    i2,
                ) by {
                    if i2 == r.0 {
                        assert(n2[i2].pointer == len as u32);
                    } else if i2 < pre.len() {
                        assert(n2[i2] == pre[i2]);
                    } else {
                        assert(n2[i2] == spec_added_block(0, len as int)[i2 - len]);
                        assert(n2[i2].pointer == CHUNK_OFFSET);
                    }
                }
                lemma_resolve_cpu_update(pre, n2, 0, Pos3::spec_origin(), 0, u32::MAX, *pos);
                let c2 = spec_child_index(*pos, r.2);
                assert(n2[len as int + c2 as int] == spec_added_block(0, len as int)[c2 as int]);
                assert(n2[len as int + c2 as int].pointer == CHUNK_OFFSET);
                assert(spec_resolve_cpu(n2, len as int, r.2, r.1, u32::MAX, *pos) == (
                    len as int + c2 as int,
                    (r.1 + 1) as u32,
                    r.2.spec_add(spec_pos_offset(c2, (r.1 + 1) as u32)),
                ));
                assert(spec_resolve_depth(n2, *pos) == r.1 + 1);
            }
        }
    }

    /// Place `voxel` as a plain leaf at `pos` on level `depth`, subdividing
    /// empty regions along the way: how file loaders and structure stamping
    /// enter point data. Resolving the same position afterwards lands on the
    /// inserted colour at exactly the requested depth.
    pub fn put_in_voxel(&mut self, pos: &Pos3, voxel: Voxel, depth: u32)
        requires
            old(self).wf(),
            1 <= depth < u32::MAX,
            spec_resolve_depth(old(self).nodes@, *pos) <= depth,
            old(self).nodes@.len() + 8 * (depth - spec_resolve_depth(old(self).nodes@, *pos))
                <= CHUNK_OFFSET,
        ensures
            final(self).wf(),
            final(self).top_mip == old(self).top_mip,
            final(self).nodes@ == spec_put_leaf(
                old(self).nodes@,
                *pos,
                Node { pointer: CHUNK_OFFSET, value: voxel },
                depth,
            ),
            ({
                let r = spec_resolve_cpu(
                    final(self).nodes@,
                    0,
                    Pos3::spec_origin(),
                    0,
                    u32::MAX,
                    *pos,
                );
                &&& r.1 == depth
                &&& final(self).nodes@[r.0] == Node { pointer: CHUNK_OFFSET, value: voxel }
            }),
    {
        self.put_node(pos, Node::new(CHUNK_OFFSET, voxel), depth);
    }

    /// Place a cross-chunk reference to `block_id` at `pos` on level
    /// `depth`: how the world builder points a region of the root chunk at
    /// an independently stored child chunk.
    pub fn put_in_block(&mut self, pos: &Pos3, block_id: u32, depth: u32)
        requires
            old(self).wf(),
            block_id < CHUNK_OFFSET,
            1 <= depth < u32::MAX,
            spec_resolve_depth(old(self).nodes@, *pos) <= depth,
            old(self).nodes@.len() + 8 * (depth - spec_resolve_depth(old(self).nodes@, *pos))
                <= CHUNK_OFFSET,
        ensures
            final(self).wf(),
            final(self).top_mip == old(self).top_mip,
            final(self).nodes@ == spec_put_leaf(
                old(self).nodes@,
                *pos,
                Node {
                    pointer: (CHUNK_OFFSET + block_id) as u32,
                    value: Voxel { r: 0, g: 0, b: 0 },
                },
                depth,
            ),
            ({
                let r = spec_resolve_cpu(
                    final(self).nodes@,
                    0,
                    Pos3::spec_origin(),
                    0,
                    u32::MAX,
                    *pos,
                );
                &&& r.1 == depth
                &&& final(self).nodes@[r.0] == Node {
                    pointer: (CHUNK_OFFSET + block_id) as u32,
                    value: Voxel { r: 0, g: 0, b: 0 },
                }
            }),
    {
        self.put_node(pos, Node::new(CHUNK_OFFSET + block_id, Voxel::new(0, 0, 0)), depth);
    }

    /// Convert this store into a fresh GPU working set: child pointers keep
    /// their structure, leaves and chunk references become packed leaf
    /// words. The converted set carries no centre positions (they exist
    /// only for nodes created by GPU-side subdivision), so its nodes cannot
    /// be collapsed until re-created through subdivision.
    pub fn to_octree(&self) -> (r: crate::octree::Octree)
        requires
            self.wf(),
            self.nodes@.len() <= crate::voxel::VOXEL_OFFSET,
        ensures
            r.wf(),
            r@.nodes.len() == self.nodes@.len(),
            r@.holes.len() == 0,
            forall|i: int|
                0 <= i < self.nodes@.len() ==> r@.nodes[i] == (
                if cpu_is_internal(self.nodes@, i) {
                    crate::octree::spec_create_node(self.nodes@[i].pointer as int)
                } else {
                    self.nodes@[i].value.spec_value()
                }),
            forall|i: int| 0 <= i < self.nodes@.len() ==> r@.positions[i] == Pos3::spec_origin(),
    {
        let mut nodes: Vec<u32> = Vec::new();
        let mut positions: Vec<Pos3> = Vec::new();
        let n = self.nodes.len();
        let mut i: usize = 0;
        while i < n
            invariant
                i <= n,
                n == self.nodes@.len(),
                self.wf(),
                n <= crate::voxel::VOXEL_OFFSET,
                nodes@.len() == i,
                positions@.len() == i,
                forall|j: int|
                    0 <= j < i ==> nodes@[j] == (
                    if cpu_is_internal(self.nodes@, j) {
                        crate::octree::spec_create_node(self.nodes@[j].pointer as int)
                    } else {
                        self.nodes@[j].value.spec_value()
                    }),
                forall|j: int| 0 <= j < i ==> positions@[j] == Pos3::spec_origin(),
            decreases n - i,
        {
            let node = self.nodes[i];
            if node.pointer < CHUNK_OFFSET {
                nodes.push(crate::octree::create_node(node.pointer as usize));
            } else {
                nodes.push(node.value.to_value());
            }
            positions.push(Pos3::origin());
            i += 1;
        }
        let r = crate::octree::Octree { nodes, positions, hole_stack: Vec::new() };
        proof {
            assert forall|i2: int|
                0 <= i2 < r@.nodes.len() && !crate::octree::spec_is_leaf(r@.nodes, i2)
                    implies crate::octree::spec_block_ok(
                r@.nodes.len() as int,
                crate::octree::spec_get_node(r@.nodes, i2) as int,
            ) by {
                if cpu_is_internal(self.nodes@, i2) {
                    crate::octree::lemma_create_node_round_trip(self.nodes@[i2].pointer as usize);
                } else {
                    crate::voxel::lemma_value_is_leaf(self.nodes@[i2].value);
                }
            }
        }
        r
    }

    /// The raw pointer words of every node, in order.
    pub fn raw(&self) -> (r: Vec<u32>)
        ensures
            r@.len() == self.nodes@.len(),
            forall|i: int| 0 <= i < r@.len() ==> r@[i] == self.nodes@[i].pointer,
    {
        let mut raw: Vec<u32> = Vec::new();
        let mut i: usize = 0;
        while i < self.nodes.len()
            invariant
                i <= self.nodes@.len(),
                raw@.len() == i,
                forall|j: int| 0 <= j < i ==> raw@[j] == self.nodes@[j].pointer,
            decreases self.nodes@.len() - i,
        {
            raw.push(self.nodes[i].pointer);
            i += 1;
        }
        raw
    }
}

} // verus!
