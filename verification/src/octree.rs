use vstd::prelude::*;

use crate::pos::{child_index, pos_offset, spec_child_index, spec_pos_offset, Pos3};
use crate::voxel::{lemma_value_is_leaf, Voxel, VOXEL_OFFSET};

verus! {

/// The GPU-resident working set: a flat array of packed node words mirrored
/// to the GPU, a CPU-side centre position for every node, and the hole stack
/// of freed child blocks available for reuse.
///
/// A packed word, once its low 4 tag bits are shifted away, is a child-block
/// pointer when below [`VOXEL_OFFSET`] and a voxel leaf otherwise.
pub struct Octree {
    pub nodes: Vec<u32>,
    pub positions: Vec<Pos3>,
    pub hole_stack: Vec<usize>,
}

/// The mathematical state of an [`Octree`].
pub struct OctreeModel {
    pub nodes: Seq<u32>,
    pub positions: Seq<Pos3>,
    pub holes: Seq<usize>,
}

impl View for Octree {
    type V = OctreeModel;

    open spec fn view(&self) -> OctreeModel {
        OctreeModel { nodes: self.nodes@, positions: self.positions@, holes: self.hole_stack@ }
    }
}

/// The unpacked value of the node word at `i`.
pub open spec fn spec_get_node(nodes: Seq<u32>, i: int) -> u32 {
    nodes[i] >> 4
}

/// Whether node `i` is a voxel leaf (as opposed to a child-block pointer).
pub open spec fn spec_is_leaf(nodes: Seq<u32>, i: int) -> bool {
    spec_get_node(nodes, i) >= VOXEL_OFFSET
}

/// A valid child-block base: past the root block, aligned to blocks of 8,
/// and entirely inside the array.
pub open spec fn spec_block_ok(len: int, p: int) -> bool {
    &&& 8 <= p
    &&& p % 8 == 0
    &&& p + 8 <= len
}

/// Whether `node` lies inside some freed block of the hole stack. A slot in
/// a freed block is unreachable and will be overwritten wholesale when the
/// block is reused, so mutations must never target such a slot.
pub open spec fn spec_in_free_block(holes: Seq<usize>, node: int) -> bool {
    exists|k: int| 0 <= k < holes.len() && (#[trigger] holes[k]) <= node < holes[k] + 8
}

/// The packed node word holding a child-block pointer `p`.
pub open spec fn spec_create_node(p: int) -> u32 {
    (p as u32) << 4
}

/// The placeholder colour a collapsed node shows until the authoritative
/// collapse value is fetched.
pub open spec fn spec_collapse_placeholder() -> u32 {
    (Voxel { r: 255, g: 0, b: 0 }).spec_value()
}

/// Well-formedness of the working set: positions parallel the nodes, the
/// array is whole blocks starting with the root block, every pointer and
/// every hole names a valid block, and the array never grows into the range
/// where a pointer word would be mistaken for a leaf.
pub open spec fn model_wf(m: OctreeModel) -> bool {
    &&& m.positions.len() == m.nodes.len()
    &&& 8 <= m.nodes.len() <= VOXEL_OFFSET
    &&& m.nodes.len() % 8 == 0
    &&& forall|i: int|
        0 <= i < m.nodes.len() && !spec_is_leaf(m.nodes, i) ==> spec_block_ok(
            m.nodes.len() as int,
            #[trigger] spec_get_node(m.nodes, i) as int,
        )
    &&& forall|k: int|
        0 <= k < m.holes.len() ==> spec_block_ok(m.nodes.len() as int, #[trigger] m.holes[k] as int)
}

/// Packing a block index into a node word and unpacking it again is exact
/// for every index the well-formedness bound admits.
pub proof fn lemma_create_node_round_trip(p: usize)
    requires
        p <= VOXEL_OFFSET,
    ensures
        spec_create_node(p as int) >> 4 == p,
        spec_create_node(p as int) >> 4 < VOXEL_OFFSET || p == VOXEL_OFFSET,
{
    assert(p <= 134217728 ==> ((p as u32) << 4) >> 4 == p && ((p as u32) << 4) >> 4 <= 134217728)
        by (bit_vector);
}

/// One subdivision step on the model: the leaf at `node` becomes a pointer
/// to a block of 8 children initialised from `vals`, placed in the most
/// recently freed block if one exists and appended at the tail otherwise.
/// Child centres derive from the parent's centre and the per-octant offset
/// at `depth`.
pub open spec fn spec_subdivide(m: OctreeModel, node: int, vals: Seq<Voxel>, depth: u32) -> OctreeModel {
    let pos = m.positions[node];
    if m.holes.len() > 0 {
        let blk = m.holes.last() as int;
        OctreeModel {
            nodes: Seq::new(
                m.nodes.len(),
                |j: int|
                    if blk <= j < blk + 8 {
                        vals[j - blk].spec_value()
                    } else if j == node {
                        spec_create_node(blk)
                    } else {
                        m.nodes[j]
                    },
            ),
            positions: Seq::new(
                m.positions.len(),
                |j: int|
                    if blk <= j < blk + 8 {
                        pos.spec_add(spec_pos_offset((j - blk) as usize, depth))
                    } else {
                        m.positions[j]
                    },
            ),
            holes: m.holes.drop_last(),
        }
    } else {
        let blk = m.nodes.len() as int;
        OctreeModel {
            nodes: m.nodes.update(node, spec_create_node(blk)) + Seq::new(
                8,
                |j: int| vals[j].spec_value(),
            ),
            positions: m.positions + Seq::new(
                8,
                |j: int| pos.spec_add(spec_pos_offset(j as usize, depth)),
            ),
            holes: m.holes,
        }
    }
}

/// One unsubdivision step on the model: a pointer node frees its child block
/// onto the hole stack and reverts to a placeholder leaf; a node that is
/// already a leaf is left untouched.
pub open spec fn spec_unsubdivide(m: OctreeModel, node: int) -> OctreeModel {
    if spec_is_leaf(m.nodes, node) {
        m
    } else {
        OctreeModel {
            nodes: m.nodes.update(node, spec_collapse_placeholder()),
            positions: m.positions,
            holes: m.holes.push(spec_get_node(m.nodes, node) as usize),
        }
    }
}

/// The depth bound a traversal runs under: the caller's explicit bound, or
/// the whole index range when none is given.
pub open spec fn spec_limit(max_depth: Option<u32>) -> u32 {
    match max_depth {
        Some(d) => d,
        None => u32::MAX,
    }
}

/// The traversal primitive on packed node words: starting from the block at
/// `base` (a node centred at `node_pos`, reached at `depth`), pick the octant
/// of `pos` at each level, stepping the centre by the per-octant offset, and
/// stop at the first leaf word or when the depth bound is reached. Returns
/// the final node index, its depth and its centre.
pub open spec fn spec_resolve(
    nodes: Seq<u32>,
    base: int,
    node_pos: Pos3,
    depth: u32,
    limit: u32,
    pos: Pos3,
) -> (int, u32, Pos3)
    decreases limit - depth,
{
    let d2 = (depth + 1) as u32;
    let child = spec_child_index(pos, node_pos);
    let idx = base + child;
    let np = node_pos.spec_add(spec_pos_offset(child, d2));
    if spec_get_node(nodes, idx) >= VOXEL_OFFSET || depth + 1 >= limit {
        (idx, d2, np)
    } else {
        spec_resolve(nodes, spec_get_node(nodes, idx) as int, np, d2, limit, pos)
    }
}

/// Every traversal that starts inside a well-formed array stays inside it,
/// deepens by at least one level and never passes the bound, and when it
/// stops short of the bound it stopped at a leaf word.
pub proof fn lemma_resolve_bounds(
    nodes: Seq<u32>,
    base: int,
    node_pos: Pos3,
    depth: u32,
    limit: u32,
    pos: Pos3,
)
    requires
        forall|i: int|
            0 <= i < nodes.len() && !spec_is_leaf(nodes, i) ==> spec_block_ok(
                nodes.len() as int,
                #[trigger] spec_get_node(nodes, i) as int,
            ),
        0 <= base,
        base + 8 <= nodes.len(),
        depth < limit,
    ensures
        ({
            let r = spec_resolve(nodes, base, node_pos, depth, limit, pos);
            &&& 0 <= r.0 < nodes.len()
            &&& depth < r.1 <= limit
            &&& (r.1 < limit ==> spec_is_leaf(nodes, r.0))
        }),
    decreases limit - depth,
{
    let d2 = (depth + 1) as u32;
    let child = spec_child_index(pos, node_pos);
    let idx = base + child;
    let np = node_pos.spec_add(spec_pos_offset(child, d2));
    if spec_get_node(nodes, idx) >= VOXEL_OFFSET || depth + 1 >= limit {
    } else {
        lemma_resolve_bounds(nodes, spec_get_node(nodes, idx) as int, np, d2, limit, pos);
    }
}

impl Octree {
    pub open spec fn wf(&self) -> bool {
        model_wf(self@)
    }

    /// A fresh working set: the root block of 8 children taken from `mask`,
    /// each centred at its depth-1 octant centre, and no holes.
    pub fn new(mask: &Vec<Voxel>) -> (octree: Octree)
        requires
            mask@.len() == 8,
        ensures
            octree.wf(),
            octree@.nodes.len() == 8,
            octree@.holes.len() == 0,
            forall|i: int| 0 <= i < 8 ==> octree@.nodes[i] == mask@[i].spec_value(),
            forall|i: int|
                0 <= i < 8 ==> octree@.positions[i] == spec_pos_offset(i as usize, 1),
    {
        let mut nodes: Vec<u32> = Vec::new();
        let mut positions: Vec<Pos3> = Vec::new();
        let hole_stack: Vec<usize> = Vec::new();
        let mut i: usize = 0;
        while i < 8
            invariant
                i <= 8,
                nodes@.len() == i,
                positions@.len() == i,
                mask@.len() == 8,
                forall|j: int| 0 <= j < i ==> nodes@[j] == mask@[j].spec_value(),
                forall|j: int| 0 <= j < i ==> positions@[j] == spec_pos_offset(j as usize, 1),
            decreases 8 - i,
        {
            nodes.push(mask[i].to_value());
            positions.push(pos_offset(i, 1));
            i += 1;
        }
        proof {
            assert forall|i0: int| 0 <= i0 < 8 && !spec_is_leaf(nodes@, i0) implies spec_block_ok(
                8int,
                spec_get_node(nodes@, i0) as int,
            ) by {
                lemma_value_is_leaf(mask@[i0]);
            }
        }
        Octree { nodes, positions, hole_stack }
    }

    /// The unpacked value of the node word at `index`.
    pub fn get_node(&self, index: usize) -> (v: u32)
        requires
            index < self@.nodes.len(),
        ensures
            v == spec_get_node(self@.nodes, index as int),
    {
        self.nodes[index] >> 4
    }

    /// Whether `node` lies inside some freed block of the hole stack.
    pub fn in_free_block(&self, node: usize) -> (r: bool)
        ensures
            r == spec_in_free_block(self@.holes, node as int),
    {
        let mut k: usize = 0;
        while k < self.hole_stack.len()
            invariant
                k <= self@.holes.len(),
                forall|j: int|
                    0 <= j < k ==> !((#[trigger] self@.holes[j]) <= node < self@.holes[j] + 8),
            decreases self@.holes.len() - k,
        {
            let h = self.hole_stack[k];
            if h <= node && node - h < 8 {
                return true;
            }
            k += 1;
        }
        false
    }

    /// Subdivide the leaf at `node` into a block of 8 children initialised
    /// from `mask`, reusing the most recently freed block when one exists
    /// and appending at the tail otherwise. Calling this on a node that is
    /// already subdivided is a programming error and is excluded, as is a
    /// stale index pointing into a freed block.
    pub fn subdivide(&mut self, node: usize, mask: &Vec<Voxel>, depth: u32)
        requires
            old(self).wf(),
            node < old(self)@.nodes.len(),
            spec_is_leaf(old(self)@.nodes, node as int),
            mask@.len() == 8,
            !spec_in_free_block(old(self)@.holes, node as int),
            old(self)@.nodes.len() + 8 <= VOXEL_OFFSET,
        ensures
            final(self).wf(),
            final(self)@ == spec_subdivide(old(self)@, node as int, mask@, depth),
    {
        let ghost m0 = self@;
        let pos = self.positions[node];
        let popped = self.hole_stack.pop();
        match popped {
            Some(blk) => {
                proof {
                    assert(m0.holes.last() == blk);
                    lemma_create_node_round_trip(blk);
                }
                self.nodes.set(node, create_node(blk));
                let mut i: usize = 0;
                while i < 8
                    invariant
                        i <= 8,
                        mask@.len() == 8,
                        spec_block_ok(m0.nodes.len() as int, blk as int),
                        node < m0.nodes.len(),
                        self@.nodes.len() == m0.nodes.len(),
                        self@.positions.len() == m0.positions.len(),
                        m0.positions.len() == m0.nodes.len(),
                        self@.holes == m0.holes.drop_last(),
                        pos == m0.positions[node as int],
                        forall|j: int|
                            0 <= j < self@.nodes.len() ==> self@.nodes[j] == (
                            if blk <= j < blk + i {
                                mask@[j - blk].spec_value()
                            } else if j == node {
                                spec_create_node(blk as int)
                            } else {
                                m0.nodes[j]
                            }),
                        forall|j: int|
                            0 <= j < self@.positions.len() ==> self@.positions[j] == (
                            if blk <= j < blk + i {
                                pos.spec_add(spec_pos_offset((j - blk) as usize, depth))
                            } else {
                                m0.positions[j]
                            }),
                    decreases 8 - i,
                {
                    self.nodes.set(blk + i, mask[i].to_value());
                    self.positions.set(blk + i, pos.add(&pos_offset(i, depth)));
                    i += 1;
                }
                proof {
                    let m2 = spec_subdivide(m0, node as int, mask@, depth);
                    assert(self@.nodes =~= m2.nodes);
                    assert(self@.positions =~= m2.positions);
                    self.lemma_wf_after_subdivide(m0, node as int, mask@, depth, blk as int);
                }
            },
            None => {
                let blk = self.nodes.len();
                proof {
                    lemma_create_node_round_trip(blk);
                }
                self.nodes.set(node, create_node(blk));
                let mut i: usize = 0;
                while i < 8
                    invariant
                        i <= 8,
                        mask@.len() == 8,
                        node < m0.nodes.len(),
                        blk == m0.nodes.len(),
                        self@.nodes.len() == m0.nodes.len() + i,
                        self@.positions.len() == m0.positions.len() + i,
                        m0.positions.len() == m0.nodes.len(),
                        self@.holes == m0.holes,
                        pos == m0.positions[node as int],
                        forall|j: int|
                            0 <= j < self@.nodes.len() ==> self@.nodes[j] == (
                            if blk <= j < blk + i {
                                mask@[j - blk].spec_value()
                            } else if j == node {
                                spec_create_node(blk as int)
                            } else {
                                m0.nodes[j]
                            }),
                        forall|j: int|
                            0 <= j < self@.positions.len() ==> self@.positions[j] == (
                            if blk <= j < blk + i {
                                pos.spec_add(spec_pos_offset((j - blk) as usize, depth))
                            } else {
                                m0.positions[j]
                            }),
                    decreases 8 - i,
                {
                    self.nodes.push(mask[i].to_value());
                    self.positions.push(pos.add(&pos_offset(i, depth)));
                    i += 1;
                }
                proof {
                    let m2 = spec_subdivide(m0, node as int, mask@, depth);
                    assert(self@.nodes =~= m2.nodes);
                    assert(self@.positions =~= m2.positions);
                    self.lemma_wf_after_subdivide(m0, node as int, mask@, depth, blk as int);
                }
            },
        }
    }

    /// The new state after a subdivision is well-formed again.
    proof fn lemma_wf_after_subdivide(&self, m0: OctreeModel, node: int, vals: Seq<Voxel>, depth: u32, blk: int)
        requires
            model_wf(m0),
            0 <= node < m0.nodes.len(),
            vals.len() == 8,
            m0.nodes.len() + 8 <= VOXEL_OFFSET,
            spec_block_ok(self@.nodes.len() as int, blk),
            self@ == spec_subdivide(m0, node, vals, depth),
            m0.holes.len() > 0 ==> blk == m0.holes.last(),
            m0.holes.len() == 0 ==> blk == m0.nodes.len(),
        ensures
            self.wf(),
    {
        let m = self@;
        lemma_create_node_round_trip(blk as usize);
        assert forall|i: int| 0 <= i < m.nodes.len() && !spec_is_leaf(m.nodes, i) implies spec_block_ok(
            m.nodes.len() as int,
            spec_get_node(m.nodes, i) as int,
        ) by {
            if blk <= i < blk + 8 {
                lemma_value_is_leaf(vals[i - blk]);
                assert(m.nodes[i] == vals[i - blk].spec_value());
            } else if i == node {
                assert(m.nodes[i] == spec_create_node(blk));
            } else if i < m0.nodes.len() {
                assert(m.nodes[i] == m0.nodes[i]);
                assert(spec_get_node(m.nodes, i) == spec_get_node(m0.nodes, i));
                assert(spec_block_ok(m0.nodes.len() as int, spec_get_node(m0.nodes, i) as int));
            } else {
                lemma_value_is_leaf(vals[i - m0.nodes.len()]);
                assert(m.nodes[i] == vals[i - m0.nodes.len()].spec_value());
            }
        }
        assert forall|k: int| 0 <= k < m.holes.len() implies spec_block_ok(
            m.nodes.len() as int,
            m.holes[k] as int,
        ) by {
            assert(m.holes[k] == m0.holes[k]);
            assert(spec_block_ok(m0.nodes.len() as int, m0.holes[k] as int));
        }
        assert(m.nodes.len() % 8 == 0);
    }

    /// Free the child block of the pointer node at `node` onto the hole
    /// stack and revert the node to a placeholder leaf. On a node that is
    /// already a leaf this is a no-op: duplicate collapse requests arrive
    /// legitimately from racing feedback and are tolerated.
    pub fn unsubdivide(&mut self, node: usize)
        requires
            old(self).wf(),
            node < old(self)@.nodes.len(),
            !spec_is_leaf(old(self)@.nodes, node as int) ==> old(self)@.positions[node as int]
                != Pos3::spec_origin(),
        ensures
            final(self).wf(),
            final(self)@ == spec_unsubdivide(old(self)@, node as int),
    {
        let t = self.get_node(node);
        if t >= VOXEL_OFFSET {
            return ;
        }
        self.hole_stack.push(t as usize);
        let placeholder = Voxel::new(255, 0, 0);
        self.nodes.set(node, placeholder.to_value());
        proof {
            lemma_value_is_leaf(placeholder);
            let m0 = old(self)@;
            let m = self@;
            assert(m.nodes[node as int] == placeholder.spec_value());
            assert(spec_is_leaf(m.nodes, node as int));
            assert forall|i: int|
                0 <= i < m.nodes.len() && !spec_is_leaf(m.nodes, i) implies spec_block_ok(
                m.nodes.len() as int,
                spec_get_node(m.nodes, i) as int,
            ) by {
                if i != node {
                    assert(m.nodes[i] == m0.nodes[i]);
                    assert(spec_get_node(m.nodes, i) == spec_get_node(m0.nodes, i));
                    assert(spec_block_ok(m0.nodes.len() as int, spec_get_node(m0.nodes, i) as int));
                }
            }
            assert forall|k: int| 0 <= k < m.holes.len() implies spec_block_ok(
                m.nodes.len() as int,
                m.holes[k] as int,
            ) by {
                if k < m0.holes.len() {
                    assert(m.holes[k] == m0.holes[k]);
                    assert(spec_block_ok(m0.nodes.len() as int, m0.holes[k] as int));
                } else {
                    assert(m.holes[k] == t as usize);
                    assert(spec_block_ok(m0.nodes.len() as int, spec_get_node(m0.nodes, node as int) as int));
                }
            }
        }
    }

    /// Overwrite the leaf at `node` with the packed word of `value`: the
    /// collapse path fetches the authoritative colour after a node reverts
    /// to a leaf.
    pub fn set_leaf(&mut self, node: usize, value: Voxel)
        requires
            old(self).wf(),
            node < old(self)@.nodes.len(),
            spec_is_leaf(old(self)@.nodes, node as int),
        ensures
            final(self).wf(),
            final(self)@.nodes == old(self)@.nodes.update(node as int, value.spec_value()),
            final(self)@.positions == old(self)@.positions,
            final(self)@.holes == old(self)@.holes,
    {
        self.nodes.set(node, value.to_value());
        proof {
            lemma_value_is_leaf(value);
            let m0 = old(self)@;
            let m = self@;
            assert(m.nodes[node as int] == value.spec_value());
            assert(spec_is_leaf(m.nodes, node as int));
            assert forall|i: int|
                0 <= i < m.nodes.len() && !spec_is_leaf(m.nodes, i) implies spec_block_ok(
                m.nodes.len() as int,
                spec_get_node(m.nodes, i) as int,
            ) by {
                if i != node {
                    assert(m.nodes[i] == m0.nodes[i]);
                    assert(spec_get_node(m.nodes, i) == spec_get_node(m0.nodes, i));
                    assert(spec_block_ok(m0.nodes.len() as int, spec_get_node(m0.nodes, i) as int));
                }
            }
            assert forall|k: int| 0 <= k < m.holes.len() implies spec_block_ok(
                m.nodes.len() as int,
                m.holes[k] as int,
            ) by {
                assert(m.holes[k] == m0.holes[k]);
                assert(spec_block_ok(m0.nodes.len() as int, m0.holes[k] as int));
            }
        }
    }

    /// Resolve `pos` to a node: walk from the root block, at each level
    /// descending into the octant on the `>=` side of each centre plane, and
    /// stop at the first leaf or at `max_depth`. Returns the node index, the
    /// depth reached and the node's centre.
    pub fn find_voxel(&self, pos: &Pos3, max_depth: Option<u32>) -> (r: (usize, u32, Pos3))
        requires
            self.wf(),
            max_depth matches Some(d) ==> d >= 1,
        ensures
            ({
                let s = spec_resolve(
                    self@.nodes,
                    0,
                    Pos3::spec_origin(),
                    0,
                    spec_limit(max_depth),
                    *pos,
                );
                &&& r.0 == s.0
                &&& r.1 == s.1
                &&& r.2 == s.2
                &&& r.0 < self@.nodes.len()
                &&& 1 <= r.1 <= spec_limit(max_depth)
                &&& (r.1 < spec_limit(max_depth) ==> spec_is_leaf(self@.nodes, s.0))
            }),
    {
        let limit: u32 = match max_depth {
            Some(d) => d,
            None => u32::MAX,
        };
        let mut base: usize = 0;
        let mut node_pos = Pos3::origin();
        let mut depth: u32 = 0;
        proof {
            lemma_resolve_bounds(self@.nodes, 0, Pos3::spec_origin(), 0, limit, *pos);
        }
        loop
            invariant
                self.wf(),
                limit == spec_limit(max_depth),
                depth < limit,
                base + 8 <= self@.nodes.len(),
                spec_resolve(self@.nodes, base as int, node_pos, depth, limit, *pos)
                    == spec_resolve(
                    self@.nodes,
                    0,
                    Pos3::spec_origin(),
                    0,
                    limit,
                    *pos,
                ),
            decreases limit - depth,
        {
            proof {
                lemma_resolve_bounds(self@.nodes, base as int, node_pos, depth, limit, *pos);
            }
            depth = depth + 1;
            let child = child_index(pos, &node_pos);
            let idx = base + child;
            node_pos = node_pos.add(&pos_offset(child, depth));
            let v = self.nodes[idx] >> 4;
            if v >= VOXEL_OFFSET || depth >= limit {
                return (idx, depth, node_pos);
            }
            base = v as usize;
        }
    }

    /// The node words padded with zeros up to `size`, the layout the GPU
    /// buffer upload expects.
    pub fn expanded(&self, size: usize) -> (r: Vec<u32>)
        requires
            size >= self@.nodes.len(),
        ensures
            r@.len() == size,
            forall|i: int| 0 <= i < self@.nodes.len() ==> r@[i] == self@.nodes[i],
            forall|i: int| self@.nodes.len() <= i < size ==> r@[i] == 0u32,
    {
        let mut out = self.nodes.clone();
        proof {
            assert(out@ =~= self@.nodes);
        }
        while out.len() < size
            invariant
                self@.nodes.len() <= out@.len() <= size,
                forall|i: int| 0 <= i < self@.nodes.len() ==> out@[i] == self@.nodes[i],
                forall|i: int| self@.nodes.len() <= i < out@.len() ==> out@[i] == 0u32,
            decreases size - out@.len(),
        {
            out.push(0);
        }
        out
    }

    /// The raw node words as mirrored to the GPU.
    pub fn raw_data(&self) -> (r: &Vec<u32>)
        ensures
            r@ == self@.nodes,
    {
        &self.nodes
    }

    /// The centre offset of child `child_index` relative to its parent, at
    /// a subdivision step landing on `depth`.
    pub fn pos_offset(child_index: usize, depth: u32) -> (p: Pos3)
        ensures
            p == spec_pos_offset(child_index, depth),
    {
        pos_offset(child_index, depth)
    }
}

/// The packed node word holding the child-block pointer `value`.
pub fn create_node(value: usize) -> (r: u32)
    requires
        value <= VOXEL_OFFSET,
    ensures
        r == spec_create_node(value as int),
        r >> 4 == value,
{
    proof {
        lemma_create_node_round_trip(value);
    }
    (value as u32) << 4
}

/// Unsubdividing the same node twice collapses to unsubdividing it once:
/// the second call finds a leaf and must leave the state alone, so no
/// duplicate block index is ever pushed onto the hole stack.
pub proof fn lemma_unsubdivide_idempotent(m: OctreeModel, node: int)
    requires
        0 <= node < m.nodes.len(),
    ensures
        spec_unsubdivide(spec_unsubdivide(m, node), node) == spec_unsubdivide(m, node),
{
    if !spec_is_leaf(m.nodes, node) {
        lemma_value_is_leaf(Voxel { r: 255, g: 0, b: 0 });
        let m1 = spec_unsubdivide(m, node);
        assert(m1.nodes[node] == spec_collapse_placeholder());
        assert(spec_is_leaf(m1.nodes, node));
    }
}

/// Hole reuse: subdivide a leaf `a` (the fresh block lands at the old tail),
/// free it again, and subdivide any other leaf `b` of the starting range:
/// the new children reuse exactly the freed block, every one of the 8
/// reused slots holds only the new data, and the hole stack is empty again.
pub proof fn lemma_hole_reuse(
    m0: OctreeModel,
    a: int,
    va: Seq<Voxel>,
    da: u32,
    b: int,
    vb: Seq<Voxel>,
    db: u32,
)
    requires
        model_wf(m0),
        m0.holes.len() == 0,
        0 <= a < m0.nodes.len(),
        0 <= b < m0.nodes.len(),
        va.len() == 8,
        vb.len() == 8,
        m0.nodes.len() + 8 <= VOXEL_OFFSET,
    ensures
        ({
            let blk = m0.nodes.len() as int;
            let m3 = spec_subdivide(spec_unsubdivide(spec_subdivide(m0, a, va, da), a), b, vb, db);
            &&& spec_get_node(m3.nodes, b) == blk
            &&& forall|c: int| 0 <= c < 8 ==> m3.nodes[blk + c] == vb[c].spec_value()
            &&& m3.holes.len() == 0
            &&& m3.nodes.len() == m0.nodes.len() + 8
        }),
{
    let blk = m0.nodes.len() as int;
    let m1 = spec_subdivide(m0, a, va, da);
    lemma_create_node_round_trip(blk as usize);
    assert(spec_get_node(m1.nodes, a) == blk);
    assert(!spec_is_leaf(m1.nodes, a));
    let m2 = spec_unsubdivide(m1, a);
    assert(m2.holes =~= seq![blk as usize]);
    let m3 = spec_subdivide(m2, b, vb, db);
    assert(m2.holes.last() == blk as usize);
    assert(m3.holes =~= m2.holes.drop_last());
    assert(spec_get_node(m3.nodes, b) == blk) by {
        assert(m3.nodes[b] == spec_create_node(blk));
    }
}

} // verus!
