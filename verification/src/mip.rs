use vstd::prelude::*;

use crate::cpu_octree::{cpu_wf, CpuOctree, Node, CHUNK_OFFSET};
use crate::voxel::Voxel;
use crate::world::{chunk_map_of, World};

verus! {

/// The advertised mip colour of every resident chunk of a world.
pub open spec fn spec_world_mips(w: World) -> Map<u32, Voxel> {
    Map::new(
        |id: u32| chunk_map_of(w.chunks).dom().contains(id),
        |id: u32| chunk_map_of(w.chunks)[id].top_mip,
    )
}

/// The mip colours a pass can see: those of the given world, or none when
/// run without one (chunk references then contribute nothing).
pub open spec fn spec_opt_mips(world: Option<&World>) -> Map<u32, Voxel> {
    match world {
        Some(w) => spec_world_mips(*w),
        None => Map::empty(),
    }
}

/// Whether node `i` is a child pointer whose block can be averaged over.
pub open spec fn mip_internal_ok(nodes: Seq<Node>, i: int) -> bool {
    &&& 0 <= i < nodes.len()
    &&& nodes[i].pointer < CHUNK_OFFSET
    &&& i < nodes[i].pointer
    &&& nodes[i].pointer + 8 <= nodes.len()
}

/// One channel of an average clamped up to 1, so that averaging genuine
/// colours never produces the reserved empty sentinel.
pub open spec fn spec_clamp1(x: int) -> u8 {
    if x < 1 {
        1u8
    } else {
        x as u8
    }
}

/// The average colour of the accumulated `(r, g, b, count)` sums: each
/// channel the integer mean clamped up to 1. A block with no contributing
/// children averages to the darkest non-sentinel grey `(1, 1, 1)`, the
/// documented resolution of the all-empty case.
pub open spec fn spec_clampavg(sums: (int, int, int, int)) -> Voxel {
    if sums.3 == 0 {
        Voxel { r: 1, g: 1, b: 1 }
    } else {
        Voxel {
            r: spec_clamp1(sums.0 / sums.3),
            g: spec_clamp1(sums.1 / sums.3),
            b: spec_clamp1(sums.2 / sums.3),
        }
    }
}

/// Distance-to-tail measure for the mutually recursive mip definitions.
pub open spec fn mip_rank(len: int, x: int) -> int {
    if x <= len {
        len - x
    } else {
        0
    }
}

/// The colour node `i` shows after the mip pass when it is a child pointer:
/// the clamped average of its children's contributions. Any other node
/// keeps its stored colour.
pub open spec fn spec_mip_value(nodes: Seq<Node>, mips: Map<u32, Voxel>, i: int) -> Voxel
    decreases 20 * mip_rank(nodes.len() as int, i) + 1,
{
    if !mip_internal_ok(nodes, i) {
        nodes[i].value
    } else {
        spec_clampavg(spec_mip_sums(nodes, mips, nodes[i].pointer as int, 0))
    }
}

/// The summed contributions of children `c..8` of the block at `p`:
/// non-empty contributions add their channels and count, the rest are
/// skipped.
pub open spec fn spec_mip_sums(nodes: Seq<Node>, mips: Map<u32, Voxel>, p: int, c: int) -> (
    int,
    int,
    int,
    int,
)
    decreases 20 * mip_rank(nodes.len() as int, p) + 4 + (8 - c),
{
    if c < 0 || c >= 8 {
        (0, 0, 0, 0)
    } else {
        let rest = spec_mip_sums(nodes, mips, p, c + 1);
        match spec_mip_contrib(nodes, mips, p + c) {
            Some(v) => if !v.spec_is_empty() {
                (rest.0 + v.r, rest.1 + v.g, rest.2 + v.b, rest.3 + 1)
            } else {
                rest
            },
            None => rest,
        }
    }
}

/// What one child contributes to its parent's average: a chunk reference
/// contributes the referenced chunk's mip colour when that chunk is known
/// (and nothing otherwise — a not-yet-resident chunk is treated as empty),
/// a child pointer contributes its own mip value, and a plain leaf its
/// stored colour. Empty contributions are filtered by the summation.
pub open spec fn spec_mip_contrib(nodes: Seq<Node>, mips: Map<u32, Voxel>, j: int) -> Option<Voxel>
    decreases 20 * mip_rank(nodes.len() as int, j) + 2,
{
    if j < 0 || j >= nodes.len() {
        None
    } else if nodes[j].pointer > CHUNK_OFFSET {
        let id = (nodes[j].pointer - CHUNK_OFFSET) as u32;
        if mips.dom().contains(id) {
            Some(mips[id])
        } else {
            None
        }
    } else if nodes[j].pointer < CHUNK_OFFSET {
        Some(spec_mip_value(nodes, mips, j))
    } else {
        Some(nodes[j].value)
    }
}

/// The colour stored at node `i` after the mip pass: child pointers carry
/// their averaged mip value, resident chunk references carry the referenced
/// chunk's mip, everything else is untouched.
pub open spec fn spec_mip_new_value(nodes: Seq<Node>, mips: Map<u32, Voxel>, i: int) -> Voxel {
    if mip_internal_ok(nodes, i) {
        spec_mip_value(nodes, mips, i)
    } else if 0 <= i < nodes.len() && nodes[i].pointer > CHUNK_OFFSET {
        let id = (nodes[i].pointer - CHUNK_OFFSET) as u32;
        if mips.dom().contains(id) {
            mips[id]
        } else {
            nodes[i].value
        }
    } else {
        nodes[i].value
    }
}

/// The whole node array after the mip pass: structure untouched, every
/// colour replaced by its mip value.
pub open spec fn spec_mip_pass(nodes: Seq<Node>, mips: Map<u32, Voxel>) -> Seq<Node> {
    Seq::new(
        nodes.len(),
        |i: int| Node { pointer: nodes[i].pointer, value: spec_mip_new_value(nodes, mips, i) },
    )
}

/// The chunk's own advertised colour after the pass: the clamped average of
/// the root block's contributions.
pub open spec fn spec_top_mip(nodes: Seq<Node>, mips: Map<u32, Voxel>) -> Voxel {
    spec_clampavg(spec_mip_sums(nodes, mips, 0, 0))
}

/// What one stored child contributes when the deeper levels have already
/// been folded: read directly off the current array, with chunk references
/// still resolved through the mip map.
pub open spec fn spec_stored_contrib(cur: Seq<Node>, mips: Map<u32, Voxel>, j: int) -> Option<
    Voxel,
> {
    if cur[j].pointer > CHUNK_OFFSET {
        let id = (cur[j].pointer - CHUNK_OFFSET) as u32;
        if mips.dom().contains(id) {
            Some(mips[id])
        } else {
            None
        }
    } else {
        Some(cur[j].value)
    }
}

/// The summed stored contributions of children `c..8` of the block at `p`.
pub open spec fn spec_stored_sums(cur: Seq<Node>, mips: Map<u32, Voxel>, p: int, c: int) -> (
    int,
    int,
    int,
    int,
)
    decreases 8 - c,
{
    if c < 0 || c >= 8 {
        (0, 0, 0, 0)
    } else {
        let rest = spec_stored_sums(cur, mips, p, c + 1);
        match spec_stored_contrib(cur, mips, p + c) {
            Some(v) => if !v.spec_is_empty() {
                (rest.0 + v.r, rest.1 + v.g, rest.2 + v.b, rest.3 + 1)
            } else {
                rest
            },
            None => rest,
        }
    }
}

/// Once a block's children hold their final mip colours, averaging the
/// stored values equals the recursive mip average over the array as it
/// stood before the pass.
proof fn lemma_sums_agree(
    nodes0: Seq<Node>,
    mips: Map<u32, Voxel>,
    cur: Seq<Node>,
    p: int,
    c: int,
)
    requires
        cur.len() == nodes0.len(),
        cpu_wf(nodes0),
        0 <= p,
        p + 8 <= nodes0.len(),
        0 <= c <= 8,
        forall|j: int| p <= j < p + 8 ==> (#[trigger] cur[j]).pointer == nodes0[j].pointer,
        forall|j: int|
            p <= j < p + 8 ==> (#[trigger] cur[j]).value == spec_mip_new_value(nodes0, mips, j),
    ensures
        spec_stored_sums(cur, mips, p, c) == spec_mip_sums(nodes0, mips, p, c),
    decreases 8 - c,
{
    if 0 <= c < 8 {
        lemma_sums_agree(nodes0, mips, cur, p, c + 1);
        let j = p + c;
        assert(cur[j].pointer == nodes0[j].pointer);
        assert(cur[j].value == spec_mip_new_value(nodes0, mips, j));
        if nodes0[j].pointer < CHUNK_OFFSET {
            assert(mip_internal_ok(nodes0, j));
            assert(cur[j].value == spec_mip_value(nodes0, mips, j));
            assert(spec_stored_contrib(cur, mips, j) == Some(spec_mip_value(nodes0, mips, j)));
            assert(spec_mip_contrib(nodes0, mips, j) == Some(spec_mip_value(nodes0, mips, j)));
        } else if nodes0[j].pointer > CHUNK_OFFSET {
            assert(spec_stored_contrib(cur, mips, j) == spec_mip_contrib(nodes0, mips, j));
        } else {
            assert(spec_stored_contrib(cur, mips, j) == Some(nodes0[j].value));
        }
    }
}

/// The clamped average of a block's stored contributions, children read
/// from `nodes` and chunk references resolved through `world`.
fn block_avg(nodes: &Vec<Node>, world: Option<&World>, p: usize) -> (v: Voxel)
    requires
        p + 8 <= nodes@.len(),
    ensures
        v == spec_clampavg(spec_stored_sums(nodes@, spec_opt_mips(world), p as int, 0)),
{
    let ghost mips = spec_opt_mips(world);
    let n = nodes.len();
    let mut sr: u32 = 0;
    let mut sg: u32 = 0;
    let mut sb: u32 = 0;
    let mut count: u32 = 0;
    let mut c: usize = 8;
    while c > 0
        invariant
            c <= 8,
            n == nodes@.len(),
            p + 8 <= n,
            mips == spec_opt_mips(world),
            (sr as int, sg as int, sb as int, count as int) == spec_stored_sums(
                nodes@,
                mips,
                p as int,
                c as int,
            ),
            count + c <= 8,
            sr <= 255 * count,
            sg <= 255 * count,
            sb <= 255 * count,
        decreases c,
    {
        c -= 1;
        let nd = nodes[p + c];
        let cand: Option<Voxel> = if nd.pointer > CHUNK_OFFSET {
            match world {
                Some(w) => w.top_mip_of(nd.pointer - CHUNK_OFFSET),
                None => None,
            }
        } else {
            Some(nd.value)
        };
        proof {
            assert(cand == spec_stored_contrib(nodes@, mips, p as int + c as int));
        }
        match cand {
            Some(v) => {
                if !(v.r == 0 && v.g == 0 && v.b == 0) {
                    sr = sr + v.r as u32;
                    sg = sg + v.g as u32;
                    sb = sb + v.b as u32;
                    count = count + 1;
                }
            },
            None => {},
        }
    }
    if count == 0 {
        Voxel::new(1, 1, 1)
    } else {
        proof {
            assert(sr / count <= 255 && sg / count <= 255 && sb / count <= 255)
                by (nonlinear_arith)
                requires
                    1 <= count,
                    sr <= 255 * count,
                    sg <= 255 * count,
                    sb <= 255 * count,
            ;
        }
        let r = sr / count;
        let g = sg / count;
        let b = sb / count;
        Voxel::new(
            if r < 1 {
                1u8
            } else {
                #[verifier::truncate] (r as u8)
            },
            if g < 1 {
                1u8
            } else {
                #[verifier::truncate] (g as u8)
            },
            if b < 1 {
                1u8
            } else {
                #[verifier::truncate] (b as u8)
            },
        )
    }
}

impl CpuOctree {
    /// The bottom-up mip pass: every child pointer's colour becomes the
    /// clamped average of its children's final colours (deepest levels
    /// first, so children are averaged before their parents), every
    /// resident chunk reference takes on the referenced chunk's advertised
    /// mip, and the root block's average becomes the chunk's own `top_mip`.
    /// Children equal to the empty sentinel are skipped, and a reference to
    /// a chunk the given world does not hold (or any reference, when run
    /// without a world) contributes nothing.
    pub fn generate_mip_tree(&mut self, world: Option<&World>)
        requires
            old(self).wf(),
        ensures
            final(self).wf(),
            final(self).nodes@ == spec_mip_pass(old(self).nodes@, spec_opt_mips(world)),
            final(self).top_mip == spec_top_mip(old(self).nodes@, spec_opt_mips(world)),
    {
        let ghost nodes0 = self.nodes@;
        let ghost mips = spec_opt_mips(world);
        let n = self.nodes.len();
        let mut i: usize = n;
        while i > 0
            invariant
                i <= n,
                n == self.nodes@.len(),
                nodes0.len() == n,
                cpu_wf(nodes0),
                mips == spec_opt_mips(world),
                forall|j: int| 0 <= j < i ==> self.nodes@[j] == nodes0[j],
                forall|j: int|
                    i <= j < n ==> self.nodes@[j] == spec_mip_pass(nodes0, mips)[j],
            decreases i,
        {
            i -= 1;
            let ghost pre = self.nodes@;
            let node = self.nodes[i];
            proof {
                assert(pre[i as int] == nodes0[i as int]);
            }
            if node.pointer < CHUNK_OFFSET {
                let p = node.pointer as usize;
                proof {
                    assert(mip_internal_ok(nodes0, i as int));
                }
                let avg = block_avg(&self.nodes, world, p);
                self.nodes.set(i, Node { pointer: node.pointer, value: avg });
                proof {
                    assert forall|jj: int|
                        p <= jj < p + 8 implies (#[trigger] pre[jj]).pointer == nodes0[jj].pointer
                        && pre[jj].value == spec_mip_new_value(nodes0, mips, jj) by {
                        assert(pre[jj] == spec_mip_pass(nodes0, mips)[jj]);
                    }
                    lemma_sums_agree(nodes0, mips, pre, p as int, 0);
                    assert(avg == spec_mip_value(nodes0, mips, i as int));
                }
            } else if node.pointer > CHUNK_OFFSET {
                let id = node.pointer - CHUNK_OFFSET;
                let got: Option<Voxel> = match world {
                    Some(w) => w.top_mip_of(id),
                    None => None,
                };
                match got {
                    Some(v) => {
                        self.nodes.set(i, Node { pointer: node.pointer, value: v });
                    },
                    None => {},
                }
            }
            proof {
                assert forall|j: int|
                    i <= j < n implies self.nodes@[j] == spec_mip_pass(nodes0, mips)[j] by {
                    if j > i {
                        assert(self.nodes@[j] == pre[j]);
                    } else {
                        assert(self.nodes@[j].pointer == nodes0[j].pointer);
                    }
                }
            }
        }
        let avg = block_avg(&self.nodes, world, 0);
        proof {
            assert forall|jj: int|
                0 <= jj < 8 implies (#[trigger] self.nodes@[jj]).pointer == nodes0[jj].pointer
                && self.nodes@[jj].value == spec_mip_new_value(nodes0, mips, jj) by {
                assert(self.nodes@[jj] == spec_mip_pass(nodes0, mips)[jj]);
            }
            lemma_sums_agree(nodes0, mips, self.nodes@, 0, 0);
        }
        self.top_mip = avg;
        proof {
            assert(self.nodes@ =~= spec_mip_pass(nodes0, mips));
            assert forall|j: int|
                0 <= j < self.nodes@.len() && crate::cpu_octree::cpu_is_internal(self.nodes@, j)
                    implies crate::cpu_octree::cpu_block_ok(
                self.nodes@.len() as int,
                self.nodes@[j].pointer as int,
                j,
            ) by {
                assert(self.nodes@[j].pointer == nodes0[j].pointer);
            }
        }
    }
}

impl World {
    /// Regenerate the mip pyramid of the resident chunk under `id`: its
    /// node colours fold bottom-up into averages, chunk references take
    /// their referenced chunks' advertised mips (a reference back into
    /// `id` itself sees the colour advertised before this pass), and the
    /// chunk's own `top_mip` becomes the root average.
    pub fn generate_mip_tree(&mut self, id: u32)
        requires
            old(self).wf(),
            old(self).chunks_map().dom().contains(id),
        ensures
            final(self).wf(),
            final(self).chunks_map().dom() == old(self).chunks_map().dom(),
            final(self).chunks_map()[id].nodes@ == spec_mip_pass(
                old(self).chunks_map()[id].nodes@,
                spec_world_mips(*old(self)),
            ),
            final(self).chunks_map()[id].top_mip == spec_top_mip(
                old(self).chunks_map()[id].nodes@,
                spec_world_mips(*old(self)),
            ),
            forall|k: u32|
                k != id && old(self).chunks_map().dom().contains(k)
                    ==> final(self).chunks_map()[k] == old(self).chunks_map()[k],
            final(self).loading_ids() == old(self).loading_ids(),
            final(self).path == old(self).path,
    {
        let got = self.get_chunk(id);
        match got {
            Some(mut chunk) => {
                chunk.generate_mip_tree(Some(&*self));
                self.insert_chunk(id, chunk);
                proof {
                    assert(self.chunks_map().dom() =~= old(self).chunks_map().dom());
                }
            },
            None => {
                proof {
                    assert(false);
                }
            },
        }
    }
}

} // verus!
