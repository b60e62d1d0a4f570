use vstd::prelude::*;

use crate::cpu_octree::{
    cpu_block_ok, cpu_is_internal, cpu_wf, spec_added_block, spec_default_top_mip,
    spec_put_leaf, spec_resolve_depth, CpuOctree, Node, CHUNK_OFFSET,
};
use crate::pos::{Pos3, POS_UNIT};
use crate::voxel::Voxel;
use vstd::string::StringSliceAdditionalSpecFns;
use vstd::arithmetic::power2::{
    lemma2_to64, lemma_pow2_adds, lemma_pow2_strictly_increases, pow2,
};

verus! {

/// Why a model or chunk file was rejected. Loaders return these instead of
/// panicking on malformed input; callers surface them to the user.
#[derive(Debug, PartialEq, Eq)]
pub enum LoadError {
    /// The file extension names no supported format.
    UnknownFileType,
    /// A voxel model whose three dimensions differ.
    NotACube,
    /// A voxel model whose side length is not a power of two.
    NotPowerOfTwo,
    /// A model side length the fixed-point coordinates cannot split (1, or
    /// beyond 2^30).
    UnsupportedSize,
    /// The requested octree depth exceeds the encoded tree's top level.
    DepthTooDeep,
    /// The data ends before the encoded structure does.
    Truncated,
    /// The encoded tree would outgrow the node array's pointer range.
    TooLarge,
    /// A voxel file that parses but holds no model.
    EmptyModel,
    /// A voxel whose palette index has no palette entry.
    BadPalette,
    /// A chunk byte dump whose length is not whole 8-byte records.
    BadLength,
    /// A chunk byte dump whose records do not describe a well-formed tree.
    Malformed,
    /// The voxel-model parser rejected the bytes, with its message.
    ParseFailed(String),
}

/// The 32-bit little-endian word at `off`.
pub open spec fn spec_le32(data: Seq<u8>, off: int) -> u32 {
    (data[off] as u32) | (data[off + 1] as u32) << 8 | (data[off + 2] as u32) << 16 | (data[off
        + 3] as u32) << 24
}

/// The sum of the first `k` per-level node counts of an svo file, whose
/// count table starts at byte 20.
pub open spec fn spec_sum_counts(data: Seq<u8>, k: int) -> int
    decreases k,
{
    if k <= 0 {
        0
    } else {
        spec_sum_counts(data, k - 1) + spec_le32(data, 20 + 4 * (k - 1))
    }
}

/// The breadth-first fill pass of the svo loader: walk the node array from
/// `node_index`; every occupied placeholder (a cross-chunk pointer) consumes
/// one child-mask byte while masks remain below `node_end`, turning the node
/// into a pointer to a fresh block appended at the tail. Errors mirror the
/// loader: masks past the data are `Truncated`, growth past the pointer
/// range is `TooLarge`.
pub open spec fn spec_svo_fill(
    nodes: Seq<Node>,
    data: Seq<u8>,
    data_start: int,
    node_end: int,
    data_index: int,
    node_index: int,
) -> Result<Seq<Node>, LoadError>
    decreases
            (if data_index <= node_end {
                node_end - data_index
            } else {
                0
            }),
            (if node_index <= nodes.len() {
                nodes.len() - node_index
            } else {
                0
            }),
{
    if node_index >= nodes.len() {
        Ok(nodes)
    } else if nodes[node_index].pointer > CHUNK_OFFSET {
        if data_index < node_end {
            if data_start + data_index >= data.len() {
                Err(LoadError::Truncated)
            } else if nodes.len() + 8 > CHUNK_OFFSET {
                Err(LoadError::TooLarge)
            } else {
                let child_mask = data[data_start + data_index];
                let n2 = nodes.update(
                    node_index,
                    Node { pointer: nodes.len() as u32, value: nodes[node_index].value },
                ) + spec_added_block(child_mask, nodes.len() as int);
                spec_svo_fill(n2, data, data_start, node_end, data_index + 1, node_index + 1)
            }
        } else {
            spec_svo_fill(nodes, data, data_start, node_end, data_index + 1, node_index + 1)
        }
    } else {
        spec_svo_fill(nodes, data, data_start, node_end, data_index, node_index + 1)
    }
}

/// What loading an svo byte dump yields: the top level sits at byte 16, the
/// per-level count table at byte 20, the mask stream after it; the root
/// block is drawn from the first mask and the fill pass consumes the masks
/// of the first `octree_depth` levels.
pub open spec fn spec_load_octree(data: Seq<u8>, octree_depth: u32) -> Result<Seq<Node>, LoadError> {
    if data.len() < 21 {
        Err(LoadError::Truncated)
    } else {
        let top_level = data[16] as int;
        let data_start = 20 + 4 * (top_level + 1);
        if data.len() < data_start + 1 {
            Err(LoadError::Truncated)
        } else if octree_depth > top_level {
            Err(LoadError::DepthTooDeep)
        } else {
            spec_svo_fill(
                spec_added_block(data[data_start], 0),
                data,
                data_start,
                spec_sum_counts(data, octree_depth as int),
                1,
                0,
            )
        }
    }
}

impl CpuOctree {
    /// Load a binary sparse-voxel-octree dump (`.rsvo`), truncated to
    /// `octree_depth` levels of subdivision.
    pub fn load_octree(data: &Vec<u8>, octree_depth: u32) -> (r: Result<CpuOctree, LoadError>)
        ensures
            match r {
                Ok(o) => spec_load_octree(data@, octree_depth) == Ok::<Seq<Node>, LoadError>(
                    o.nodes@,
                ) && o.wf() && o.top_mip == spec_default_top_mip(),
                Err(e) => spec_load_octree(data@, octree_depth) == Err::<Seq<Node>, LoadError>(e),
            },
    {
        if data.len() < 21 {
            return Err(LoadError::Truncated);
        }
        let top_level = data[16] as usize;
        let data_start: usize = 20 + 4 * (top_level + 1);
        if data.len() < data_start + 1 {
            return Err(LoadError::Truncated);
        }
        if octree_depth as usize > top_level {
            return Err(LoadError::DepthTooDeep);
        }
        let mut node_end: u64 = 0;
        let mut k: usize = 0;
        while k < octree_depth as usize
            invariant
                k <= octree_depth <= top_level <= 255,
                data@.len() >= 20 + 4 * (top_level + 1) + 1,
                node_end == spec_sum_counts(data@, k as int),
                node_end <= k * 0xffff_ffff,
            decreases octree_depth - k,
        {
            let off = 20 + 4 * k;
            let w = (data[off] as u32) | (data[off + 1] as u32) << 8 | (data[off + 2] as u32) << 16
                | (data[off + 3] as u32) << 24;
            proof {
                assert(w == spec_le32(data@, off as int));
            }
            node_end = node_end + w as u64;
            k += 1;
        }
        let mut octree = CpuOctree::new(data[data_start]);
        let ghost start_nodes = octree.nodes@;
        let mut data_index: u64 = 1;
        let mut node_index: usize = 0;
        while node_index < octree.nodes.len()
            invariant
                cpu_wf(octree.nodes@),
                octree.top_mip == spec_default_top_mip(),
                node_index <= octree.nodes@.len(),
                1 <= data_index <= 1 + node_index,
                top_level <= 255,
                data_start == 20 + 4 * (top_level + 1),
                data@.len() >= data_start + 1,
                node_end == spec_sum_counts(data@, octree_depth as int),
                spec_svo_fill(
                    octree.nodes@,
                    data@,
                    data_start as int,
                    node_end as int,
                    data_index as int,
                    node_index as int,
                ) == spec_load_octree(data@, octree_depth),
            decreases
                    (if data_index <= node_end {
                        node_end - data_index
                    } else {
                        0
                    }),
                    octree.nodes@.len() - node_index,
        {
            let ghost pre = octree.nodes@;
            let node = octree.nodes[node_index];
            if node.pointer > CHUNK_OFFSET {
                if data_index < node_end {
                    if data_start as u64 + data_index >= data.len() as u64 {
                        return Err(LoadError::Truncated);
                    }
                    if octree.nodes.len() + 8 > CHUNK_OFFSET as usize {
                        return Err(LoadError::TooLarge);
                    }
                    let child_mask = data[data_start + data_index as usize];
                    let len = octree.nodes.len();
                    octree.nodes.set(
                        node_index,
                        Node { pointer: #[verifier::truncate] (len as u32), value: node.value },
                    );
                    octree.add_voxels(child_mask);
                    proof {
                        let n2 = pre.update(
                            node_index as int,
                            Node { pointer: pre.len() as u32, value: pre[node_index as int].value },
                        ) + spec_added_block(child_mask, pre.len() as int);
                        assert(octree.nodes@ =~= n2);
                        assert forall|i2: int|
                            0 <= i2 < octree.nodes@.len() && cpu_is_internal(octree.nodes@, i2)
                                implies cpu_block_ok(
                            octree.nodes@.len() as int,
                            octree.nodes@[i2].pointer as int,
                            i2,
                        ) by {
                            if i2 == node_index {
                                assert(octree.nodes@[i2].pointer == len as u32);
                            } else if i2 < pre.len() {
                                assert(octree.nodes@[i2] == pre[i2]);
                            } else {
                                assert(octree.nodes@[i2] == spec_added_block(
                                    child_mask,
                                    len as int,
                                )[i2 - len]);
                            }
                        }
                    }
                }
                data_index = data_index + 1;
            }
            node_index = node_index + 1;
        }
        Ok(octree)
    }
}

/// Byte `k` of the fixed 8-byte record of a node: the pointer word
/// little-endian, then the three colour channels, then one padding zero.
pub open spec fn spec_node_byte(n: Node, k: int) -> u8 {
    if k == 0 {
        n.pointer as u8
    } else if k == 1 {
        (n.pointer >> 8) as u8
    } else if k == 2 {
        (n.pointer >> 16) as u8
    } else if k == 3 {
        (n.pointer >> 24) as u8
    } else if k == 4 {
        n.value.r
    } else if k == 5 {
        n.value.g
    } else if k == 6 {
        n.value.b
    } else {
        0u8
    }
}

/// The chunk byte dump: each node as one 8-byte record, in array order.
pub open spec fn spec_bin(nodes: Seq<Node>) -> Seq<u8> {
    Seq::new(nodes.len() * 8, |i: int| spec_node_byte(nodes[i / 8], i % 8))
}

/// The node array read back from a chunk byte dump (one node per whole
/// 8-byte record).
pub open spec fn spec_parse_nodes(data: Seq<u8>) -> Seq<Node> {
    Seq::new(
        data.len() / 8,
        |j: int|
            Node {
                pointer: spec_le32(data, 8 * j),
                value: Voxel { r: data[8 * j + 4], g: data[8 * j + 5], b: data[8 * j + 6] },
            },
    )
}

/// What loading a chunk byte dump yields: records must be whole, and the
/// nodes they describe must form a well-formed tree; nothing else about the
/// dump is trusted.
pub open spec fn spec_from_bin(data: Seq<u8>) -> Result<Seq<Node>, LoadError> {
    if data.len() % 8 != 0 {
        Err(LoadError::BadLength)
    } else if !cpu_wf(spec_parse_nodes(data)) {
        Err(LoadError::Malformed)
    } else {
        Ok(spec_parse_nodes(data))
    }
}

impl CpuOctree {
    /// Serialize the node array to the chunk byte layout: 8 bytes per node,
    /// pointer first, colour channels after, one padding zero.
    pub fn bin(&self) -> (r: Vec<u8>)
        requires
            self.nodes@.len() * 8 <= usize::MAX,
        ensures
            r@ == spec_bin(self.nodes@),
    {
        let mut out: Vec<u8> = Vec::new();
        let n = self.nodes.len();
        let mut i: usize = 0;
        while i < n
            invariant
                i <= n,
                n == self.nodes@.len(),
                n * 8 <= usize::MAX,
                out@.len() == i * 8,
                forall|j: int| 0 <= j < i * 8 ==> out@[j] == spec_bin(self.nodes@)[j],
            decreases n - i,
        {
            let ghost pre = out@;
            let node = self.nodes[i];
            let p = node.pointer;
            out.push(#[verifier::truncate] (p as u8));
            out.push(#[verifier::truncate] ((p >> 8) as u8));
            out.push(#[verifier::truncate] ((p >> 16) as u8));
            out.push(#[verifier::truncate] ((p >> 24) as u8));
            out.push(node.value.r);
            out.push(node.value.g);
            out.push(node.value.b);
            out.push(0);
            i += 1;
            proof {
                assert forall|j: int| 0 <= j < i * 8 implies out@[j] == spec_bin(self.nodes@)[j] by {
                    if j < pre.len() {
                        assert(out@[j] == pre[j]);
                    } else {
                        assert(j / 8 == i - 1 && j % 8 == j - (i - 1) * 8);
                    }
                }
            }
        }
        proof {
            assert(out@ =~= spec_bin(self.nodes@));
        }
        out
    }

    /// Read a chunk back from its byte dump. The dump carries no mip colour,
    /// so the result advertises the empty sentinel until a mip pass runs.
    /// Pointers are validated rather than trusted: a dump that does not
    /// describe a well-formed tree is rejected.
    pub fn from_bin(bin: &Vec<u8>) -> (r: Result<CpuOctree, LoadError>)
        ensures
            match r {
                Ok(o) => spec_from_bin(bin@) == Ok::<Seq<Node>, LoadError>(o.nodes@) && o.wf()
                    && o.top_mip == (Voxel { r: 0, g: 0, b: 0 }),
                Err(e) => spec_from_bin(bin@) == Err::<Seq<Node>, LoadError>(e),
            },
    {
        if bin.len() % 8 != 0 {
            return Err(LoadError::BadLength);
        }
        let n = bin.len() / 8;
        let mut nodes: Vec<Node> = Vec::new();
        let mut j: usize = 0;
        while j < n
            invariant
                j <= n,
                n == bin@.len() / 8,
                8 * n <= usize::MAX,
                bin@.len() % 8 == 0,
                nodes@.len() == j,
                forall|t: int| 0 <= t < j ==> nodes@[t] == spec_parse_nodes(bin@)[t],
            decreases n - j,
        {
            let off = 8 * j;
            let pointer = (bin[off] as u32) | (bin[off + 1] as u32) << 8 | (bin[off + 2] as u32)
                << 16 | (bin[off + 3] as u32) << 24;
            nodes.push(
                Node { pointer, value: Voxel { r: bin[off + 4], g: bin[off + 5], b: bin[off + 6] } },
            );
            j += 1;
        }
        proof {
            assert(nodes@ =~= spec_parse_nodes(bin@));
        }
        if nodes.len() < 8 || nodes.len() % 8 != 0 || nodes.len() > CHUNK_OFFSET as usize {
            proof {
                assert(nodes@ == spec_parse_nodes(bin@));
                assert(!cpu_wf(spec_parse_nodes(bin@)));
                assert(spec_from_bin(bin@) == Err::<Seq<Node>, LoadError>(LoadError::Malformed));
            }
            return Err(LoadError::Malformed);
        }
        let mut i: usize = 0;
        while i < nodes.len()
            invariant
                i <= nodes@.len(),
                bin@.len() % 8 == 0,
                nodes@ == spec_parse_nodes(bin@),
                8 <= nodes@.len() <= CHUNK_OFFSET,
                nodes@.len() % 8 == 0,
                forall|t: int|
                    0 <= t < i && cpu_is_internal(nodes@, t) ==> cpu_block_ok(
                        nodes@.len() as int,
                        (#[trigger] nodes@[t].pointer) as int,
                        t,
                    ),
            decreases nodes@.len() - i,
        {
            let nd = nodes[i];
            if nd.pointer < CHUNK_OFFSET {
                let p = nd.pointer as usize;
                if !(p > i && p >= 8 && p % 8 == 0 && p + 8 <= nodes.len()) {
                    proof {
                        assert(!cpu_wf(nodes@));
                    }
                    return Err(LoadError::Malformed);
                }
            }
            i += 1;
        }
        Ok(CpuOctree { nodes, top_mip: Voxel::new(0, 0, 0) })
    }
}

/// Serialization round trip: the byte dump of a well-formed node array reads
/// back as exactly that array.
pub proof fn lemma_bin_round_trip(nodes: Seq<Node>)
    requires
        cpu_wf(nodes),
    ensures
        spec_from_bin(spec_bin(nodes)) == Ok::<Seq<Node>, LoadError>(nodes),
{
    let data = spec_bin(nodes);
    assert(data.len() == nodes.len() * 8);
    assert(spec_parse_nodes(data) =~= nodes) by {
        assert forall|j: int| 0 <= j < nodes.len() implies spec_parse_nodes(data)[j] == nodes[j] by {
            assert(data[8 * j] == spec_node_byte(nodes[j], 0));
            assert(data[8 * j + 1] == spec_node_byte(nodes[j], 1));
            assert(data[8 * j + 2] == spec_node_byte(nodes[j], 2));
            assert(data[8 * j + 3] == spec_node_byte(nodes[j], 3));
            assert(data[8 * j + 4] == spec_node_byte(nodes[j], 4));
            assert(data[8 * j + 5] == spec_node_byte(nodes[j], 5));
            assert(data[8 * j + 6] == spec_node_byte(nodes[j], 6));
            let p = nodes[j].pointer;
            assert((p as u8 as u32) | ((p >> 8) as u8 as u32) << 8 | ((p >> 16) as u8 as u32) << 16
                | ((p >> 24) as u8 as u32) << 24 == p) by (bit_vector);
        }
    }
}

/// One voxel of a parsed model: grid coordinates and a palette index.
#[derive(Copy, Clone, PartialEq, Eq, Structural, Debug)]
pub struct VoxPoint {
    pub x: u8,
    pub y: u8,
    pub z: u8,
    pub i: u8,
}

/// One parsed voxel model: its grid dimensions and its voxels.
pub struct VoxModel {
    pub size_x: u32,
    pub size_y: u32,
    pub size_z: u32,
    pub voxels: Vec<VoxPoint>,
}

/// A parsed voxel file: its models and its palette as plain RGB colours.
pub struct VoxFile {
    pub models: Vec<VoxModel>,
    pub palette: Vec<Voxel>,
}

/// What the MagicaVoxel parser yields for given bytes: the models and
/// palette on success, the parser's message on failure. The parse depends
/// on the bytes alone, so its result carries this name and the loader
/// contracts speak through it.
pub uninterp spec fn spec_vox_parse(data: Seq<u8>) -> Result<VoxFile, Seq<char>>;

/// Relies on dot_vox::load_bytes: parses MagicaVoxel bytes into models and a
/// palette, converted here field by field into plain sizes, coordinates and
/// RGB palette entries; a parse failure becomes its message.
#[verifier::external_body]
fn parse_vox_bytes(data: &Vec<u8>) -> (r: Result<VoxFile, String>)
    ensures
        r matches Ok(vf) ==> (spec_vox_parse(data@) matches Ok(pf) && vf.models@ == pf.models@
            && vf.palette@ == pf.palette@),
        r matches Err(s) ==> (spec_vox_parse(data@) matches Err(m) && s@ == m),
{
    match dot_vox::load_bytes(data.as_slice()) {
        Ok(d) => Ok(VoxFile {
            models: d.models.iter().map(|m| VoxModel {
                size_x: m.size.x,
                size_y: m.size.y,
                size_z: m.size.z,
                voxels: m.voxels.iter().map(|v| VoxPoint { x: v.x, y: v.y, z: v.z, i: v.i }).collect(),
            }).collect(),
            palette: d.palette.iter().map(|c| Voxel { r: c.r, g: c.g, b: c.b }).collect(),
        }),
        Err(e) => Err(e.to_owned()),
    }
}

/// The floor of the base-2 logarithm.
pub open spec fn spec_log2(n: u32) -> u32
    decreases n,
{
    if n <= 1 {
        0
    } else {
        (1 + spec_log2(n / 2)) as u32
    }
}

/// One axis of a model coordinate mapped into the fixed-point cube:
/// `c / size` rescaled from `[0, 1]` to `[-1, 1]`, exact because a
/// power-of-two `size` divides `POS_UNIT`.
pub open spec fn spec_vox_axis(size: u32, c: int) -> i64 {
    ((2 * c - size) * ((POS_UNIT as int) / (size as int))) as i64
}

/// A model voxel's centre in cube coordinates: the model's x axis runs
/// mirrored, and the model's z-up frame becomes the cube's y-up frame.
pub open spec fn spec_vox_pos(size: u32, v: VoxPoint) -> Pos3 {
    Pos3 {
        x: spec_vox_axis(size, size - 1 - v.x),
        y: spec_vox_axis(size, v.z as int),
        z: spec_vox_axis(size, v.y as int),
    }
}

/// An insertion that applies only when the tree can take it: the walk to
/// `pos` must not already be deeper than `depth`, and the missing levels
/// must fit in the pointer range. A voxel whose insertion cannot apply
/// leaves the tree unchanged.
pub open spec fn spec_try_put(nodes: Seq<Node>, pos: Pos3, leaf: Node, depth: u32) -> Seq<Node> {
    let d0 = spec_resolve_depth(nodes, pos);
    if 1 <= depth < u32::MAX && d0 <= depth && nodes.len() + 8 * (depth - d0) <= CHUNK_OFFSET {
        spec_put_leaf(nodes, pos, leaf, depth)
    } else {
        nodes
    }
}

/// The model voxels placed one by one, in file order, each as a plain leaf
/// of its palette colour at the model's depth; a palette index past the
/// palette rejects the file.
pub open spec fn spec_vox_fold(
    nodes: Seq<Node>,
    palette: Seq<Voxel>,
    voxels: Seq<VoxPoint>,
    k: int,
    size: u32,
    depth: u32,
) -> Result<Seq<Node>, LoadError>
    decreases voxels.len() - k,
{
    if k < 0 || k >= voxels.len() {
        Ok(nodes)
    } else {
        let v = voxels[k];
        if v.i >= palette.len() {
            Err(LoadError::BadPalette)
        } else {
            spec_vox_fold(
                spec_try_put(
                    nodes,
                    spec_vox_pos(size, v),
                    Node { pointer: CHUNK_OFFSET, value: palette[v.i as int] },
                    depth,
                ),
                palette,
                voxels,
                k + 1,
                size,
                depth,
            )
        }
    }
}

/// What building a store from a parsed voxel file yields: the file must
/// hold a model, the model must be a cube with a power-of-two side that the
/// fixed-point coordinates can split, and then its voxels are folded into a
/// fresh empty store at the side's depth.
pub open spec fn spec_from_vox_file(
    models: Seq<VoxModel>,
    palette: Seq<Voxel>,
) -> Result<Seq<Node>, LoadError> {
    if models.len() == 0 {
        Err(LoadError::EmptyModel)
    } else {
        let m = models[0];
        if m.size_x != m.size_y || m.size_x != m.size_z {
            Err(LoadError::NotACube)
        } else if m.size_x == 0 || (m.size_x & (m.size_x - 1) as u32) != 0 {
            Err(LoadError::NotPowerOfTwo)
        } else {
            let d = spec_log2(m.size_x);
            if d < 1 || d > 30 {
                Err(LoadError::UnsupportedSize)
            } else {
                spec_vox_fold(spec_added_block(0, 0), palette, m.voxels@, 0, m.size_x, d)
            }
        }
    }
}

/// The floor of the base-2 logarithm of a 32-bit value is at most 31, and
/// at least 1 from 2 upward.
pub proof fn lemma_log2_le_31(n: u32)
    requires
        n >= 1,
    ensures
        pow2(spec_log2(n) as nat) <= n,
        n < pow2((spec_log2(n) + 1) as nat),
        spec_log2(n) <= 31,
        n >= 2 ==> spec_log2(n) >= 1,
    decreases n,
{
    lemma2_to64();
    if n <= 1 {
    } else {
        lemma_log2_le_31(n / 2);
        let y = spec_log2(n / 2);
        if y >= 31 {
            if y > 31 {
                lemma_pow2_strictly_increases(31nat, y as nat);
            }
            assert(false);
        }
        lemma_pow2_adds(1nat, y as nat);
        assert(pow2((1 + y) as nat) == 2 * pow2(y as nat));
        lemma_pow2_adds(1nat, (y + 1) as nat);
        assert(pow2((y + 2) as nat) == 2 * pow2((y + 1) as nat));
    }
}

/// The floor of the base-2 logarithm, by repeated halving.
pub fn log2_floor(n: u32) -> (d: u32)
    ensures
        d == spec_log2(n),
        d <= 31,
{
    let mut d: u32 = 0;
    let mut s = n;
    while s > 1
        invariant
            spec_log2(n) == d + spec_log2(s),
            s <= n,
            d <= 31,
        decreases s,
    {
        proof {
            lemma_log2_le_31(n);
            lemma_log2_le_31(s);
            lemma_log2_le_31(s / 2);
        }
        s = s / 2;
        d = d + 1;
    }
    proof {
        if n >= 1 {
            lemma_log2_le_31(n);
        }
    }
    d
}

/// One axis of a model coordinate mapped into the fixed-point cube.
fn vox_axis(size: u32, c: i64) -> (r: i64)
    requires
        2 <= size < 0x8000_0000u32,
        -65536 <= c < 0x8000_0000i64,
    ensures
        r == spec_vox_axis(size, c as int),
{
    let unit = POS_UNIT / (size as i64);
    let f = 2 * c - size as i64;
    proof {
        let szi = size as i64;
        assert(2 <= szi < 0x8000_0000i64 ==> 0 <= POS_UNIT / szi <= 0x2000_0000i64)
            by (nonlinear_arith);
        assert(f * unit <= 0x3000_0000_2000_0000i64 && f * unit >= -0x3000_0000_2000_0000i64)
            by (nonlinear_arith)
            requires
                -0x1_8000_0000i64 <= f <= 0x1_8000_0000i64,
                0 <= unit <= 0x2000_0000i64,
        ;
    }
    f * unit
}

impl CpuOctree {
    /// Build a store from a parsed voxel file: validate the first model's
    /// shape, then place each voxel of the model as a leaf of its palette
    /// colour at the model's natural depth.
    pub fn from_vox_file(vf: &VoxFile) -> (r: Result<CpuOctree, LoadError>)
        ensures
            match r {
                Ok(o) => spec_from_vox_file(vf.models@, vf.palette@) == Ok::<
                    Seq<Node>,
                    LoadError,
                >(o.nodes@) && o.wf() && o.top_mip == spec_default_top_mip(),
                Err(e) => spec_from_vox_file(vf.models@, vf.palette@) == Err::<
                    Seq<Node>,
                    LoadError,
                >(e),
            },
    {
        if vf.models.len() == 0 {
            return Err(LoadError::EmptyModel);
        }
        let m = &vf.models[0];
        if m.size_x != m.size_y || m.size_x != m.size_z {
            return Err(LoadError::NotACube);
        }
        if m.size_x == 0 || (m.size_x & (m.size_x - 1)) != 0 {
            return Err(LoadError::NotPowerOfTwo);
        }
        let size = m.size_x;
        let d = log2_floor(size);
        if d < 1 || d > 30 {
            return Err(LoadError::UnsupportedSize);
        }
        proof {
            lemma_log2_le_31(size);
            lemma2_to64();
            if size >= 0x8000_0000u32 {
                if (spec_log2(size) + 1) < 31 {
                    lemma_pow2_strictly_increases((spec_log2(size) + 1) as nat, 31nat);
                }
                assert(false);
            }
        }
        let mut octree = CpuOctree::new(0);
        let n = m.voxels.len();
        let mut k: usize = 0;
        while k < n
            invariant
                k <= n,
                n == m.voxels@.len(),
                2 <= size < 0x8000_0000u32,
                1 <= d <= 30,
                cpu_wf(octree.nodes@),
                octree.top_mip == spec_default_top_mip(),
                spec_vox_fold(octree.nodes@, vf.palette@, m.voxels@, k as int, size, d)
                    == spec_from_vox_file(vf.models@, vf.palette@),
            decreases n - k,
        {
            let v = m.voxels[k];
            if (v.i as usize) >= vf.palette.len() {
                return Err(LoadError::BadPalette);
            }
            let color = vf.palette[v.i as usize];
            let cx: i64 = size as i64 - 1 - v.x as i64;
            let p = Pos3 {
                x: vox_axis(size, cx),
                y: vox_axis(size, v.z as i64),
                z: vox_axis(size, v.y as i64),
            };
            proof {
                assert(p == spec_vox_pos(size, v));
            }
            let ghost pre = octree.nodes@;
            let probe = octree.find_voxel(&p, None);
            if probe.1 <= d && octree.nodes.len() + 8 * ((d - probe.1) as usize)
                <= CHUNK_OFFSET as usize {
                octree.put_in_voxel(&p, color, d);
            }
            proof {
                assert(octree.nodes@ == spec_try_put(
                    pre,
                    p,
                    Node { pointer: CHUNK_OFFSET, value: color },
                    d,
                ));
            }
            k += 1;
        }
        Ok(octree)
    }

    /// Load a MagicaVoxel model (`.vox`): parse the bytes, then build the
    /// store from the parsed models and palette. A parse failure surfaces
    /// with the parser's message; a parsed file yields exactly what
    /// `from_vox_file` makes of its named parse result.
    pub fn load_vox(file: &Vec<u8>) -> (r: Result<CpuOctree, LoadError>)
        ensures
            r matches Ok(o) ==> o.wf() && o.top_mip == spec_default_top_mip(),
            spec_vox_parse(file@) matches Err(m) ==> (r matches Err(e) && e matches
                LoadError::ParseFailed(s) && s@ == m),
            spec_vox_parse(file@) matches Ok(pf) ==> (match spec_from_vox_file(
                pf.models@,
                pf.palette@,
            ) {
                Ok(ns) => r matches Ok(o) && o.nodes@ == ns && o.wf() && o.top_mip
                    == spec_default_top_mip(),
                Err(e2) => r == Err::<CpuOctree, LoadError>(e2),
            }),
    {
        match parse_vox_bytes(file) {
            Ok(vf) => {
                proof {
                    let pf = spec_vox_parse(file@)->Ok_0;
                    assert(vf.models@ == pf.models@ && vf.palette@ == pf.palette@);
                }
                CpuOctree::from_vox_file(&vf)
            },
            Err(s) => Err(LoadError::ParseFailed(s)),
        }
    }
}

/// What the structure extractor yields per voxel of the first model: the
/// grid position re-centred on the model's midpoint (x mirrored about it,
/// the z-up frame turned y-up) and the palette index shifted up by one.
pub open spec fn spec_structure_points(
    models: Seq<VoxModel>,
) -> Result<Seq<(i32, i32, i32, u32)>, LoadError> {
    if models.len() == 0 {
        Err(LoadError::EmptyModel)
    } else {
        let m = models[0];
        if m.size_x > 65536 || m.size_y > 65536 {
            Err(LoadError::TooLarge)
        } else {
            Ok(
                Seq::new(
                    m.voxels@.len(),
                    |k: int|
                        (
                            ((m.size_x / 2) - m.voxels@[k].x) as i32,
                            m.voxels@[k].z as i32,
                            (m.voxels@[k].y - (m.size_y / 2)) as i32,
                            (m.voxels@[k].i + 1) as u32,
                        ),
                ),
            )
        }
    }
}

/// The grid positions and palette values of a parsed structure model, used
/// to stamp prefab structures into a chunk.
pub fn structure_from_file(vf: &VoxFile) -> (r: Result<Vec<(i32, i32, i32, u32)>, LoadError>)
    ensures
        match r {
            Ok(out) => spec_structure_points(vf.models@) == Ok::<
                Seq<(i32, i32, i32, u32)>,
                LoadError,
            >(out@),
            Err(e) => spec_structure_points(vf.models@) == Err::<
                Seq<(i32, i32, i32, u32)>,
                LoadError,
            >(e),
        },
{
    if vf.models.len() == 0 {
        return Err(LoadError::EmptyModel);
    }
    let m = &vf.models[0];
    if m.size_x > 65536 || m.size_y > 65536 {
        return Err(LoadError::TooLarge);
    }
    let half_x = (m.size_x / 2) as i32;
    let half_y = (m.size_y / 2) as i32;
    let n = m.voxels.len();
    let mut out: Vec<(i32, i32, i32, u32)> = Vec::new();
    let mut k: usize = 0;
    while k < n
        invariant
            k <= n,
            vf.models@.len() > 0,
            *m == vf.models@[0],
            n == m.voxels@.len(),
            m.size_x <= 65536,
            m.size_y <= 65536,
            half_x == (m.size_x / 2) as i32,
            half_y == (m.size_y / 2) as i32,
            out@.len() == k,
            forall|t: int|
                0 <= t < k ==> out@[t] == spec_structure_points(vf.models@)->Ok_0[t],
        decreases n - k,
    {
        let v = m.voxels[k];
        out.push((half_x - v.x as i32, v.z as i32, v.y as i32 - half_y, v.i as u32 + 1));
        k += 1;
    }
    proof {
        assert(out@ =~= spec_structure_points(vf.models@)->Ok_0);
    }
    Ok(out)
}

/// The voxel positions and values of a prefab structure model (`.vox`
/// bytes), in the shape the structure-stamping pass consumes: exactly what
/// `structure_from_file` makes of the named parse result, or the parser's
/// message.
pub fn load_structure(data: &Vec<u8>) -> (r: Result<Vec<(i32, i32, i32, u32)>, LoadError>)
    ensures
        spec_vox_parse(data@) matches Err(m) ==> (r matches Err(e) && e matches
            LoadError::ParseFailed(s) && s@ == m),
        spec_vox_parse(data@) matches Ok(pf) ==> (match spec_structure_points(pf.models@) {
            Ok(pts) => r matches Ok(out) && out@ == pts,
            Err(e2) => r == Err::<Vec<(i32, i32, i32, u32)>, LoadError>(e2),
        }),
{
    match parse_vox_bytes(data) {
        Ok(vf) => {
            proof {
                let pf = spec_vox_parse(data@)->Ok_0;
                assert(vf.models@ == pf.models@);
            }
            structure_from_file(&vf)
        },
        Err(s) => Err(LoadError::ParseFailed(s)),
    }
}

/// The bytes of the extension naming the binary octree format.
pub open spec fn spec_ext_rsvo(b: Seq<u8>) -> bool {
    b == seq![114u8, 115u8, 118u8, 111u8]
}

/// The bytes of the extension naming the MagicaVoxel model format.
pub open spec fn spec_ext_vox(b: Seq<u8>) -> bool {
    b == seq![118u8, 111u8, 120u8]
}

/// Load model bytes according to their file extension: `rsvo` as a binary
/// octree dump at the requested depth, `vox` as a MagicaVoxel model, and
/// anything else rejected as an unknown file type.
pub fn load_file_data(extension: &str, data: &Vec<u8>, octree_depth: u32) -> (r: Result<
    CpuOctree,
    LoadError,
>)
    ensures
        spec_ext_rsvo(extension.spec_bytes()) ==> (match r {
            Ok(o) => spec_load_octree(data@, octree_depth) == Ok::<Seq<Node>, LoadError>(o.nodes@)
                && o.wf() && o.top_mip == spec_default_top_mip(),
            Err(e) => spec_load_octree(data@, octree_depth) == Err::<Seq<Node>, LoadError>(e),
        }),
        spec_ext_vox(extension.spec_bytes()) ==> ((r matches Ok(o) ==> o.wf()) && (
        spec_vox_parse(data@) matches Err(m) ==> (r matches Err(e) && e matches
            LoadError::ParseFailed(s) && s@ == m)) && (spec_vox_parse(data@) matches Ok(pf) ==> (
        match spec_from_vox_file(pf.models@, pf.palette@) {
            Ok(ns) => r matches Ok(o) && o.nodes@ == ns && o.wf() && o.top_mip
                == spec_default_top_mip(),
            Err(e2) => r == Err::<CpuOctree, LoadError>(e2),
        }))),
        !spec_ext_rsvo(extension.spec_bytes()) && !spec_ext_vox(extension.spec_bytes()) ==> r
            == Err::<CpuOctree, LoadError>(LoadError::UnknownFileType),
{
    let b = extension.as_bytes();
    if b.len() == 4 && b[0] == 114 && b[1] == 115 && b[2] == 118 && b[3] == 111 {
        proof {
            assert(b@ =~= seq![114u8, 115u8, 118u8, 111u8]);
        }
        CpuOctree::load_octree(data, octree_depth)
    } else if b.len() == 3 && b[0] == 118 && b[1] == 111 && b[2] == 120 {
        proof {
            assert(b@ =~= seq![118u8, 111u8, 120u8]);
        }
        CpuOctree::load_vox(data)
    } else {
        proof {
            if spec_ext_rsvo(b@) {
                assert(b@[0] == 114u8 && b@[1] == 115u8 && b@[2] == 118u8 && b@[3] == 111u8);
                assert(false);
            }
            if spec_ext_vox(b@) {
                assert(b@[0] == 118u8 && b@[1] == 111u8 && b@[2] == 120u8);
                assert(false);
            }
        }
        Err(LoadError::UnknownFileType)
    }
}

} // verus!


