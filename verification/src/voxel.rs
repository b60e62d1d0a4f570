use vstd::prelude::*;

verus! {

/// Threshold in the packed GPU node word: after the low 4 bits are shifted
/// away, a value at or above `VOXEL_OFFSET` encodes a voxel leaf, and a value
/// below it encodes a pointer to a child block.
pub const VOXEL_OFFSET: u32 = 134217728;

/// A 3-byte RGB leaf value. `(0, 0, 0)` is the reserved "empty" sentinel:
/// it marks the absence of data and is never produced by mip averaging.
#[derive(Copy, Clone, PartialEq, Eq, Structural, Debug)]
pub struct Voxel {
    pub r: u8,
    pub g: u8,
    pub b: u8,
}

impl Voxel {
    /// The 24-bit packed colour: red in the high byte, blue in the low byte.
    pub open spec fn spec_cpu_value(self) -> u32 {
        (self.r as u32) << 16 | (self.g as u32) << 8 | (self.b as u32)
    }

    /// The packed GPU node word for this colour: the 24-bit value offset past
    /// the pointer range and shifted into the tag layout.
    pub open spec fn spec_value(self) -> u32 {
        ((VOXEL_OFFSET + self.spec_cpu_value()) as u32) << 4
    }

    /// Whether this is the reserved "no data" sentinel.
    pub open spec fn spec_is_empty(self) -> bool {
        self.r == 0 && self.g == 0 && self.b == 0
    }

    pub fn new(r: u8, g: u8, b: u8) -> (v: Voxel)
        ensures
            v == (Voxel { r, g, b }),
    {
        Voxel { r, g, b }
    }

    pub fn from_value(value: u32) -> (v: Voxel)
        ensures
            v.r == (value >> 16) as u8,
            v.g == (value >> 8) as u8,
            v.b == value as u8,
    {
        let r = #[verifier::truncate] ((value >> 16) as u8);
        let g = #[verifier::truncate] ((value >> 8) as u8);
        let b = #[verifier::truncate] (value as u8);
        Voxel::new(r, g, b)
    }

    pub fn to_value(&self) -> (value: u32)
        ensures
            value == self.spec_value(),
    {
        proof {
            lemma_cpu_value_bound(*self);
        }
        (VOXEL_OFFSET + self.to_cpu_value()) << 4
    }

    pub fn to_cpu_value(&self) -> (value: u32)
        ensures
            value == self.spec_cpu_value(),
    {
        proof {
            let r = self.r;
            let g = self.g;
            assert((r as u32) << 16 <= 0xff0000 && (g as u32) << 8 <= 0xff00) by (bit_vector);
        }
        (self.r as u32) << 16 | (self.g as u32) << 8 | self.b as u32
    }

    pub fn is_empty(&self) -> (e: bool)
        ensures
            e == self.spec_is_empty(),
    {
        self.r == 0 && self.g == 0 && self.b == 0
    }
}

/// The 24-bit packed colour always fits below the pointer offset.
pub proof fn lemma_cpu_value_bound(v: Voxel)
    ensures
        v.spec_cpu_value() <= 0xffffff,
        VOXEL_OFFSET + v.spec_cpu_value() < 0x10000000,
{
    let r = v.r;
    let g = v.g;
    let b = v.b;
    assert((r as u32) << 16 | (g as u32) << 8 | (b as u32) <= 0xffffff) by (bit_vector);
}

/// The packed word of every colour sits in the voxel range: the tag bits of a
/// leaf word are never confused with a child-block pointer.
pub proof fn lemma_value_is_leaf(v: Voxel)
    ensures
        v.spec_value() >> 4 >= VOXEL_OFFSET,
        v.spec_value() >> 4 < 0x10000000,
{
    lemma_cpu_value_bound(v);
    let c = v.spec_cpu_value();
    assert(c <= 0xffffff ==> (((VOXEL_OFFSET + c) as u32) << 4) >> 4 >= VOXEL_OFFSET
        && (((VOXEL_OFFSET + c) as u32) << 4) >> 4 < 0x10000000) by (bit_vector);
}

/// Packing a colour into a GPU word and unpacking it again restores every
/// channel: the 24-bit value survives the tag shift.
pub proof fn lemma_pack_round_trip(v: Voxel)
    ensures
        (v.spec_value() >> 4) - VOXEL_OFFSET == v.spec_cpu_value(),
        (v.spec_cpu_value() >> 16) as u8 == v.r,
        (v.spec_cpu_value() >> 8) as u8 == v.g,
        v.spec_cpu_value() as u8 == v.b,
{
    lemma_cpu_value_bound(v);
    let c = v.spec_cpu_value();
    assert(c <= 0xffffff ==> ((((VOXEL_OFFSET + c) as u32) << 4) >> 4) - VOXEL_OFFSET == c)
        by (bit_vector);
    let r = v.r;
    let g = v.g;
    let b = v.b;
    assert((((r as u32) << 16 | (g as u32) << 8 | (b as u32)) >> 16) as u8 == r
        && (((r as u32) << 16 | (g as u32) << 8 | (b as u32)) >> 8) as u8 == g
        && ((r as u32) << 16 | (g as u32) << 8 | (b as u32)) as u8 == b) by (bit_vector);
}

} // verus!
