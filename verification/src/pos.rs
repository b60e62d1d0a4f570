use vstd::prelude::*;

verus! {

/// Scale of the fixed-point cube coordinates: `POS_UNIT` stands for 1.0, so
/// the world cube `[-1, 1]` on each axis is `[-POS_UNIT, POS_UNIT]`.
pub const POS_UNIT: i64 = 1073741824;

/// A point of the octree cube in fixed-point coordinates: each component is
/// the real coordinate multiplied by `POS_UNIT`. Node centres at depth `d`
/// are exact in this scale for every depth up to 30; beyond that the
/// per-octant offset underflows to zero, mirroring the loss of resolution.
#[derive(Copy, Clone, PartialEq, Eq, Structural, Debug)]
pub struct Pos3 {
    pub x: i64,
    pub y: i64,
    pub z: i64,
}

/// Saturating sum of two coordinates: exact whenever the true sum fits in
/// the component type, clamped at the type's bounds otherwise.
pub open spec fn spec_sat_add(a: i64, b: i64) -> i64 {
    if a + b > i64::MAX {
        i64::MAX
    } else if a + b < i64::MIN {
        i64::MIN
    } else {
        (a + b) as i64
    }
}

pub fn sat_add(a: i64, b: i64) -> (r: i64)
    ensures
        r == spec_sat_add(a, b),
{
    if b >= 0 {
        if a > i64::MAX - b {
            i64::MAX
        } else {
            a + b
        }
    } else {
        if a < i64::MIN - b {
            i64::MIN
        } else {
            a + b
        }
    }
}

/// The per-axis half-size of a node at `depth`: `1 / 2^depth` in cube
/// coordinates, zero once the depth exceeds the fixed-point resolution.
pub open spec fn spec_axis_step(depth: u32) -> i64 {
    if depth <= 30 {
        POS_UNIT >> depth
    } else {
        0i64
    }
}

impl Pos3 {
    pub open spec fn spec_origin() -> Pos3 {
        Pos3 { x: 0, y: 0, z: 0 }
    }

    pub open spec fn spec_add(self, o: Pos3) -> Pos3 {
        Pos3 {
            x: spec_sat_add(self.x, o.x),
            y: spec_sat_add(self.y, o.y),
            z: spec_sat_add(self.z, o.z),
        }
    }

    pub fn new(x: i64, y: i64, z: i64) -> (p: Pos3)
        ensures
            p == (Pos3 { x, y, z }),
    {
        Pos3 { x, y, z }
    }

    pub fn origin() -> (p: Pos3)
        ensures
            p == Pos3::spec_origin(),
    {
        Pos3 { x: 0, y: 0, z: 0 }
    }

    pub fn add(&self, o: &Pos3) -> (p: Pos3)
        ensures
            p == self.spec_add(*o),
    {
        Pos3 {
            x: sat_add(self.x, o.x),
            y: sat_add(self.y, o.y),
            z: sat_add(self.z, o.z),
        }
    }

    pub fn is_origin(&self) -> (r: bool)
        ensures
            r == (*self == Pos3::spec_origin()),
    {
        self.x == 0 && self.y == 0 && self.z == 0
    }
}

/// The octant picked when descending from a node centred at `center` towards
/// `pos`: each axis contributes one bit, set exactly when the coordinate is
/// on the positive (`>=`) side of the centre plane. Ties go to the positive
/// child on every axis independently.
pub open spec fn spec_child_index(pos: Pos3, center: Pos3) -> usize {
    let bx: usize = if pos.x >= center.x { 1 } else { 0 };
    let by: usize = if pos.y >= center.y { 1 } else { 0 };
    let bz: usize = if pos.z >= center.z { 1 } else { 0 };
    (bx * 4 + by * 2 + bz) as usize
}

pub fn child_index(pos: &Pos3, center: &Pos3) -> (c: usize)
    ensures
        c == spec_child_index(*pos, *center),
        c < 8,
{
    let bx: usize = if pos.x >= center.x { 1 } else { 0 };
    let by: usize = if pos.y >= center.y { 1 } else { 0 };
    let bz: usize = if pos.z >= center.z { 1 } else { 0 };
    bx * 4 + by * 2 + bz
}

/// The centre offset of child `child_index` relative to its parent's centre,
/// at a parent-to-child step landing on `depth`: `(bit * 2 - 1) / 2^depth`
/// on each axis, in fixed-point coordinates.
pub open spec fn spec_pos_offset(child_index: usize, depth: u32) -> Pos3 {
    let step = spec_axis_step(depth);
    Pos3 {
        x: if (child_index >> 2) & 1 == 1 { step } else { (-step) as i64 },
        y: if (child_index >> 1) & 1 == 1 { step } else { (-step) as i64 },
        z: if child_index & 1 == 1 { step } else { (-step) as i64 },
    }
}

pub fn axis_step(depth: u32) -> (s: i64)
    ensures
        s == spec_axis_step(depth),
        0 <= s <= POS_UNIT,
{
    if depth <= 30 {
        proof {
            assert(0 <= POS_UNIT >> depth <= POS_UNIT) by (bit_vector)
                requires depth <= 30;
        }
        POS_UNIT >> depth
    } else {
        0
    }
}

pub fn pos_offset(child_index: usize, depth: u32) -> (p: Pos3)
    ensures
        p == spec_pos_offset(child_index, depth),
{
    let step = axis_step(depth);
    Pos3 {
        x: if (child_index >> 2) & 1 == 1 { step } else { -step },
        y: if (child_index >> 1) & 1 == 1 { step } else { -step },
        z: if child_index & 1 == 1 { step } else { -step },
    }
}

/// Boundary tie-break: a position lying exactly on a node's centre plane on
/// some axis descends to the positive-side child of that axis, whatever the
/// other axes do; a position strictly below the plane descends negative.
pub proof fn lemma_boundary_tie_break(pos: Pos3, center: Pos3)
    ensures
        pos.x == center.x ==> (spec_child_index(pos, center) >> 2) & 1 == 1,
        pos.y == center.y ==> (spec_child_index(pos, center) >> 1) & 1 == 1,
        pos.z == center.z ==> spec_child_index(pos, center) & 1 == 1,
        pos.x < center.x ==> (spec_child_index(pos, center) >> 2) & 1 == 0,
        pos.y < center.y ==> (spec_child_index(pos, center) >> 1) & 1 == 0,
        pos.z < center.z ==> spec_child_index(pos, center) & 1 == 0,
{
    let bx: usize = if pos.x >= center.x { 1 } else { 0 };
    let by: usize = if pos.y >= center.y { 1 } else { 0 };
    let bz: usize = if pos.z >= center.z { 1 } else { 0 };
    assert(bx <= 1 && by <= 1 && bz <= 1 ==> {
        let c = (bx * 4 + by * 2 + bz) as usize;
        (c >> 2) & 1 == bx && (c >> 1) & 1 == by && c & 1 == bz
    }) by (bit_vector);
}

} // verus!
