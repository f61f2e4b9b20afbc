//! Block positions, entities and the squared distances that rank them.

use vstd::prelude::*;

verus! {

/// The position of one block of the world.
#[derive(Clone, Copy, Debug, PartialEq, Eq, Hash, Structural)]
pub struct BlockPos {
    pub x: i32,
    pub y: i32,
    pub z: i32,
}

/// An entity of the world, by the 64 bits that identify it.
#[derive(Clone, Copy, Debug, PartialEq, Eq, Hash, Structural)]
pub struct EntityId {
    pub bits: u64,
}

/// A point of space whose coordinates are multiples of half a block; each field is twice the
/// coordinate.
#[derive(Clone, Copy, Debug, PartialEq, Eq, Structural)]
pub struct HalfPoint {
    pub x2: i64,
    pub y2: i64,
    pub z2: i64,
}

impl BlockPos {
    pub fn new(x: i32, y: i32, z: i32) -> (pos: BlockPos)
        ensures
            pos == (BlockPos { x, y, z }),
    {
        BlockPos { x, y, z }
    }

    /// Twice the centre of the block: `(x + 1/2, y + 1/2, z + 1/2)`.
    pub open spec fn center_spec(self) -> HalfPoint {
        HalfPoint {
            x2: (2 * self.x + 1) as i64,
            y2: (2 * self.y + 1) as i64,
            z2: (2 * self.z + 1) as i64,
        }
    }

    /// The centre of the block.
    pub fn center(self) -> (point: HalfPoint)
        ensures
            point == self.center_spec(),
            point.x2 == 2 * self.x + 1,
            point.y2 == 2 * self.y + 1,
            point.z2 == 2 * self.z + 1,
    {
        HalfPoint {
            x2: 2 * (self.x as i64) + 1,
            y2: 2 * (self.y as i64) + 1,
            z2: 2 * (self.z as i64) + 1,
        }
    }
}

/// The square of the Euclidean distance between two blocks.
pub open spec fn distance_sq(a: BlockPos, b: BlockPos) -> int {
    (a.x - b.x) * (a.x - b.x) + (a.y - b.y) * (a.y - b.y) + (a.z - b.z) * (a.z - b.z)
}

proof fn lemma_square_bound(d: int, bound: int)
    by (nonlinear_arith)
    requires
        -bound <= d <= bound,
    ensures
        0 <= d * d <= bound * bound,
{
}

/// The square of the Euclidean distance between two blocks, for blocks whose coordinates differ
/// by no more than an `i32` holds and whose squared distance an `i64` holds.
pub fn block_distance_sq(a: BlockPos, b: BlockPos) -> (d: i64)
    requires
        i32::MIN <= a.x - b.x <= i32::MAX,
        i32::MIN <= a.y - b.y <= i32::MAX,
        i32::MIN <= a.z - b.z <= i32::MAX,
        distance_sq(a, b) <= i64::MAX,
    ensures
        d == distance_sq(a, b),
{
    let dx: i64 = (a.x - b.x) as i64;
    let dy: i64 = (a.y - b.y) as i64;
    let dz: i64 = (a.z - b.z) as i64;
    proof {
        lemma_square_bound(dx as int, 0x8000_0000);
        lemma_square_bound(dy as int, 0x8000_0000);
        lemma_square_bound(dz as int, 0x8000_0000);
    }
    dx * dx + dy * dy + dz * dz
}

/// The square of the Euclidean distance between any two blocks.
pub fn wide_distance_sq(a: BlockPos, b: BlockPos) -> (d: i128)
    ensures
        d == distance_sq(a, b),
        0 <= d <= 0x3_0000_0000_0000_0000,
{
    let dx: i128 = a.x as i128 - b.x as i128;
    let dy: i128 = a.y as i128 - b.y as i128;
    let dz: i128 = a.z as i128 - b.z as i128;
    proof {
        lemma_square_bound(dx as int, 0x1_0000_0000);
        lemma_square_bound(dy as int, 0x1_0000_0000);
        lemma_square_bound(dz as int, 0x1_0000_0000);
    }
    dx * dx + dy * dy + dz * dz
}

/// Every squared distance is small enough for an `i128`.
pub proof fn lemma_distance_fits(a: BlockPos, b: BlockPos)
    ensures
        0 <= distance_sq(a, b) <= 0x3_0000_0000_0000_0000,
{
    lemma_square_bound(a.x - b.x, 0x1_0000_0000);
    lemma_square_bound(a.y - b.y, 0x1_0000_0000);
    lemma_square_bound(a.z - b.z, 0x1_0000_0000);
}

/// A block is at distance zero from itself and from no other block.
pub proof fn distance_zero_iff_same(a: BlockPos, b: BlockPos)
    ensures
        distance_sq(a, b) >= 0,
        distance_sq(a, b) == 0 <==> a == b,
{
    let dx = a.x - b.x;
    let dy = a.y - b.y;
    let dz = a.z - b.z;
    assert(dx * dx >= 0 && (dx * dx == 0 <==> dx == 0)) by (nonlinear_arith);
    assert(dy * dy >= 0 && (dy * dy == 0 <==> dy == 0)) by (nonlinear_arith);
    assert(dz * dz >= 0 && (dz * dz == 0 <==> dz == 0)) by (nonlinear_arith);
}

/// The distance from one block to another is the distance back.
pub proof fn distance_is_symmetric(a: BlockPos, b: BlockPos)
    ensures
        distance_sq(a, b) == distance_sq(b, a),
{
    let dx = a.x - b.x;
    let dy = a.y - b.y;
    let dz = a.z - b.z;
    assert(dx * dx == (-dx) * (-dx)) by (nonlinear_arith);
    assert(dy * dy == (-dy) * (-dy)) by (nonlinear_arith);
    assert(dz * dz == (-dz) * (-dz)) by (nonlinear_arith);
}

/// A block that lies `dx`, `dy` and `dz` away lies at the distance that Pythagoras gives, and every
/// axis counts alike.
pub proof fn distance_is_by_pythagoras(a: BlockPos, b: BlockPos, dx: int, dy: int, dz: int)
    requires
        b.x - a.x == dx,
        b.y - a.y == dy,
        b.z - a.z == dz,
    ensures
        distance_sq(a, b) == dx * dx + dy * dy + dz * dz,
{
    let x = a.x - b.x;
    let y = a.y - b.y;
    let z = a.z - b.z;
    assert(x * x == dx * dx) by (nonlinear_arith)
        requires
            x == -dx,
    ;
    assert(y * y == dy * dy) by (nonlinear_arith)
        requires
            y == -dy,
    ;
    assert(z * z == dz * dz) by (nonlinear_arith)
        requires
            z == -dz,
    ;
}

/// The centre of a block lies half a block from its corner on every axis, and is the centre of no
/// other block.
pub proof fn centers_tell_blocks_apart(a: BlockPos, b: BlockPos)
    ensures
        a.center_spec().x2 - 2 * a.x == 1,
        a.center_spec().y2 - 2 * a.y == 1,
        a.center_spec().z2 - 2 * a.z == 1,
        a.center_spec() == b.center_spec() ==> a == b,
{
}

} // verus!
