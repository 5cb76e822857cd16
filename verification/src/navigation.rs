//! The integer side of ground navigation: which positions a walking mob can
//! stand in, the positions next to a position, and the distance estimate of
//! the pathfinder.
//!
//! The pathfinder's costs are floats; its search runs in the caller.

use vstd::prelude::*;

use crate::path::PathNodeType;

verus! {

/// A block position.
#[derive(Debug, Clone, Copy, PartialEq, Eq, Structural, Hash)]
pub struct BlockPos {
    pub x: i32,
    pub y: i32,
    pub z: i32,
}

/// The node type of a position for a walking mob, from the block states
/// below it, at its feet and at its head (`None` where the chunk is not
/// loaded; state 0 is air).
pub open spec fn node_type_of(below: Option<u16>, feet: Option<u16>, head: Option<u16>) -> PathNodeType {
    match (below, feet, head) {
        (Some(b), Some(f), Some(h)) => if b != 0 && f == 0 && h == 0 {
            PathNodeType::Open
        } else {
            PathNodeType::Blocked
        },
        _ => PathNodeType::Blocked,
    }
}

/// Determines the path node type of a position from the block states below
/// it, at its feet and at its head: open when all three are loaded, the one
/// below is solid (not air) and the other two are air; blocked otherwise.
pub fn get_node_type(below: Option<u16>, feet: Option<u16>, head: Option<u16>) -> (r: PathNodeType)
    ensures
        r == node_type_of(below, feet, head),
{
    let below_state = match below {
        Some(s) => s,
        None => {
            return PathNodeType::Blocked;
        },
    };
    let feet_state = match feet {
        Some(s) => s,
        None => {
            return PathNodeType::Blocked;
        },
    };
    let head_state = match head {
        Some(s) => s,
        None => {
            return PathNodeType::Blocked;
        },
    };
    let below_is_air = below_state == 0;
    let feet_is_air = feet_state == 0;
    let head_is_air = head_state == 0;
    if below_is_air {
        return PathNodeType::Blocked;
    }
    if !feet_is_air || !head_is_air {
        return PathNodeType::Blocked;
    }
    PathNodeType::Open
}

/// The ten positions next to a position: the four horizontal neighbours,
/// the one above and the one below, then the four horizontal diagonals.
pub open spec fn neighbors_of(p: BlockPos) -> Seq<BlockPos> {
    seq![
        BlockPos { x: (p.x + 1) as i32, y: p.y, z: p.z },
        BlockPos { x: (p.x - 1) as i32, y: p.y, z: p.z },
        BlockPos { x: p.x, y: p.y, z: (p.z + 1) as i32 },
        BlockPos { x: p.x, y: p.y, z: (p.z - 1) as i32 },
        BlockPos { x: p.x, y: (p.y + 1) as i32, z: p.z },
        BlockPos { x: p.x, y: (p.y - 1) as i32, z: p.z },
        BlockPos { x: (p.x + 1) as i32, y: p.y, z: (p.z + 1) as i32 },
        BlockPos { x: (p.x + 1) as i32, y: p.y, z: (p.z - 1) as i32 },
        BlockPos { x: (p.x - 1) as i32, y: p.y, z: (p.z + 1) as i32 },
        BlockPos { x: (p.x - 1) as i32, y: p.y, z: (p.z - 1) as i32 },
    ]
}

/// Gets the 6 cardinal neighbors + 4 diagonal neighbors on the same Y level.
pub fn get_neighbors(pos: BlockPos) -> (r: [BlockPos; 10])
    requires
        i32::MIN < pos.x < i32::MAX,
        i32::MIN < pos.y < i32::MAX,
        i32::MIN < pos.z < i32::MAX,
    ensures
        r@ == neighbors_of(pos),
{
    let r = [
        BlockPos { x: pos.x + 1, y: pos.y, z: pos.z },
        BlockPos { x: pos.x - 1, y: pos.y, z: pos.z },
        BlockPos { x: pos.x, y: pos.y, z: pos.z + 1 },
        BlockPos { x: pos.x, y: pos.y, z: pos.z - 1 },
        BlockPos { x: pos.x, y: pos.y + 1, z: pos.z },
        BlockPos { x: pos.x, y: pos.y - 1, z: pos.z },
        BlockPos { x: pos.x + 1, y: pos.y, z: pos.z + 1 },
        BlockPos { x: pos.x + 1, y: pos.y, z: pos.z - 1 },
        BlockPos { x: pos.x - 1, y: pos.y, z: pos.z + 1 },
        BlockPos { x: pos.x - 1, y: pos.y, z: pos.z - 1 },
    ];
    assert(r@ =~= neighbors_of(pos));
    r
}

/// The absolute value of an integer.
pub open spec fn abs(v: int) -> int {
    if v < 0 {
        -v
    } else {
        v
    }
}

/// The Manhattan distance between two positions.
pub open spec fn manhattan(a: BlockPos, b: BlockPos) -> int {
    abs(a.x - b.x) + abs(a.y - b.y) + abs(a.z - b.z)
}

/// The distance of one coordinate.
fn coordinate_distance(a: i32, b: i32) -> (r: u64)
    ensures
        r == abs(a - b),
{
    let d = a as i64 - b as i64;
    if d < 0 {
        (-d) as u64
    } else {
        d as u64
    }
}

/// Manhattan distance heuristic, the pathfinder's estimate of the cost from
/// one position to another (the caller turns it into the float cost).
pub fn heuristic(from: BlockPos, to: BlockPos) -> (r: u64)
    ensures
        r == manhattan(from, to),
{
    coordinate_distance(from.x, to.x) + coordinate_distance(from.y, to.y) + coordinate_distance(from.z, to.z)
}

/// Whether a step between two positions is diagonal (changes both x and z),
/// which costs the pathfinder more than a straight one.
pub fn is_diagonal(from: BlockPos, to: BlockPos) -> (r: bool)
    ensures
        r == (from.x != to.x && from.z != to.z),
{
    from.x != to.x && from.z != to.z
}

} // verus!
