//! Navigation paths: node types and their costs, and a path of waypoints
//! followed one at a time.
//!
//! Positions are carried as IEEE-754 bits; the float arithmetic of the
//! pathfinder (costs, distances) is the caller's.

use vstd::prelude::*;

use crate::entity::Vec3Bits;

verus! {

/// Type of path node, affecting movement cost and behavior.
#[derive(Debug, Clone, Copy, PartialEq, Eq, Structural, Hash)]
pub enum PathNodeType {
    /// Blocked - cannot pass through
    Blocked,
    /// Open air - can walk through
    Open,
    /// Water - swimming required
    Water,
    /// Walkable water (shallow)
    WaterBorder,
    /// Lava - dangerous
    Lava,
    /// Door - may be openable
    Door,
    /// Fence - cannot pass
    Fence,
    /// Fence gate - may be openable
    FenceGate,
    /// Trapdoor - may be openable
    Trapdoor,
    /// Rail - minecart track
    Rail,
    /// Damage - causes harm (fire, cactus)
    Damage,
    /// Danger - should avoid (magma)
    Danger,
    /// Leaves - may be walkable
    Leaves,
    /// Sticky - slows movement (honey, soul sand)
    Sticky,
    /// Powder snow - special movement
    PowderSnow,
}

/// The movement cost of a node type in whole units; `None` for a type that
/// cannot be passed at all (whose float cost is `f32::MAX`).
pub open spec fn malus_of(t: PathNodeType) -> Option<u8> {
    match t {
        PathNodeType::Blocked => None,
        PathNodeType::Open => Some(0),
        PathNodeType::Water => Some(8),
        PathNodeType::WaterBorder => Some(4),
        PathNodeType::Lava => None,
        PathNodeType::Door => Some(0),
        PathNodeType::Fence => None,
        PathNodeType::FenceGate => Some(0),
        PathNodeType::Trapdoor => Some(0),
        PathNodeType::Rail => Some(0),
        PathNodeType::Damage => Some(16),
        PathNodeType::Danger => Some(8),
        PathNodeType::Leaves => Some(0),
        PathNodeType::Sticky => Some(8),
        PathNodeType::PowderSnow => Some(4),
    }
}

impl PathNodeType {
    /// The base movement cost of this node type in whole units; `None` when
    /// it cannot be passed. Higher values make the pathfinder avoid this type.
    pub fn malus_value(&self) -> (r: Option<u8>)
        ensures
            r == malus_of(*self),
    {
        match self {
            Self::Blocked => None,
            Self::Open => Some(0),
            Self::Water => Some(8),
            Self::WaterBorder => Some(4),
            Self::Lava => None,
            Self::Door => Some(0),
            Self::Fence => None,
            Self::FenceGate => Some(0),
            Self::Trapdoor => Some(0),
            Self::Rail => Some(0),
            Self::Damage => Some(16),
            Self::Danger => Some(8),
            Self::Leaves => Some(0),
            Self::Sticky => Some(8),
            Self::PowderSnow => Some(4),
        }
    }

    /// Checks if this node type is passable at all: its cost is below the
    /// impassable one (everything but blocked, lava and fences).
    pub fn is_passable(&self) -> (r: bool)
        ensures
            r == (malus_of(*self) is Some),
            r == !(*self == PathNodeType::Blocked || *self == PathNodeType::Lava || *self
                == PathNodeType::Fence),
    {
        self.malus_value().is_some()
    }
}

impl Default for PathNodeType {
    fn default() -> (r: Self)
        ensures
            r == PathNodeType::Open,
    {
        PathNodeType::Open
    }
}

/// A single waypoint in a path.
#[derive(Debug, Clone, Copy, PartialEq, Eq, Structural)]
pub struct PathWaypoint {
    /// The position of this waypoint (IEEE-754 bits)
    pub position: Vec3Bits,
    /// The type of node (walkable, water, etc.)
    pub node_type: PathNodeType,
}

/// A navigation path consisting of waypoints.
#[derive(Debug)]
pub struct Path {
    nodes: Vec<PathWaypoint>,
    current_index: usize,
    target: Vec3Bits,
}

impl Path {
    /// The waypoints.
    pub closed spec fn waypoints(&self) -> Seq<PathWaypoint> {
        self.nodes@
    }

    /// The index of the current waypoint (the count of those passed).
    pub closed spec fn index(&self) -> nat {
        self.current_index as nat
    }

    /// The final target position.
    pub closed spec fn target_pos(&self) -> Vec3Bits {
        self.target
    }

    #[verifier::type_invariant]
    spec fn index_in_range(&self) -> bool {
        self.current_index <= self.nodes@.len()
    }

    /// Creates a new path from waypoints, at the first one.
    pub fn new(nodes: Vec<PathWaypoint>, target: Vec3Bits) -> (r: Self)
        ensures
            r.waypoints() == nodes@,
            r.index() == 0,
            r.target_pos() == target,
    {
        Path { nodes, current_index: 0, target }
    }

    /// Creates an empty path (no waypoints)
    pub fn empty(target: Vec3Bits) -> (r: Self)
        ensures
            r.waypoints() == Seq::<PathWaypoint>::empty(),
            r.index() == 0,
            r.target_pos() == target,
    {
        Path { nodes: Vec::new(), current_index: 0, target }
    }

    /// Returns the final target position
    pub fn target(&self) -> (r: Vec3Bits)
        ensures
            r == self.target_pos(),
    {
        self.target
    }

    /// Returns the current waypoint, if any
    pub fn current_node(&self) -> (r: Option<&PathWaypoint>)
        ensures
            self.index() < self.waypoints().len() ==> r == Some(&self.waypoints()[self.index() as int]),
            self.index() >= self.waypoints().len() ==> r is None,
    {
        if self.current_index < self.nodes.len() {
            Some(&self.nodes[self.current_index])
        } else {
            None
        }
    }

    /// Returns the next waypoint position to move toward
    pub fn next_position(&self) -> (r: Option<Vec3Bits>)
        ensures
            self.index() < self.waypoints().len() ==> r == Some(
                self.waypoints()[self.index() as int].position,
            ),
            self.index() >= self.waypoints().len() ==> r is None,
    {
        match self.current_node() {
            Some(n) => Some(n.position),
            None => None,
        }
    }

    /// Advances to the next waypoint (a done path stays done).
    pub fn advance(&mut self)
        ensures
            final(self).waypoints() == old(self).waypoints(),
            final(self).target_pos() == old(self).target_pos(),
            final(self).index() == if old(self).index() < old(self).waypoints().len() {
                old(self).index() + 1
            } else {
                old(self).index()
            },
    {
        if self.current_index < self.nodes.len() {
            self.current_index += 1;
        }
    }

    /// Checks if the path is complete (reached the end)
    pub fn is_done(&self) -> (r: bool)
        ensures
            r == (self.index() >= self.waypoints().len()),
            r == (self.index() == self.waypoints().len()),
    {
        proof {
            use_type_invariant(self);
        }
        self.current_index >= self.nodes.len()
    }

    /// Returns the number of remaining waypoints
    pub fn remaining_nodes(&self) -> (r: usize)
        ensures
            self.index() <= self.waypoints().len(),
            r == self.waypoints().len() - self.index(),
    {
        proof {
            use_type_invariant(self);
        }
        self.nodes.len() - self.current_index
    }

    /// Returns the total number of nodes in the path
    pub fn node_count(&self) -> (r: usize)
        ensures
            r == self.waypoints().len(),
    {
        self.nodes.len()
    }

    /// Checks if this path has any nodes
    pub fn has_nodes(&self) -> (r: bool)
        ensures
            r == (self.waypoints().len() > 0),
    {
        self.nodes.len() > 0
    }

    /// Returns all remaining waypoints
    pub fn remaining_path(&self) -> (r: &[PathWaypoint])
        ensures
            r@ == self.waypoints().subrange(self.index() as int, self.waypoints().len() as int),
    {
        proof {
            use_type_invariant(self);
        }
        let all = self.nodes.as_slice();
        &all[self.current_index..self.nodes.len()]
    }
}

impl Clone for Path {
    fn clone(&self) -> (r: Self)
        ensures
            r.waypoints() == self.waypoints(),
            r.index() == self.index(),
            r.target_pos() == self.target_pos(),
    {
        proof {
            use_type_invariant(self);
        }
        let mut nodes: Vec<PathWaypoint> = Vec::new();
        let mut i: usize = 0;
        while i < self.nodes.len()
            invariant
                i <= self.nodes@.len(),
                nodes@ == self.nodes@.take(i as int),
            decreases self.nodes@.len() - i,
        {
            nodes.push(self.nodes[i]);
            assert(self.nodes@.take(i + 1) == self.nodes@.take(i as int).push(self.nodes@[i as int]));
            i += 1;
        }
        assert(self.nodes@.take(self.nodes@.len() as int) == self.nodes@);
        Path { nodes, current_index: self.current_index, target: self.target }
    }
}

} // verus!
