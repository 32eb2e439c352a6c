//! Plain data carried by physics collider nodes: interaction groups,
//! geometry references, and the dirty-flag bitmask that the physics
//! integration reads once per step.

use vstd::prelude::*;

use crate::visibility::NodeHandle;

verus! {

/// A pair of collision bitmasks: which groups a collider belongs to, and
/// which groups it interacts with.
#[derive(Clone, Copy, PartialEq, Eq, Structural, Hash, Debug)]
pub struct InteractionGroupsDesc {
    /// The groups the collider is part of.
    pub memberships: u32,
    /// The groups the collider can interact with.
    pub filter: u32,
}

impl InteractionGroupsDesc {
    /// Build an interaction-groups pair from its two masks.
    pub fn new(memberships: u32, filter: u32) -> (r: Self)
        ensures
            r == (InteractionGroupsDesc { memberships, filter }),
    {
        InteractionGroupsDesc { memberships, filter }
    }
}

impl Default for InteractionGroupsDesc {
    /// Member of every group, interacting with every group.
    fn default() -> (r: Self)
        ensures
            r == (InteractionGroupsDesc { memberships: 0xffff_ffffu32, filter: 0xffff_ffffu32 }),
    {
        InteractionGroupsDesc { memberships: 0xffff_ffff, filter: 0xffff_ffff }
    }
}

/// A reference to a scene node whose geometry feeds a collider shape.
#[derive(Clone, Copy, PartialEq, Eq, Structural, Hash, Debug)]
pub struct GeometrySource(pub NodeHandle);

/// A triangle-mesh collider shape built from a set of geometry sources.
#[derive(Clone, PartialEq, Eq, Debug)]
pub struct TrimeshShape {
    /// The nodes whose meshes are combined into the collision shape.
    pub sources: Vec<GeometrySource>,
}

/// A heightfield collider shape built from a terrain node.
#[derive(Clone, Copy, PartialEq, Eq, Structural, Debug)]
pub struct HeightfieldShape {
    /// The terrain node the heights come from.
    pub geometry_source: GeometrySource,
}

/// Which collider fields changed since the physics integration last ran;
/// the integration reads the set once per step and resets it.
#[derive(Clone, Copy, PartialEq, Eq, Structural, Hash, Debug)]
pub struct ColliderChanges(pub u32);

/// The flag recording a shape change.
pub const CHANGE_SHAPE: u32 = 0x1;

/// The flag recording a restitution change.
pub const CHANGE_RESTITUTION: u32 = 0x2;

/// The flag recording a collision-groups change.
pub const CHANGE_COLLISION_GROUPS: u32 = 0x4;

/// The flag recording a friction change.
pub const CHANGE_FRICTION: u32 = 0x8;

/// The flag recording a friction-combine-rule change.
pub const CHANGE_FRICTION_COMBINE_RULE: u32 = 0x10;

/// The flag recording a restitution-combine-rule change.
pub const CHANGE_RESTITUTION_COMBINE_RULE: u32 = 0x20;

/// The flag recording a sensor-mode change.
pub const CHANGE_IS_SENSOR: u32 = 0x40;

/// The flag recording a solver-groups change.
pub const CHANGE_SOLVER_GROUPS: u32 = 0x80;

/// The flag recording a density change.
pub const CHANGE_DENSITY: u32 = 0x100;

impl ColliderChanges {
    /// No change recorded.
    pub fn none() -> (r: Self)
        ensures
            r.0 == 0,
    {
        ColliderChanges(0)
    }

    /// Record the given change flags in addition to those already held.
    pub fn insert(&mut self, flags: u32)
        ensures
            final(self).0 == old(self).0 | flags,
    {
        self.0 = self.0 | flags;
    }

    /// Whether all of the given change flags are recorded.
    pub fn contains(&self, flags: u32) -> (r: bool)
        ensures
            r == (self.0 & flags == flags),
    {
        self.0 & flags == flags
    }

    /// Forget every recorded change.
    pub fn clear(&mut self)
        ensures
            final(self).0 == 0,
    {
        self.0 = 0;
    }
}

} // verus!
