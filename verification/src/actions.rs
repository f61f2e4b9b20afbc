//! What the bot does in the world.

use crate::geometry::{BlockPos, EntityId, HalfPoint};
use vstd::prelude::*;

verus! {

/// Somewhere to go or to look: a point, or wherever an entity is.
#[derive(Clone, Copy, Debug, PartialEq, Eq, Structural)]
pub enum Place {
    Point(HalfPoint),
    Entity(EntityId),
}

/// How hard to look for a path.
#[derive(Clone, Copy, Debug, PartialEq, Eq, Structural)]
pub struct PathfinderOpts {
    pub retry_on_no_path: bool,
    pub timeout_secs: u64,
}

/// One thing to do. A radius is given in half blocks.
#[derive(Clone, Copy, Debug, PartialEq, Eq, Structural)]
pub enum Action {
    StopPathfinding,
    LookAt(Place),
    StartMining(BlockPos),
    Goto { place: Place, radius_halves: u32, opts: PathfinderOpts },
    Attack(EntityId),
    UseItem,
}

/// One try of `timeout_secs` seconds.
pub open spec fn one_try(timeout_secs: u64) -> PathfinderOpts {
    PathfinderOpts { retry_on_no_path: false, timeout_secs }
}

/// The way to look for a path while collecting: one try of one second.
pub fn collect_pathfinder_opts() -> (opts: PathfinderOpts)
    ensures
        opts == one_try(1),
{
    PathfinderOpts { retry_on_no_path: false, timeout_secs: 1 }
}

} // verus!
