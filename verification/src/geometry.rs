//! Plain coordinate types shared by the matcher, the planner and the player.

use vstd::prelude::*;

verus! {

/// An integer screen coordinate: `x` grows rightward, `y` grows downward.
#[derive(Clone, Copy, Debug, PartialEq, Eq, Structural)]
pub struct Waypoint {
    pub x: u64,
    pub y: u64,
}

impl Waypoint {
    /// True when the point lies inside the axis-aligned box spanned by `a` and `b`,
    /// corners included.
    pub open spec fn in_box(self, a: Waypoint, b: Waypoint) -> bool {
        &&& (a.x <= self.x <= b.x || b.x <= self.x <= a.x)
        &&& (a.y <= self.y <= b.y || b.y <= self.y <= a.y)
    }
}

} // verus!
