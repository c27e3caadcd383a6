use vstd::prelude::*;

use crate::prelude::direction::Direction;

verus! {

/// Two-dimensional coordinates used for addressing fields in a maze.
///
/// No bounds are checked at this level: whether a coordinate lies inside
/// a maze is the maze's own responsibility.
#[derive(Debug, Copy, Clone, Default, Ord, PartialOrd, Eq, PartialEq, Hash, Structural)]
pub struct Coordinates {
    /// X component
    pub x: i32,
    /// Y component
    pub y: i32,
}

impl Coordinates {
    /// The neighboring coordinates one cell away in the given direction:
    /// North decreases y, South increases y, East increases x and West
    /// decreases x.
    pub open spec fn next_spec(self, direction: Direction) -> Coordinates {
        match direction {
            Direction::North => Coordinates { x: self.x, y: (self.y - 1) as i32 },
            Direction::East => Coordinates { x: (self.x + 1) as i32, y: self.y },
            Direction::South => Coordinates { x: self.x, y: (self.y + 1) as i32 },
            Direction::West => Coordinates { x: (self.x - 1) as i32, y: self.y },
        }
    }

    /// Create a new instance from the specified coordinate components.
    pub fn new(x: i32, y: i32) -> (r: Self)
        ensures
            r == (Coordinates { x, y }),
    {
        Coordinates { x, y }
    }

    /// Returns the next neighboring coordinates in a specific direction.
    pub fn next(&self, direction: &Direction) -> (r: Self)
        requires
            direction is North ==> self.y > i32::MIN,
            direction is South ==> self.y < i32::MAX,
            direction is East ==> self.x < i32::MAX,
            direction is West ==> self.x > i32::MIN,
        ensures
            r == self.next_spec(*direction),
    {
        match direction {
            Direction::North => Coordinates { x: self.x, y: self.y - 1 },
            Direction::East => Coordinates { x: self.x + 1, y: self.y },
            Direction::South => Coordinates { x: self.x, y: self.y + 1 },
            Direction::West => Coordinates { x: self.x - 1, y: self.y },
        }
    }
}

} // verus!
