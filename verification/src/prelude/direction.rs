use vstd::prelude::*;

verus! {

/// One of the four cardinal directions a passage can leave a cell in.
///
/// `all` enumerates the directions in the fixed order North, East,
/// South, West.
#[derive(Debug, Copy, Clone, PartialEq, Eq, PartialOrd, Ord, Hash, Structural)]
pub enum Direction {
    North,
    East,
    South,
    West,
}

impl Direction {
    /// The direction pointing the opposite way.
    pub open spec fn opposite_spec(self) -> Direction {
        match self {
            Direction::North => Direction::South,
            Direction::East => Direction::West,
            Direction::South => Direction::North,
            Direction::West => Direction::East,
        }
    }

    /// The direction after mirroring along the vertical axis (East and
    /// West swap, North and South stay).
    pub open spec fn mirror_horizontal_spec(self) -> Direction {
        match self {
            Direction::North => Direction::North,
            Direction::East => Direction::West,
            Direction::South => Direction::South,
            Direction::West => Direction::East,
        }
    }

    /// The direction after mirroring along the horizontal axis (North and
    /// South swap, East and West stay).
    pub open spec fn mirror_vertical_spec(self) -> Direction {
        match self {
            Direction::North => Direction::South,
            Direction::East => Direction::East,
            Direction::South => Direction::North,
            Direction::West => Direction::West,
        }
    }

    /// All four directions, in the fixed order North, East, South, West.
    pub fn all() -> (r: Vec<Direction>)
        ensures
            r@ == seq![Direction::North, Direction::East, Direction::South, Direction::West],
    {
        let mut v: Vec<Direction> = Vec::new();
        v.push(Direction::North);
        v.push(Direction::East);
        v.push(Direction::South);
        v.push(Direction::West);
        proof {
            assert(v@ =~= seq![
                Direction::North,
                Direction::East,
                Direction::South,
                Direction::West,
            ]);
        }
        v
    }

    /// Returns the opposite direction.
    pub fn opposite(&self) -> (r: Direction)
        ensures
            r == self.opposite_spec(),
    {
        match self {
            Direction::North => Direction::South,
            Direction::East => Direction::West,
            Direction::South => Direction::North,
            Direction::West => Direction::East,
        }
    }

    /// Returns the direction mirrored along the vertical axis.
    pub fn mirror_horizontal(&self) -> (r: Direction)
        ensures
            r == self.mirror_horizontal_spec(),
    {
        match self {
            Direction::North => Direction::North,
            Direction::East => Direction::West,
            Direction::South => Direction::South,
            Direction::West => Direction::East,
        }
    }

    /// Returns the direction mirrored along the horizontal axis.
    pub fn mirror_vertical(&self) -> (r: Direction)
        ensures
            r == self.mirror_vertical_spec(),
    {
        match self {
            Direction::North => Direction::South,
            Direction::East => Direction::East,
            Direction::South => Direction::North,
            Direction::West => Direction::West,
        }
    }
}

} // verus!
