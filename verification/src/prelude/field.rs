use vstd::prelude::*;

use crate::prelude::coordinates::Coordinates;
use crate::prelude::direction::Direction;

verus! {

/// What role a cell plays in the maze.
#[derive(Debug, Copy, Clone, PartialEq, Eq, Hash, Structural)]
pub enum FieldType {
    /// The cell the maze starts at.
    Start,
    /// The cell the maze leads to.
    Goal,
    /// Any other cell.
    Normal,
}

/// A read-only projection of one cell: its role, its coordinates, and the
/// directions an open passage leaves it in. Derived on demand from the
/// maze's graph, not stored.
#[derive(Debug, Clone)]
pub struct Field {
    /// The role of the cell.
    pub field_type: FieldType,
    /// Where the cell lies.
    pub coordinates: Coordinates,
    /// The directions with an open passage out of this cell.
    pub passages: Vec<Direction>,
}

impl Field {
    /// Creates a new field from its parts.
    pub fn new(field_type: FieldType, coordinates: Coordinates, passages: Vec<Direction>) -> (r:
        Field)
        ensures
            r.field_type == field_type,
            r.coordinates == coordinates,
            r.passages == passages,
    {
        Field { field_type, coordinates, passages }
    }

    /// Whether a passage leaves this cell in the given direction.
    pub fn has_passage(&self, direction: &Direction) -> (r: bool)
        ensures
            r == self.passages@.contains(*direction),
    {
        let mut i: usize = 0;
        while i < self.passages.len()
            invariant
                0 <= i <= self.passages@.len(),
                forall|j: int| 0 <= j < i ==> self.passages@[j] != *direction,
            decreases self.passages@.len() - i,
        {
            if self.passages[i] == *direction {
                return true;
            }
            i = i + 1;
        }
        false
    }
}

} // verus!
