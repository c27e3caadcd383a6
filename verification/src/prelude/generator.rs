use vstd::prelude::*;

use crate::prelude::maze::Maze;

verus! {

/// Why maze generation failed.
#[derive(Debug, Copy, Clone, PartialEq, Eq, Hash, Structural)]
pub enum GenerationError {
    /// The requested width or height was not strictly positive.
    InvalidSize,
}

/// The capability contract every maze generation algorithm implements:
/// `generate` fails with [`GenerationError::InvalidSize`] exactly when a
/// dimension is not strictly positive, and otherwise returns a well-formed
/// maze of the requested size. The concrete generator types promise more:
/// their inherent `generate` methods return a perfect maze (a spanning tree
/// of the grid).
pub trait Generator {
    /// Generates a maze of the given width and height.
    fn generate(&mut self, width: i32, height: i32) -> (r: Result<Maze, GenerationError>)
        requires
            width >= 1 && height >= 1 ==> width as int * height as int <= i32::MAX as int,
        ensures
            r is Ok <==> (width >= 1 && height >= 1),
            r matches Err(e) ==> e == GenerationError::InvalidSize,
            r matches Ok(m) ==> m.wf() && m.width() == width as int && m.height() == height as int,
    ;
}

} // verus!
