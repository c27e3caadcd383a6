//! The recursive-backtracking algorithm.
//!
//! Depth-first randomized spanning-tree construction: an explicit stack of
//! visited cells substitutes for recursion, so arbitrarily large mazes need
//! no unbounded call depth. Each step looks at the top cell of the stack,
//! carves a passage to a random unvisited neighbor and pushes it, or pops
//! the cell when no unvisited neighbor is left. This is exactly the
//! growing-tree procedure that always grows from the newest cell, and the
//! generator runs it that way.

use vstd::prelude::*;

use crate::growing_tree::grow_maze;
use crate::growing_tree::GrowingTreeSelectionMethod;
use crate::prelude::coordinates::Coordinates;
use crate::prelude::generator::GenerationError;
use crate::prelude::generator::Generator;
use crate::prelude::grid::lemma_rect_len;
use crate::prelude::maze::Maze;
use crate::rng::Rng;

verus! {

/// Generator implementation of the recursive-backtracking algorithm. The
/// start is placed at `(0, 0)` and the goal at `(0, height - 1)`.
pub struct RbGenerator {
    rng: Rng,
}

impl RbGenerator {
    /// The state of the generator's pseudo-random source.
    pub closed spec fn rng_state(self) -> u64 {
        self.rng.state
    }

    /// Creates a recursive-backtracking generator. With a seed the
    /// generator is deterministic: the same seed and size always give the
    /// same maze. Without one it is seeded from the clock.
    pub fn new(seed: Option<[u8; 32]>) -> (r: RbGenerator)
        ensures
            seed matches Some(s) ==> r.rng_state() == Rng::seeded(s@),
    {
        match seed {
            Some(s) => RbGenerator { rng: Rng::from_seed(&s) },
            None => RbGenerator { rng: Rng::from_entropy() },
        }
    }

    /// Generates a perfect maze: a spanning tree of the `width` by `height`
    /// grid.
    pub fn generate(&mut self, width: i32, height: i32) -> (r: Result<Maze, GenerationError>)
        requires
            width >= 1 && height >= 1 ==> width as int * height as int <= i32::MAX as int,
        ensures
            r is Ok <==> (width >= 1 && height >= 1),
            r matches Err(e) ==> e == GenerationError::InvalidSize,
            r matches Ok(m) ==> {
                &&& m.wf()
                &&& m.is_perfect()
                &&& m.width() == width as int
                &&& m.height() == height as int
                &&& m.spec_start() == (Coordinates { x: 0, y: 0 })
                &&& m.spec_goal() == (Coordinates { x: 0, y: (height - 1) as i32 })
            },
    {
        if width < 1 || height < 1 {
            return Err(GenerationError::InvalidSize);
        }
        let graph = grow_maze(
            &mut self.rng,
            width,
            height,
            GrowingTreeSelectionMethod::Newest,
        );
        let start = Coordinates::new(0, 0);
        let goal = Coordinates::new(0, height - 1);
        let maze = Maze::new(graph, start, goal, (width, height));
        proof {
            lemma_rect_len(width as int, height as int);
        }
        Ok(maze)
    }
}

impl Generator for RbGenerator {
    fn generate(&mut self, width: i32, height: i32) -> (r: Result<Maze, GenerationError>) {
        RbGenerator::generate(self, width, height)
    }
}

} // verus!
