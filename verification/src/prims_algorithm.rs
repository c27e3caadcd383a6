//! The randomized Prim's algorithm.
//!
//! Frontier-based spanning-tree construction, analogous to Prim's
//! minimum-spanning-tree algorithm with uniform-random edge weights. The
//! frontier is a growing list of candidate passages from a visited cell to
//! a neighbor that was unvisited when the candidate was added. Each step
//! removes one candidate uniformly at random: if its target is still
//! unvisited the passage is carved and the target's own candidates join the
//! frontier, otherwise the candidate is discarded. Unlike the depth-first
//! stack of recursive backtracking, the frontier grows in all directions at
//! once, which yields more branching, less corridor-like mazes.

use vstd::prelude::*;

use crate::prelude::coordinates::Coordinates;
use crate::prelude::direction::Direction;
use crate::prelude::generator::GenerationError;
use crate::prelude::generator::Generator;
use crate::prelude::graph::graph_add_edge;
use crate::prelude::graph::graph_edges;
use crate::prelude::graph::graph_nodes;
use crate::prelude::graph::MazeGraph;
use crate::prelude::grid::connects;
use crate::prelude::grid::dir_closed;
use crate::prelude::grid::edges_ok;
use crate::prelude::grid::edges_within;
use crate::prelude::grid::fresh_visited;
use crate::prelude::grid::in_rect;
use crate::prelude::grid::is_visited;
use crate::prelude::grid::lemma_carve;
use crate::prelude::grid::lemma_cell_idx_bounds;
use crate::prelude::grid::lemma_connects_refl;
use crate::prelude::grid::lemma_finish;
use crate::prelude::grid::lemma_rect_len;
use crate::prelude::grid::mark_visited;
use crate::prelude::grid::new_grid_graph;
use crate::prelude::grid::reaches_all;
use crate::prelude::grid::rect_set;
use crate::prelude::grid::unvisited_neighbors;
use crate::prelude::grid::vis_set;
use crate::prelude::maze::Maze;
use crate::rng::Rng;

verus! {

/// The invariant of the frontier loop: the visited cells form a growing
/// spanning tree reachable from the origin, every candidate starts at a
/// visited in-bounds cell and points inside the grid, and every passage
/// from a visited cell to a still-unvisited neighbor is covered by some
/// candidate.
pub(crate) open spec fn prim_inv(
    w: int,
    h: int,
    vis: Set<Coordinates>,
    es: Set<(Coordinates, Coordinates)>,
    frontier: Seq<(Coordinates, Direction)>,
) -> bool {
    &&& vis.finite()
    &&& vis.subset_of(rect_set(w, h))
    &&& vis.contains(Coordinates { x: 0, y: 0 })
    &&& edges_ok(w, h, es)
    &&& edges_within(es, vis)
    &&& es.finite()
    &&& es.len() == 2 * (vis.len() - 1)
    &&& reaches_all(es, Coordinates { x: 0, y: 0 }, vis)
    &&& (forall|i: int|
        0 <= i < frontier.len() ==> vis.contains((#[trigger] frontier[i]).0) && in_rect(
            w,
            h,
            frontier[i].0,
        ) && in_rect(w, h, frontier[i].0.next_spec(frontier[i].1)))
    &&& (forall|c: Coordinates, d: Direction|
        vis.contains(c) && in_rect(w, h, #[trigger] c.next_spec(d)) && !vis.contains(
            c.next_spec(d),
        ) ==> frontier.contains((c, d)))
}

/// Pushes one candidate for every unvisited in-bounds neighbor of `n`.
fn enqueue_candidates(
    frontier: &mut Vec<(Coordinates, Direction)>,
    visited: &Vec<bool>,
    w: i32,
    h: i32,
    n: Coordinates,
)
    requires
        1 <= w,
        1 <= h,
        w as int * h as int <= i32::MAX as int,
        in_rect(w as int, h as int, n),
        visited@.len() == w as int * h as int,
        vis_set(visited@, w as int, h as int).contains(n),
    ensures
        final(frontier)@.len() <= old(frontier)@.len() + 4,
        forall|z: (Coordinates, Direction)| #[trigger]
            old(frontier)@.contains(z) ==> final(frontier)@.contains(z),
        forall|i: int|
            0 <= i < final(frontier)@.len() ==> (old(frontier)@.contains(
                #[trigger] final(frontier)@[i],
            ) || (final(frontier)@[i].0 == n && in_rect(
                w as int,
                h as int,
                n.next_spec(final(frontier)@[i].1),
            ))),
        forall|d: Direction|
            (in_rect(w as int, h as int, #[trigger] n.next_spec(d)) && !vis_set(
                visited@,
                w as int,
                h as int,
            ).contains(n.next_spec(d))) ==> final(frontier)@.contains((n, d)),
{
    let ghost wi = w as int;
    let ghost hi = h as int;
    let ds = unvisited_neighbors(visited, w, h, n);
    let ghost frontier0 = frontier@;
    let mut i: usize = 0;
    while i < ds.len()
        invariant
            0 <= i <= ds@.len(),
            ds@.len() <= 4,
            wi == w as int,
            hi == h as int,
            forall|j: int|
                0 <= j < ds@.len() ==> in_rect(wi, hi, n.next_spec(#[trigger] ds@[j])),
            frontier@.len() == frontier0.len() + i,
            forall|z: (Coordinates, Direction)| #[trigger]
                frontier0.contains(z) ==> frontier@.contains(z),
            forall|j: int| 0 <= j < i ==> frontier@.contains((n, #[trigger] ds@[j])),
            forall|k: int|
                0 <= k < frontier@.len() ==> (frontier0.contains(#[trigger] frontier@[k]) || (
                frontier@[k].0 == n && in_rect(wi, hi, n.next_spec(frontier@[k].1)))),
        decreases ds@.len() - i,
    {
        let d = ds[i];
        let ghost before = frontier@;
        frontier.push((n, d));
        proof {
            assert(frontier@[frontier@.len() - 1] == (n, d));
            assert forall|z: (Coordinates, Direction)| #[trigger]
                before.contains(z) implies frontier@.contains(z) by {
                let j = choose|j: int| 0 <= j < before.len() && before[j] == z;
                assert(frontier@[j] == z);
            }
        }
        i = i + 1;
    }
    proof {
        assert forall|d: Direction|
            (in_rect(wi, hi, #[trigger] n.next_spec(d)) && !vis_set(visited@, wi, hi).contains(
                n.next_spec(d),
            )) implies frontier@.contains((n, d)) by {
            assert(ds@.contains(d));
            let j = choose|j: int| 0 <= j < ds@.len() && ds@[j] == d;
            assert(frontier@.contains((n, ds@[j])));
        }
    }
}

/// Generator implementation of the randomized Prim's algorithm. The start
/// is placed at `(0, 0)` and the goal at `(width - 1, height - 1)`.
pub struct PrimsGenerator {
    rng: Rng,
}

impl PrimsGenerator {
    /// The state of the generator's pseudo-random source.
    pub closed spec fn rng_state(self) -> u64 {
        self.rng.state
    }

    /// Creates a Prim's generator. With a seed the generator is
    /// deterministic: the same seed and size always give the same maze.
    /// Without one it is seeded from the clock.
    pub fn new(seed: Option<[u8; 32]>) -> (r: PrimsGenerator)
        ensures
            seed matches Some(s) ==> r.rng_state() == Rng::seeded(s@),
    {
        match seed {
            Some(s) => PrimsGenerator { rng: Rng::from_seed(&s) },
            None => PrimsGenerator { rng: Rng::from_entropy() },
        }
    }

    /// Generates a perfect maze: a spanning tree of the `width` by `height`
    /// grid.
    pub fn generate(&mut self, width: i32, height: i32) -> (r: Result<Maze, GenerationError>)
        requires
            width >= 1 && height >= 1 ==> width as int * height as int <= i32::MAX as int,
        ensures
            r is Ok <==> (width >= 1 && height >= 1),
            r matches Err(e) ==> e == GenerationError::InvalidSize,
            r matches Ok(m) ==> {
                &&& m.wf()
                &&& m.is_perfect()
                &&& m.width() == width as int
                &&& m.height() == height as int
                &&& m.spec_start() == (Coordinates { x: 0, y: 0 })
                &&& m.spec_goal() == (Coordinates { x: (width - 1) as i32, y: (height - 1) as i32 })
            },
    {
        if width < 1 || height < 1 {
            return Err(GenerationError::InvalidSize);
        }
        let w = width;
        let h = height;
        let ghost wi = w as int;
        let ghost hi = h as int;
        let start = Coordinates { x: 0, y: 0 };
        let mut graph = new_grid_graph(w, h);
        let mut visited = fresh_visited((w as usize) * (h as usize));
        proof {
            assert forall|c: Coordinates| !(#[trigger] vis_set(visited@, wi, hi).contains(c)) by {
                if in_rect(wi, hi, c) {
                    lemma_cell_idx_bounds(wi, hi, c);
                }
            }
            assert(vis_set(visited@, wi, hi) =~= Set::<Coordinates>::empty());
        }
        mark_visited(&mut visited, w, h, start);
        let mut frontier: Vec<(Coordinates, Direction)> = Vec::new();
        proof {
            assert(vis_set(visited@, wi, hi) =~= Set::<Coordinates>::empty().insert(start));
            assert(vis_set(visited@, wi, hi).len() == 1);
        }
        enqueue_candidates(&mut frontier, &visited, w, h, start);
        proof {
            assert forall|c: Coordinates| #[trigger]
                vis_set(visited@, wi, hi).contains(c) implies connects(
                graph_edges(graph),
                start,
                c,
            ) by {
                lemma_connects_refl(graph_edges(graph), c);
            }
            assert(prim_inv(wi, hi, vis_set(visited@, wi, hi), graph_edges(graph), frontier@));
        }
        while frontier.len() > 0
            invariant
                1 <= w,
                1 <= h,
                wi == w as int,
                hi == h as int,
                wi * hi <= i32::MAX as int,
                start == (Coordinates { x: 0, y: 0 }),
                visited@.len() == wi * hi,
                graph_nodes(graph) == rect_set(wi, hi),
                prim_inv(wi, hi, vis_set(visited@, wi, hi), graph_edges(graph), frontier@),
            decreases 5 * (wi * hi) - 5 * vis_set(visited@, wi, hi).len() + frontier@.len(),
        {
            proof {
                lemma_rect_len(wi, hi);
                vstd::set_lib::lemma_len_subset(vis_set(visited@, wi, hi), rect_set(wi, hi));
            }
            let idx = self.rng.below(frontier.len() as u64) as usize;
            assert(idx < frontier@.len());
            let ghost frontier0 = frontier@;
            let pair = frontier.remove(idx);
            let c = pair.0;
            let d = pair.1;
            proof {
                assert(frontier@ == frontier0.remove(idx as int));
                assert(vis_set(visited@, wi, hi).contains(c));
                assert(in_rect(wi, hi, c) && in_rect(wi, hi, c.next_spec(d)));
            }
            let n = c.next(&d);
            if !is_visited(&visited, w, h, n) {
                let ghost vis0 = vis_set(visited@, wi, hi);
                let ghost es0 = graph_edges(graph);
                proof {
                    lemma_carve(wi, hi, es0, vis0, start, c, n, d);
                }
                graph_add_edge(&mut graph, c, n);
                mark_visited(&mut visited, w, h, n);
                proof {
                    assert(rect_set(wi, hi).insert(c).insert(n) =~= rect_set(wi, hi));
                }
                enqueue_candidates(&mut frontier, &visited, w, h, n);
                proof {
                    let vis1 = vis_set(visited@, wi, hi);
                    let es1 = graph_edges(graph);
                    assert forall|i: int|
                        0 <= i < frontier@.len() implies vis1.contains(
                        (#[trigger] frontier@[i]).0,
                    ) && in_rect(wi, hi, frontier@[i].0) && in_rect(
                        wi,
                        hi,
                        frontier@[i].0.next_spec(frontier@[i].1),
                    ) by {
                        if frontier0.remove(idx as int).contains(frontier@[i]) {
                            let j = choose|j: int|
                                0 <= j < frontier0.remove(idx as int).len() && frontier0.remove(
                                    idx as int,
                                )[j] == frontier@[i];
                            let j0: int = if j < idx { j } else { j + 1 };
                            assert(frontier0[j0] == frontier@[i]);
                        }
                    }
                    assert forall|z: Coordinates, d2: Direction|
                        vis1.contains(z) && in_rect(wi, hi, #[trigger] z.next_spec(d2))
                            && !vis1.contains(z.next_spec(d2)) implies frontier@.contains(
                        (z, d2),
                    ) by {
                        if z == n {
                            assert(frontier@.contains((n, d2)));
                        } else {
                            assert(vis0.contains(z));
                            assert(!vis0.contains(z.next_spec(d2)));
                            assert(frontier0.contains((z, d2)));
                            let j0 = choose|j0: int|
                                0 <= j0 < frontier0.len() && frontier0[j0] == (z, d2);
                            if j0 == idx {
                                assert(z.next_spec(d2) == n);
                                assert(false);
                            }
                            let j: int = if j0 < idx { j0 } else { j0 - 1 };
                            assert(frontier0.remove(idx as int)[j] == (z, d2));
                            assert(frontier0.remove(idx as int).contains((z, d2)));
                        }
                    }
                    assert(prim_inv(wi, hi, vis1, es1, frontier@));
                    lemma_rect_len(wi, hi);
                    vstd::set_lib::lemma_len_subset(vis1, rect_set(wi, hi));
                }
            } else {
                proof {
                    let vis = vis_set(visited@, wi, hi);
                    assert forall|z: Coordinates, d2: Direction|
                        vis.contains(z) && in_rect(wi, hi, #[trigger] z.next_spec(d2))
                            && !vis.contains(z.next_spec(d2)) implies frontier@.contains(
                        (z, d2),
                    ) by {
                        assert(frontier0.contains((z, d2)));
                        let j0 = choose|j0: int|
                            0 <= j0 < frontier0.len() && frontier0[j0] == (z, d2);
                        if j0 == idx {
                            assert(z.next_spec(d2) == n);
                            assert(false);
                        }
                        let j: int = if j0 < idx { j0 } else { j0 - 1 };
                        assert(frontier@[j] == (z, d2));
                    }
                    assert(prim_inv(wi, hi, vis, graph_edges(graph), frontier@));
                }
            }
        }
        proof {
            let vis = vis_set(visited@, wi, hi);
            assert forall|c: Coordinates, d: Direction|
                vis.contains(c) && in_rect(wi, hi, #[trigger] c.next_spec(d)) implies vis.contains(
                c.next_spec(d),
            ) by {
                if !vis.contains(c.next_spec(d)) {
                    assert(frontier@.contains((c, d)));
                }
            }
            assert(dir_closed(wi, hi, vis));
            lemma_finish(wi, hi, graph_edges(graph), vis);
        }
        let goal = Coordinates::new(w - 1, h - 1);
        let maze = Maze::new(graph, start, goal, (width, height));
        proof {
            lemma_rect_len(wi, hi);
        }
        Ok(maze)
    }
}

impl Generator for PrimsGenerator {
    fn generate(&mut self, width: i32, height: i32) -> (r: Result<Maze, GenerationError>) {
        PrimsGenerator::generate(self, width, height)
    }
}

} // verus!
