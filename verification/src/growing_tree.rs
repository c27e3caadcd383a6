//! The generalized growing-tree algorithm.
//!
//! The algorithm keeps an active list of visited cells. Each step it picks
//! one cell from the list according to a configurable selection method,
//! carves a passage to a random unvisited neighbor of it (adding that
//! neighbor to the list), or removes the cell from the list when no
//! unvisited neighbor is left. Always picking the newest cell reduces to
//! recursive backtracking; always picking a random cell behaves like
//! randomized Prim's.

use vstd::prelude::*;

use crate::prelude::coordinates::Coordinates;
use crate::prelude::direction::Direction;
use crate::prelude::generator::GenerationError;
use crate::prelude::generator::Generator;
use crate::prelude::graph::graph_add_edge;
use crate::prelude::graph::graph_edges;
use crate::prelude::graph::graph_nodes;
use crate::prelude::graph::MazeGraph;
use crate::prelude::grid::connects;
use crate::prelude::grid::edges_ok;
use crate::prelude::grid::edges_within;
use crate::prelude::grid::dir_closed;
use crate::prelude::grid::fresh_visited;
use crate::prelude::grid::in_rect;
use crate::prelude::grid::lemma_carve;
use crate::prelude::grid::lemma_connects_refl;
use crate::prelude::grid::lemma_distinct_seq_len;
use crate::prelude::grid::lemma_finish;
use crate::prelude::grid::lemma_rect_len;
use crate::prelude::grid::mark_visited;
use crate::prelude::grid::new_grid_graph;
use crate::prelude::grid::reaches_all;
use crate::prelude::grid::rect_set;
use crate::prelude::grid::unvisited_neighbors;
use crate::prelude::grid::vis_set;
use crate::prelude::maze::Maze;
use crate::rng::Rng;

verus! {

/// How the growing-tree algorithm picks the cell to grow from.
#[derive(Debug, Copy, Clone, PartialEq, Eq, Structural)]
pub enum GrowingTreeSelectionMethod {
    /// Always grow from the most recently visited cell; this reduces the
    /// algorithm to recursive backtracking.
    Newest,
    /// Always grow from a uniformly random active cell; this behaves like
    /// randomized Prim's.
    Random,
    /// Grow from the newest cell with the given probability in percent
    /// (values above 100 always pick the newest), else from a random one.
    Mix(u8),
}

/// The invariant of a growing spanning tree: the visited cells lie in the
/// rectangle and include the origin, the active list holds distinct visited
/// cells, the carved passages join adjacent visited cells (one new passage
/// per newly visited cell) and reach every visited cell from the origin,
/// and a visited cell off the active list has no unvisited neighbor left.
pub(crate) open spec fn grow_inv(
    w: int,
    h: int,
    vis: Set<Coordinates>,
    es: Set<(Coordinates, Coordinates)>,
    active: Seq<Coordinates>,
) -> bool {
    &&& vis.finite()
    &&& vis.subset_of(rect_set(w, h))
    &&& vis.contains(Coordinates { x: 0, y: 0 })
    &&& active.no_duplicates()
    &&& (forall|i: int| 0 <= i < active.len() ==> vis.contains(#[trigger] active[i]))
    &&& edges_ok(w, h, es)
    &&& edges_within(es, vis)
    &&& es.finite()
    &&& es.len() == 2 * (vis.len() - 1)
    &&& reaches_all(es, Coordinates { x: 0, y: 0 }, vis)
    &&& (forall|c: Coordinates, d: Direction|
        vis.contains(c) && !active.contains(c) && in_rect(w, h, #[trigger] c.next_spec(d))
            ==> vis.contains(c.next_spec(d)))
}

/// Grows a spanning tree over the `w` by `h` grid, starting at the origin,
/// picking the growth cell by the given selection method. The returned
/// graph holds every cell, `w*h - 1` passages between adjacent cells, and
/// connects every pair of cells.
pub(crate) fn grow_maze(
    rng: &mut Rng,
    w: i32,
    h: i32,
    method: GrowingTreeSelectionMethod,
) -> (g: MazeGraph)
    requires
        1 <= w,
        1 <= h,
        w as int * h as int <= i32::MAX as int,
    ensures
        graph_nodes(g) == rect_set(w as int, h as int),
        edges_ok(w as int, h as int, graph_edges(g)),
        graph_edges(g).finite(),
        graph_edges(g).len() == 2 * (w as int * h as int - 1),
        forall|a: Coordinates, b: Coordinates|
            rect_set(w as int, h as int).contains(a) && rect_set(w as int, h as int).contains(b)
                ==> connects(graph_edges(g), a, b),
{
    let ghost wi = w as int;
    let ghost hi = h as int;
    let start = Coordinates { x: 0, y: 0 };
    let mut graph = new_grid_graph(w, h);
    let mut visited = fresh_visited((w as usize) * (h as usize));
    proof {
        assert forall|c: Coordinates| !(#[trigger] vis_set(visited@, wi, hi).contains(c)) by {
            if in_rect(wi, hi, c) {
                crate::prelude::grid::lemma_cell_idx_bounds(wi, hi, c);
            }
        }
        assert(vis_set(visited@, wi, hi) =~= Set::<Coordinates>::empty());
    }
    mark_visited(&mut visited, w, h, start);
    let mut active: Vec<Coordinates> = Vec::new();
    active.push(start);
    proof {
        assert(vis_set(visited@, wi, hi) =~= Set::<Coordinates>::empty().insert(start));
        assert(vis_set(visited@, wi, hi).len() == 1);
        assert(active@ =~= seq![start]);
        assert(active@[0] == start);
        assert forall|c: Coordinates| #[trigger]
            vis_set(visited@, wi, hi).contains(c) implies connects(
            graph_edges(graph),
            start,
            c,
        ) by {
            lemma_connects_refl(graph_edges(graph), c);
        }
        assert(grow_inv(wi, hi, vis_set(visited@, wi, hi), graph_edges(graph), active@));
    }
    while active.len() > 0
        invariant
            1 <= w,
            1 <= h,
            wi == w as int,
            hi == h as int,
            wi * hi <= i32::MAX as int,
            start == (Coordinates { x: 0, y: 0 }),
            visited@.len() == wi * hi,
            graph_nodes(graph) == rect_set(wi, hi),
            grow_inv(wi, hi, vis_set(visited@, wi, hi), graph_edges(graph), active@),
        decreases 2 * (wi * hi) - 2 * vis_set(visited@, wi, hi).len() + active@.len(),
    {
        proof {
            lemma_rect_len(wi, hi);
            vstd::set_lib::lemma_len_subset(vis_set(visited@, wi, hi), rect_set(wi, hi));
            lemma_distinct_seq_len(active@, vis_set(visited@, wi, hi));
        }
        let idx: usize = match method {
            GrowingTreeSelectionMethod::Newest => active.len() - 1,
            GrowingTreeSelectionMethod::Random => rng.below(active.len() as u64) as usize,
            GrowingTreeSelectionMethod::Mix(p) => {
                if rng.below(100) < (p as u64) {
                    active.len() - 1
                } else {
                    rng.below(active.len() as u64) as usize
                }
            },
        };
        assert(idx < active@.len());
        let c = active[idx];
        proof {
            assert(vis_set(visited@, wi, hi).contains(c));
            assert(rect_set(wi, hi).contains(c));
        }
        let neighbors = unvisited_neighbors(&visited, w, h, c);
        if neighbors.len() > 0 {
            let k = rng.below(neighbors.len() as u64) as usize;
            let d = neighbors[k];
            proof {
                assert(in_rect(wi, hi, c.next_spec(neighbors@[k as int])));
            }
            let n = c.next(&d);
            let ghost vis0 = vis_set(visited@, wi, hi);
            let ghost es0 = graph_edges(graph);
            let ghost active0 = active@;
            proof {
                assert(in_rect(wi, hi, n) && !vis0.contains(n));
                assert(vis0.contains(c) && c != n);
                lemma_carve(wi, hi, es0, vis0, start, c, n, d);
            }
            graph_add_edge(&mut graph, c, n);
            mark_visited(&mut visited, w, h, n);
            active.push(n);
            proof {
                let vis1 = vis_set(visited@, wi, hi);
                let es1 = graph_edges(graph);
                assert(rect_set(wi, hi).insert(c).insert(n) =~= rect_set(wi, hi));
                assert(active@ == active0.push(n));
                assert(active@[active@.len() - 1] == n);
                assert forall|z: Coordinates| #[trigger]
                    active0.contains(z) implies active@.contains(z) by {
                    let j = choose|j: int| 0 <= j < active0.len() && active0[j] == z;
                    assert(active@[j] == z);
                }
                assert forall|i: int, j: int|
                    0 <= i < j < active@.len() implies active@[i] != active@[j] by {
                    if j < active@.len() - 1 {
                        assert(active0[i] != active0[j]);
                    } else {
                        assert(active@[j] == n);
                        assert(vis0.contains(active0[i]));
                    }
                }
                assert(active@.no_duplicates());
                assert forall|z: Coordinates, d2: Direction|
                    vis1.contains(z) && !active@.contains(z) && in_rect(
                        wi,
                        hi,
                        #[trigger] z.next_spec(d2),
                    ) implies vis1.contains(z.next_spec(d2)) by {
                    assert(z != n);
                    assert(!active0.contains(z));
                    assert(vis0.contains(z));
                    assert(vis0.contains(z.next_spec(d2)));
                }
                assert(grow_inv(wi, hi, vis1, es1, active@));
                lemma_rect_len(wi, hi);
                vstd::set_lib::lemma_len_subset(vis1, rect_set(wi, hi));
                lemma_distinct_seq_len(active@, vis1);
            }
        } else {
            let ghost active0 = active@;
            let ghost vis = vis_set(visited@, wi, hi);
            let removed = active.remove(idx);
            proof {
                assert(removed == c);
                assert(active@ == active0.remove(idx as int));
                assert forall|d: Direction|
                    in_rect(wi, hi, #[trigger] c.next_spec(d)) implies vis.contains(
                    c.next_spec(d),
                ) by {
                    assert(!neighbors@.contains(d));
                }
                assert forall|i: int, j: int|
                    0 <= i < j < active@.len() implies active@[i] != active@[j] by {
                    let i0: int = if i < idx { i } else { i + 1 };
                    let j0: int = if j < idx { j } else { j + 1 };
                    assert(active@[i] == active0[i0] && active@[j] == active0[j0]);
                    assert(active0[i0] != active0[j0]);
                }
                assert(active@.no_duplicates());
                assert forall|i: int| 0 <= i < active@.len() implies vis.contains(
                    #[trigger] active@[i],
                ) by {
                    let i0: int = if i < idx { i } else { i + 1 };
                    assert(active@[i] == active0[i0]);
                }
                assert forall|z: Coordinates, d2: Direction|
                    vis.contains(z) && !active@.contains(z) && in_rect(
                        wi,
                        hi,
                        #[trigger] z.next_spec(d2),
                    ) implies vis.contains(z.next_spec(d2)) by {
                    if z == c {
                        assert(vis.contains(c.next_spec(d2)));
                    } else {
                        if active0.contains(z) {
                            let j0 = choose|j0: int|
                                0 <= j0 < active0.len() && active0[j0] == z;
                            assert(j0 != idx);
                            let j: int = if j0 < idx { j0 } else { j0 - 1 };
                            assert(active@[j] == z);
                            assert(false);
                        }
                    }
                }
                assert(grow_inv(wi, hi, vis, graph_edges(graph), active@));
            }
        }
    }
    proof {
        let vis = vis_set(visited@, wi, hi);
        let es = graph_edges(graph);
        assert forall|c: Coordinates, d: Direction|
            vis.contains(c) && in_rect(wi, hi, #[trigger] c.next_spec(d)) implies vis.contains(
            c.next_spec(d),
        ) by {
            assert(!active@.contains(c));
        }
        assert(dir_closed(wi, hi, vis));
        lemma_finish(wi, hi, es, vis);
    }
    graph
}

/// Generator implementation of the growing-tree algorithm, parameterized
/// by the selection method. The start is placed at `(0, 0)` and the goal
/// at `(width - 1, height - 1)`.
pub struct GtGenerator {
    rng: Rng,
    method: GrowingTreeSelectionMethod,
}

impl GtGenerator {
    /// The state of the generator's pseudo-random source.
    pub closed spec fn rng_state(self) -> u64 {
        self.rng.state
    }

    /// The configured selection method.
    pub closed spec fn selection(self) -> GrowingTreeSelectionMethod {
        self.method
    }

    /// Creates a growing-tree generator with the given selection method.
    /// With a seed the generator is deterministic: the same seed, method
    /// and size always give the same maze. Without one it is seeded from
    /// the clock.
    pub fn new(seed: Option<[u8; 32]>, method: GrowingTreeSelectionMethod) -> (r: GtGenerator)
        ensures
            seed matches Some(s) ==> r.rng_state() == Rng::seeded(s@),
            r.selection() == method,
    {
        match seed {
            Some(s) => GtGenerator { rng: Rng::from_seed(&s), method },
            None => GtGenerator { rng: Rng::from_entropy(), method },
        }
    }

    /// Generates a perfect maze: a spanning tree of the `width` by `height`
    /// grid, whatever the selection method.
    pub fn generate(&mut self, width: i32, height: i32) -> (r: Result<Maze, GenerationError>)
        requires
            width >= 1 && height >= 1 ==> width as int * height as int <= i32::MAX as int,
        ensures
            r is Ok <==> (width >= 1 && height >= 1),
            r matches Err(e) ==> e == GenerationError::InvalidSize,
            r matches Ok(m) ==> {
                &&& m.wf()
                &&& m.is_perfect()
                &&& m.width() == width as int
                &&& m.height() == height as int
                &&& m.spec_start() == (Coordinates { x: 0, y: 0 })
                &&& m.spec_goal() == (Coordinates { x: (width - 1) as i32, y: (height - 1) as i32 })
            },
    {
        if width < 1 || height < 1 {
            return Err(GenerationError::InvalidSize);
        }
        let graph = grow_maze(&mut self.rng, width, height, self.method);
        let start = Coordinates::new(0, 0);
        let goal = Coordinates::new(width - 1, height - 1);
        let maze = Maze::new(graph, start, goal, (width, height));
        proof {
            lemma_rect_len(width as int, height as int);
        }
        Ok(maze)
    }
}

impl Generator for GtGenerator {
    fn generate(&mut self, width: i32, height: i32) -> (r: Result<Maze, GenerationError>) {
        GtGenerator::generate(self, width, height)
    }
}

} // verus!
