//! Eller's algorithm.
//!
//! Row-by-row construction without backtracking: each cell of the current
//! row carries a set id, where two cells share an id exactly when they are
//! already joined by carved passages. Per row, cells without an id (no
//! vertical passage from the row above) get a fresh one; adjacent cells in
//! different sets are merged by a random coin (forced on the final row);
//! and every set carves at least one passage down into the next row, so no
//! set is orphaned. After the forced merges of the final row the whole
//! grid is one connected component.

use vstd::prelude::*;

use crate::prelude::coordinates::Coordinates;
use crate::prelude::direction::Direction;
use crate::prelude::generator::GenerationError;
use crate::prelude::generator::Generator;
use crate::prelude::graph::graph_add_edge;
use crate::prelude::graph::graph_edges;
use crate::prelude::graph::graph_nodes;
use crate::prelude::graph::MazeGraph;
use crate::prelude::grid::connects;
use crate::prelude::grid::edges_ok;
use crate::prelude::grid::fresh_visited;
use crate::prelude::grid::in_rect;
use crate::prelude::grid::lemma_connects_mono;
use crate::prelude::grid::lemma_connects_refl;
use crate::prelude::grid::lemma_connects_step;
use crate::prelude::grid::lemma_connects_sym;
use crate::prelude::grid::lemma_connects_trans;
use crate::prelude::grid::lemma_edges_ok_insert;
use crate::prelude::grid::lemma_rect_len;
use crate::prelude::grid::new_grid_graph;
use crate::prelude::grid::rect_set;
use crate::prelude::maze::Maze;
use crate::rng::Rng;

verus! {

/// The cell at column `x` of row `y`.
pub(crate) open spec fn cell(x: int, y: int) -> Coordinates {
    Coordinates { x: x as i32, y: y as i32 }
}

/// Within row `y`, cells carrying the same nonzero set id are joined by
/// carved passages; id zero marks a cell not assigned to a set yet.
pub(crate) open spec fn row_conn(
    w: int,
    y: int,
    ids: Seq<u64>,
    es: Set<(Coordinates, Coordinates)>,
) -> bool {
    forall|x1: int, x2: int| #![trigger ids[x1], ids[x2]]
        0 <= x1 < w && 0 <= x2 < w && ids[x1] == ids[x2] && ids[x1] != 0 ==> connects(
            es,
            cell(x1, y),
            cell(x2, y),
        )
}

/// Every cell of a row above `y` is joined to some cell of row `y`.
pub(crate) open spec fn below_conn(
    w: int,
    h: int,
    y: int,
    es: Set<(Coordinates, Coordinates)>,
) -> bool {
    forall|c: Coordinates| #[trigger]
        in_rect(w, h, c) && c.y < y ==> exists|x: int|
            0 <= x < w && connects(es, c, #[trigger] cell(x, y))
}

pub(crate) proof fn lemma_row_conn_mono(
    w: int,
    y: int,
    ids: Seq<u64>,
    es1: Set<(Coordinates, Coordinates)>,
    es2: Set<(Coordinates, Coordinates)>,
)
    requires
        row_conn(w, y, ids, es1),
        es1.subset_of(es2),
    ensures
        row_conn(w, y, ids, es2),
{
    assert forall|x1: int, x2: int| #![trigger ids[x1], ids[x2]]
        0 <= x1 < w && 0 <= x2 < w && ids[x1] == ids[x2] && ids[x1] != 0 implies connects(
        es2,
        cell(x1, y),
        cell(x2, y),
    ) by {
        lemma_connects_mono(es1, es2, cell(x1, y), cell(x2, y));
    }
}

pub(crate) proof fn lemma_below_conn_mono(
    w: int,
    h: int,
    y: int,
    es1: Set<(Coordinates, Coordinates)>,
    es2: Set<(Coordinates, Coordinates)>,
)
    requires
        below_conn(w, h, y, es1),
        es1.subset_of(es2),
    ensures
        below_conn(w, h, y, es2),
{
    assert forall|c: Coordinates| #[trigger] in_rect(w, h, c) && c.y < y implies exists|x: int|
        0 <= x < w && connects(es2, c, #[trigger] cell(x, y)) by {
        let x = choose|x: int| 0 <= x < w && connects(es1, c, #[trigger] cell(x, y));
        lemma_connects_mono(es1, es2, c, cell(x, y));
    }
}

/// A table of `n` set ids, all unassigned.
fn zeros_u64(n: usize) -> (r: Vec<u64>)
    ensures
        r@.len() == n,
        forall|i: int| 0 <= i < n ==> r@[i] == 0,
{
    let mut v: Vec<u64> = Vec::new();
    while v.len() < n
        invariant
            v@.len() <= n,
            forall|i: int| 0 <= i < v@.len() ==> v@[i] == 0,
        decreases n - v@.len(),
    {
        v.push(0);
    }
    v
}

/// Gives every unassigned cell of the row a fresh set id of its own. Two
/// distinct cells end up with equal ids only where they already carried
/// equal nonzero ids.
#[verifier::loop_isolation(false)]
fn assign_ids(ids: &mut Vec<u64>, next_id: &mut u64, w: i32)
    requires
        1 <= w,
        old(ids)@.len() == w as int,
        1 <= *old(next_id),
        forall|j: int| 0 <= j < w as int ==> old(ids)@[j] < *old(next_id),
        *old(next_id) as int + w as int <= u64::MAX as int,
    ensures
        final(ids)@.len() == w as int,
        forall|j: int|
            0 <= j < w as int ==> final(ids)@[j] != 0 && final(ids)@[j] < *final(next_id),
        *old(next_id) <= *final(next_id),
        *final(next_id) as int <= *old(next_id) as int + w as int,
        forall|j: int| 0 <= j < w as int ==> (final(ids)@[j] == old(ids)@[j] || old(ids)@[j] == 0),
        forall|x1: int, x2: int|
            0 <= x1 < w as int && 0 <= x2 < w as int && x1 != x2 && #[trigger] final(ids)@[x1]
                == #[trigger] final(ids)@[x2] ==> final(ids)@[x1] == old(ids)@[x1]
                && final(ids)@[x2] == old(ids)@[x2],
{
    let ghost nid0 = *old(next_id);
    let mut i: usize = 0;
    while i < w as usize
        invariant
            0 <= i <= w as int,
            ids@.len() == w as int,
            nid0 <= *next_id,
            *next_id as int <= nid0 as int + i as int,
            forall|j: int| 0 <= j < w as int ==> ids@[j] < *next_id,
            forall|j: int| 0 <= j < i as int ==> ids@[j] != 0,
            forall|j: int|
                0 <= j < w as int ==> (ids@[j] == old(ids)@[j] || (j < i as int && old(ids)@[j]
                    == 0 && ids@[j] >= nid0 && ids@[j] != 0)),
            forall|j: int| i as int <= j < w as int ==> ids@[j] == old(ids)@[j],
            forall|x1: int, x2: int|
                0 <= x1 < w as int && 0 <= x2 < w as int && x1 != x2 && #[trigger] ids@[x1]
                    == #[trigger] ids@[x2] ==> ids@[x1] == old(ids)@[x1] && ids@[x2] == old(
                    ids,
                )@[x2],
        decreases w as int - i,
    {
        if ids[i] == 0 {
            let v = *next_id;
            ids.set(i, v);
            *next_id = v + 1;
        }
        i = i + 1;
    }
}

/// Carves the passage between columns `x` and `x + 1` of row `y`, which
/// lie in different sets, and relabels the right set to the left one.
#[verifier::loop_isolation(false)]
#[verifier::rlimit(60)]
fn merge_pair(graph: &mut MazeGraph, ids: &mut Vec<u64>, w: i32, h: i32, y: i32, x: i32)
    requires
        1 <= w,
        1 <= h,
        w as int * h as int <= i32::MAX as int,
        0 <= y < h,
        0 <= x < w - 1,
        old(ids)@.len() == w as int,
        forall|j: int| 0 <= j < w as int ==> old(ids)@[j] != 0,
        old(ids)@[x as int] != old(ids)@[x as int + 1],
        graph_nodes(*old(graph)) == rect_set(w as int, h as int),
        edges_ok(w as int, h as int, graph_edges(*old(graph))),
        graph_edges(*old(graph)).finite(),
        row_conn(w as int, y as int, old(ids)@, graph_edges(*old(graph))),
    ensures
        final(ids)@.len() == w as int,
        forall|j: int|
            0 <= j < w as int ==> final(ids)@[j] == (if old(ids)@[j] == old(ids)@[x as int + 1] {
                old(ids)@[x as int]
            } else {
                old(ids)@[j]
            }),
        graph_nodes(*final(graph)) == rect_set(w as int, h as int),
        edges_ok(w as int, h as int, graph_edges(*final(graph))),
        graph_edges(*final(graph)).finite(),
        graph_edges(*old(graph)).subset_of(graph_edges(*final(graph))),
        row_conn(w as int, y as int, final(ids)@, graph_edges(*final(graph))),
{
    let ghost wi = w as int;
    let ghost hi = h as int;
    let ghost yi = y as int;
    let a = ids[x as usize];
    let b = ids[(x + 1) as usize];
    let c = Coordinates { x, y };
    let n = Coordinates { x: x + 1, y };
    let ghost es0 = graph_edges(*graph);
    proof {
        assert(n == c.next_spec(Direction::East));
        lemma_edges_ok_insert(wi, hi, es0, c, n, Direction::East);
    }
    graph_add_edge(graph, c, n);
    let ghost es1 = graph_edges(*graph);
    // relabel the right set to the left one
    let mut j: usize = 0;
    while j < ids.len()
        invariant
            ids@.len() == wi,
            0 <= j <= wi,
            forall|k: int|
                0 <= k < j as int ==> ids@[k] == (if old(ids)@[k] == b {
                    a
                } else {
                    old(ids)@[k]
                }),
            forall|k: int| j as int <= k < wi ==> ids@[k] == old(ids)@[k],
        decreases wi - j,
    {
        if ids[j] == b {
            ids.set(j, a);
        }
        j = j + 1;
    }
    proof {
        let mid = old(ids)@;
        assert(rect_set(wi, hi).insert(c).insert(n) =~= rect_set(wi, hi));
        lemma_row_conn_mono(wi, yi, mid, es0, es1);
        assert(es1.contains((cell(x as int, yi), cell(x as int + 1, yi))));
        assert(es1.contains((cell(x as int + 1, yi), cell(x as int, yi))));
        assert(mid[x as int] == a && mid[x as int + 1] == b);
        assert forall|x1: int, x2: int| #![trigger ids@[x1], ids@[x2]]
            0 <= x1 < wi && 0 <= x2 < wi && ids@[x1] == ids@[x2] && ids@[x1] != 0
            implies connects(es1, cell(x1, yi), cell(x2, yi)) by {
            if mid[x1] == mid[x2] {
                assert(connects(es1, cell(x1, yi), cell(x2, yi)));
            } else if mid[x1] == b {
                // x1 was relabeled: x1 joins x+1, the new passage joins x,
                // and x joins x2
                assert(mid[x2] == a && ids@[x2] == a);
                assert(connects(es1, cell(x1, yi), cell(x as int + 1, yi)));
                lemma_connects_step(
                    es1,
                    cell(x1, yi),
                    cell(x as int + 1, yi),
                    cell(x as int, yi),
                );
                assert(connects(es1, cell(x as int, yi), cell(x2, yi)));
                lemma_connects_trans(es1, cell(x1, yi), cell(x as int, yi), cell(x2, yi));
            } else {
                assert(mid[x2] == b && mid[x1] == a && ids@[x1] == a);
                assert(connects(es1, cell(x1, yi), cell(x as int, yi)));
                lemma_connects_step(
                    es1,
                    cell(x1, yi),
                    cell(x as int, yi),
                    cell(x as int + 1, yi),
                );
                assert(connects(es1, cell(x as int + 1, yi), cell(x2, yi)));
                lemma_connects_trans(es1, cell(x1, yi), cell(x as int + 1, yi), cell(x2, yi));
            }
        }
    }
}

/// Scans the adjacent cell pairs of row `y` left to right; a pair in
/// different sets is merged - by a fair coin, or always when `force` is
/// set - by carving the passage between them and relabeling the right
/// set to the left one. With `force`, the whole row ends up in one set.
#[verifier::loop_isolation(false)]
fn merge_row(
    rng: &mut Rng,
    graph: &mut MazeGraph,
    ids: &mut Vec<u64>,
    w: i32,
    h: i32,
    y: i32,
    force: bool,
    bound: Ghost<u64>,
)
    requires
        1 <= w,
        1 <= h,
        w as int * h as int <= i32::MAX as int,
        0 <= y < h,
        old(ids)@.len() == w as int,
        forall|j: int| 0 <= j < w as int ==> old(ids)@[j] != 0 && old(ids)@[j] < bound@,
        graph_nodes(*old(graph)) == rect_set(w as int, h as int),
        edges_ok(w as int, h as int, graph_edges(*old(graph))),
        graph_edges(*old(graph)).finite(),
        row_conn(w as int, y as int, old(ids)@, graph_edges(*old(graph))),
    ensures
        final(ids)@.len() == w as int,
        forall|j: int| 0 <= j < w as int ==> final(ids)@[j] != 0 && final(ids)@[j] < bound@,
        graph_nodes(*final(graph)) == rect_set(w as int, h as int),
        edges_ok(w as int, h as int, graph_edges(*final(graph))),
        graph_edges(*final(graph)).finite(),
        graph_edges(*old(graph)).subset_of(graph_edges(*final(graph))),
        row_conn(w as int, y as int, final(ids)@, graph_edges(*final(graph))),
        force ==> forall|x1: int, x2: int|
            0 <= x1 < w as int && 0 <= x2 < w as int ==> final(ids)@[x1] == final(ids)@[x2],
{
    let ghost wi = w as int;
    let ghost hi = h as int;
    let ghost yi = y as int;
    let mut x: i32 = 0;
    while x < w - 1
        invariant
            0 <= x <= w,
            ids@.len() == wi,
            forall|j: int| 0 <= j < wi ==> ids@[j] != 0 && ids@[j] < bound@,
            graph_nodes(*graph) == rect_set(wi, hi),
            edges_ok(wi, hi, graph_edges(*graph)),
            graph_edges(*graph).finite(),
            graph_edges(*old(graph)).subset_of(graph_edges(*graph)),
            row_conn(wi, yi, ids@, graph_edges(*graph)),
            force ==> forall|j1: int, j2: int|
                0 <= j1 <= x as int && 0 <= j2 <= x as int ==> ids@[j1] == ids@[j2],
        decreases w - 1 - x,
    {
        let a = ids[x as usize];
        let b = ids[(x + 1) as usize];
        if a != b && (force || rng.coin()) {
            let ghost mid = ids@;
            merge_pair(graph, ids, w, h, y, x);
            proof {
                if force {
                    assert forall|j1: int, j2: int|
                        0 <= j1 <= x as int + 1 && 0 <= j2 <= x as int + 1 implies ids@[j1]
                        == ids@[j2] by {
                        assert(ids@[x as int + 1] == mid[x as int]);
                        if j1 <= x as int {
                            assert(mid[j1] == mid[x as int] && mid[j1] != b);
                        }
                        if j2 <= x as int {
                            assert(mid[j2] == mid[x as int] && mid[j2] != b);
                        }
                    }
                }
            }
        }
        x = x + 1;
    }
}

/// Carves at least one passage down into the next row for every set of the
/// current row (each cell by a fair coin, with the passage forced where a
/// set would otherwise be orphaned), and hands the set ids down along the
/// carved passages; other cells of the next row start unassigned.
#[verifier::loop_isolation(false)]
#[verifier::rlimit(100)]
#[verifier::spinoff_prover]
fn sink_row(
    rng: &mut Rng,
    graph: &mut MazeGraph,
    ids: &mut Vec<u64>,
    w: i32,
    h: i32,
    y: i32,
    bound: Ghost<u64>,
)
    requires
        1 <= w,
        1 <= h,
        w as int * h as int <= i32::MAX as int,
        0 <= y < h - 1,
        1 <= bound@,
        old(ids)@.len() == w as int,
        forall|j: int| 0 <= j < w as int ==> old(ids)@[j] != 0 && old(ids)@[j] < bound@,
        graph_nodes(*old(graph)) == rect_set(w as int, h as int),
        edges_ok(w as int, h as int, graph_edges(*old(graph))),
        graph_edges(*old(graph)).finite(),
        row_conn(w as int, y as int, old(ids)@, graph_edges(*old(graph))),
        below_conn(w as int, h as int, y as int, graph_edges(*old(graph))),
    ensures
        final(ids)@.len() == w as int,
        forall|j: int| 0 <= j < w as int ==> final(ids)@[j] < bound@,
        graph_nodes(*final(graph)) == rect_set(w as int, h as int),
        edges_ok(w as int, h as int, graph_edges(*final(graph))),
        graph_edges(*final(graph)).finite(),
        row_conn(w as int, y as int + 1, final(ids)@, graph_edges(*final(graph))),
        below_conn(w as int, h as int, y as int + 1, graph_edges(*final(graph))),
{
    let ghost wi = w as int;
    let ghost hi = h as int;
    let ghost yi = y as int;
    let ghost ids0 = old(ids)@;
    let mut down = fresh_visited(w as usize);
    let mut x: usize = 0;
    while x < w as usize
        invariant
            down@.len() == wi,
            0 <= x <= wi,
        decreases wi - x,
    {
        if rng.coin() {
            down.set(x, true);
        }
        x = x + 1;
    }
    // force a passage for any set that has none yet
    let mut x: i32 = 0;
    while x < w
        invariant
            0 <= x <= w,
            down@.len() == wi,
            forall|x1: int|
                0 <= x1 < x as int ==> exists|j: int|
                    0 <= j < wi && ids@[j] == #[trigger] ids@[x1] && #[trigger] down@[j],
        decreases w - x,
    {
        let mut any: bool = false;
        let mut j: usize = 0;
        while j < w as usize
            invariant
                0 <= j <= wi,
                any ==> exists|jj: int|
                    0 <= jj < wi && ids@[jj] == ids@[x as int] && #[trigger] down@[jj],
            decreases wi - j,
        {
            if ids[j] == ids[x as usize] && down[j] {
                any = true;
            }
            j = j + 1;
        }
        let ghost down0 = down@;
        if !any {
            down.set(x as usize, true);
        }
        proof {
            assert(exists|j: int|
                0 <= j < wi && ids@[j] == ids@[x as int] && #[trigger] down@[j]) by {
                if any {
                    let jj = choose|jj: int|
                        0 <= jj < wi && ids@[jj] == ids@[x as int] && down0[jj];
                    assert(ids@[jj] == ids@[x as int] && down@[jj]);
                } else {
                    assert(ids@[x as int] == ids@[x as int] && down@[x as int]);
                }
            }
            assert forall|x1: int| 0 <= x1 < x as int + 1 implies exists|j: int|
                0 <= j < wi && ids@[j] == #[trigger] ids@[x1] && #[trigger] down@[j] by {
                if x1 < x as int {
                    let jw = choose|j: int|
                        0 <= j < wi && ids@[j] == #[trigger] ids@[x1] && down0[j];
                    assert(ids@[jw] == ids@[x1] && down@[jw]);
                }
            }
        }
        x = x + 1;
    }
    // carve the chosen passages and hand the ids down
    let mut next_ids = zeros_u64(w as usize);
    let ghost es_start = graph_edges(*graph);
    let mut x: i32 = 0;
    while x < w
        invariant
            0 <= x <= w,
            next_ids@.len() == wi,
            graph_nodes(*graph) == rect_set(wi, hi),
            edges_ok(wi, hi, graph_edges(*graph)),
            graph_edges(*graph).finite(),
            es_start.subset_of(graph_edges(*graph)),
            forall|j: int|
                0 <= j < x as int && down@[j] ==> graph_edges(*graph).contains(
                    (#[trigger] cell(j, yi), cell(j, yi + 1)),
                ) && graph_edges(*graph).contains((cell(j, yi + 1), cell(j, yi))),
            forall|j: int|
                0 <= j < wi ==> next_ids@[j] == (if j < x as int && down@[j] {
                    ids@[j]
                } else {
                    0u64
                }),
        decreases w - x,
    {
        if down[x as usize] {
            let c = Coordinates { x, y };
            let n = Coordinates { x, y: y + 1 };
            let ghost es0 = graph_edges(*graph);
            proof {
                assert(n == c.next_spec(Direction::South));
                lemma_edges_ok_insert(wi, hi, es0, c, n, Direction::South);
            }
            graph_add_edge(graph, c, n);
            let id_here = ids[x as usize];
            next_ids.set(x as usize, id_here);
            proof {
                assert(rect_set(wi, hi).insert(c).insert(n) =~= rect_set(wi, hi));
            }
        }
        x = x + 1;
    }
    let ghost es = graph_edges(*graph);
    proof {
        lemma_row_conn_mono(wi, yi, ids@, es_start, es);
        // the new row: cells that inherited the same set id are joined
        // through their carved passages and the old row
        assert forall|x1: int, x2: int| #![trigger next_ids@[x1], next_ids@[x2]]
            0 <= x1 < wi && 0 <= x2 < wi && next_ids@[x1] == next_ids@[x2] && next_ids@[x1] != 0
            implies connects(es, cell(x1, yi + 1), cell(x2, yi + 1)) by {
            assert(down@[x1] && down@[x2] && ids@[x1] == ids@[x2] && ids@[x1] != 0);
            lemma_connects_refl(es, cell(x1, yi + 1));
            lemma_connects_step(es, cell(x1, yi + 1), cell(x1, yi + 1), cell(x1, yi));
            assert(connects(es, cell(x1, yi), cell(x2, yi)));
            lemma_connects_trans(es, cell(x1, yi + 1), cell(x1, yi), cell(x2, yi));
            lemma_connects_step(es, cell(x1, yi + 1), cell(x2, yi), cell(x2, yi + 1));
        }
        // every cell of row y or above is joined to some cell of row y+1
        assert forall|c: Coordinates| #[trigger] in_rect(wi, hi, c) && c.y < yi + 1
            implies exists|x2: int| 0 <= x2 < wi && connects(es, c, #[trigger] cell(x2, yi + 1)) by {
            let xr: int = if c.y < yi {
                choose|x0: int| 0 <= x0 < wi && connects(es_start, c, #[trigger] cell(x0, yi))
            } else {
                c.x as int
            };
            if c.y < yi {
                lemma_connects_mono(es_start, es, c, cell(xr, yi));
            } else {
                assert(c == cell(xr, yi));
                lemma_connects_refl(es, c);
            }
            assert(connects(es, c, cell(xr, yi)));
            let jw = choose|j: int| 0 <= j < wi && ids@[j] == ids@[xr] && down@[j];
            assert(connects(es, cell(xr, yi), cell(jw, yi)));
            lemma_connects_trans(es, c, cell(xr, yi), cell(jw, yi));
            lemma_connects_step(es, c, cell(jw, yi), cell(jw, yi + 1));
            assert(connects(es, c, cell(jw, yi + 1)));
        }
    }
    *ids = next_ids;
}

/// Generator implementation of Eller's algorithm. The start is placed at
/// `(0, 0)` and the goal at `(width - 1, height - 1)`.
pub struct EllersGenerator {
    rng: Rng,
}

impl EllersGenerator {
    /// The state of the generator's pseudo-random source.
    pub closed spec fn rng_state(self) -> u64 {
        self.rng.state
    }

    /// Creates an Eller's-algorithm generator. With a seed the generator is
    /// deterministic: the same seed and size always give the same maze.
    /// Without one it is seeded from the clock.
    pub fn new(seed: Option<[u8; 32]>) -> (r: EllersGenerator)
        ensures
            seed matches Some(s) ==> r.rng_state() == Rng::seeded(s@),
    {
        match seed {
            Some(s) => EllersGenerator { rng: Rng::from_seed(&s) },
            None => EllersGenerator { rng: Rng::from_entropy() },
        }
    }

    /// Generates a maze whose passages join adjacent cells only and connect
    /// every pair of cells: after the forced merges of the final row the
    /// grid is a single connected component.
    #[verifier::loop_isolation(false)]
    pub fn generate(&mut self, width: i32, height: i32) -> (r: Result<Maze, GenerationError>)
        requires
            width >= 1 && height >= 1 ==> width as int * height as int <= i32::MAX as int,
        ensures
            r is Ok <==> (width >= 1 && height >= 1),
            r matches Err(e) ==> e == GenerationError::InvalidSize,
            r matches Ok(m) ==> {
                &&& m.wf()
                &&& m.connected()
                &&& m.nodes().len() == width as int * height as int
                &&& m.width() == width as int
                &&& m.height() == height as int
                &&& m.spec_start() == (Coordinates { x: 0, y: 0 })
                &&& m.spec_goal() == (Coordinates { x: (width - 1) as i32, y: (height - 1) as i32 })
            },
    {
        if width < 1 || height < 1 {
            return Err(GenerationError::InvalidSize);
        }
        let w = width;
        let h = height;
        let ghost wi = w as int;
        let ghost hi = h as int;
        let mut graph = new_grid_graph(w, h);
        let mut ids = zeros_u64(w as usize);
        let mut next_id: u64 = 1;
        let mut y: i32 = 0;
        while y < h - 1
            invariant
                0 <= y <= h - 1,
                ids@.len() == wi,
                1 <= next_id,
                next_id as int <= 1 + wi * (y as int),
                forall|j: int| 0 <= j < wi ==> ids@[j] < next_id,
                graph_nodes(graph) == rect_set(wi, hi),
                edges_ok(wi, hi, graph_edges(graph)),
                graph_edges(graph).finite(),
                row_conn(wi, y as int, ids@, graph_edges(graph)),
                below_conn(wi, hi, y as int, graph_edges(graph)),
            decreases h - 1 - y,
        {
            proof {
                assert(wi * (y as int) + wi == wi * (y as int + 1)) by (nonlinear_arith);
                assert(wi * (y as int + 1) <= wi * hi) by (nonlinear_arith)
                    requires
                        1 <= wi,
                        y as int + 1 <= hi,
                ;
            }
            let ghost ids_before = ids@;
            assign_ids(&mut ids, &mut next_id, w);
            proof {
                lemma_assigned_row_conn(wi, hi, y as int, ids_before, ids@, graph_edges(graph));
            }
            merge_row(&mut self.rng, &mut graph, &mut ids, w, h, y, false, Ghost(next_id));
            proof {
                lemma_below_conn_mono(wi, hi, y as int, graph_edges(graph), graph_edges(graph));
            }
            sink_row(&mut self.rng, &mut graph, &mut ids, w, h, y, Ghost(next_id));
            y = y + 1;
        }
        // the final row: assign and force-merge everything into one set
        proof {
            assert(y == h - 1);
            assert(wi * (y as int) + wi == wi * (y as int + 1)) by (nonlinear_arith);
            assert(wi * (y as int + 1) <= wi * hi) by (nonlinear_arith)
                requires
                    1 <= wi,
                    y as int + 1 <= hi,
            ;
        }
        let ghost ids_before = ids@;
        assign_ids(&mut ids, &mut next_id, w);
        proof {
            lemma_assigned_row_conn(wi, hi, y as int, ids_before, ids@, graph_edges(graph));
        }
        let ghost es_pre = graph_edges(graph);
        merge_row(&mut self.rng, &mut graph, &mut ids, w, h, y, true, Ghost(next_id));
        let ghost es = graph_edges(graph);
        proof {
            lemma_below_conn_mono(wi, hi, y as int, es_pre, es);
            // every cell reaches some cell of the last row
            assert forall|c: Coordinates| #[trigger] rect_set(wi, hi).contains(c)
                implies exists|x2: int|
                0 <= x2 < wi && connects(es, c, #[trigger] cell(x2, hi - 1)) by {
                if c.y < h - 1 {
                    assert(in_rect(wi, hi, c) && c.y < y as int);
                } else {
                    lemma_connects_refl(es, c);
                    assert(c == cell(c.x as int, hi - 1));
                    assert(connects(es, c, cell(c.x as int, hi - 1)));
                }
            }
            // the last row is one set, hence pairwise joined, hence the
            // whole grid is connected
            assert forall|a: Coordinates, b: Coordinates|
                rect_set(wi, hi).contains(a) && rect_set(wi, hi).contains(b) implies connects(
                es,
                a,
                b,
            ) by {
                let xa = choose|x2: int| 0 <= x2 < wi && connects(es, a, #[trigger] cell(x2, hi - 1));
                let xb = choose|x2: int| 0 <= x2 < wi && connects(es, b, #[trigger] cell(x2, hi - 1));
                assert(ids@[xa] == ids@[xb] && ids@[xa] != 0);
                assert(connects(es, cell(xa, hi - 1), cell(xb, hi - 1)));
                lemma_connects_sym(es, b, cell(xb, hi - 1));
                lemma_connects_trans(es, a, cell(xa, hi - 1), cell(xb, hi - 1));
                lemma_connects_trans(es, a, cell(xb, hi - 1), b);
            }
            lemma_rect_len(wi, hi);
        }
        let start = Coordinates::new(0, 0);
        let goal = Coordinates::new(w - 1, h - 1);
        let maze = Maze::new(graph, start, goal, (width, height));
        Ok(maze)
    }
}

/// Assigning fresh ids to unassigned cells keeps the row invariant: two
/// distinct cells share an id afterwards only where they already shared a
/// nonzero id before.
proof fn lemma_assigned_row_conn(
    w: int,
    h: int,
    y: int,
    ids0: Seq<u64>,
    ids1: Seq<u64>,
    es: Set<(Coordinates, Coordinates)>,
)
    requires
        row_conn(w, y, ids0, es),
        ids0.len() == w,
        ids1.len() == w,
        forall|j: int| 0 <= j < w ==> (ids1[j] == ids0[j] || ids0[j] == 0),
        forall|x1: int, x2: int|
            0 <= x1 < w && 0 <= x2 < w && x1 != x2 && #[trigger] ids1[x1] == #[trigger] ids1[x2]
                ==> ids1[x1] == ids0[x1] && ids1[x2] == ids0[x2],
    ensures
        row_conn(w, y, ids1, es),
{
    assert forall|x1: int, x2: int| #![trigger ids1[x1], ids1[x2]]
        0 <= x1 < w && 0 <= x2 < w && ids1[x1] == ids1[x2] && ids1[x1] != 0 implies connects(
        es,
        cell(x1, y),
        cell(x2, y),
    ) by {
        if x1 == x2 {
            lemma_connects_refl(es, cell(x1, y));
        } else {
            assert(ids0[x1] == ids0[x2] && ids0[x1] != 0);
        }
    }
}

impl Generator for EllersGenerator {
    fn generate(&mut self, width: i32, height: i32) -> (r: Result<Maze, GenerationError>) {
        EllersGenerator::generate(self, width, height)
    }
}

} // verus!
