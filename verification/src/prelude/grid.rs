use vstd::prelude::*;

use crate::prelude::coordinates::Coordinates;
use crate::prelude::direction::Direction;
use crate::prelude::graph::graph_add_node;
use crate::prelude::graph::graph_new;
use crate::prelude::graph::graph_nodes;
use crate::prelude::graph::graph_edges;
use crate::prelude::graph::MazeGraph;

verus! {

/// Whether a coordinate lies inside the rectangle `[0,w) x [0,h)`.
pub open spec fn in_rect(w: int, h: int, c: Coordinates) -> bool {
    0 <= c.x < w && 0 <= c.y < h
}

/// All coordinates of the rectangle `[0,w) x [0,h)`.
pub open spec fn rect_set(w: int, h: int) -> Set<Coordinates> {
    Set::new(|c: Coordinates| in_rect(w, h, c))
}

/// One row of a rectangle: the coordinates with `0 <= x < w` at height `y`.
pub open spec fn row_set(w: int, y: int) -> Set<Coordinates> {
    Set::new(|c: Coordinates| 0 <= c.x < w && c.y == y)
}

/// Whether two coordinates are grid neighbors (Manhattan distance one).
pub open spec fn adjacent(a: Coordinates, b: Coordinates) -> bool {
    ||| (a.x == b.x && (b.y == a.y + 1 || b.y + 1 == a.y))
    ||| (a.y == b.y && (b.x == a.x + 1 || b.x + 1 == a.x))
}

/// The flat index of a cell in row-major order.
pub open spec fn cell_idx(w: int, c: Coordinates) -> int {
    c.y * w + c.x
}

/// The cells marked true in a row-major visited table of a `w` by `h` grid.
pub open spec fn vis_set(v: Seq<bool>, w: int, h: int) -> Set<Coordinates> {
    Set::new(|c: Coordinates| in_rect(w, h, c) && v[cell_idx(w, c)])
}

/// Every edge of the set connects two grid-adjacent cells inside the
/// rectangle, and the set holds each edge in both orientations.
pub open spec fn edges_ok(w: int, h: int, es: Set<(Coordinates, Coordinates)>) -> bool {
    &&& forall|e: (Coordinates, Coordinates)| #[trigger]
        es.contains(e) ==> adjacent(e.0, e.1) && in_rect(w, h, e.0) && in_rect(w, h, e.1)
    &&& forall|a: Coordinates, b: Coordinates| #[trigger]
        es.contains((a, b)) ==> es.contains((b, a))
}

/// Every edge of the set has both endpoints in `vis`.
pub open spec fn edges_within(es: Set<(Coordinates, Coordinates)>, vis: Set<Coordinates>) -> bool {
    forall|e: (Coordinates, Coordinates)| #[trigger]
        es.contains(e) ==> vis.contains(e.0) && vis.contains(e.1)
}

/// The consecutive elements of `p` are all edges of `es`.
pub open spec fn path_ok(es: Set<(Coordinates, Coordinates)>, p: Seq<Coordinates>) -> bool {
    forall|i: int| 0 <= i < p.len() - 1 ==> #[trigger] es.contains((p[i], p[i + 1]))
}

/// Whether a path over the edges of `es` leads from `a` to `b`.
pub open spec fn connects(es: Set<(Coordinates, Coordinates)>, a: Coordinates, b: Coordinates) -> bool {
    exists|p: Seq<Coordinates>| #![auto]
        p.len() >= 1 && p[0] == a && p[p.len() - 1] == b && path_ok(es, p)
}

/// Every cell of `vis` can be reached from `root` over the edges of `es`.
pub open spec fn reaches_all(
    es: Set<(Coordinates, Coordinates)>,
    root: Coordinates,
    vis: Set<Coordinates>,
) -> bool {
    forall|c: Coordinates| #[trigger] vis.contains(c) ==> connects(es, root, c)
}

/// Every in-bounds neighbor of a cell of `vis` is itself in `vis`.
pub open spec fn dir_closed(w: int, h: int, vis: Set<Coordinates>) -> bool {
    forall|c: Coordinates, d: Direction|
        #[trigger] vis.contains(c) && in_rect(w, h, #[trigger] c.next_spec(d))
            ==> vis.contains(c.next_spec(d))
}

pub proof fn lemma_connects_refl(es: Set<(Coordinates, Coordinates)>, a: Coordinates)
    ensures
        connects(es, a, a),
{
    let p = seq![a];
    assert(p.len() >= 1 && p[0] == a && p[p.len() - 1] == a && path_ok(es, p));
}

pub proof fn lemma_connects_step(
    es: Set<(Coordinates, Coordinates)>,
    a: Coordinates,
    b: Coordinates,
    c: Coordinates,
)
    requires
        connects(es, a, b),
        es.contains((b, c)),
    ensures
        connects(es, a, c),
{
    let p = choose|p: Seq<Coordinates>| #![auto]
        p.len() >= 1 && p[0] == a && p[p.len() - 1] == b && path_ok(es, p);
    let q = p.push(c);
    assert forall|i: int| 0 <= i < q.len() - 1 implies #[trigger] es.contains((q[i], q[i + 1])) by {
        if i < p.len() - 1 {
            assert(es.contains((p[i], p[i + 1])));
        } else {
            assert(q[i] == b && q[i + 1] == c);
        }
    }
    assert(q.len() >= 1 && q[0] == a && q[q.len() - 1] == c && path_ok(es, q));
}

pub proof fn lemma_connects_mono(
    es1: Set<(Coordinates, Coordinates)>,
    es2: Set<(Coordinates, Coordinates)>,
    a: Coordinates,
    b: Coordinates,
)
    requires
        connects(es1, a, b),
        es1.subset_of(es2),
    ensures
        connects(es2, a, b),
{
    let p = choose|p: Seq<Coordinates>| #![auto]
        p.len() >= 1 && p[0] == a && p[p.len() - 1] == b && path_ok(es1, p);
    assert forall|i: int| 0 <= i < p.len() - 1 implies #[trigger] es2.contains((p[i], p[i + 1])) by {
        assert(es1.contains((p[i], p[i + 1])));
    }
    assert(p.len() >= 1 && p[0] == a && p[p.len() - 1] == b && path_ok(es2, p));
}

pub proof fn lemma_connects_trans(
    es: Set<(Coordinates, Coordinates)>,
    a: Coordinates,
    b: Coordinates,
    c: Coordinates,
)
    requires
        connects(es, a, b),
        connects(es, b, c),
    ensures
        connects(es, a, c),
{
    let p1 = choose|p: Seq<Coordinates>| #![auto]
        p.len() >= 1 && p[0] == a && p[p.len() - 1] == b && path_ok(es, p);
    let p2 = choose|p: Seq<Coordinates>| #![auto]
        p.len() >= 1 && p[0] == b && p[p.len() - 1] == c && path_ok(es, p);
    let q = p1 + p2.subrange(1, p2.len() as int);
    assert(q.len() == p1.len() + p2.len() - 1);
    assert(q[0] == a);
    assert(q[q.len() - 1] == c);
    assert forall|i: int| 0 <= i < q.len() - 1 implies #[trigger] es.contains((q[i], q[i + 1])) by {
        if i < p1.len() - 1 {
            assert(q[i] == p1[i] && q[i + 1] == p1[i + 1]);
            assert(es.contains((p1[i], p1[i + 1])));
        } else if i == p1.len() - 1 {
            assert(q[i] == b && q[i + 1] == p2[1]);
            assert(es.contains((p2[0], p2[1])));
        } else {
            let j = i - p1.len() + 1;
            assert(q[i] == p2[j] && q[i + 1] == p2[j + 1]);
            assert(es.contains((p2[j], p2[j + 1])));
        }
    }
    assert(q.len() >= 1 && q[0] == a && q[q.len() - 1] == c && path_ok(es, q));
}

pub proof fn lemma_connects_sym(
    es: Set<(Coordinates, Coordinates)>,
    a: Coordinates,
    b: Coordinates,
)
    requires
        connects(es, a, b),
        forall|x: Coordinates, y: Coordinates| #[trigger]
            es.contains((x, y)) ==> es.contains((y, x)),
    ensures
        connects(es, b, a),
{
    let p = choose|p: Seq<Coordinates>| #![auto]
        p.len() >= 1 && p[0] == a && p[p.len() - 1] == b && path_ok(es, p);
    let n = p.len() as int;
    let q = Seq::new(p.len(), |i: int| p[n - 1 - i]);
    assert forall|i: int| 0 <= i < q.len() - 1 implies #[trigger] es.contains((q[i], q[i + 1])) by {
        let j = n - 2 - i;
        assert(0 <= j < p.len() - 1);
        assert(es.contains((p[j], p[j + 1])));
        assert(q[i] == p[j + 1] && q[i + 1] == p[j]);
    }
    assert(q.len() >= 1 && q[0] == b && q[q.len() - 1] == a && path_ok(es, q));
}

/// A set of cells that every cell reaches a root of, over symmetric edges,
/// is pairwise connected.
pub proof fn lemma_star_connected(
    es: Set<(Coordinates, Coordinates)>,
    vis: Set<Coordinates>,
    root: Coordinates,
)
    requires
        reaches_all(es, root, vis),
        forall|x: Coordinates, y: Coordinates| #[trigger]
            es.contains((x, y)) ==> es.contains((y, x)),
    ensures
        forall|a: Coordinates, b: Coordinates|
            vis.contains(a) && vis.contains(b) ==> connects(es, a, b),
{
    assert forall|a: Coordinates, b: Coordinates|
        vis.contains(a) && vis.contains(b) implies connects(es, a, b) by {
        lemma_connects_sym(es, root, a);
        lemma_connects_trans(es, a, root, b);
    }
}

/// A nonempty neighbor-closed set of cells that holds the origin covers the
/// whole rectangle.
pub proof fn lemma_closed_rect(w: int, h: int, vis: Set<Coordinates>, c: Coordinates)
    requires
        1 <= w,
        1 <= h,
        vis.contains(Coordinates { x: 0, y: 0 }),
        dir_closed(w, h, vis),
        in_rect(w, h, c),
    ensures
        vis.contains(c),
    decreases c.x + c.y,
{
    if c.x > 0 {
        let p = Coordinates { x: (c.x - 1) as i32, y: c.y };
        lemma_closed_rect(w, h, vis, p);
        assert(c == p.next_spec(Direction::East));
        assert(vis.contains(p.next_spec(Direction::East)));
    } else if c.y > 0 {
        let p = Coordinates { x: c.x, y: (c.y - 1) as i32 };
        lemma_closed_rect(w, h, vis, p);
        assert(c == p.next_spec(Direction::South));
        assert(vis.contains(p.next_spec(Direction::South)));
    } else {
        assert(c == Coordinates { x: 0, y: 0 });
    }
}

pub proof fn lemma_row_len(w: int, y: int)
    requires
        0 <= w <= i32::MAX,
        i32::MIN <= y <= i32::MAX,
    ensures
        row_set(w, y).finite(),
        row_set(w, y).len() == w,
    decreases w,
{
    if w == 0 {
        assert(row_set(0, y) =~= Set::<Coordinates>::empty());
    } else {
        lemma_row_len(w - 1, y);
        let c = Coordinates { x: (w - 1) as i32, y: y as i32 };
        assert(row_set(w, y) =~= row_set(w - 1, y).insert(c));
        assert(!row_set(w - 1, y).contains(c));
    }
}

pub proof fn lemma_rect_len(w: int, h: int)
    requires
        0 <= w <= i32::MAX,
        0 <= h <= i32::MAX,
    ensures
        rect_set(w, h).finite(),
        rect_set(w, h).len() == w * h,
    decreases h,
{
    broadcast use vstd::set_lib::lemma_set_disjoint_lens;

    if h == 0 {
        assert(rect_set(w, 0) =~= Set::<Coordinates>::empty());
    } else {
        lemma_rect_len(w, h - 1);
        lemma_row_len(w, h - 1);
        assert(rect_set(w, h) =~= rect_set(w, h - 1) + row_set(w, h - 1));
        assert(rect_set(w, h - 1).disjoint(row_set(w, h - 1)));
        assert((rect_set(w, h - 1) + row_set(w, h - 1)).len() == w * (h - 1) + w);
        assert(w * (h - 1) + w == w * h) by (nonlinear_arith);
    }
}

pub proof fn lemma_cell_idx_bounds(w: int, h: int, c: Coordinates)
    requires
        1 <= w,
        1 <= h,
        in_rect(w, h, c),
    ensures
        0 <= c.y * w,
        0 <= cell_idx(w, c) < w * h,
{
    assert(0 <= c.y * w && c.y * w + c.x < w * h) by (nonlinear_arith)
        requires
            0 <= c.x < w,
            0 <= c.y < h,
            1 <= w,
    ;
}

pub proof fn lemma_cell_idx_inj(w: int, h: int, a: Coordinates, b: Coordinates)
    requires
        1 <= w,
        1 <= h,
        in_rect(w, h, a),
        in_rect(w, h, b),
        cell_idx(w, a) == cell_idx(w, b),
    ensures
        a == b,
{
    assert(a.x == b.x && a.y == b.y) by (nonlinear_arith)
        requires
            0 <= a.x < w,
            0 <= a.y < h,
            0 <= b.x < w,
            0 <= b.y < h,
            a.y * w + a.x == b.y * w + b.x,
    ;
}

/// Marking one in-bounds cell in the visited table inserts exactly that
/// cell into the visited set.
pub proof fn lemma_vis_mark(v: Seq<bool>, w: int, h: int, c: Coordinates)
    requires
        1 <= w,
        1 <= h,
        v.len() == w * h,
        in_rect(w, h, c),
    ensures
        vis_set(v.update(cell_idx(w, c), true), w, h) =~= vis_set(v, w, h).insert(c),
{
    lemma_cell_idx_bounds(w, h, c);
    let v2 = v.update(cell_idx(w, c), true);
    assert forall|d: Coordinates|
        #[trigger] vis_set(v2, w, h).contains(d) <==> vis_set(v, w, h).insert(c).contains(d) by {
        if d == c {
            assert(vis_set(v2, w, h).contains(d));
        } else if in_rect(w, h, d) {
            if cell_idx(w, d) == cell_idx(w, c) {
                lemma_cell_idx_inj(w, h, d, c);
            }
            lemma_cell_idx_bounds(w, h, d);
            assert(v2[cell_idx(w, d)] == v[cell_idx(w, d)]);
        }
    }
}

/// A duplicate-free sequence of members of a finite set is no longer than
/// the set.
pub proof fn lemma_distinct_seq_len(s: Seq<Coordinates>, vis: Set<Coordinates>)
    requires
        s.no_duplicates(),
        vis.finite(),
        forall|i: int| 0 <= i < s.len() ==> vis.contains(#[trigger] s[i]),
    ensures
        s.len() <= vis.len(),
{
    broadcast use vstd::seq_lib::seq_to_set_is_finite;

    s.unique_seq_to_set();
    assert forall|x: Coordinates| #[trigger] s.to_set().contains(x) implies vis.contains(x) by {
        let i = choose|i: int| 0 <= i < s.len() && s[i] == x;
        assert(vis.contains(s[i]));
    }
    vstd::set_lib::lemma_len_subset(s.to_set(), vis);
}

/// Inserting a passage between two adjacent in-bounds cells, in both
/// orientations, keeps the edge set well formed.
pub proof fn lemma_edges_ok_insert(
    w: int,
    h: int,
    es: Set<(Coordinates, Coordinates)>,
    c: Coordinates,
    n: Coordinates,
    d: Direction,
)
    requires
        1 <= w <= i32::MAX,
        1 <= h <= i32::MAX,
        edges_ok(w, h, es),
        in_rect(w, h, c),
        in_rect(w, h, n),
        n == c.next_spec(d),
    ensures
        edges_ok(w, h, es.insert((c, n)).insert((n, c))),
        es.finite() ==> es.insert((c, n)).insert((n, c)).finite(),
        es.subset_of(es.insert((c, n)).insert((n, c))),
        es.insert((c, n)).insert((n, c)).contains((c, n)),
        es.insert((c, n)).insert((n, c)).contains((n, c)),
{
    assert(adjacent(c, n) && adjacent(n, c)) by {
        match d {
            Direction::North => {
                assert(n.x == c.x && n.y == c.y - 1);
            },
            Direction::East => {
                assert(n.x == c.x + 1 && n.y == c.y);
            },
            Direction::South => {
                assert(n.x == c.x && n.y == c.y + 1);
            },
            Direction::West => {
                assert(n.x == c.x - 1 && n.y == c.y);
            },
        }
    }
}

/// Carving a passage from a visited cell to a fresh neighbor keeps every
/// invariant of a growing spanning tree: edges stay adjacent, symmetric and
/// within the visited set, the edge count grows by exactly one undirected
/// edge, and the fresh cell becomes reachable from the root.
pub proof fn lemma_carve(
    w: int,
    h: int,
    es: Set<(Coordinates, Coordinates)>,
    vis: Set<Coordinates>,
    root: Coordinates,
    c: Coordinates,
    n: Coordinates,
    d: Direction,
)
    requires
        1 <= w <= i32::MAX,
        1 <= h <= i32::MAX,
        edges_ok(w, h, es),
        edges_within(es, vis),
        es.finite(),
        vis.finite(),
        es.len() == 2 * (vis.len() - 1),
        vis.contains(c),
        !vis.contains(n),
        in_rect(w, h, c),
        in_rect(w, h, n),
        n == c.next_spec(d),
        reaches_all(es, root, vis),
    ensures
        edges_ok(w, h, es.insert((c, n)).insert((n, c))),
        edges_within(es.insert((c, n)).insert((n, c)), vis.insert(n)),
        es.insert((c, n)).insert((n, c)).finite(),
        es.insert((c, n)).insert((n, c)).len() == 2 * (vis.insert(n).len() - 1),
        reaches_all(es.insert((c, n)).insert((n, c)), root, vis.insert(n)),
        vis.insert(n).finite(),
        vis.insert(n).len() == vis.len() + 1,
{
    let es2 = es.insert((c, n)).insert((n, c));
    let vis2 = vis.insert(n);
    assert(adjacent(c, n) && adjacent(n, c)) by {
        match d {
            Direction::North => {
                assert(n.x == c.x && n.y == c.y - 1);
            },
            Direction::East => {
                assert(n.x == c.x + 1 && n.y == c.y);
            },
            Direction::South => {
                assert(n.x == c.x && n.y == c.y + 1);
            },
            Direction::West => {
                assert(n.x == c.x - 1 && n.y == c.y);
            },
        }
    }
    assert(c != n);
    assert(!es.contains((c, n)) && !es.contains((n, c)));
    assert(es2.len() == es.len() + 2);
    assert(vis2.len() == vis.len() + 1);
    assert forall|z: Coordinates| #[trigger] vis2.contains(z) implies connects(es2, root, z) by {
        if z == n {
            lemma_connects_mono(es, es2, root, c);
            lemma_connects_step(es2, root, c, n);
        } else {
            lemma_connects_mono(es, es2, root, z);
        }
    }
}

/// When growing stops with the visited set neighbor-closed, the visited set
/// is the whole rectangle and the carved edges form a spanning tree of it:
/// `w*h` nodes, `w*h - 1` undirected passages, all cells connected.
pub proof fn lemma_finish(
    w: int,
    h: int,
    es: Set<(Coordinates, Coordinates)>,
    vis: Set<Coordinates>,
)
    requires
        1 <= w <= i32::MAX,
        1 <= h <= i32::MAX,
        vis.finite(),
        vis.subset_of(rect_set(w, h)),
        vis.contains(Coordinates { x: 0, y: 0 }),
        dir_closed(w, h, vis),
        forall|x: Coordinates, y: Coordinates| #[trigger]
            es.contains((x, y)) ==> es.contains((y, x)),
        reaches_all(es, Coordinates { x: 0, y: 0 }, vis),
        es.finite(),
        es.len() == 2 * (vis.len() - 1),
    ensures
        vis == rect_set(w, h),
        rect_set(w, h).finite(),
        rect_set(w, h).len() == w * h,
        es.len() == 2 * (rect_set(w, h).len() - 1),
        forall|a: Coordinates, b: Coordinates|
            rect_set(w, h).contains(a) && rect_set(w, h).contains(b) ==> connects(es, a, b),
{
    assert forall|c: Coordinates| #[trigger] rect_set(w, h).contains(c) implies vis.contains(c) by {
        lemma_closed_rect(w, h, vis, c);
    }
    assert(vis =~= rect_set(w, h));
    lemma_rect_len(w, h);
    lemma_star_connected(es, vis, Coordinates { x: 0, y: 0 });
}

/// A visited table of `n` cells with every cell unvisited.
pub(crate) fn fresh_visited(n: usize) -> (r: Vec<bool>)
    ensures
        r@.len() == n,
        forall|i: int| 0 <= i < n ==> !r@[i],
{
    let mut v: Vec<bool> = Vec::new();
    while v.len() < n
        invariant
            v@.len() <= n,
            forall|i: int| 0 <= i < v@.len() ==> !v@[i],
        decreases n - v@.len(),
    {
        v.push(false);
    }
    v
}

/// The row-major index of an in-bounds cell.
pub(crate) fn idx_of(w: i32, h: i32, c: Coordinates) -> (r: usize)
    requires
        1 <= w,
        1 <= h,
        w as int * h as int <= i32::MAX as int,
        in_rect(w as int, h as int, c),
    ensures
        r == cell_idx(w as int, c),
        r < w as int * h as int,
{
    proof {
        lemma_cell_idx_bounds(w as int, h as int, c);
    }
    (c.y * w + c.x) as usize
}

/// Whether the cell is marked in the visited table.
pub(crate) fn is_visited(visited: &Vec<bool>, w: i32, h: i32, c: Coordinates) -> (r: bool)
    requires
        1 <= w,
        1 <= h,
        w as int * h as int <= i32::MAX as int,
        in_rect(w as int, h as int, c),
        visited@.len() == w as int * h as int,
    ensures
        r == vis_set(visited@, w as int, h as int).contains(c),
{
    let i = idx_of(w, h, c);
    visited[i]
}

/// Marks the cell in the visited table.
pub(crate) fn mark_visited(visited: &mut Vec<bool>, w: i32, h: i32, c: Coordinates)
    requires
        1 <= w,
        1 <= h,
        w as int * h as int <= i32::MAX as int,
        in_rect(w as int, h as int, c),
        old(visited)@.len() == w as int * h as int,
    ensures
        final(visited)@.len() == old(visited)@.len(),
        vis_set(final(visited)@, w as int, h as int) == vis_set(
            old(visited)@,
            w as int,
            h as int,
        ).insert(c),
{
    let i = idx_of(w, h, c);
    visited.set(i, true);
    proof {
        lemma_vis_mark(old(visited)@, w as int, h as int, c);
    }
}

/// The cells already added to a grid graph that is filled row by row: all
/// rows below `y`, and in row `y` the cells left of `x`.
pub open spec fn grid_prefix(w: int, y: int, x: int) -> Set<Coordinates> {
    Set::new(
        |c: Coordinates|
            0 <= c.x < w && 0 <= c.y && (c.y < y || (c.y == y && c.x < x)),
    )
}

/// A graph holding every cell of the `w` by `h` rectangle as a node, and no
/// edges yet.
pub(crate) fn new_grid_graph(w: i32, h: i32) -> (g: MazeGraph)
    requires
        1 <= w,
        1 <= h,
        w as int * h as int <= i32::MAX as int,
    ensures
        graph_nodes(g) == rect_set(w as int, h as int),
        graph_edges(g) == Set::<(Coordinates, Coordinates)>::empty(),
{
    let mut g = graph_new((w as usize) * (h as usize));
    let mut y: i32 = 0;
    proof {
        assert(graph_nodes(g) =~= grid_prefix(w as int, 0, 0));
    }
    while y < h
        invariant
            1 <= w,
            1 <= h,
            w as int * h as int <= i32::MAX as int,
            0 <= y <= h,
            graph_nodes(g) == grid_prefix(w as int, y as int, 0),
            graph_edges(g) == Set::<(Coordinates, Coordinates)>::empty(),
        decreases h - y,
    {
        let mut x: i32 = 0;
        while x < w
            invariant
                1 <= w,
                1 <= h,
                w as int * h as int <= i32::MAX as int,
                0 <= y < h,
                0 <= x <= w,
                graph_nodes(g) == grid_prefix(w as int, y as int, x as int),
                graph_edges(g) == Set::<(Coordinates, Coordinates)>::empty(),
            decreases w - x,
        {
            graph_add_node(&mut g, Coordinates { x, y });
            proof {
                assert(grid_prefix(w as int, y as int, x as int).insert(Coordinates { x, y })
                    =~= grid_prefix(w as int, y as int, x as int + 1));
            }
            x = x + 1;
        }
        proof {
            assert(grid_prefix(w as int, y as int, w as int)
                =~= grid_prefix(w as int, y as int + 1, 0));
        }
        y = y + 1;
    }
    proof {
        assert(grid_prefix(w as int, h as int, 0) =~= rect_set(w as int, h as int));
    }
    g
}

/// The directions whose in-bounds neighbor of `c` is still unvisited, in
/// the fixed order North, East, South, West.
pub(crate) fn unvisited_neighbors(
    visited: &Vec<bool>,
    w: i32,
    h: i32,
    c: Coordinates,
) -> (r: Vec<Direction>)
    requires
        1 <= w,
        1 <= h,
        w as int * h as int <= i32::MAX as int,
        in_rect(w as int, h as int, c),
        visited@.len() == w as int * h as int,
    ensures
        forall|j: int|
            0 <= j < r@.len() ==> in_rect(w as int, h as int, c.next_spec(#[trigger] r@[j]))
                && !vis_set(visited@, w as int, h as int).contains(c.next_spec(r@[j])),
        forall|d: Direction|
            (in_rect(w as int, h as int, #[trigger] c.next_spec(d)) && !vis_set(
                visited@,
                w as int,
                h as int,
            ).contains(c.next_spec(d))) ==> r@.contains(d),
        r@.len() <= 4,
{
    let ghost vis = vis_set(visited@, w as int, h as int);
    let ghost wi = w as int;
    let ghost hi = h as int;
    let mut r: Vec<Direction> = Vec::new();
    let mut has_north: bool = false;
    let mut has_east: bool = false;
    let mut has_south: bool = false;
    if c.y > 0 {
        let n = c.next(&Direction::North);
        if !is_visited(visited, w, h, n) {
            r.push(Direction::North);
            has_north = true;
        }
    }
    if c.x + 1 < w {
        let n = c.next(&Direction::East);
        if !is_visited(visited, w, h, n) {
            r.push(Direction::East);
            has_east = true;
        }
    }
    if c.y + 1 < h {
        let n = c.next(&Direction::South);
        if !is_visited(visited, w, h, n) {
            r.push(Direction::South);
            has_south = true;
        }
    }
    if c.x > 0 {
        let n = c.next(&Direction::West);
        if !is_visited(visited, w, h, n) {
            r.push(Direction::West);
        }
    }
    proof {
        assert(has_north ==> r@[0] == Direction::North);
        assert forall|d: Direction|
            (in_rect(wi, hi, #[trigger] c.next_spec(d)) && !vis.contains(c.next_spec(d)))
                implies r@.contains(d) by {
            match d {
                Direction::North => {
                    assert(has_north);
                    assert(r@[0] == Direction::North);
                },
                Direction::East => {
                    let j: int = if has_north { 1 } else { 0 };
                    assert(r@[j] == Direction::East);
                },
                Direction::South => {
                    let j: int = (if has_north { 1int } else { 0int })
                        + (if has_east { 1int } else { 0int });
                    assert(r@[j] == Direction::South);
                },
                Direction::West => {
                    assert(r@[r@.len() - 1] == Direction::West);
                },
            }
        }
    }
    r
}

} // verus!
