use vstd::prelude::*;

use crate::prelude::coordinates::Coordinates;
use crate::prelude::direction::Direction;
use crate::prelude::field::Field;
use crate::prelude::field::FieldType;
use crate::prelude::graph::graph_clone;
use crate::prelude::graph::graph_contains_edge;
use crate::prelude::graph::graph_edge_count;
use crate::prelude::graph::graph_edges;
use crate::prelude::graph::graph_iso;
use crate::prelude::graph::graph_node_count;
use crate::prelude::graph::graph_nodes;
use crate::prelude::graph::iso_of;
use crate::prelude::graph::MazeGraph;
use crate::prelude::grid::adjacent;
use crate::prelude::grid::connects;
use crate::prelude::grid::edges_ok;
use crate::prelude::grid::in_rect;
use crate::prelude::grid::rect_set;

verus! {

/// A collection of [`Field`]s with passages between them.
///
/// Use one of the provided generators to create an instance of this type.
/// Every maze a generator returns is well formed (`wf`): its graph holds a
/// node for every cell of the rectangle and passages only between adjacent
/// in-bounds cells.
pub struct Maze {
    pub(crate) graph: MazeGraph,
    /// At which coordinates the start field lies
    pub start: Coordinates,
    /// At which coordinates the goal field lies
    pub goal: Coordinates,
    /// How large the maze is in (width, height) format
    pub size: (i32, i32),
}

/// The cell at column `x` of row `y`.
pub open spec fn cell_at(x: int, y: int) -> Coordinates {
    Coordinates { x: x as i32, y: y as i32 }
}

impl Maze {
    /// The maze's width as a mathematical integer.
    pub closed spec fn width(self) -> int {
        self.size.0 as int
    }

    /// The maze's height as a mathematical integer.
    pub closed spec fn height(self) -> int {
        self.size.1 as int
    }

    /// Where the start field lies.
    pub closed spec fn spec_start(self) -> Coordinates {
        self.start
    }

    /// Where the goal field lies.
    pub closed spec fn spec_goal(self) -> Coordinates {
        self.goal
    }

    /// The set of cells the maze's graph holds.
    pub closed spec fn nodes(self) -> Set<Coordinates> {
        graph_nodes(self.graph)
    }

    /// The set of open passages, as ordered pairs closed under swapping.
    pub closed spec fn edges(self) -> Set<(Coordinates, Coordinates)> {
        graph_edges(self.graph)
    }

    /// Well-formedness: positive dimensions, a node for every cell of the
    /// rectangle, and passages only between adjacent in-bounds cells, held
    /// in both orientations.
    pub open spec fn wf(self) -> bool {
        &&& 1 <= self.width()
        &&& 1 <= self.height()
        &&& self.width() * self.height() <= i32::MAX as int
        &&& self.nodes() == rect_set(self.width(), self.height())
        &&& self.nodes().finite()
        &&& self.edges().finite()
        &&& edges_ok(self.width(), self.height(), self.edges())
        &&& in_rect(self.width(), self.height(), self.spec_start())
        &&& in_rect(self.width(), self.height(), self.spec_goal())
    }

    /// Any two cells of the maze are joined by a path of open passages.
    pub open spec fn connected(self) -> bool {
        forall|a: Coordinates, b: Coordinates|
            self.nodes().contains(a) && self.nodes().contains(b) ==> connects(self.edges(), a, b)
    }

    /// The passages form a spanning tree of the grid: `width*height` cells,
    /// exactly `width*height - 1` undirected passages (each held as two
    /// ordered pairs), and every pair of cells connected — hence no cycles.
    pub open spec fn is_perfect(self) -> bool {
        &&& self.nodes().len() == self.width() * self.height()
        &&& self.edges().len() == 2 * (self.nodes().len() - 1)
        &&& self.connected()
    }

    /// The role the given cell plays: the start marker takes precedence
    /// over the goal marker when the two coincide.
    pub open spec fn field_type_spec(self, c: Coordinates) -> FieldType {
        if c == self.spec_start() {
            FieldType::Start
        } else if c == self.spec_goal() {
            FieldType::Goal
        } else {
            FieldType::Normal
        }
    }

    /// The directions with an open passage out of `c`, in the fixed order
    /// North, East, South, West, each at most once.
    pub open spec fn passages_spec(self, c: Coordinates) -> Seq<Direction> {
        (if self.edges().contains((c, c.next_spec(Direction::North))) {
            seq![Direction::North]
        } else {
            Seq::<Direction>::empty()
        }) + (if self.edges().contains((c, c.next_spec(Direction::East))) {
            seq![Direction::East]
        } else {
            Seq::<Direction>::empty()
        }) + (if self.edges().contains((c, c.next_spec(Direction::South))) {
            seq![Direction::South]
        } else {
            Seq::<Direction>::empty()
        }) + (if self.edges().contains((c, c.next_spec(Direction::West))) {
            seq![Direction::West]
        } else {
            Seq::<Direction>::empty()
        })
    }

    /// Where the start field lies, connected to the `spec_start` projection
    /// the contracts speak of.
    pub fn start_coordinates(&self) -> (r: Coordinates)
        ensures
            r == self.spec_start(),
    {
        self.start
    }

    /// Where the goal field lies, connected to the `spec_goal` projection
    /// the contracts speak of.
    pub fn goal_coordinates(&self) -> (r: Coordinates)
        ensures
            r == self.spec_goal(),
    {
        self.goal
    }

    /// Wraps a finished graph and its chosen start and goal as a maze;
    /// the dimensions must be strictly positive.
    pub(crate) fn new(graph: MazeGraph, start: Coordinates, goal: Coordinates, size: (i32, i32)) -> (
        r: Maze)
        requires
            size.0 >= 1,
            size.1 >= 1,
        ensures
            r.nodes() == graph_nodes(graph),
            r.edges() == graph_edges(graph),
            r.spec_start() == start,
            r.spec_goal() == goal,
            r.width() == size.0 as int,
            r.height() == size.1 as int,
            r.start == start,
            r.goal == goal,
            r.size == size,
    {
        Maze { graph, start, goal, size }
    }

    pub(crate) fn are_coordinates_inside(&self, coordinates: &Coordinates) -> (r: bool)
        ensures
            r == in_rect(self.width(), self.height(), *coordinates),
    {
        coordinates.x >= 0 && coordinates.x < self.size.0 && coordinates.y >= 0 && coordinates.y
            < self.size.1
    }

    /// Retrieve the [`Field`] which is located at `coordinates`: its role,
    /// and the passage set the graph holds for it, in the fixed order
    /// North, East, South, West. Out-of-bounds coordinates give no field.
    pub fn get_field(&self, coordinates: &Coordinates) -> (r: Option<Field>)
        requires
            self.wf(),
        ensures
            r is Some <==> in_rect(self.width(), self.height(), *coordinates),
            r matches Some(f) ==> {
                &&& f.coordinates == *coordinates
                &&& f.field_type == self.field_type_spec(*coordinates)
                &&& f.passages@ == self.passages_spec(*coordinates)
                &&& forall|d: Direction| #[trigger]
                    f.passages@.contains(d) <==> self.edges().contains(
                        (*coordinates, coordinates.next_spec(d)),
                    )
            },
    {
        if !self.are_coordinates_inside(coordinates) {
            return None;
        }
        let c = *coordinates;
        let mut passages: Vec<Direction> = Vec::new();
        let nb = graph_contains_edge(&self.graph, c, c.next(&Direction::North));
        if nb {
            passages.push(Direction::North);
        }
        let ghost pn: Seq<Direction> = if nb {
            seq![Direction::North]
        } else {
            Seq::<Direction>::empty()
        };
        proof {
            assert(passages@ =~= pn);
        }
        let eb = graph_contains_edge(&self.graph, c, c.next(&Direction::East));
        if eb {
            passages.push(Direction::East);
        }
        let ghost pe: Seq<Direction> = if eb {
            seq![Direction::East]
        } else {
            Seq::<Direction>::empty()
        };
        proof {
            assert(passages@ =~= pn + pe);
        }
        let sb = graph_contains_edge(&self.graph, c, c.next(&Direction::South));
        if sb {
            passages.push(Direction::South);
        }
        let ghost ps: Seq<Direction> = if sb {
            seq![Direction::South]
        } else {
            Seq::<Direction>::empty()
        };
        proof {
            assert(passages@ =~= pn + pe + ps);
        }
        let wb = graph_contains_edge(&self.graph, c, c.next(&Direction::West));
        if wb {
            passages.push(Direction::West);
        }
        let ghost pw: Seq<Direction> = if wb {
            seq![Direction::West]
        } else {
            Seq::<Direction>::empty()
        };
        proof {
            assert(passages@ =~= pn + pe + ps + pw);
            assert(passages@ =~= self.passages_spec(c));
            assert forall|d: Direction| #[trigger]
                passages@.contains(d) <==> self.edges().contains((c, c.next_spec(d))) by {
                match d {
                    Direction::North => {
                        if nb {
                            assert(passages@[0] == Direction::North);
                        }
                    },
                    Direction::East => {
                        if eb {
                            assert(passages@[pn.len() as int] == Direction::East);
                        }
                    },
                    Direction::South => {
                        if sb {
                            assert(passages@[pn.len() as int + pe.len() as int] == Direction::South);
                        }
                    },
                    Direction::West => {
                        if wb {
                            assert(passages@[passages@.len() - 1] == Direction::West);
                        }
                    },
                }
                if passages@.contains(d) {
                    let j = choose|j: int| 0 <= j < passages@.len() && passages@[j] == d;
                    assert(self.edges().contains((c, c.next_spec(d))));
                }
            }
        }
        let field_type = if c.x == self.start.x && c.y == self.start.y {
            FieldType::Start
        } else if c.x == self.goal.x && c.y == self.goal.y {
            FieldType::Goal
        } else {
            FieldType::Normal
        };
        Some(Field::new(field_type, c, passages))
    }

    /// The number of cells in the maze.
    pub fn node_count(&self) -> (r: usize)
        requires
            self.wf(),
        ensures
            r == self.nodes().len(),
    {
        graph_node_count(&self.graph)
    }

    /// The number of open passages in the maze, each undirected passage
    /// counted once.
    pub fn edge_count(&self) -> (r: usize)
        requires
            self.wf(),
        ensures
            2 * r == self.edges().len(),
    {
        proof {
            assert forall|a: Coordinates| !(#[trigger] self.edges().contains((a, a))) by {
                if self.edges().contains((a, a)) {
                    assert(adjacent(a, a));
                }
            }
        }
        graph_edge_count(&self.graph)
    }

    /// Consuming conversion to the raw graph. The maze wrapper and its
    /// invariants are forfeited: a graph handed back can no longer be
    /// queried through the maze interface.
    pub fn into_graph(self) -> (g: MazeGraph)
        ensures
            graph_nodes(g) == self.nodes(),
            graph_edges(g) == self.edges(),
    {
        self.graph
    }
}

/// Relies on `String::push_str` of std, which vstd leaves unspecified:
/// appends the given string slice onto the end of the string.
pub assume_specification[ String::push_str ](s: &mut String, other: &str)
    ensures
        final(s)@ == old(s)@ + other@,
;

impl Maze {
    /// The character above cell `(x, y)`: a space when a passage leads
    /// north, a wall otherwise.
    pub open spec fn top_char(self, x: int, y: int) -> char {
        if self.edges().contains((cell_at(x, y), cell_at(x, y - 1))) {
            ' '
        } else {
            '-'
        }
    }

    /// The character left of cell `(x, y)`: a space when a passage leads
    /// west, a wall otherwise.
    pub open spec fn west_char(self, x: int, y: int) -> char {
        if self.edges().contains((cell_at(x, y), cell_at(x - 1, y))) {
            ' '
        } else {
            '|'
        }
    }

    /// The marker of cell `(x, y)`: `S` on the start, `G` on the goal, a
    /// space otherwise.
    pub open spec fn marker_char(self, x: int, y: int) -> char {
        if cell_at(x, y) == self.spec_start() {
            'S'
        } else if cell_at(x, y) == self.spec_goal() {
            'G'
        } else {
            ' '
        }
    }

    /// The first `x` cells of the wall line above row `y`: a corner marker
    /// and the top wall or passage of each cell.
    pub open spec fn top_line(self, y: int, x: int) -> Seq<char>
        decreases x,
    {
        if x <= 0 {
            Seq::<char>::empty()
        } else {
            self.top_line(y, x - 1).push('·').push(self.top_char(x - 1, y))
        }
    }

    /// The first `x` cells of the room line of row `y`: the left wall or
    /// passage and the marker of each cell.
    pub open spec fn room_line(self, y: int, x: int) -> Seq<char>
        decreases x,
    {
        if x <= 0 {
            Seq::<char>::empty()
        } else {
            self.room_line(y, x - 1).push(self.west_char(x - 1, y)).push(self.marker_char(x - 1, y))
        }
    }

    /// The first `x` cells of the bottom border line.
    pub open spec fn bottom_line(self, x: int) -> Seq<char>
        decreases x,
    {
        if x <= 0 {
            Seq::<char>::empty()
        } else {
            self.bottom_line(x - 1).push('·').push('-')
        }
    }

    /// The first `y` rows of the text rendering: a wall line and a room
    /// line per row, each closed on the right and newline-terminated.
    pub open spec fn text_rows(self, y: int) -> Seq<char>
        decreases y,
    {
        if y <= 0 {
            Seq::<char>::empty()
        } else {
            self.text_rows(y - 1) + self.top_line(y - 1, self.width()) + seq!['·', '\n']
                + self.room_line(y - 1, self.width()) + seq!['|', '\n']
        }
    }

    /// The whole text rendering: all rows, then the bottom border.
    pub open spec fn text_spec(self) -> Seq<char> {
        self.text_rows(self.height()) + self.bottom_line(self.width()) + seq!['·', '\n']
    }

    /// Renders the maze as a fixed-width text diagram: `·` corner markers,
    /// `-` and `|` for walls, spaces for passages, and `S`/`G` markers on
    /// the start and goal cells.
    #[verifier::loop_isolation(false)]
    pub fn to_text(&self) -> (r: String)
        requires
            self.wf(),
        ensures
            r@ == self.text_spec(),
    {
        let w = self.size.0;
        let h = self.size.1;
        proof {
            reveal_strlit("·");
            reveal_strlit(" ");
            reveal_strlit("-");
            reveal_strlit("|");
            reveal_strlit("S");
            reveal_strlit("G");
            reveal_strlit("·\n");
            reveal_strlit("|\n");
        }
        let mut s = String::new();
        let mut y: i32 = 0;
        while y < h
            invariant
                0 <= y <= h,
                s@ == self.text_rows(y as int),
            decreases h - y,
        {
            // the top wall of each cell in the row
            let mut x: i32 = 0;
            while x < w
                invariant
                    0 <= x <= w,
                    0 <= y < h,
                    s@ == self.text_rows(y as int) + self.top_line(y as int, x as int),
                decreases w - x,
            {
                s.push_str("·");
                let c = Coordinates { x, y };
                if graph_contains_edge(&self.graph, c, c.next(&Direction::North)) {
                    s.push_str(" ");
                } else {
                    s.push_str("-");
                }
                proof {
                    assert(c == cell_at(x as int, y as int));
                    assert(c.next_spec(Direction::North) == cell_at(x as int, y as int - 1));
                    assert(s@ =~= self.text_rows(y as int) + self.top_line(
                        y as int,
                        x as int + 1,
                    ));
                }
                x = x + 1;
            }
            s.push_str("·\n");
            proof {
                assert(s@ =~= self.text_rows(y as int) + self.top_line(y as int, w as int)
                    + seq!['·', '\n']);
            }
            // the left wall and marker of each cell in the row
            let ghost prefix = s@;
            let mut x: i32 = 0;
            while x < w
                invariant
                    0 <= x <= w,
                    0 <= y < h,
                    prefix == self.text_rows(y as int) + self.top_line(y as int, w as int)
                        + seq!['·', '\n'],
                    s@ == prefix + self.room_line(y as int, x as int),
                decreases w - x,
            {
                let c = Coordinates { x, y };
                if graph_contains_edge(&self.graph, c, c.next(&Direction::West)) {
                    s.push_str(" ");
                } else {
                    s.push_str("|");
                }
                if c.x == self.start.x && c.y == self.start.y {
                    s.push_str("S");
                } else if c.x == self.goal.x && c.y == self.goal.y {
                    s.push_str("G");
                } else {
                    s.push_str(" ");
                }
                proof {
                    assert(c == cell_at(x as int, y as int));
                    assert(c.next_spec(Direction::West) == cell_at(x as int - 1, y as int));
                    assert(s@ =~= prefix + self.room_line(y as int, x as int + 1));
                }
                x = x + 1;
            }
            s.push_str("|\n");
            proof {
                assert(s@ =~= self.text_rows(y as int + 1));
            }
            y = y + 1;
        }
        // the bottom border under the last row
        let mut x: i32 = 0;
        while x < w
            invariant
                0 <= x <= w,
                s@ == self.text_rows(h as int) + self.bottom_line(x as int),
            decreases w - x,
        {
            s.push_str("·");
            s.push_str("-");
            proof {
                assert(s@ =~= self.text_rows(h as int) + self.bottom_line(x as int + 1));
            }
            x = x + 1;
        }
        s.push_str("·\n");
        proof {
            assert(s@ =~= self.text_spec());
        }
        s
    }
}

impl Clone for Maze {
    /// A copy holding the same passages, start, goal and size.
    fn clone(&self) -> (r: Self) {
        Maze {
            graph: graph_clone(&self.graph),
            start: self.start,
            goal: self.goal,
            size: self.size,
        }
    }
}

impl PartialEq for Maze {
    /// Two mazes are equal when start, goal and size agree and their graphs
    /// are isomorphic — the same connectivity pattern, not necessarily the
    /// same edge embedding.
    fn eq(&self, other: &Self) -> (r: bool) {
        self.start == other.start && self.goal == other.goal && self.size.0 == other.size.0
            && self.size.1 == other.size.1 && graph_iso(&self.graph, &other.graph)
    }
}

impl vstd::std_specs::cmp::PartialEqSpecImpl for Maze {
    open spec fn obeys_eq_spec() -> bool {
        true
    }

    open spec fn eq_spec(&self, other: &Maze) -> bool {
        &&& self.spec_start() == other.spec_start()
        &&& self.spec_goal() == other.spec_goal()
        &&& self.width() == other.width()
        &&& self.height() == other.height()
        &&& iso_of(self.nodes(), self.edges(), other.nodes(), other.edges())
    }
}

impl Eq for Maze {

}

} // verus!
