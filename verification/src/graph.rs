//! The maze graph: a mapping from grid cells to the openness of their four
//! edges, stored densely and viewed in specifications as a `Map`.

use vstd::prelude::*;

use crate::cell::{
    grid_cells, in_grid, spec_adjacent_node, spec_opposite, Cell, Direction, MAZE_MAX_SIZE,
};

verus! {

/// The four passage flags of one cell: whether a passage is open toward
/// the neighbor in each direction.
#[derive(Clone, Copy, PartialEq, Eq, Structural, Debug)]
pub struct CellEdges {
    pub north: bool,
    pub east: bool,
    pub south: bool,
    pub west: bool,
}

/// A cell with all four passages closed.
pub open spec fn closed_edges() -> CellEdges {
    CellEdges { north: false, east: false, south: false, west: false }
}

/// Whether the passage of `e` toward `d` is open.
pub open spec fn edge_open(e: CellEdges, d: Direction) -> bool {
    match d {
        Direction::North => e.north,
        Direction::East => e.east,
        Direction::South => e.south,
        Direction::West => e.west,
    }
}

/// `e` with the passage toward `d` opened.
pub open spec fn with_edge_open(e: CellEdges, d: Direction) -> CellEdges {
    match d {
        Direction::North => CellEdges { north: true, ..e },
        Direction::East => CellEdges { east: true, ..e },
        Direction::South => CellEdges { south: true, ..e },
        Direction::West => CellEdges { west: true, ..e },
    }
}

/// The edge map after carving a passage from `c` toward `d`: the flag
/// toward `d` is opened on `c` and the mirrored flag on the neighbor,
/// either entry being created closed first if absent.
pub open spec fn spec_carve(m: Map<Cell, CellEdges>, c: Cell, d: Direction) -> Map<
    Cell,
    CellEdges,
> {
    let n = spec_adjacent_node(c, d);
    let ec = if m.dom().contains(c) {
        m[c]
    } else {
        closed_edges()
    };
    let en = if m.dom().contains(n) {
        m[n]
    } else {
        closed_edges()
    };
    m.insert(c, with_edge_open(ec, d)).insert(n, with_edge_open(en, spec_opposite(d)))
}

/// Mirrored flags agree across every open edge: whenever a cell's passage
/// toward `d` is open, the neighbor in direction `d` is present and its
/// passage back is open too.
#[verifier::opaque]
pub open spec fn edges_symmetric(m: Map<Cell, CellEdges>, size: int) -> bool {
    forall|c: Cell, d: Direction|
        m.dom().contains(c) && #[trigger] edge_open(m[c], d) ==> {
            let n = spec_adjacent_node(c, d);
            &&& in_grid(size, n)
            &&& m.dom().contains(n)
            &&& edge_open(m[n], spec_opposite(d))
        }
}

/// One crossing of a symmetric edge map: an open passage leads to an
/// on-grid, present neighbor whose mirrored passage is open too.
pub proof fn lemma_symmetric_step(m: Map<Cell, CellEdges>, size: int, c: Cell, d: Direction)
    requires
        edges_symmetric(m, size),
        m.dom().contains(c),
        edge_open(m[c], d),
    ensures
        in_grid(size, spec_adjacent_node(c, d)),
        m.dom().contains(spec_adjacent_node(c, d)),
        edge_open(m[spec_adjacent_node(c, d)], spec_opposite(d)),
{
    reveal(edges_symmetric);
}

/// The row-major index of `c` in a dense grid of side `size`.
pub open spec fn cell_index(size: int, c: Cell) -> int {
    c.y * size + c.x
}

/// Distinct cells of the grid have distinct row-major indices.
pub proof fn lemma_cell_index_injective(size: int, a: Cell, b: Cell)
    by (nonlinear_arith)
    requires
        in_grid(size, a),
        in_grid(size, b),
        cell_index(size, a) == cell_index(size, b),
    ensures
        a == b,
{
}

/// Distinct cells of the grid occupy distinct dense slots.
pub proof fn lemma_cell_index_distinct(size: int, a: Cell, b: Cell)
    requires
        in_grid(size, a),
        in_grid(size, b),
        a != b,
    ensures
        cell_index(size, a) != cell_index(size, b),
{
    if cell_index(size, a) == cell_index(size, b) {
        lemma_cell_index_injective(size, a, b);
    }
}

/// The row-major index of a grid cell lies within the cell count, which
/// itself stays within the range shared by `i32` and `usize`.
pub proof fn lemma_cell_index_bounds(size: int, c: Cell)
    by (nonlinear_arith)
    requires
        in_grid(size, c),
        size <= MAZE_MAX_SIZE,
    ensures
        0 <= cell_index(size, c) < size * size <= 0x7fffffff,
{
}

/// The cells of the grid up to row `y`, together with the first `x` cells
/// of row `y` itself: the row-major prefix of the grid.
spec fn grid_prefix(size: int, y: int, x: int) -> Set<Cell> {
    Set::new(
        |c: Cell| 0 <= c.x < size && 0 <= c.y && (c.y < y || (c.y == y && c.x < x)),
    )
}

/// A row-major prefix of the grid holds exactly `y * size + x` cells.
proof fn lemma_grid_prefix_len(size: int, y: int, x: int)
    requires
        1 <= size <= MAZE_MAX_SIZE,
        0 <= y <= size,
        0 <= x <= size,
        x > 0 ==> y < size,
    ensures
        grid_prefix(size, y, x).finite(),
        grid_prefix(size, y, x).len() == y * size + x,
    decreases y, x,
{
    if x > 0 {
        lemma_grid_prefix_len(size, y, x - 1);
        let c = Cell { x: (x - 1) as i32, y: y as i32 };
        assert(!grid_prefix(size, y, x - 1).contains(c));
        assert(grid_prefix(size, y, x) =~= grid_prefix(size, y, x - 1).insert(c));
        assert(grid_prefix(size, y, x).len() == (y * size + (x - 1)) + 1);
        assert(grid_prefix(size, y, x).len() == y * size + x);
    } else if y > 0 {
        lemma_grid_prefix_len(size, y - 1, size);
        assert(grid_prefix(size, y, x) =~= grid_prefix(size, y - 1, size));
        assert(grid_prefix(size, y, x).len() == (y - 1) * size + size);
        vstd::arithmetic::mul::lemma_mul_is_distributive_add_other_way(size, y - 1, 1);
        assert(y * size == (y - 1) * size + size);
        assert(grid_prefix(size, y, x).len() == y * size + x);
    } else {
        assert(grid_prefix(size, 0, 0) =~= Set::<Cell>::empty());
        assert(grid_prefix(size, y, x).len() == y * size + x);
    }
}

/// The grid of side `size` holds exactly `size * size` cells.
pub proof fn lemma_grid_cells_len(size: int)
    requires
        1 <= size <= MAZE_MAX_SIZE,
    ensures
        grid_cells(size).finite(),
        grid_cells(size).len() == size * size,
{
    lemma_grid_prefix_len(size, size, 0);
    assert(grid_cells(size) =~= grid_prefix(size, size, 0));
}

/// How many of the four passage flags of `e` are open.
pub open spec fn flag_count(e: CellEdges) -> int {
    (if e.north {
        1int
    } else {
        0int
    }) + (if e.east {
        1int
    } else {
        0int
    }) + (if e.south {
        1int
    } else {
        0int
    }) + (if e.west {
        1int
    } else {
        0int
    })
}

/// How many open passage flags `m` holds at `c`; absent cells hold none.
pub open spec fn cell_flag_count(m: Map<Cell, CellEdges>, c: Cell) -> int {
    if m.dom().contains(c) {
        flag_count(m[c])
    } else {
        0
    }
}

/// The open passage flags of `m` summed over the row-major prefix of the
/// grid up to row `y` and the first `x` cells of that row.
pub open spec fn open_flags_prefix(m: Map<Cell, CellEdges>, size: int, y: int, x: int) -> int
    decreases y, x,
{
    if x > 0 {
        open_flags_prefix(m, size, y, x - 1) + cell_flag_count(
            m,
            Cell { x: (x - 1) as i32, y: y as i32 },
        )
    } else if y > 0 {
        open_flags_prefix(m, size, y - 1, size)
    } else {
        0
    }
}

/// The open passage flags of `m` summed over the whole grid of side
/// `size`. With symmetric flags this is twice the number of undirected
/// open edges.
pub open spec fn open_flag_count(m: Map<Cell, CellEdges>, size: int) -> int {
    open_flags_prefix(m, size, size, 0)
}

/// Whether `m2` agrees with `m` at every cell but `a`.
spec fn same_except(m: Map<Cell, CellEdges>, m2: Map<Cell, CellEdges>, a: Cell) -> bool {
    forall|b: Cell|
        b != a ==> (m2.dom().contains(b) == m.dom().contains(b) && (m.dom().contains(b) ==> m2[b]
            == m[b]))
}

/// Changing `m` at the single cell `a` changes each prefix sum by the
/// change at `a`, when `a` lies in the prefix, and not at all otherwise.
proof fn lemma_flags_prefix_update(
    m: Map<Cell, CellEdges>,
    m2: Map<Cell, CellEdges>,
    size: int,
    y: int,
    x: int,
    a: Cell,
)
    requires
        1 <= size <= MAZE_MAX_SIZE,
        0 <= y <= size,
        0 <= x <= size,
        x > 0 ==> y < size,
        same_except(m, m2, a),
    ensures
        open_flags_prefix(m2, size, y, x) - open_flags_prefix(m, size, y, x) == if grid_prefix(
            size,
            y,
            x,
        ).contains(a) {
            cell_flag_count(m2, a) - cell_flag_count(m, a)
        } else {
            0
        },
    decreases y, x,
{
    if x > 0 {
        lemma_flags_prefix_update(m, m2, size, y, x - 1, a);
        let c = Cell { x: (x - 1) as i32, y: y as i32 };
        if c != a {
            assert(cell_flag_count(m2, c) == cell_flag_count(m, c));
        }
    } else if y > 0 {
        lemma_flags_prefix_update(m, m2, size, y - 1, size, a);
        assert(grid_prefix(size, y, 0) =~= grid_prefix(size, y - 1, size));
    }
}

/// A map without any open flag has a zero flag sum over any prefix.
pub proof fn lemma_flags_prefix_zero(m: Map<Cell, CellEdges>, size: int, y: int, x: int)
    requires
        forall|c: Cell| cell_flag_count(m, c) == 0,
    ensures
        open_flags_prefix(m, size, y, x) == 0,
    decreases y, x,
{
    if x > 0 {
        lemma_flags_prefix_zero(m, size, y, x - 1);
    } else if y > 0 {
        lemma_flags_prefix_zero(m, size, y - 1, size);
    }
}

/// Carving a passage toward an unvisited neighbor opens exactly two
/// flags: one on the carved-from cell and the mirrored one on the
/// neighbor.
pub proof fn lemma_carve_flag_count(m: Map<Cell, CellEdges>, size: int, c: Cell, d: Direction)
    requires
        1 <= size <= MAZE_MAX_SIZE,
        in_grid(size, c),
        in_grid(size, spec_adjacent_node(c, d)),
        m.dom().contains(c),
        !m.dom().contains(spec_adjacent_node(c, d)),
        !edge_open(m[c], d),
    ensures
        open_flag_count(spec_carve(m, c, d), size) == open_flag_count(m, size) + 2,
{
    let n = spec_adjacent_node(c, d);
    let m1 = m.insert(c, with_edge_open(m[c], d));
    let m2 = m1.insert(n, with_edge_open(closed_edges(), spec_opposite(d)));
    assert(spec_carve(m, c, d) == m2);
    lemma_flags_prefix_update(m, m1, size, size, 0, c);
    assert(grid_prefix(size, size, 0).contains(c));
    assert(cell_flag_count(m1, c) - cell_flag_count(m, c) == 1);
    lemma_flags_prefix_update(m1, m2, size, size, 0, n);
    assert(grid_prefix(size, size, 0).contains(n));
    assert(cell_flag_count(m1, n) == 0);
    assert(cell_flag_count(m2, n) == 1);
}

/// The maze: an immutable-after-generation mapping from cell coordinates
/// to their passage flags. A lookup is fallible by contract; cells appear
/// only once generation has visited them.
pub struct MazeGraph {
    size: i32,
    cells: Vec<Option<CellEdges>>,
}

impl View for MazeGraph {
    type V = Map<Cell, CellEdges>;

    closed spec fn view(&self) -> Map<Cell, CellEdges> {
        Map::new(
            |c: Cell|
                in_grid(self.size as int, c) && self.cells@[cell_index(self.size as int, c)] is Some,
            |c: Cell| self.cells@[cell_index(self.size as int, c)]->0,
        )
    }
}

impl MazeGraph {
    /// The side length of the grid the graph was generated over.
    pub closed spec fn spec_size(&self) -> int {
        self.size as int
    }

    /// Well-formed: a positive side length within range, and dense storage
    /// holding one slot per grid cell.
    pub closed spec fn wf(&self) -> bool {
        &&& 1 <= self.size as int <= MAZE_MAX_SIZE
        &&& self.cells@.len() == self.size as int * self.size as int
    }

    /// A well-formed graph has a side length within range.
    pub proof fn lemma_wf_size(&self)
        requires
            self.wf(),
        ensures
            1 <= self.spec_size() <= MAZE_MAX_SIZE,
    {
    }

    /// Every present cell lies on the grid.
    pub proof fn lemma_dom_in_grid(&self)
        ensures
            forall|c: Cell| self@.dom().contains(c) ==> in_grid(self.spec_size(), c),
    {
    }

    /// An empty graph over a grid of side `size`: no cell is present yet.
    pub(crate) fn new_empty(size: i32) -> (g: MazeGraph)
        requires
            1 <= size <= MAZE_MAX_SIZE,
        ensures
            g.wf(),
            g.spec_size() == size,
            g@ == Map::<Cell, CellEdges>::empty(),
    {
        proof {
            lemma_cell_index_bounds(size as int, Cell { x: (size - 1) as i32, y: (size - 1) as i32 });
        }
        let count: usize = (size as usize) * (size as usize);
        let mut cells: Vec<Option<CellEdges>> = Vec::new();
        let mut i: usize = 0;
        while i < count
            invariant
                i <= count,
                cells@.len() == i,
                forall|j: int| 0 <= j < i ==> cells@[j] is None,
            decreases count - i,
        {
            cells.push(None);
            i = i + 1;
        }
        let g = MazeGraph { size, cells };
        proof {
            assert forall|c: Cell| !g@.dom().contains(c) by {
                if in_grid(size as int, c) {
                    lemma_cell_index_bounds(size as int, c);
                }
            }
            assert(g@ =~= Map::<Cell, CellEdges>::empty());
        }
        g
    }

    /// Insert `c` with all passages closed.
    pub(crate) fn insert_closed(&mut self, c: Cell)
        requires
            old(self).wf(),
            in_grid(old(self).spec_size(), c),
        ensures
            final(self).wf(),
            final(self).spec_size() == old(self).spec_size(),
            final(self)@ == old(self)@.insert(c, closed_edges()),
    {
        proof {
            lemma_cell_index_bounds(self.size as int, c);
        }
        let i: usize = (c.y as usize) * (self.size as usize) + (c.x as usize);
        self.cells.set(i, Some(CellEdges { north: false, east: false, south: false, west: false }));
        proof {
            assert forall|b: Cell| #![all_triggers]
                (final(self)@.dom().contains(b) == old(self)@.insert(
                    c,
                    closed_edges(),
                ).dom().contains(b)) && (final(self)@.dom().contains(b) ==> final(self)@[b]
                == old(self)@.insert(c, closed_edges())[b]) by {
                if in_grid(self.size as int, b) {
                    lemma_cell_index_bounds(self.size as int, b);
                    if b != c {
                        lemma_cell_index_distinct(self.size as int, b, c);
                    }
                }
            }
            assert(final(self)@ =~= old(self)@.insert(c, closed_edges()));
        }
    }

    /// Whether `c` is present, without looking at its flags.
    pub(crate) fn contains(&self, c: Cell) -> (r: bool)
        requires
            self.wf(),
        ensures
            r == self@.dom().contains(c),
    {
        match self.get(c) {
            Some(_) => true,
            None => false,
        }
    }

    /// Look `c` up: its passage flags if generation has visited it.
    pub fn get(&self, c: Cell) -> (r: Option<CellEdges>)
        requires
            self.wf(),
        ensures
            match r {
                Some(e) => self@.dom().contains(c) && self@[c] == e,
                None => !self@.dom().contains(c),
            },
    {
        if c.x < 0 || c.x >= self.size || c.y < 0 || c.y >= self.size {
            return None;
        }
        proof {
            lemma_cell_index_bounds(self.size as int, c);
        }
        let i: usize = (c.y as usize) * (self.size as usize) + (c.x as usize);
        self.cells[i]
    }

    /// The side length of the grid.
    pub fn size(&self) -> (s: i32)
        requires
            self.wf(),
        ensures
            s == self.spec_size(),
            1 <= s <= MAZE_MAX_SIZE,
    {
        self.size
    }

    /// Open the passage from `c` toward `d` and the mirrored passage on the
    /// neighbor, creating closed entries first where absent.
    pub(crate) fn carve(&mut self, c: Cell, d: Direction)
        requires
            old(self).wf(),
            in_grid(old(self).spec_size(), c),
            in_grid(old(self).spec_size(), spec_adjacent_node(c, d)),
        ensures
            final(self).wf(),
            final(self).spec_size() == old(self).spec_size(),
            final(self)@ == spec_carve(old(self)@, c, d),
    {
        let n = c.adjacent_node(d);
        proof {
            lemma_cell_index_bounds(self.size as int, c);
            lemma_cell_index_bounds(self.size as int, n);
            lemma_cell_index_distinct(self.size as int, c, n);
        }
        let ic: usize = (c.y as usize) * (self.size as usize) + (c.x as usize);
        let in_: usize = (n.y as usize) * (self.size as usize) + (n.x as usize);
        let mut ec = match self.cells[ic] {
            Some(e) => e,
            None => CellEdges { north: false, east: false, south: false, west: false },
        };
        match d {
            Direction::North => ec.north = true,
            Direction::East => ec.east = true,
            Direction::South => ec.south = true,
            Direction::West => ec.west = true,
        }
        self.cells.set(ic, Some(ec));
        let mut en = match self.cells[in_] {
            Some(e) => e,
            None => CellEdges { north: false, east: false, south: false, west: false },
        };
        match d {
            Direction::North => en.south = true,
            Direction::East => en.west = true,
            Direction::South => en.north = true,
            Direction::West => en.east = true,
        }
        self.cells.set(in_, Some(en));
        proof {
            assert forall|b: Cell| #![all_triggers]
                (final(self)@.dom().contains(b) == spec_carve(old(self)@, c, d).dom().contains(b))
                    && (final(self)@.dom().contains(b) ==> final(self)@[b] == spec_carve(
                    old(self)@,
                    c,
                    d,
                )[b]) by {
                if in_grid(self.size as int, b) {
                    lemma_cell_index_bounds(self.size as int, b);
                    if b != c {
                        lemma_cell_index_distinct(self.size as int, b, c);
                    }
                    if b != spec_adjacent_node(c, d) {
                        lemma_cell_index_distinct(self.size as int, b, spec_adjacent_node(c, d));
                    }
                }
            }
            assert(final(self)@ =~= spec_carve(old(self)@, c, d));
        }
    }
}

} // verus!
