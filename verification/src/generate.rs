//! Maze generation: randomized depth-first carving with an explicit
//! backtracking stack over a square grid.
//!
//! The whole run is modelled by the spec-level step function `gen_step`,
//! so the edge map `generate` returns is pinned to `spec_generate(seed,
//! size)`: a pure function of the seed and the grid side, which is what
//! makes generation reproducible.

use vstd::prelude::*;

use crate::cell::{
    in_grid, grid_cells, origin_cell, spec_adjacent_node, Cell, Direction, MAZE_MAX_SIZE,
};
use crate::graph::{
    closed_edges, edge_open, edges_symmetric, lemma_cell_index_bounds, spec_carve, CellEdges,
    MazeGraph,
};
use crate::rng::{chacha_range_value, MazeRng};

verus! {

/// A failure of maze generation.
#[derive(Clone, Copy, PartialEq, Eq, Structural, Debug)]
pub enum MazeError {
    /// The requested grid side was not positive.
    InvalidConfiguration,
}

/// Whether direction `d` is a valid carving candidate from `c`: the
/// neighbor lies on the grid and has not been visited yet.
pub open spec fn candidate_ok(m: Map<Cell, CellEdges>, size: int, c: Cell, d: Direction) -> bool {
    let n = spec_adjacent_node(c, d);
    in_grid(size, n) && !m.dom().contains(n)
}

/// A singleton of `d` when `b` holds, else the empty sequence.
pub open spec fn dir_if(b: bool, d: Direction) -> Seq<Direction> {
    if b {
        seq![d]
    } else {
        Seq::empty()
    }
}

/// The valid candidate directions from `c`, in the fixed order north,
/// east, south, west.
pub open spec fn spec_candidates(m: Map<Cell, CellEdges>, size: int, c: Cell) -> Seq<Direction> {
    dir_if(candidate_ok(m, size, c, Direction::North), Direction::North) + dir_if(
        candidate_ok(m, size, c, Direction::East),
        Direction::East,
    ) + dir_if(candidate_ok(m, size, c, Direction::South), Direction::South) + dir_if(
        candidate_ok(m, size, c, Direction::West),
        Direction::West,
    )
}

/// Every listed candidate is valid, and an empty candidate list means no
/// direction is valid.
pub proof fn lemma_candidates_props(m: Map<Cell, CellEdges>, size: int, c: Cell)
    ensures
        spec_candidates(m, size, c).len() <= 4,
        forall|i: int|
            0 <= i < spec_candidates(m, size, c).len() ==> candidate_ok(
                m,
                size,
                c,
                #[trigger] spec_candidates(m, size, c)[i],
            ),
        spec_candidates(m, size, c).len() == 0 ==> forall|d: Direction|
            !(#[trigger] candidate_ok(m, size, c, d)),
{
    assert forall|i: int| 0 <= i < spec_candidates(m, size, c).len() implies candidate_ok(
        m,
        size,
        c,
        #[trigger] spec_candidates(m, size, c)[i],
    ) by {}
}

/// A certificate that the open edges of a maze form a spanning tree
/// rooted at the origin: every cell but the origin records the direction
/// of the open passage back to the cell it was carved from, and a rank
/// (its visitation turn) that strictly decreases along parent links.
pub ghost struct TreeCert {
    pub rank: Map<Cell, int>,
    pub parent_dir: Map<Cell, Direction>,
}

/// What makes a certificate valid for the edge map `m`: every cell but
/// the origin has an open passage to an earlier-ranked neighbor, and
/// every open passage of `m` is such a parent link (so no passage can
/// close a cycle).
#[verifier::opaque]
pub open spec fn cert_valid(m: Map<Cell, CellEdges>, cert: TreeCert) -> bool {
    &&& m.dom().contains(origin_cell())
    &&& cert.parent_dir.dom() == m.dom().remove(origin_cell())
    &&& cert.rank.dom() == m.dom()
    &&& forall|c: Cell| #[trigger] m.dom().contains(c) ==> 0 <= cert.rank[c]
    &&& forall|c: Cell| #[trigger]
        cert.parent_dir.dom().contains(c) ==> {
            let d = cert.parent_dir[c];
            let par = spec_adjacent_node(c, d);
            &&& edge_open(m[c], d)
            &&& m.dom().contains(par)
            &&& cert.rank[par] < cert.rank[c]
        }
    &&& forall|c: Cell, e: Direction|
        m.dom().contains(c) && #[trigger] edge_open(m[c], e) ==> {
            let n = spec_adjacent_node(c, e);
            ||| (c != origin_cell() && cert.parent_dir[c] == e)
            ||| (m.dom().contains(n) && n != origin_cell() && cert.parent_dir[n]
                == crate::cell::spec_opposite(e))
        }
}

/// The open edges of `m` form a spanning tree of its cells rooted at the
/// origin.
pub open spec fn spanning_tree(m: Map<Cell, CellEdges>) -> bool {
    exists|cert: TreeCert| cert_valid(m, cert)
}

/// Carving toward an unvisited neighbor extends a valid certificate: the
/// neighbor joins with the mirrored direction as its parent link and a
/// rank above every cell so far.
proof fn lemma_cert_carve(
    m: Map<Cell, CellEdges>,
    size: int,
    cert: TreeCert,
    c: Cell,
    d: Direction,
    newrank: int,
)
    requires
        cert_valid(m, cert),
        1 <= size <= MAZE_MAX_SIZE,
        in_grid(size, c),
        in_grid(size, spec_adjacent_node(c, d)),
        m.dom().contains(c),
        !m.dom().contains(spec_adjacent_node(c, d)),
        newrank >= 0,
        forall|b: Cell| #[trigger] m.dom().contains(b) ==> cert.rank[b] < newrank,
    ensures
        cert_valid(
            spec_carve(m, c, d),
            TreeCert {
                rank: cert.rank.insert(spec_adjacent_node(c, d), newrank),
                parent_dir: cert.parent_dir.insert(
                    spec_adjacent_node(c, d),
                    crate::cell::spec_opposite(d),
                ),
            },
        ),
{
    reveal(cert_valid);
    let n = spec_adjacent_node(c, d);
    let m2 = spec_carve(m, c, d);
    let rank2 = cert.rank.insert(n, newrank);
    let pd2 = cert.parent_dir.insert(n, crate::cell::spec_opposite(d));
    crate::cell::lemma_adjacent_opposite(c, d);
    assert(n != origin_cell());
    assert(pd2.dom() =~= m2.dom().remove(origin_cell()));
    assert(rank2.dom() =~= m2.dom());
    // parent links: old cells keep theirs, the neighbor points back at a
    // strictly earlier rank
    assert forall|b: Cell| #[trigger] pd2.dom().contains(b) implies {
        let e = pd2[b];
        let par = spec_adjacent_node(b, e);
        &&& edge_open(m2[b], e)
        &&& m2.dom().contains(par)
        &&& rank2[par] < rank2[b]
    } by {
        if b == n {
            assert(edge_open(m2[n], pd2[n]));
            assert(spec_adjacent_node(n, pd2[n]) == c);
        } else {
            assert(cert.parent_dir.dom().contains(b));
            let par = spec_adjacent_node(b, cert.parent_dir[b]);
            assert(edge_open(m[b], cert.parent_dir[b]));
            assert(par != n && b != n);
        }
    }
    // every open passage of the carved map is still a parent link
    assert forall|b: Cell, e: Direction|
        m2.dom().contains(b) && #[trigger] edge_open(m2[b], e) implies {
        let nb = spec_adjacent_node(b, e);
        ||| (b != origin_cell() && pd2[b] == e)
        ||| (m2.dom().contains(nb) && nb != origin_cell() && pd2[nb]
            == crate::cell::spec_opposite(e))
    } by {
        let nb = spec_adjacent_node(b, e);
        if b == n {
            assert(e == crate::cell::spec_opposite(d));
        } else if b == c && e == d {
            assert(nb == n);
        } else {
            assert(m.dom().contains(b) && edge_open(m[b], e));
            if b != origin_cell() && cert.parent_dir[b] == e {
                assert(pd2[b] == e);
            } else {
                assert(m.dom().contains(nb) && nb != origin_cell() && cert.parent_dir[nb]
                    == crate::cell::spec_opposite(e));
                assert(nb != n);
                assert(pd2[nb] == crate::cell::spec_opposite(e));
            }
        }
    }
}

/// Whether the cells `p` and the directions `steps` describe a walk from
/// `a` to `b` that only ever crosses open passages of `m`: the walk
/// visits `p[i]`, leaves it in direction `steps[i]`, and that passage is
/// open.
pub open spec fn path_connects(
    m: Map<Cell, CellEdges>,
    p: Seq<Cell>,
    steps: Seq<Direction>,
    a: Cell,
    b: Cell,
) -> bool {
    &&& p.len() == steps.len() + 1
    &&& p[0] == a
    &&& p.last() == b
    &&& forall|i: int| #![trigger p[i]]
        0 <= i < steps.len() ==> m.dom().contains(p[i]) && edge_open(m[p[i]], steps[i]) && p[i
            + 1] == spec_adjacent_node(p[i], steps[i])
}

/// Every present cell is joined to the origin by a walk through open
/// passages: follow the parent links, whose rank strictly decreases.
proof fn lemma_path_to_origin(m: Map<Cell, CellEdges>, cert: TreeCert, c: Cell) -> (w: (
    Seq<Cell>,
    Seq<Direction>,
))
    requires
        cert_valid(m, cert),
        m.dom().contains(c),
    ensures
        path_connects(m, w.0, w.1, c, origin_cell()),
    decreases
            (if cert.rank.dom().contains(c) {
                cert.rank[c]
            } else {
                0int
            }),
{
    if c == origin_cell() {
        let p = seq![origin_cell()];
        let steps = Seq::<Direction>::empty();
        assert(path_connects(m, p, steps, origin_cell(), origin_cell()));
        (p, steps)
    } else {
        assert(cert.parent_dir.dom().contains(c) && edge_open(m[c], cert.parent_dir[c])
            && m.dom().contains(spec_adjacent_node(c, cert.parent_dir[c]))
            && cert.rank.dom().contains(c)
            && cert.rank.dom().contains(spec_adjacent_node(c, cert.parent_dir[c])) && 0
            <= cert.rank[spec_adjacent_node(c, cert.parent_dir[c])] < cert.rank[c]) by {
            reveal(cert_valid);
        }
        let d = cert.parent_dir[c];
        let par = spec_adjacent_node(c, d);
        let (q, qsteps) = lemma_path_to_origin(m, cert, par);
        let p = seq![c] + q;
        let steps = seq![d] + qsteps;
        assert(p[0] == c);
        assert(p.last() == origin_cell());
        assert(p.len() == steps.len() + 1);
        assert forall|k: int| #![trigger p[k]]
            0 <= k < steps.len() implies m.dom().contains(p[k]) && edge_open(m[p[k]], steps[k])
            && p[k + 1] == spec_adjacent_node(p[k], steps[k]) by {
            if k == 0 {
                assert(p[1] == q[0]);
            } else {
                assert(p[k] == q[k - 1] && steps[k] == qsteps[k - 1] && p[k + 1] == q[k]);
            }
        }
        assert(path_connects(m, p, steps, c, origin_cell()));
        (p, steps)
    }
}

/// Spanning-tree connectivity: in a maze whose open edges form a
/// spanning tree, every present cell is joined to the origin by a walk
/// through open passages.
pub proof fn lemma_spanning_tree_connected(m: Map<Cell, CellEdges>)
    requires
        spanning_tree(m),
    ensures
        forall|c: Cell| #[trigger]
            m.dom().contains(c) ==> exists|p: Seq<Cell>, steps: Seq<Direction>|
                path_connects(m, p, steps, c, origin_cell()),
{
    let cert = choose|cert: TreeCert| cert_valid(m, cert);
    assert forall|c: Cell| #[trigger] m.dom().contains(c) implies exists|
        p: Seq<Cell>,
        steps: Seq<Direction>,
    | path_connects(m, p, steps, c, origin_cell()) by {
        let (p, steps) = lemma_path_to_origin(m, cert, c);
        assert(path_connects(m, p, steps, c, origin_cell()));
    }
}

/// On a grid with at least two cells, a symmetric spanning-tree maze
/// leaves every cell at least one open passage: the wall-following rule
/// always has a direction to take.
pub proof fn lemma_every_cell_has_open_edge(m: Map<Cell, CellEdges>, size: int)
    requires
        spanning_tree(m),
        edges_symmetric(m, size),
        m.dom() == grid_cells(size),
        2 <= size <= MAZE_MAX_SIZE,
    ensures
        forall|c: Cell| #[trigger]
            m.dom().contains(c) ==> exists|d: Direction| edge_open(m[c], d),
{
    let cert = choose|cert: TreeCert| cert_valid(m, cert);
    // walk from a second cell down to the origin: the walk's last
    // passage enters the origin, and symmetry opens the mirrored flag on
    // the origin itself
    let b = Cell { x: 1, y: 0 };
    assert(in_grid(size, b));
    assert(m.dom().contains(b));
    let (p, steps) = lemma_path_to_origin(m, cert, b);
    assert(p.len() >= 2);
    let k = steps.len() - 1;
    assert(m.dom().contains(p[k]) && edge_open(m[p[k]], steps[k]) && p[k + 1]
        == spec_adjacent_node(p[k], steps[k]));
    assert(p[k + 1] == origin_cell());
    crate::graph::lemma_symmetric_step(m, size, p[k], steps[k]);
    let d0 = crate::cell::spec_opposite(steps[k]);
    assert(edge_open(m[origin_cell()], d0));
    assert forall|c: Cell| #[trigger] m.dom().contains(c) implies exists|d: Direction|
        edge_open(m[c], d) by {
        if c != origin_cell() {
            assert(cert.parent_dir.dom().contains(c) && edge_open(m[c], cert.parent_dir[c])) by {
                reveal(cert_valid);
            }
        } else {
            assert(edge_open(m[c], d0));
        }
    }
}

/// The state of one generation run: the edge map built so far, the
/// backtracking stack, and the bounds drawn from the random stream.
pub ghost struct GenState {
    pub edges: Map<Cell, CellEdges>,
    pub stack: Seq<Cell>,
    pub history: Seq<u32>,
}

/// The starting state: only the origin is present, with all passages
/// closed, and the stack holds the origin alone.
pub open spec fn gen_init() -> GenState {
    GenState {
        edges: Map::<Cell, CellEdges>::empty().insert(origin_cell(), closed_edges()),
        stack: seq![origin_cell()],
        history: Seq::empty(),
    }
}

/// One step of generation. With a non-empty stack, the top cell either
/// has no valid candidate and is popped, or a candidate is drawn from the
/// random stream, the passage to it carved, and the neighbor pushed.
pub open spec fn gen_step(seed: u64, size: int, s: GenState) -> GenState {
    if s.stack.len() == 0 {
        s
    } else {
        let current = s.stack.last();
        let cands = spec_candidates(s.edges, size, current);
        if cands.len() == 0 {
            GenState { edges: s.edges, stack: s.stack.drop_last(), history: s.history }
        } else {
            let v = chacha_range_value(seed, s.history, cands.len() as u32);
            let d = cands[v as int];
            GenState {
                edges: spec_carve(s.edges, current, d),
                stack: s.stack.push(spec_adjacent_node(current, d)),
                history: s.history.push(cands.len() as u32),
            }
        }
    }
}

/// The state after `n` generation steps from the starting state.
pub open spec fn gen_steps(seed: u64, size: int, n: nat) -> GenState
    decreases n,
{
    if n == 0 {
        gen_init()
    } else {
        gen_step(seed, size, gen_steps(seed, size, (n - 1) as nat))
    }
}

/// An upper bound on the number of steps a run can take: every step
/// either pops one stack entry or visits one new cell, and each visit
/// pushes at most two entries.
pub open spec fn gen_fuel(size: int) -> nat {
    (2 * (size * size)) as nat
}

/// The edge map generation produces for `seed` over a grid of side
/// `size`: a pure function of the two, which is the determinism of the
/// generator.
pub open spec fn spec_generate(seed: u64, size: int) -> Map<Cell, CellEdges> {
    gen_steps(seed, size, gen_fuel(size)).edges
}

/// Once the stack has emptied, further steps change nothing.
proof fn lemma_steps_stable(seed: u64, size: int, k: nat, n: nat)
    requires
        k <= n,
        gen_steps(seed, size, k).stack.len() == 0,
    ensures
        gen_steps(seed, size, n) == gen_steps(seed, size, k),
    decreases n,
{
    if n > k {
        lemma_steps_stable(seed, size, k, (n - 1) as nat);
    }
}

/// Carving from a visited cell toward an unvisited on-grid neighbor
/// preserves the symmetry of mirrored passage flags.
#[verifier::rlimit(100)]
proof fn lemma_carve_symmetric(m: Map<Cell, CellEdges>, size: int, c: Cell, d: Direction)
    requires
        1 <= size <= MAZE_MAX_SIZE,
        edges_symmetric(m, size),
        in_grid(size, c),
        in_grid(size, spec_adjacent_node(c, d)),
        !m.dom().contains(spec_adjacent_node(c, d)),
    ensures
        edges_symmetric(spec_carve(m, c, d), size),
{
    reveal(edges_symmetric);
    let n = spec_adjacent_node(c, d);
    let m2 = spec_carve(m, c, d);
    crate::cell::lemma_adjacent_opposite(c, d);
    assert forall|b: Cell, e: Direction|
        m2.dom().contains(b) && #[trigger] edge_open(m2[b], e) implies {
        let nb = spec_adjacent_node(b, e);
        &&& in_grid(size, nb)
        &&& m2.dom().contains(nb)
        &&& edge_open(m2[nb], crate::cell::spec_opposite(e))
    } by {
        let nb = spec_adjacent_node(b, e);
        if b == n {
            // the fresh neighbor has exactly the mirrored flag open
            assert(e == crate::cell::spec_opposite(d));
        } else if b == c {
            if e == d {
                // the newly carved flag points at the fresh neighbor
            } else {
                // an old flag of the current cell
                assert(edge_open(m[c], e));
                assert(nb != n) by {
                    if nb == n {
                        assert(m.dom().contains(n));
                    }
                }
            }
        } else {
            // an old flag of an untouched cell; its target cannot be the
            // fresh neighbor, which had no open flags toward it
            assert(edge_open(m[b], e));
            assert(nb != n) by {
                if nb == n {
                    assert(m.dom().contains(n));
                }
            }
        }
    }
}

/// A set of cells that contains the origin and is closed under on-grid
/// adjacency covers the whole grid.
proof fn lemma_closed_set_covers(m: Map<Cell, CellEdges>, size: int, c: Cell)
    requires
        1 <= size <= MAZE_MAX_SIZE,
        m.dom().contains(origin_cell()),
        forall|b: Cell, d: Direction|
            m.dom().contains(b) && in_grid(size, spec_adjacent_node(b, d)) ==> m.dom().contains(
                #[trigger] spec_adjacent_node(b, d),
            ),
        in_grid(size, c),
    ensures
        m.dom().contains(c),
    decreases c.x + c.y,
{
    if c.x > 0 {
        let p = Cell { x: (c.x - 1) as i32, y: c.y };
        lemma_closed_set_covers(m, size, p);
        assert(spec_adjacent_node(p, Direction::East) == c);
    } else if c.y > 0 {
        let p = Cell { x: c.x, y: (c.y - 1) as i32 };
        lemma_closed_set_covers(m, size, p);
        assert(spec_adjacent_node(p, Direction::North) == c);
    }
}

/// The valid candidate directions from `c`, in the fixed order north,
/// east, south, west.
fn candidate_directions(g: &MazeGraph, c: Cell) -> (r: Vec<Direction>)
    requires
        g.wf(),
        in_grid(g.spec_size(), c),
    ensures
        r@ == spec_candidates(g@, g.spec_size(), c),
        r@.len() <= 4,
{
    let size = g.size();
    let mut r: Vec<Direction> = Vec::new();
    let n = c.adjacent_node(Direction::North);
    if n.y < size && !g.contains(n) {
        r.push(Direction::North);
    }
    let e = c.adjacent_node(Direction::East);
    if e.x < size && !g.contains(e) {
        r.push(Direction::East);
    }
    let s = c.adjacent_node(Direction::South);
    if s.y >= 0 && !g.contains(s) {
        r.push(Direction::South);
    }
    let w = c.adjacent_node(Direction::West);
    if w.x >= 0 && !g.contains(w) {
        r.push(Direction::West);
    }
    proof {
        assert(r@ =~= spec_candidates(g@, g.spec_size(), c));
    }
    r
}

/// Generate the maze for `seed` over a square grid of side `size`.
///
/// The result is pinned to `spec_generate(seed, size)`, so equal seeds
/// and sizes always yield equal mazes. The returned graph covers the
/// whole grid and its mirrored passage flags agree across every edge.
/// A non-positive `size` is rejected with `InvalidConfiguration`, and
/// nothing else is.
pub fn generate(seed: u64, size: i32) -> (r: Result<MazeGraph, MazeError>)
    requires
        size <= MAZE_MAX_SIZE,
    ensures
        size >= 1 ==> (r matches Ok(g) && {
            &&& g.wf()
            &&& g.spec_size() == size
            &&& g@ == spec_generate(seed, size as int)
            &&& g@.dom() == grid_cells(size as int)
            &&& edges_symmetric(g@, size as int)
            &&& spanning_tree(g@)
            &&& crate::graph::open_flag_count(g@, size as int) == 2 * (size as int * size as int
                - 1)
        }),
        size < 1 ==> (r matches Err(e) && e == MazeError::InvalidConfiguration),
{
    if size < 1 {
        return Err(MazeError::InvalidConfiguration);
    }
    let ghost sz: int = size as int;
    let ghost area: int = sz * sz;
    proof {
        lemma_cell_index_bounds(sz, Cell { x: (size - 1) as i32, y: (size - 1) as i32 });
    }
    let mut g = MazeGraph::new_empty(size);
    let origin = Cell { x: 0, y: 0 };
    g.insert_closed(origin);
    let mut stack: Vec<Cell> = Vec::new();
    stack.push(origin);
    let mut rng = MazeRng::from_seed(seed);
    let ghost mut steps: nat = 0;
    let ghost mut rank_map: Map<Cell, int> = Map::<Cell, int>::empty().insert(origin_cell(), 0);
    let ghost mut parent_dir: Map<Cell, Direction> = Map::empty();
    proof {
        assert(g@ =~= gen_init().edges);
        assert(stack@ =~= gen_init().stack);
        assert(stack@[0] == origin_cell());
        assert(stack@.contains(origin_cell()));
        assert(cert_valid(g@, TreeCert { rank: rank_map, parent_dir: parent_dir })) by {
            reveal(cert_valid);
            assert(parent_dir.dom() =~= g@.dom().remove(origin_cell()));
            assert(rank_map.dom() =~= g@.dom());
        }
        assert forall|c: Cell| crate::graph::cell_flag_count(g@, c) == 0 by {}
        crate::graph::lemma_flags_prefix_zero(g@, sz, sz, 0);
        assert(edges_symmetric(g@, sz)) by {
            reveal(edges_symmetric);
        }
    }
    while stack.len() > 0
        invariant
            1 <= size <= MAZE_MAX_SIZE,
            sz == size as int,
            area == sz * sz,
            1 <= area,
            g.wf(),
            g.spec_size() == sz,
            rng.spec_seed() == seed,
            g@ == gen_steps(seed, sz, steps).edges,
            stack@ == gen_steps(seed, sz, steps).stack,
            rng.spec_history() == gen_steps(seed, sz, steps).history,
            g@.dom().finite(),
            g@.dom().contains(origin_cell()),
            forall|c: Cell| #[trigger] g@.dom().contains(c) ==> in_grid(sz, c),
            forall|i: int| 0 <= i < stack@.len() ==> g@.dom().contains(#[trigger] stack@[i]),
            forall|i: int, j: int| 0 <= i < j < stack@.len() ==> stack@[i] != stack@[j],
            forall|c: Cell, d: Direction|
                g@.dom().contains(c) && !stack@.contains(c) && in_grid(
                    sz,
                    spec_adjacent_node(c, d),
                ) ==> g@.dom().contains(#[trigger] spec_adjacent_node(c, d)),
            edges_symmetric(g@, sz),
            g@.dom().len() <= area,
            steps + 2 * (area - g@.dom().len()) + stack@.len() <= 2 * area,
            cert_valid(g@, TreeCert { rank: rank_map, parent_dir: parent_dir }),
            forall|c: Cell| #[trigger] g@.dom().contains(c) ==> rank_map[c] < g@.dom().len(),
            crate::graph::open_flag_count(g@, sz) == 2 * (g@.dom().len() - 1),
        decreases 2 * area - steps,
    {
        let current = stack[stack.len() - 1];
        let cands = candidate_directions(&g, current);
        proof {
            lemma_candidates_props(g@, sz, current);
        }
        if cands.len() == 0 {
            stack.pop();
            proof {
                let s_old = gen_steps(seed, sz, steps);
                assert(gen_steps(seed, sz, steps + 1) == gen_step(seed, sz, s_old));
                // the popped cell had no valid candidate, so each of its
                // on-grid neighbors is already visited
                assert forall|c: Cell, d: Direction|
                    g@.dom().contains(c) && !stack@.contains(c) && in_grid(
                        sz,
                        spec_adjacent_node(c, d),
                    ) implies g@.dom().contains(#[trigger] spec_adjacent_node(c, d)) by {
                    if c == current {
                        assert(!candidate_ok(g@, sz, c, d));
                    } else {
                        // any other cell off the new stack was off the old
                        // stack already: only the last entry was removed
                        let prev = gen_steps(seed, sz, steps).stack;
                        if prev.contains(c) {
                            let i = choose|i: int| 0 <= i < prev.len() && prev[i] == c;
                            assert(i < prev.len() - 1);
                            assert(stack@[i] == c);
                        }
                    }
                }
                steps = steps + 1;
            }
        } else {
            let bound: u32 = cands.len() as u32;
            let v = rng.draw(bound);
            let d = cands[v as usize];
            let ghost n = spec_adjacent_node(current, d);
            proof {
                assert(candidate_ok(g@, sz, current, d));
                lemma_carve_symmetric(g@, sz, current, d);
                // the carved flag was still closed: were it open, symmetry
                // would make the neighbor a visited cell
                assert(!edge_open(g@[current], d)) by {
                    if edge_open(g@[current], d) {
                        crate::graph::lemma_symmetric_step(g@, sz, current, d);
                        assert(g@.dom().contains(n));
                    }
                }
                crate::graph::lemma_carve_flag_count(g@, sz, current, d);
                let newrank = g@.dom().len() as int;
                lemma_cert_carve(
                    g@,
                    sz,
                    TreeCert { rank: rank_map, parent_dir: parent_dir },
                    current,
                    d,
                    newrank,
                );
                rank_map = rank_map.insert(n, newrank);
                parent_dir = parent_dir.insert(n, crate::cell::spec_opposite(d));
            }
            let next = current.adjacent_node(d);
            g.carve(current, d);
            stack.push(next);
            proof {
                let s_old = gen_steps(seed, sz, steps);
                assert(gen_steps(seed, sz, steps + 1) == gen_step(seed, sz, s_old));
                assert(g@.dom() =~= s_old.edges.dom().insert(current).insert(n));
                assert(s_old.edges.dom().insert(current) =~= s_old.edges.dom());
                // the whole visited set stays within the grid
                crate::graph::lemma_grid_cells_len(sz);
                vstd::set_lib::lemma_len_subset(g@.dom(), grid_cells(sz));
                // the new stack top is the one fresh cell; everything held
                // off the new stack was off the old stack too
                assert(stack@[stack@.len() - 1] == n);
                assert forall|c: Cell, d: Direction|
                    g@.dom().contains(c) && !stack@.contains(c) && in_grid(
                        sz,
                        spec_adjacent_node(c, d),
                    ) implies g@.dom().contains(#[trigger] spec_adjacent_node(c, d)) by {
                    let prev = s_old.stack;
                    if prev.contains(c) {
                        let i = choose|i: int| 0 <= i < prev.len() && prev[i] == c;
                        assert(stack@[i] == c);
                    }
                    assert(c != n);
                    assert(s_old.edges.dom().contains(c));
                }
                assert(g@.dom().len() == s_old.edges.dom().len() + 1);
                assert forall|c: Cell| #[trigger] g@.dom().contains(c) implies rank_map[c]
                    < g@.dom().len() by {
                    if c != n {
                        assert(s_old.edges.dom().contains(c));
                    }
                }
                steps = steps + 1;
            }
        }
    }
    proof {
        assert(steps <= gen_fuel(sz));
        lemma_steps_stable(seed, sz, steps, gen_fuel(sz));
        assert forall|c: Cell| in_grid(sz, c) implies g@.dom().contains(c) by {
            lemma_closed_set_covers(g@, sz, c);
        }
        assert(g@.dom() =~= grid_cells(sz));
        assert(spanning_tree(g@)) by {
            assert(cert_valid(g@, TreeCert { rank: rank_map, parent_dir: parent_dir }));
        }
        crate::graph::lemma_grid_cells_len(sz);
        assert(g@.dom().len() == area);
    }
    Ok(g)
}

} // verus!
