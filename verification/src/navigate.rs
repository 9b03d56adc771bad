//! Maze navigation: a camera pose walked through the generated maze.
//!
//! The camera keeps a fixed-point pose: positions in thousandths of a
//! cell, headings in thousandths of a degree. Every tick it either
//! rotates toward the current target cell, walks toward it without ever
//! overshooting, or — having arrived — snaps onto the cell and picks the
//! next target with a right-hand wall-following rule. The whole tick is
//! pinned to the spec transition `spec_tick`, so navigation is a pure
//! function of the maze, the pose and the elapsed time.

use vstd::prelude::*;

use crate::cell::{
    in_grid, origin_cell, spec_adjacent_node, spec_clockwise, spec_counterclockwise,
    spec_opposite, Cell, Direction,
};
use crate::graph::{edge_open, edges_symmetric, CellEdges, MazeGraph};

verus! {

/// World units per grid cell: one thousandth of a cell each.
pub const MAZE_SCALE: i64 = 1000;

/// Walking speed in world units per second (four tenths of a cell).
pub const MAZE_WALK_SPEED: i64 = 400;

/// Turning speed in thousandths of a degree per second (a third of a
/// full turn).
pub const MAZE_TURN_SPEED: i64 = 120000;

/// A full turn, in thousandths of a degree.
pub const FULL_TURN: i64 = 360000;

/// Half a turn.
pub const HALF_TURN: i64 = 180000;

/// A quarter turn.
pub const QUARTER_TURN: i64 = 90000;

/// How close, in world units, the camera must come to the target before
/// it snaps onto it and the next target is chosen.
pub const ARRIVE_EPSILON: i64 = 10;

/// The camera pose: a planar position in world units and a heading in
/// thousandths of a degree, counterclockwise from east.
#[derive(Clone, Copy, PartialEq, Eq, Structural, Debug)]
pub struct Pose {
    pub x: i64,
    pub y: i64,
    pub heading: i64,
}

/// The absolute value of `v`.
pub open spec fn abs_i(v: int) -> int {
    if v < 0 {
        -v
    } else {
        v
    }
}

/// The world position of the center of cell `c`.
pub open spec fn spec_target_position(c: Cell) -> (int, int) {
    (c.x * MAZE_SCALE, c.y * MAZE_SCALE)
}

/// The distance, in world units along the axes, from `p` to the center
/// of cell `c`.
pub open spec fn pose_target_dist(p: Pose, c: Cell) -> int {
    abs_i(spec_target_position(c).0 - p.x) + abs_i(spec_target_position(c).1 - p.y)
}

/// The heading that points at each compass direction: east lies at zero,
/// north a quarter turn counterclockwise.
pub open spec fn direction_angle(d: Direction) -> int {
    match d {
        Direction::East => 0,
        Direction::North => QUARTER_TURN as int,
        Direction::West => HALF_TURN as int,
        Direction::South => 3 * QUARTER_TURN,
    }
}

/// How far the camera turns in `delta` milliseconds, reduced to less
/// than a full turn.
pub open spec fn turn_amount(delta: int) -> int {
    (delta * MAZE_TURN_SPEED / 1000) % (FULL_TURN as int)
}

/// How far the camera walks in `delta` milliseconds.
pub open spec fn walk_amount(delta: int) -> int {
    delta * MAZE_WALK_SPEED / 1000
}

/// `h` turned counterclockwise by `a`, kept within one turn. Both
/// arguments must already lie within one turn.
pub open spec fn add_angle(h: int, a: int) -> int {
    if h + a >= FULL_TURN {
        h + a - FULL_TURN
    } else {
        h + a
    }
}

/// `h` turned clockwise by `a`, kept within one turn. Both arguments
/// must already lie within one turn.
pub open spec fn sub_angle(h: int, a: int) -> int {
    if h - a < 0 {
        h - a + FULL_TURN
    } else {
        h - a
    }
}

/// The signed angle from heading `theta` to heading `phi`, normalized
/// into the half-open turn centered on zero: positive means `phi` lies
/// counterclockwise of `theta`.
pub open spec fn angle_diff(phi: int, theta: int) -> int {
    let raw = phi - theta;
    if raw > HALF_TURN {
        raw - FULL_TURN
    } else if raw <= -HALF_TURN {
        raw + FULL_TURN
    } else {
        raw
    }
}

/// The compass direction nearest to heading `h`: the axis whose
/// component of the forward vector is largest wins, and its sign picks
/// the direction; ties fall to north or south.
pub open spec fn spec_camera_direction(h: int) -> Direction {
    if 45000 <= h <= 135000 {
        Direction::North
    } else if 135000 < h < 225000 {
        Direction::West
    } else if 225000 <= h <= 315000 {
        Direction::South
    } else {
        Direction::East
    }
}

/// The order in which the wall-following rule tries directions when the
/// camera faces `f`: right turn first, then straight on, then left, and
/// a reversal only when nothing else is open.
pub open spec fn spec_rotated_order(f: Direction) -> Seq<Direction> {
    seq![spec_clockwise(f), f, spec_counterclockwise(f), spec_opposite(f)]
}

/// The first direction of `order` whose passage is open in `e`.
pub open spec fn first_open(order: Seq<Direction>, e: CellEdges) -> Option<Direction>
    decreases order.len(),
{
    if order.len() == 0 {
        None
    } else if edge_open(e, order[0]) {
        Some(order[0])
    } else {
        first_open(order.drop_first(), e)
    }
}

/// The direction the wall-following rule picks at a cell with passages
/// `e` when the camera faces `facing`; nothing when the cell is fully
/// enclosed.
pub open spec fn spec_next_direction(facing: Direction, e: CellEdges) -> Option<Direction> {
    first_open(spec_rotated_order(facing), e)
}

/// One coordinate moved from `p` toward `t` by at most `step`, stopping
/// exactly at `t`.
pub open spec fn spec_move_coord(p: int, t: int, step: int) -> int {
    if t > p {
        if t - p <= step {
            t
        } else {
            p + step
        }
    } else {
        if p - t <= step {
            t
        } else {
            p - step
        }
    }
}

/// The heading that points from `p` straight at the target position
/// `t`, meaningful only while they differ along exactly one axis.
pub open spec fn spec_dir_angle(p: Pose, t: (int, int)) -> int {
    if p.x < t.0 {
        0
    } else if p.x > t.0 {
        HALF_TURN as int
    } else if p.y < t.1 {
        QUARTER_TURN as int
    } else {
        3 * QUARTER_TURN
    }
}

/// The pose after the align-or-walk part of one tick: sitting on the
/// target the camera only turns; misaligned it rotates toward the
/// target, snapping exactly onto the direction when the rotation crosses
/// it; aligned it walks toward the target without overshooting.
pub open spec fn spec_move_phase(p: Pose, t: (int, int), delta: int) -> Pose {
    if p.x == t.0 && p.y == t.1 {
        Pose { heading: add_angle(p.heading as int, turn_amount(delta)) as i64, ..p }
    } else {
        let phi = spec_dir_angle(p, t);
        let diff = angle_diff(phi, p.heading as int);
        if diff == 0 {
            let step = walk_amount(delta);
            Pose {
                x: spec_move_coord(p.x as int, t.0, step) as i64,
                y: spec_move_coord(p.y as int, t.1, step) as i64,
                heading: p.heading,
            }
        } else if diff < 0 {
            let h2 = sub_angle(p.heading as int, turn_amount(delta));
            if angle_diff(phi, h2) > 0 {
                Pose { heading: phi as i64, ..p }
            } else {
                Pose { heading: h2 as i64, ..p }
            }
        } else {
            let h2 = add_angle(p.heading as int, turn_amount(delta));
            if angle_diff(phi, h2) < 0 {
                Pose { heading: phi as i64, ..p }
            } else {
                Pose { heading: h2 as i64, ..p }
            }
        }
    }
}

/// The full tick transition: the align-or-walk move, then, once the
/// camera stands within `ARRIVE_EPSILON` of the target, the snap onto
/// the cell center and the wall-following choice of the next target. A
/// fully enclosed cell keeps its own cell as the target.
pub open spec fn spec_tick(maze: Map<Cell, CellEdges>, target: Cell, p: Pose, delta: int) -> (
    Pose,
    Cell,
) {
    let t = spec_target_position(target);
    let p1 = spec_move_phase(p, t, delta);
    if abs_i(t.0 - p1.x) + abs_i(t.1 - p1.y) < ARRIVE_EPSILON {
        let p2 = Pose { x: t.0 as i64, y: t.1 as i64, heading: p1.heading };
        let facing = spec_camera_direction(p1.heading as int);
        match spec_next_direction(facing, maze[target]) {
            Some(d) => (p2, spec_adjacent_node(target, d)),
            None => (p2, target),
        }
    } else {
        (p1, target)
    }
}

/// The navigator: it owns the read-only maze, the cell the camera is
/// headed for, and the camera pose it advances every tick.
pub struct MazeNavigator {
    maze: MazeGraph,
    target: Cell,
    pose: Pose,
}

impl MazeNavigator {
    /// The maze the navigator walks.
    pub closed spec fn spec_maze(&self) -> MazeGraph {
        self.maze
    }

    /// The cell the camera is walking or turning toward.
    pub closed spec fn spec_target(&self) -> Cell {
        self.target
    }

    /// The camera pose.
    pub closed spec fn spec_pose(&self) -> Pose {
        self.pose
    }

    /// Well-formed: the maze is intact with mirrored flags agreeing, the
    /// target is a present cell, the heading lies within one turn, and
    /// the camera stands on the line of its target, at its center or at
    /// least the arrival distance away.
    pub open spec fn wf(&self) -> bool {
        let t = spec_target_position(self.spec_target());
        &&& self.spec_maze().wf()
        &&& edges_symmetric(self.spec_maze()@, self.spec_maze().spec_size())
        &&& self.spec_maze()@.dom().contains(self.spec_target())
        &&& 0 <= self.spec_pose().heading < FULL_TURN
        &&& self.spec_pose().x == t.0 || self.spec_pose().y == t.1
        &&& 0 <= self.spec_pose().x <= (self.spec_maze().spec_size() - 1) * MAZE_SCALE
        &&& 0 <= self.spec_pose().y <= (self.spec_maze().spec_size() - 1) * MAZE_SCALE
        &&& pose_target_dist(self.spec_pose(), self.spec_target()) == 0 || pose_target_dist(
            self.spec_pose(),
            self.spec_target(),
        ) >= ARRIVE_EPSILON
    }

    /// Start the navigator at the origin cell: the camera stands on it,
    /// faces north, and has the origin itself as its first target.
    pub fn new(maze: MazeGraph) -> (nav: MazeNavigator)
        requires
            maze.wf(),
            edges_symmetric(maze@, maze.spec_size()),
            maze@.dom().contains(origin_cell()),
        ensures
            nav.wf(),
            nav.spec_maze() == maze,
            nav.spec_target() == origin_cell(),
            nav.spec_pose() == (Pose { x: 0, y: 0, heading: QUARTER_TURN }),
    {
        proof {
            maze.lemma_wf_size();
        }
        MazeNavigator {
            maze,
            target: Cell { x: 0, y: 0 },
            pose: Pose { x: 0, y: 0, heading: QUARTER_TURN },
        }
    }

    /// The maze being walked, for renderers to draw walls from.
    pub fn maze(&self) -> (m: &MazeGraph)
        ensures
            m == self.spec_maze(),
    {
        &self.maze
    }

    /// The cell the camera is currently headed for.
    pub fn target(&self) -> (t: Cell)
        ensures
            t == self.spec_target(),
    {
        self.target
    }

    /// The current camera pose, for the render camera to consume.
    pub fn pose(&self) -> (p: Pose)
        ensures
            p == self.spec_pose(),
    {
        self.pose
    }
}

/// One coordinate moved from `p` toward `t` by at most `step`, stopping
/// exactly at `t`.
fn move_coord(p: i64, t: i64, step: i64) -> (r: i64)
    requires
        -50000000 <= p <= 50000000,
        -50000000 <= t <= 50000000,
        0 <= step <= 2000000000,
    ensures
        r == spec_move_coord(p as int, t as int, step as int),
{
    if t > p {
        if t - p <= step {
            t
        } else {
            p + step
        }
    } else {
        if p - t <= step {
            t
        } else {
            p - step
        }
    }
}

/// The align-or-walk part of one tick, on a bare pose: exactly the spec
/// transition `spec_move_phase`, with the heading kept within one turn
/// and the position kept between where it was and the target.
fn move_phase(p: Pose, tx: i64, ty: i64, delta_ms: u32) -> (r: Pose)
    requires
        0 <= p.heading < FULL_TURN,
        -50000000 <= p.x <= 50000000,
        -50000000 <= p.y <= 50000000,
        -50000000 <= tx <= 50000000,
        -50000000 <= ty <= 50000000,
        p.x == tx || p.y == ty,
    ensures
        r == spec_move_phase(p, (tx as int, ty as int), delta_ms as int),
        0 <= r.heading < FULL_TURN,
        p.x <= tx ==> p.x <= r.x <= tx,
        p.x >= tx ==> tx <= r.x <= p.x,
        p.y <= ty ==> p.y <= r.y <= ty,
        p.y >= ty ==> ty <= r.y <= p.y,
        r.x == tx || r.y == ty,
        abs_i(tx - r.x) + abs_i(ty - r.y) <= abs_i(tx - p.x) + abs_i(ty - p.y),
{
    let turn: i64 = ((delta_ms as u64) * 120000 / 1000 % 360000) as i64;
    proof {
        assert(turn == turn_amount(delta_ms as int));
        assert(0 <= turn < FULL_TURN);
    }
    if p.x == tx && p.y == ty {
        let h = p.heading + turn;
        let h1 = if h >= FULL_TURN {
            h - FULL_TURN
        } else {
            h
        };
        Pose { x: p.x, y: p.y, heading: h1 }
    } else {
        let phi: i64 = if p.x < tx {
            0
        } else if p.x > tx {
            HALF_TURN
        } else if p.y < ty {
            QUARTER_TURN
        } else {
            3 * QUARTER_TURN
        };
        let raw = phi - p.heading;
        let diff = if raw > HALF_TURN {
            raw - FULL_TURN
        } else if raw <= -HALF_TURN {
            raw + FULL_TURN
        } else {
            raw
        };
        if diff == 0 {
            let step: i64 = ((delta_ms as u64) * 400 / 1000) as i64;
            proof {
                assert(step == walk_amount(delta_ms as int));
            }
            Pose { x: move_coord(p.x, tx, step), y: move_coord(p.y, ty, step), heading: p.heading }
        } else if diff < 0 {
            let hh = p.heading - turn;
            let h2 = if hh < 0 {
                hh + FULL_TURN
            } else {
                hh
            };
            let raw2 = phi - h2;
            let diff2 = if raw2 > HALF_TURN {
                raw2 - FULL_TURN
            } else if raw2 <= -HALF_TURN {
                raw2 + FULL_TURN
            } else {
                raw2
            };
            let h3 = if diff2 > 0 {
                phi
            } else {
                h2
            };
            Pose { x: p.x, y: p.y, heading: h3 }
        } else {
            let hh = p.heading + turn;
            let h2 = if hh >= FULL_TURN {
                hh - FULL_TURN
            } else {
                hh
            };
            let raw2 = phi - h2;
            let diff2 = if raw2 > HALF_TURN {
                raw2 - FULL_TURN
            } else if raw2 <= -HALF_TURN {
                raw2 + FULL_TURN
            } else {
                raw2
            };
            let h3 = if diff2 < 0 {
                phi
            } else {
                h2
            };
            Pose { x: p.x, y: p.y, heading: h3 }
        }
    }
}

impl MazeNavigator {
    /// Advance the walk by `delta_ms` milliseconds: rotate toward, walk
    /// toward, or arrive at the target cell, in which case the camera
    /// snaps onto it and the wall-following rule picks the next target.
    /// The new pose and target are exactly `spec_tick` of the old state:
    /// navigation is deterministic in the maze, the pose and the time.
    #[verifier::rlimit(100)]
    pub fn tick(&mut self, delta_ms: u32)
        requires
            old(self).wf(),
        ensures
            final(self).wf(),
            final(self).spec_maze() == old(self).spec_maze(),
            (final(self).spec_pose(), final(self).spec_target()) == spec_tick(
                old(self).spec_maze()@,
                old(self).spec_target(),
                old(self).spec_pose(),
                delta_ms as int,
            ),
    {
        proof {
            self.maze.lemma_wf_size();
            self.maze.lemma_dom_in_grid();
        }
        let ghost t = spec_target_position(self.target);
        let ghost size = self.maze.spec_size();
        let (tx, ty) = target_position(self.target);
        proof {
            assert(in_grid(size, self.target));
            assert(0 <= tx <= (size - 1) * MAZE_SCALE <= 50000000);
            assert(0 <= ty <= (size - 1) * MAZE_SCALE <= 50000000);
        }
        let p1 = move_phase(self.pose, tx, ty, delta_ms);
        self.pose = p1;
        // arrive: snap onto the target and pick the next one
        let dx = if tx >= p1.x {
            tx - p1.x
        } else {
            p1.x - tx
        };
        let dy = if ty >= p1.y {
            ty - p1.y
        } else {
            p1.y - ty
        };
        if dx + dy < ARRIVE_EPSILON {
            self.pose.x = tx;
            self.pose.y = ty;
            let edges = match self.maze.get(self.target) {
                Some(e) => e,
                None => {
                    proof {
                        assert(false);
                    }
                    CellEdges { north: false, east: false, south: false, west: false }
                },
            };
            let facing = camera_direction(self.pose.heading);
            match next_valid_direction(facing, edges) {
                Some(d) => {
                    proof {
                        assert(edge_open(self.maze@[self.target], d));
                        crate::graph::lemma_symmetric_step(self.maze@, size, self.target, d);
                        assert(in_grid(size, spec_adjacent_node(self.target, d)));
                    }
                    let next = self.target.adjacent_node(d);
                    self.target = next;
                    proof {
                        let t2 = spec_target_position(next);
                        assert(self.maze@.dom().contains(next));
                        assert(t2.0 == t.0 || t2.1 == t.1);
                        assert(abs_i(t2.0 - self.pose.x) + abs_i(t2.1 - self.pose.y)
                            == MAZE_SCALE);
                    }
                },
                None => {},
            }
        } else {
            proof {
                // short of the target the camera stays at least the
                // arrival distance away: it either kept its distance or
                // walked and was clamped no closer than the check allows
                assert(pose_target_dist(self.pose, self.target) >= ARRIVE_EPSILON);
            }
        }
    }
}

/// The world position of the center of cell `c`: the pure mapping that
/// the navigator and any renderer of the maze share.
pub fn target_position(c: Cell) -> (r: (i64, i64))
    ensures
        r.0 == spec_target_position(c).0,
        r.1 == spec_target_position(c).1,
{
    ((c.x as i64) * MAZE_SCALE, (c.y as i64) * MAZE_SCALE)
}

/// The compass direction nearest to heading `h`.
pub fn camera_direction(h: i64) -> (r: Direction)
    requires
        0 <= h < FULL_TURN,
    ensures
        r == spec_camera_direction(h as int),
{
    if 45000 <= h && h <= 135000 {
        Direction::North
    } else if 135000 < h && h < 225000 {
        Direction::West
    } else if 225000 <= h && h <= 315000 {
        Direction::South
    } else {
        Direction::East
    }
}

/// The order in which the wall-following rule tries directions when the
/// camera faces `f`: right, straight, left, reverse.
pub fn rotated_order(f: Direction) -> (r: Vec<Direction>)
    ensures
        r@ == spec_rotated_order(f),
{
    let mut r: Vec<Direction> = Vec::new();
    r.push(f.clockwise());
    r.push(f);
    r.push(f.counterclockwise());
    r.push(f.opposite());
    proof {
        assert(r@ =~= spec_rotated_order(f));
    }
    r
}

/// The first open direction at a cell with passages `e`, tried in the
/// wall-following order for facing direction `facing`; nothing when the
/// cell is fully enclosed.
pub fn next_valid_direction(facing: Direction, e: CellEdges) -> (r: Option<Direction>)
    ensures
        r == spec_next_direction(facing, e),
        r matches Some(d) ==> edge_open(e, d),
        r is None ==> !edge_open(e, Direction::North) && !edge_open(e, Direction::East)
            && !edge_open(e, Direction::South) && !edge_open(e, Direction::West),
{
    proof {
        reveal_with_fuel(first_open, 5);
        assert(spec_rotated_order(facing).drop_first() =~= seq![
            facing,
            spec_counterclockwise(facing),
            spec_opposite(facing),
        ]);
        assert(spec_rotated_order(facing).drop_first().drop_first() =~= seq![
            spec_counterclockwise(facing),
            spec_opposite(facing),
        ]);
        assert(spec_rotated_order(facing).drop_first().drop_first().drop_first() =~= seq![
            spec_opposite(facing),
        ]);
        assert(spec_rotated_order(facing).drop_first().drop_first().drop_first().drop_first()
            =~= Seq::<Direction>::empty());
    }
    let order = rotated_order(facing);
    let r = if edge_is_open(e, order[0]) {
        Some(order[0])
    } else if edge_is_open(e, order[1]) {
        Some(order[1])
    } else if edge_is_open(e, order[2]) {
        Some(order[2])
    } else if edge_is_open(e, order[3]) {
        Some(order[3])
    } else {
        None
    };
    proof {
        if r is None {
            assert(!edge_open(e, spec_clockwise(facing)) && !edge_open(e, facing) && !edge_open(
                e,
                spec_counterclockwise(facing),
            ) && !edge_open(e, spec_opposite(facing)));
        }
    }
    r
}

/// No overshoot: while the camera walks — aligned on its target cell but
/// not yet standing on it — one tick brings it closer by exactly the
/// walking step, clamped at the target, and never past it; and once the
/// remaining distance falls under the arrival threshold it stops exactly
/// on the target. The distance to the target never increases.
pub proof fn lemma_walk_no_overshoot(
    maze: Map<Cell, CellEdges>,
    target: Cell,
    p: Pose,
    delta: int,
)
    requires
        delta >= 0,
        p.x == spec_target_position(target).0 || p.y == spec_target_position(target).1,
        pose_target_dist(p, target) > 0,
        angle_diff(spec_dir_angle(p, spec_target_position(target)), p.heading as int) == 0,
    ensures
        ({
            let d0 = pose_target_dist(p, target);
            let step = walk_amount(delta);
            let d1 = if step >= d0 {
                0int
            } else {
                d0 - step
            };
            let d2 = if d1 < ARRIVE_EPSILON {
                0int
            } else {
                d1
            };
            let after = spec_tick(maze, target, p, delta).0;
            &&& pose_target_dist(after, target) == d2
            &&& 0 <= pose_target_dist(after, target) <= d0
        }),
{
    let t = spec_target_position(target);
    let step = walk_amount(delta);
    assert(step >= 0);
    let p1 = spec_move_phase(p, t, delta);
    assert(p1.x == spec_move_coord(p.x as int, t.0, step) as i64);
    assert(p1.y == spec_move_coord(p.y as int, t.1, step) as i64);
}

/// On a generated maze with at least two cells the wall-following rule
/// never gets stuck: whatever the camera faces, some direction in its
/// try-order is open, because every cell of a symmetric spanning-tree
/// maze has an open passage and the try-order covers all four
/// directions. Only a broken symmetry invariant could make it fail.
#[verifier::rlimit(100)]
pub proof fn lemma_wall_rule_total(
    m: Map<Cell, CellEdges>,
    size: int,
    c: Cell,
    facing: Direction,
)
    requires
        crate::generate::spanning_tree(m),
        edges_symmetric(m, size),
        m.dom() == crate::cell::grid_cells(size),
        2 <= size <= crate::cell::MAZE_MAX_SIZE,
        m.dom().contains(c),
    ensures
        spec_next_direction(facing, m[c]) is Some,
{
    crate::generate::lemma_every_cell_has_open_edge(m, size);
    let d = choose|d: Direction| edge_open(m[c], d);
    assert(edge_open(m[c], d));
    if spec_next_direction(facing, m[c]) is None {
        lemma_first_open_none(facing, m[c]);
    }
}

/// When the wall rule finds nothing, every one of the four passages is
/// closed: its try-order visits all four directions.
proof fn lemma_first_open_none(facing: Direction, e: CellEdges)
    requires
        spec_next_direction(facing, e) is None,
    ensures
        !edge_open(e, Direction::North),
        !edge_open(e, Direction::East),
        !edge_open(e, Direction::South),
        !edge_open(e, Direction::West),
{
    reveal_with_fuel(first_open, 5);
    assert(!edge_open(e, spec_clockwise(facing)) && !edge_open(e, facing) && !edge_open(
        e,
        spec_counterclockwise(facing),
    ) && !edge_open(e, spec_opposite(facing)));
}

/// A tick only ever retargets through open passages: it either keeps the
/// target cell or moves it to the neighbor behind an open passage of the
/// old target. Together with the mirrored-flag symmetry of a generated
/// maze this keeps the whole walk inside the maze graph.
pub proof fn lemma_tick_respects_passages(
    maze: Map<Cell, CellEdges>,
    target: Cell,
    p: Pose,
    delta: int,
)
    ensures
        ({
            let t2 = spec_tick(maze, target, p, delta).1;
            t2 == target || exists|d: Direction|
                #[trigger] edge_open(maze[target], d) && t2 == spec_adjacent_node(target, d)
        }),
{
    let t2 = spec_tick(maze, target, p, delta).1;
    if t2 != target {
        let p1 = spec_move_phase(p, spec_target_position(target), delta);
        let facing = spec_camera_direction(p1.heading as int);
        let picked = spec_next_direction(facing, maze[target]);
        assert(picked is Some && t2 == spec_adjacent_node(target, picked->0));
        assert(edge_open(maze[target], picked->0)) by {
            reveal_with_fuel(first_open, 5);
        }
    }
}

/// Whether the passage of `e` toward `d` is open.
fn edge_is_open(e: CellEdges, d: Direction) -> (r: bool)
    ensures
        r == edge_open(e, d),
{
    match d {
        Direction::North => e.north,
        Direction::East => e.east,
        Direction::South => e.south,
        Direction::West => e.west,
    }
}

} // verus!
