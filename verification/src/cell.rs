//! Grid cells and the four cardinal directions of the maze.

use vstd::prelude::*;

verus! {

/// Largest accepted maze side length: keeps `size * size` (the number of
/// grid cells) within range of `usize` and of the loop-count arithmetic.
pub const MAZE_MAX_SIZE: i32 = 46340;

/// The coordinate of one grid cell; the maze grid spans
/// `0 <= x < size` and `0 <= y < size`.
#[derive(Clone, Copy, PartialEq, Eq, Structural, Debug, Hash)]
pub struct Cell {
    pub x: i32,
    pub y: i32,
}

/// A compass direction; north is toward `+y`, east toward `+x`.
#[derive(Clone, Copy, PartialEq, Eq, Structural, Debug)]
pub enum Direction {
    North,
    East,
    South,
    West,
}

/// Whether `c` lies on the square grid with side `size`.
pub open spec fn in_grid(size: int, c: Cell) -> bool {
    0 <= c.x < size && 0 <= c.y < size
}

/// The set of all cells of the square grid with side `size`.
pub open spec fn grid_cells(size: int) -> Set<Cell> {
    Set::new(|c: Cell| in_grid(size, c))
}

/// The origin cell `(0, 0)`, where generation and navigation start.
pub open spec fn origin_cell() -> Cell {
    Cell { x: 0, y: 0 }
}

/// The neighbor of `c` one step in direction `d`. The casts stay exact
/// whenever the step does not leave the range of `i32`, which holds for
/// every cell of a grid of side at most `MAZE_MAX_SIZE`.
pub open spec fn spec_adjacent_node(c: Cell, d: Direction) -> Cell {
    match d {
        Direction::North => Cell { x: c.x, y: (c.y + 1) as i32 },
        Direction::East => Cell { x: (c.x + 1) as i32, y: c.y },
        Direction::South => Cell { x: c.x, y: (c.y - 1) as i32 },
        Direction::West => Cell { x: (c.x - 1) as i32, y: c.y },
    }
}

/// The direction opposite to `d`.
pub open spec fn spec_opposite(d: Direction) -> Direction {
    match d {
        Direction::North => Direction::South,
        Direction::East => Direction::West,
        Direction::South => Direction::North,
        Direction::West => Direction::East,
    }
}

/// The direction one quarter turn clockwise (to the right) of `d`.
pub open spec fn spec_clockwise(d: Direction) -> Direction {
    match d {
        Direction::North => Direction::East,
        Direction::East => Direction::South,
        Direction::South => Direction::West,
        Direction::West => Direction::North,
    }
}

/// The direction one quarter turn counterclockwise (to the left) of `d`.
pub open spec fn spec_counterclockwise(d: Direction) -> Direction {
    match d {
        Direction::North => Direction::West,
        Direction::East => Direction::North,
        Direction::South => Direction::East,
        Direction::West => Direction::South,
    }
}

impl Cell {
    /// The neighbor coordinate one step in direction `d`.
    pub fn adjacent_node(self, d: Direction) -> (r: Cell)
        requires
            -MAZE_MAX_SIZE <= self.x <= MAZE_MAX_SIZE,
            -MAZE_MAX_SIZE <= self.y <= MAZE_MAX_SIZE,
        ensures
            r == spec_adjacent_node(self, d),
    {
        match d {
            Direction::North => Cell { x: self.x, y: self.y + 1 },
            Direction::East => Cell { x: self.x + 1, y: self.y },
            Direction::South => Cell { x: self.x, y: self.y - 1 },
            Direction::West => Cell { x: self.x - 1, y: self.y },
        }
    }
}

impl Direction {
    /// The direction opposite to `self`.
    pub fn opposite(self) -> (r: Direction)
        ensures
            r == spec_opposite(self),
    {
        match self {
            Direction::North => Direction::South,
            Direction::East => Direction::West,
            Direction::South => Direction::North,
            Direction::West => Direction::East,
        }
    }

    /// The direction one quarter turn clockwise of `self`.
    pub fn clockwise(self) -> (r: Direction)
        ensures
            r == spec_clockwise(self),
    {
        match self {
            Direction::North => Direction::East,
            Direction::East => Direction::South,
            Direction::South => Direction::West,
            Direction::West => Direction::North,
        }
    }

    /// The direction one quarter turn counterclockwise of `self`.
    pub fn counterclockwise(self) -> (r: Direction)
        ensures
            r == spec_counterclockwise(self),
    {
        match self {
            Direction::North => Direction::West,
            Direction::East => Direction::North,
            Direction::South => Direction::East,
            Direction::West => Direction::South,
        }
    }
}

/// Stepping in a direction and then in the opposite direction returns
/// to the starting cell, as long as the step stays clear of the ends of
/// the range of `i32`.
pub proof fn lemma_adjacent_opposite(c: Cell, d: Direction)
    requires
        -MAZE_MAX_SIZE <= c.x <= MAZE_MAX_SIZE,
        -MAZE_MAX_SIZE <= c.y <= MAZE_MAX_SIZE,
    ensures
        spec_adjacent_node(spec_adjacent_node(c, d), spec_opposite(d)) == c,
{
}

} // verus!
