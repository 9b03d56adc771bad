use ttysvr::cell::Cell;
use ttysvr::generate::{generate, MazeError};
use ttysvr::graph::MazeGraph;

fn maze(seed: u64, size: i32) -> MazeGraph {
    generate(seed, size).unwrap()
}

#[test]
fn zero_size_is_rejected() {
    assert!(matches!(generate(42, 0), Err(MazeError::InvalidConfiguration)));
    assert!(matches!(generate(7, -3), Err(MazeError::InvalidConfiguration)));
}

#[test]
fn covers_the_whole_grid() {
    let g = maze(7, 8);
    assert_eq!(g.size(), 8);
    for x in 0..8 {
        for y in 0..8 {
            assert!(g.get(Cell { x, y }).is_some());
        }
    }
    assert!(g.get(Cell { x: 8, y: 0 }).is_none());
    assert!(g.get(Cell { x: 0, y: 8 }).is_none());
    assert!(g.get(Cell { x: -1, y: 0 }).is_none());
}

#[test]
fn single_cell_maze_is_closed() {
    let g = maze(1, 1);
    let e = g.get(Cell { x: 0, y: 0 }).unwrap();
    assert!(!e.north && !e.east && !e.south && !e.west);
    assert!(g.get(Cell { x: 1, y: 0 }).is_none());
    assert!(g.get(Cell { x: 0, y: 1 }).is_none());
}

#[test]
fn edges_are_symmetric() {
    let g = maze(99, 12);
    for x in 0..12 {
        for y in 0..12 {
            let e = g.get(Cell { x, y }).unwrap();
            if e.north {
                assert!(g.get(Cell { x, y: y + 1 }).unwrap().south);
            }
            if e.east {
                assert!(g.get(Cell { x: x + 1, y }).unwrap().west);
            }
            if e.south {
                assert!(g.get(Cell { x, y: y - 1 }).unwrap().north);
            }
            if e.west {
                assert!(g.get(Cell { x: x - 1, y }).unwrap().east);
            }
        }
    }
}

#[test]
fn generation_is_deterministic() {
    let a = maze(42, 8);
    let b = maze(42, 8);
    for x in 0..8 {
        for y in 0..8 {
            assert_eq!(a.get(Cell { x, y }), b.get(Cell { x, y }));
        }
    }
}

#[test]
fn different_seeds_give_different_mazes() {
    let a = maze(0, 8);
    let b = maze(1, 8);
    let mut differs = false;
    for x in 0..8 {
        for y in 0..8 {
            if a.get(Cell { x, y }) != b.get(Cell { x, y }) {
                differs = true;
            }
        }
    }
    assert!(differs);
}

#[test]
fn spanning_tree_shape() {
    let size: i32 = 12;
    let g = maze(5, size);

    // exactly size * size cells, and 2 * (size * size - 1) open flags,
    // which with symmetric flags means size * size - 1 undirected edges
    let mut cells = 0u32;
    let mut flags = 0u32;
    for x in 0..size {
        for y in 0..size {
            let e = g.get(Cell { x, y }).unwrap();
            cells += 1;
            for open in [e.north, e.east, e.south, e.west] {
                if open {
                    flags += 1;
                }
            }
        }
    }
    assert_eq!(cells, (size * size) as u32);
    assert_eq!(flags, 2 * (size * size - 1) as u32);

    // connected: a search along open passages reaches every cell; with
    // exactly size * size - 1 undirected edges the graph is then acyclic
    let mut seen = vec![false; (size * size) as usize];
    let mut stack = vec![(0i32, 0i32)];
    seen[0] = true;
    let mut reached = 0u32;
    while let Some((x, y)) = stack.pop() {
        reached += 1;
        let e = g.get(Cell { x, y }).unwrap();
        let steps = [
            (e.north, x, y + 1),
            (e.east, x + 1, y),
            (e.south, x, y - 1),
            (e.west, x - 1, y),
        ];
        for (open, nx, ny) in steps {
            if open {
                let idx = (ny * size + nx) as usize;
                if !seen[idx] {
                    seen[idx] = true;
                    stack.push((nx, ny));
                }
            }
        }
    }
    assert_eq!(reached, (size * size) as u32);
}
