use ttysvr::cell::{Cell, Direction};
use ttysvr::generate::generate;
use ttysvr::graph::CellEdges;
use ttysvr::navigate::{
    camera_direction, next_valid_direction, rotated_order, MazeNavigator, ARRIVE_EPSILON,
    MAZE_SCALE, QUARTER_TURN,
};

fn navigator(seed: u64, size: i32) -> MazeNavigator {
    MazeNavigator::new(generate(seed, size).unwrap())
}

fn edges(north: bool, east: bool, south: bool, west: bool) -> CellEdges {
    CellEdges { north, east, south, west }
}

#[test]
fn camera_direction_quadrants() {
    assert!(matches!(camera_direction(0), Direction::East));
    assert!(matches!(camera_direction(90_000), Direction::North));
    assert!(matches!(camera_direction(180_000), Direction::West));
    assert!(matches!(camera_direction(270_000), Direction::South));
    // boundaries: the vertical axis wins a tie, as the larger-component
    // comparison is strict
    assert!(matches!(camera_direction(45_000), Direction::North));
    assert!(matches!(camera_direction(135_000), Direction::North));
    assert!(matches!(camera_direction(225_000), Direction::South));
    assert!(matches!(camera_direction(315_000), Direction::South));
    assert!(matches!(camera_direction(350_000), Direction::East));
}

#[test]
fn rotated_order_prefers_right_then_straight() {
    let order = rotated_order(Direction::North);
    assert!(matches!(order[0], Direction::East));
    assert!(matches!(order[1], Direction::North));
    assert!(matches!(order[2], Direction::West));
    assert!(matches!(order[3], Direction::South));
    let order = rotated_order(Direction::West);
    assert!(matches!(order[0], Direction::North));
    assert!(matches!(order[1], Direction::West));
    assert!(matches!(order[2], Direction::South));
    assert!(matches!(order[3], Direction::East));
}

#[test]
fn wall_rule_picks_first_open() {
    // right turn open: taken
    let r = next_valid_direction(Direction::North, edges(true, true, false, false));
    assert!(matches!(r, Some(Direction::East)));
    // only straight on open
    let r = next_valid_direction(Direction::North, edges(true, false, false, false));
    assert!(matches!(r, Some(Direction::North)));
    // only the left turn open
    let r = next_valid_direction(Direction::North, edges(false, false, false, true));
    assert!(matches!(r, Some(Direction::West)));
    // dead end: reverse
    let r = next_valid_direction(Direction::North, edges(false, false, true, false));
    assert!(matches!(r, Some(Direction::South)));
    // fully enclosed
    let r = next_valid_direction(Direction::North, edges(false, false, false, false));
    assert!(r.is_none());
}

#[test]
fn navigator_starts_at_origin_facing_north() {
    let nav = navigator(3, 4);
    assert_eq!(nav.target(), Cell { x: 0, y: 0 });
    let p = nav.pose();
    assert_eq!(p.x, 0);
    assert_eq!(p.y, 0);
    assert_eq!(p.heading, QUARTER_TURN);
}

#[test]
fn single_cell_navigator_stays_put() {
    let mut nav = navigator(9, 1);
    for _ in 0..200 {
        nav.tick(16);
        let p = nav.pose();
        assert_eq!(p.x, 0);
        assert_eq!(p.y, 0);
        assert_eq!(nav.target(), Cell { x: 0, y: 0 });
    }
}

#[test]
fn distance_to_target_never_grows() {
    let mut nav = navigator(11, 6);
    let mut prev_target = nav.target();
    let mut prev_dist = distance_to_target(&nav);
    for _ in 0..50_000 {
        nav.tick(16);
        let target = nav.target();
        let dist = distance_to_target(&nav);
        if target == prev_target {
            assert!(dist <= prev_dist);
        }
        // the camera either stands on its target or at least the
        // arrival distance away
        assert!(dist == 0 || dist >= ARRIVE_EPSILON);
        prev_target = target;
        prev_dist = dist;
    }
}

#[test]
fn ticking_visits_every_cell() {
    let size: i32 = 8;
    let mut nav = navigator(42, size);
    let mut visited = vec![false; (size * size) as usize];
    for _ in 0..400_000 {
        nav.tick(50);
        let t = nav.target();
        visited[(t.y * size + t.x) as usize] = true;
    }
    assert!(visited.iter().all(|v| *v), "some cell was never targeted");
}

#[test]
fn walk_moves_in_steps_and_snaps_at_the_end() {
    // a small maze: after the first arrival at the origin the camera
    // turns toward an adjacent cell and walks the full cell length in
    // clamped steps
    let mut nav = navigator(1, 2);
    // first tick arrives at the origin and picks the next target
    nav.tick(16);
    let target = nav.target();
    assert_ne!(target, Cell { x: 0, y: 0 });
    let mut walked = false;
    let mut prev = distance_to_target(&nav);
    for _ in 0..5_000 {
        nav.tick(16);
        if nav.target() != target {
            // arrived: the snap put the camera exactly on the old target
            let p = nav.pose();
            assert_eq!(p.x, target.x as i64 * MAZE_SCALE);
            assert_eq!(p.y, target.y as i64 * MAZE_SCALE);
            walked = true;
            break;
        }
        let dist = distance_to_target(&nav);
        // each walking tick covers at most the walking step for 16 ms
        assert!(prev - dist <= 16 * 400 / 1000 + ARRIVE_EPSILON);
        assert!(dist <= prev);
        prev = dist;
    }
    assert!(walked, "the camera never reached its second target");
}

fn distance_to_target(nav: &MazeNavigator) -> i64 {
    let p = nav.pose();
    let t = nav.target();
    let tx = t.x as i64 * MAZE_SCALE;
    let ty = t.y as i64 * MAZE_SCALE;
    (tx - p.x).abs() + (ty - p.y).abs()
}
