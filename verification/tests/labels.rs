use ttysvr::args::{
    random_saver_variant, saver_variant_for, LogoPath, LogoVariant, MazePaths, MazeVariant,
    SaverVariant, Variant, LOGO_PATH_DVD, LOGO_PATH_TTY, MAZE_CEILING_PATH_BRICK,
    MAZE_CEILING_PATH_HEDGE, MAZE_WALL_PATH_BRICK, MAZE_WALL_PATH_HEDGE,
};

#[test]
fn variant_labels() {
    assert_eq!(Variant::Bubbles.label(), "bubbles");
    assert_eq!(Variant::Logo { variant: None }.label(), "logo");
    assert_eq!(Variant::Logo { variant: Some(LogoVariant::Dvd) }.label(), "logo dvd");
    assert_eq!(Variant::Logo { variant: Some(LogoVariant::Tty) }.label(), "logo tty");
    assert_eq!(Variant::Maze { variant: None }.label(), "maze");
    assert_eq!(Variant::Maze { variant: Some(MazeVariant::Brick) }.label(), "maze brick");
    assert_eq!(Variant::Maze { variant: Some(MazeVariant::Hedge) }.label(), "maze hedge");
}

#[test]
fn sub_variant_labels() {
    assert_eq!(LogoVariant::Dvd.label(), "dvd");
    assert_eq!(LogoVariant::Tty.label(), "tty");
    assert_eq!(MazeVariant::Brick.label(), "brick");
    assert_eq!(MazeVariant::Hedge.label(), "hedge");
}

#[test]
fn chosen_variants_carry_their_assets() {
    match saver_variant_for(&Variant::Bubbles) {
        SaverVariant::Bubbles => {}
        _ => panic!("bubbles expected"),
    }
    match saver_variant_for(&Variant::Logo { variant: None }) {
        SaverVariant::Logo(p) => assert_eq!(p, LOGO_PATH_DVD),
        _ => panic!("logo expected"),
    }
    match saver_variant_for(&Variant::Logo { variant: Some(LogoVariant::Tty) }) {
        SaverVariant::Logo(p) => {
            let path = LogoPath(p);
            assert_eq!(path.0, LOGO_PATH_TTY);
        }
        _ => panic!("logo expected"),
    }
    match saver_variant_for(&Variant::Maze { variant: Some(MazeVariant::Hedge) }) {
        SaverVariant::Maze(w, c) => {
            let paths = MazePaths(w, c);
            assert_eq!(paths.0, MAZE_WALL_PATH_HEDGE);
            assert_eq!(paths.1, MAZE_CEILING_PATH_HEDGE);
        }
        _ => panic!("maze expected"),
    }
    match saver_variant_for(&Variant::Maze { variant: None }) {
        SaverVariant::Maze(w, c) => {
            assert_eq!(w, MAZE_WALL_PATH_BRICK);
            assert_eq!(c, MAZE_CEILING_PATH_BRICK);
        }
        _ => panic!("maze expected"),
    }
}

#[test]
fn random_roll_picks_each_saver() {
    match random_saver_variant(0) {
        SaverVariant::Bubbles => {}
        _ => panic!("bubbles expected"),
    }
    match random_saver_variant(1) {
        SaverVariant::Logo(p) => assert_eq!(p, LOGO_PATH_TTY),
        _ => panic!("logo expected"),
    }
    match random_saver_variant(2) {
        SaverVariant::Maze(w, c) => {
            assert_eq!(w, MAZE_WALL_PATH_BRICK);
            assert_eq!(c, MAZE_CEILING_PATH_BRICK);
        }
        _ => panic!("maze expected"),
    }
}
