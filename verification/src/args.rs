//! The screensaver variants a user can ask for, their command-line
//! labels, and the choice of the saver configuration — asset paths
//! included — for each of them.

use vstd::prelude::*;

verus! {

/// The asset path of the bouncing-logo image, DVD styling.
pub const LOGO_PATH_DVD: &'static str = "embedded://ttysvr/../assets/dvd_logo.png";

/// The asset path of the bouncing-logo image, terminal styling.
pub const LOGO_PATH_TTY: &'static str = "embedded://ttysvr/../assets/tty_logo.png";

/// The asset path of the brick maze wall texture.
pub const MAZE_WALL_PATH_BRICK: &'static str = "embedded://ttysvr/../assets/maze_wall_brick.png";

/// The asset path of the hedge maze wall texture.
pub const MAZE_WALL_PATH_HEDGE: &'static str = "embedded://ttysvr/../assets/maze_wall_hedge.png";

/// The asset path of the brick maze ceiling texture.
pub const MAZE_CEILING_PATH_BRICK: &'static str =
    "embedded://ttysvr/../assets/maze_ceiling_brick.png";

/// The asset path of the hedge maze ceiling texture.
pub const MAZE_CEILING_PATH_HEDGE: &'static str =
    "embedded://ttysvr/../assets/maze_ceiling_hedge.png";

/// The screensaver chosen on the command line.
#[derive(Clone, Copy, Debug)]
#[allow(inconsistent_fields)]
pub enum Variant {
    Bubbles,
    Logo { variant: Option<LogoVariant> },
    Maze { variant: Option<MazeVariant> },
}

/// The styling of the bouncing-logo saver.
#[derive(Clone, Copy, PartialEq, Eq, Structural, Debug)]
pub enum LogoVariant {
    Dvd,
    Tty,
}

/// The styling of the maze saver.
#[derive(Clone, Copy, PartialEq, Eq, Structural, Debug)]
pub enum MazeVariant {
    Brick,
    Hedge,
}

/// A saver picked and fully configured: the logo and maze variants carry
/// the asset paths their renderers load.
pub enum SaverVariant {
    Bubbles,
    Logo(String),
    Maze(String, String),
}

/// The asset path of the logo image a logo renderer draws.
pub struct LogoPath(pub String);

/// The asset paths of the wall and ceiling textures a maze renderer
/// draws, in that order.
pub struct MazePaths(pub String, pub String);

/// The command-line label of a logo styling.
pub open spec fn spec_logo_label(v: LogoVariant) -> Seq<char> {
    match v {
        LogoVariant::Dvd => "dvd"@,
        LogoVariant::Tty => "tty"@,
    }
}

/// The command-line label of a maze styling.
pub open spec fn spec_maze_label(v: MazeVariant) -> Seq<char> {
    match v {
        MazeVariant::Brick => "brick"@,
        MazeVariant::Hedge => "hedge"@,
    }
}

/// The command-line label of a saver variant, sub-variant included.
pub open spec fn spec_variant_label(v: Variant) -> Seq<char> {
    match v {
        Variant::Bubbles => "bubbles"@,
        Variant::Logo { variant } => match variant {
            None => "logo"@,
            Some(LogoVariant::Dvd) => "logo dvd"@,
            Some(LogoVariant::Tty) => "logo tty"@,
        },
        Variant::Maze { variant } => match variant {
            None => "maze"@,
            Some(MazeVariant::Brick) => "maze brick"@,
            Some(MazeVariant::Hedge) => "maze hedge"@,
        },
    }
}

impl LogoVariant {
    /// The label this styling goes by on the command line.
    pub fn label(&self) -> (r: String)
        ensures
            r@ == spec_logo_label(*self),
    {
        match self {
            LogoVariant::Dvd => "dvd".to_owned(),
            LogoVariant::Tty => "tty".to_owned(),
        }
    }
}

impl MazeVariant {
    /// The label this styling goes by on the command line.
    pub fn label(&self) -> (r: String)
        ensures
            r@ == spec_maze_label(*self),
    {
        match self {
            MazeVariant::Brick => "brick".to_owned(),
            MazeVariant::Hedge => "hedge".to_owned(),
        }
    }
}

impl Variant {
    /// The label this saver goes by on the command line, sub-variant
    /// included.
    pub fn label(&self) -> (r: String)
        ensures
            r@ == spec_variant_label(*self),
    {
        match self {
            Variant::Bubbles => "bubbles".to_owned(),
            Variant::Logo { variant: None } => "logo".to_owned(),
            Variant::Logo { variant: Some(LogoVariant::Dvd) } => "logo dvd".to_owned(),
            Variant::Logo { variant: Some(LogoVariant::Tty) } => "logo tty".to_owned(),
            Variant::Maze { variant: None } => "maze".to_owned(),
            Variant::Maze { variant: Some(MazeVariant::Brick) } => "maze brick".to_owned(),
            Variant::Maze { variant: Some(MazeVariant::Hedge) } => "maze hedge".to_owned(),
        }
    }
}

/// The saver configuration for an explicit command-line choice: the
/// logo defaults to the DVD styling and the maze to brick.
pub fn saver_variant_for(variant: &Variant) -> (r: SaverVariant)
    ensures
        match *variant {
            Variant::Bubbles => r is Bubbles,
            Variant::Logo { variant: lv } => r matches SaverVariant::Logo(p) && p@ == (match lv {
                Some(LogoVariant::Tty) => LOGO_PATH_TTY@,
                _ => LOGO_PATH_DVD@,
            }),
            Variant::Maze { variant: mv } => r matches SaverVariant::Maze(w, c) && (match mv {
                Some(MazeVariant::Hedge) => w@ == MAZE_WALL_PATH_HEDGE@ && c@
                    == MAZE_CEILING_PATH_HEDGE@,
                _ => w@ == MAZE_WALL_PATH_BRICK@ && c@ == MAZE_CEILING_PATH_BRICK@,
            }),
        },
{
    match variant {
        Variant::Bubbles => SaverVariant::Bubbles,
        Variant::Logo { variant: Some(LogoVariant::Tty) } => SaverVariant::Logo(
            LOGO_PATH_TTY.to_owned(),
        ),
        Variant::Logo { variant: _ } => SaverVariant::Logo(LOGO_PATH_DVD.to_owned()),
        Variant::Maze { variant: Some(MazeVariant::Hedge) } => SaverVariant::Maze(
            MAZE_WALL_PATH_HEDGE.to_owned(),
            MAZE_CEILING_PATH_HEDGE.to_owned(),
        ),
        Variant::Maze { variant: _ } => SaverVariant::Maze(
            MAZE_WALL_PATH_BRICK.to_owned(),
            MAZE_CEILING_PATH_BRICK.to_owned(),
        ),
    }
}

/// The saver configuration drawn when no variant was asked for: `roll`
/// is a uniform draw among three, and each value picks one saver, with
/// the terminal logo and the brick maze as the styles.
pub fn random_saver_variant(roll: u32) -> (r: SaverVariant)
    requires
        roll <= 2,
    ensures
        roll == 0 ==> r is Bubbles,
        roll == 1 ==> (r matches SaverVariant::Logo(p) && p@ == LOGO_PATH_TTY@),
        roll == 2 ==> (r matches SaverVariant::Maze(w, c) && w@ == MAZE_WALL_PATH_BRICK@ && c@
            == MAZE_CEILING_PATH_BRICK@),
{
    match roll {
        0 => SaverVariant::Bubbles,
        1 => SaverVariant::Logo(LOGO_PATH_TTY.to_owned()),
        _ => SaverVariant::Maze(
            MAZE_WALL_PATH_BRICK.to_owned(),
            MAZE_CEILING_PATH_BRICK.to_owned(),
        ),
    }
}

} // verus!
