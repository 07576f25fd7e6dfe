//! The command line's shape and the decisions of its terminal launcher.

use crate::mac::{fits_i32, WindowBounds};
use vstd::prelude::*;
use vstd::string::StringExecFns;

verus! {

/// The parsed command line.
#[derive(Debug)]
pub struct CliCmd {
    pub command: CliSubCmd,
}

/// The subcommands.
#[derive(Debug)]
pub enum CliSubCmd {
    /// Send the reload key to the driver pane of a directory.
    TmuxRunAip(TmuxRunAipArgs),
    /// Create an ignore file at a path.
    CreateGitIgnore(CreateGitIgnoreArgs),
    /// Flip the editor's AI switch.
    ZedToggleAi,
    /// Open a development terminal.
    NewDevTerm(NewDevTermArgs),
    /// Move to another configuration profile.
    ToggleProfile(ToggleProfileArgs),
}

#[derive(Debug)]
pub struct TmuxRunAipArgs {
    /// Pane directory.
    pub dir: Option<String>,
    /// Pane title.
    pub pane: Option<String>,
}

#[derive(Debug)]
pub struct CreateGitIgnoreArgs {
    pub path: String,
}

#[derive(Debug)]
pub struct NewDevTermArgs {
    /// Working directory of the new terminal.
    pub cwd: String,
    /// Start tmux in it.
    pub with_tmux: bool,
    /// Where to place it relative to the editor window.
    pub auto_pos: Option<AutoPos>,
}

#[derive(Debug)]
pub struct ToggleProfileArgs {
    /// The profile asked for; none moves to the next one.
    pub profile: Option<String>,
}

/// Placement of a new terminal window relative to the editor window.
#[derive(Debug, Clone, Copy, PartialEq, Eq, Structural)]
pub enum AutoPos {
    /// Just under the editor window.
    Below,
    /// Over the bottom edge of the editor window.
    Bottom,
}

/// `d / 2`, rounded toward zero as integer division does.
pub open spec fn half(d: int) -> int {
    if d >= 0 {
        d / 2
    } else {
        -((-d) / 2)
    }
}

/// The top-left corner for the terminal window: centred horizontally on the
/// editor window, and below it or over its bottom edge.
pub open spec fn position_spec(zed: WindowBounds, term: WindowBounds, pos: AutoPos) -> (int, int) {
    let ax = zed.x + half(zed.width - term.width);
    let ay = match pos {
        AutoPos::Below => zed.y + zed.height + 4,
        AutoPos::Bottom => zed.y + zed.height - term.height,
    };
    (ax, ay)
}

/// Where to put the terminal window, when the position fits in `i32`.
pub fn auto_position(zed: WindowBounds, term: WindowBounds, pos: AutoPos) -> (r: Option<(i32, i32)>)
    ensures
        ({
            let (ax, ay) = position_spec(zed, term, pos);
            match r {
                Some((x, y)) => x == ax && y == ay,
                None => !fits_i32(ax) || !fits_i32(ay),
            }
        }),
{
    let d: i64 = zed.width as i64 - term.width as i64;
    let h: i64 = if d >= 0 {
        d / 2
    } else {
        -((-d) / 2)
    };
    let ax: i64 = zed.x as i64 + h;
    let ay: i64 = match pos {
        AutoPos::Below => zed.y as i64 + zed.height as i64 + 4,
        AutoPos::Bottom => zed.y as i64 + zed.height as i64 - term.height as i64,
    };
    if ax < -0x8000_0000 || ax > 0x7fff_ffff || ay < -0x8000_0000 || ay > 0x7fff_ffff {
        return None;
    }
    Some((ax as i32, ay as i32))
}

/// The terminal's arguments: a new window of the running instance or a new
/// instance, in `cwd`, with tmux started where asked.
pub open spec fn terminal_args_spec(cwd: Seq<char>, running: bool, with_tmux: bool) -> Seq<
    Seq<char>,
> {
    let base = if running {
        seq!["msg"@, "create-window"@, "--working-directory"@, cwd]
    } else {
        seq!["--working-directory"@, cwd]
    };
    if with_tmux {
        base + seq!["-e"@, "tmux"@, "new-session"@]
    } else {
        base
    }
}

pub fn terminal_args(cwd: &str, running: bool, with_tmux: bool) -> (r: Vec<String>)
    ensures
        r@.map_values(|s: String| s@) == terminal_args_spec(cwd@, running, with_tmux),
{
    let mut r: Vec<String> = Vec::new();
    if running {
        r.push(String::from_str("msg"));
        r.push(String::from_str("create-window"));
    }
    r.push(String::from_str("--working-directory"));
    r.push(String::from_str(cwd));
    let ghost base = r@.map_values(|s: String| s@);
    assert(base =~= if running {
        seq!["msg"@, "create-window"@, "--working-directory"@, cwd@]
    } else {
        seq!["--working-directory"@, cwd@]
    });
    if with_tmux {
        r.push(String::from_str("-e"));
        r.push(String::from_str("tmux"));
        r.push(String::from_str("new-session"));
        assert(r@.map_values(|s: String| s@) =~= base + seq!["-e"@, "tmux"@, "new-session"@]);
    }
    r
}

} // verus!
