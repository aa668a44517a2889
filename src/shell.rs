//! Decisions behind the desktop shell integration: which launch argument
//! names a path to scan, what the context-menu command reads, whether a
//! registered command still points at this program, and where a window
//! must move to lie on a monitor.

use crate::text::{contains_text, is_substring, lower_of, lowercase, starts_with_char};
use vstd::prelude::*;

verus! {

/// The launch argument that may name a path to scan: the first after the
/// program name, unless it is an option. Whether the path exists is for the
/// caller to check.
pub fn startup_candidate(args: &Vec<String>) -> (r: Option<String>)
    ensures
        args@.len() < 2 ==> r is None,
        args@.len() >= 2 ==> (r is Some <==> !(args@[1]@.len() > 0 && args@[1]@[0] == '-')),
        r is Some ==> r->Some_0@ == args@[1]@,
{
    if args.len() < 2 {
        return None;
    }
    if starts_with_char(args[1].as_str(), '-') {
        return None;
    }
    Some(args[1].clone())
}

/// A registered command is valid when, compared case-insensitively, it
/// names the program and passes the folder: `%1`, or for the background
/// menu also `%v`.
pub open spec fn command_valid_spec(key_path: Seq<char>, command: Seq<char>, exe: Seq<char>) -> bool {
    command_decision(key_path, lower_of(command), lower_of(exe))
}

/// The check on a command already lower-cased, against the lower-cased program path.
pub open spec fn command_decision(key_path: Seq<char>, cmd: Seq<char>, exe: Seq<char>) -> bool {
    is_substring(exe, cmd) && if is_substring("Background"@, key_path) {
        is_substring("%v"@, cmd) || is_substring("%1"@, cmd)
    } else {
        is_substring("%1"@, cmd)
    }
}

/// Checks a registered context-menu command against the program's path.
pub fn is_context_menu_command_valid(key_path: &str, command: &str, exe: &str) -> (r: bool)
    ensures
        r == command_valid_spec(key_path@, command@, exe@),
{
    let cmd_lower = lowercase(command);
    let exe_lower = lowercase(exe);
    command_matches(key_path, cmd_lower.as_str(), exe_lower.as_str())
}

/// Checks a lower-cased registered command against the lower-cased program
/// path.
pub fn command_matches(key_path: &str, cmd_lower: &str, exe_lower: &str) -> (r: bool)
    ensures
        r == command_decision(key_path@, cmd_lower@, exe_lower@),
{
    if !contains_text(cmd_lower, exe_lower) {
        return false;
    }
    if contains_text(key_path, "Background") {
        return contains_text(cmd_lower, "%v") || contains_text(cmd_lower, "%1");
    }
    contains_text(cmd_lower, "%1")
}

/// The command registered for a context-menu key: the quoted program path
/// and the quoted folder placeholder, `%V` for the background menu and `%1`
/// otherwise.
pub open spec fn menu_command_spec(key_path: Seq<char>, exe: Seq<char>) -> Seq<char> {
    let arg = if is_substring("Background"@, key_path) {
        "%V"@
    } else {
        "%1"@
    };
    "\""@ + exe + "\" \""@ + arg + "\""@
}

/// Builds the command registered for a context-menu key.
pub fn context_menu_command(key_path: &str, exe: &str) -> (r: String)
    ensures
        r@ == menu_command_spec(key_path@, exe@),
{
    let background = contains_text(key_path, "Background");
    let mut s = String::from_str("\"");
    s.append(exe);
    s.append("\" \"");
    if background {
        s.append("%V");
    } else {
        s.append("%1");
    }
    s.append("\"");
    s
}

/// A monitor's area in physical pixels.
#[derive(Clone, Copy, PartialEq, Eq, Structural, Debug)]
pub struct MonitorArea {
    pub x: i32,
    pub y: i32,
    pub width: u32,
    pub height: u32,
}

/// A window's position and size in physical pixels.
#[derive(Clone, Copy, PartialEq, Eq, Structural, Debug)]
pub struct WindowPlacement {
    pub x: i32,
    pub y: i32,
    pub width: u32,
    pub height: u32,
}

/// The window lies wholly on the monitor.
pub open spec fn fits_on(w: WindowPlacement, m: MonitorArea) -> bool {
    &&& w.x >= m.x
    &&& w.y >= m.y
    &&& w.x + w.width <= m.x + m.width
    &&& w.y + w.height <= m.y + m.height
}

pub open spec fn clamp_spec(v: int, lo: int, hi: int) -> int {
    if v < lo {
        lo
    } else if v > hi {
        hi
    } else {
        v
    }
}

pub open spec fn min_spec(a: u32, b: u32) -> u32 {
    if a > b {
        b
    } else {
        a
    }
}

/// Where a window lying on no monitor goes: onto the first monitor, shrunk
/// to fit, moved as little as possible.
pub open spec fn placed_on(w: WindowPlacement, m: MonitorArea) -> WindowPlacement {
    let nw = min_spec(w.width, m.width);
    let nh = min_spec(w.height, m.height);
    WindowPlacement {
        x: clamp_spec(w.x as int, m.x as int, m.x + m.width - nw) as i32,
        y: clamp_spec(w.y as int, m.y as int, m.y + m.height - nh) as i32,
        width: nw,
        height: nh,
    }
}

fn fits(w: WindowPlacement, m: MonitorArea) -> (r: bool)
    ensures
        r == fits_on(w, m),
{
    let wx = w.x as i64;
    let wy = w.y as i64;
    wx >= m.x as i64 && wy >= m.y as i64 && wx + w.width as i64 <= m.x as i64 + m.width as i64 && wy
        + w.height as i64 <= m.y as i64 + m.height as i64
}

fn clamp_coord(v: i32, lo: i32, span: u32, size: u32) -> (r: i32)
    requires
        size <= span,
    ensures
        r == clamp_spec(v as int, lo as int, lo + span - size),
{
    let hi = lo as i64 + span as i64 - size as i64;
    if (v as i64) < lo as i64 {
        lo
    } else if v as i64 > hi {
        hi as i32
    } else {
        v
    }
}

/// The placement a window must take to lie on a monitor; `None` when it
/// already lies wholly on one, or when no monitor is known.
pub fn ensure_window_bounds(w: WindowPlacement, monitors: &Vec<MonitorArea>) -> (r: Option<
    WindowPlacement,
>)
    ensures
        r is None <==> monitors@.len() == 0 || exists|k: int|
            0 <= k < monitors@.len() && fits_on(w, #[trigger] monitors@[k]),
        r is Some ==> r->Some_0 == placed_on(w, monitors@[0]),
{
    let mut k: usize = 0;
    while k < monitors.len()
        invariant
            k <= monitors@.len(),
            forall|j: int| 0 <= j < k ==> !fits_on(w, #[trigger] monitors@[j]),
        decreases monitors@.len() - k,
    {
        if fits(w, monitors[k]) {
            return None;
        }
        k += 1;
    }
    if monitors.len() == 0 {
        return None;
    }
    let m = monitors[0];
    let width = if w.width > m.width {
        m.width
    } else {
        w.width
    };
    let height = if w.height > m.height {
        m.height
    } else {
        w.height
    };
    let x = clamp_coord(w.x, m.x, m.width, width);
    let y = clamp_coord(w.y, m.y, m.height, height);
    Some(WindowPlacement { x, y, width, height })
}

} // verus!
