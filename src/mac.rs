//! Window geometry and window lists as the window manager's scripting bridge
//! reports them: comma-separated text.

use crate::error::Error;
use crate::text::{append, int_chars, int_text, chars_of, i32_of, lemma_split_len, parse_i32, split, split_by, string_of, trim, trimmed, views};
use vstd::prelude::*;
use vstd::string::StringExecFns;

verus! {

pub const APP_NAME_ZED: &'static str = "Zed";

pub const APP_NAME_ALACRITTY: &'static str = "Alacritty";

/// A window rectangle: top-left corner and size.
#[derive(Debug, Clone, Copy, PartialEq, Eq, Structural)]
pub struct WindowBounds {
    pub x: i32,
    pub y: i32,
    pub width: i32,
    pub height: i32,
}

/// A window of an application: its 1-based index and its name.
#[derive(Debug, Clone)]
pub struct AppWindow {
    pub app: String,
    pub win_idx: i32,
    pub win_name: String,
}

/// The trimmed comma-separated names of `out`; none for empty text.
pub open spec fn names_in(out: Seq<char>) -> Seq<Seq<char>> {
    if out.len() == 0 {
        seq![]
    } else {
        split_by(out, ',').map_values(|p: Seq<char>| trimmed(p))
    }
}

fn trimmed_names(output: &str) -> (r: Vec<String>)
    ensures
        r@.map_values(|s: String| s@) == names_in(output@),
{
    let v = chars_of(output);
    let mut r: Vec<String> = Vec::new();
    if v.len() == 0 {
        assert(r@.map_values(|s: String| s@) =~= names_in(output@));
        return r;
    }
    let ps = split(&v, ',');
    let ghost pv = views(ps@);
    let mut i: usize = 0;
    while i < ps.len()
        invariant
            i <= ps.len(),
            pv == views(ps@),
            pv == split_by(v@, ','),
            r@.map_values(|s: String| s@) == pv.subrange(0, i as int).map_values(
                |p: Seq<char>| trimmed(p),
            ),
        decreases ps.len() - i,
    {
        assert(pv[i as int] == ps@[i as int]@);
        let t = trim(&ps[i]);
        let ghost pre = r@;
        let st = string_of(&t);
        r.push(st);
        assert(r@.map_values(|s: String| s@) =~= pre.map_values(|s: String| s@).push(st@));
        assert(pv.subrange(0, i + 1).map_values(|p: Seq<char>| trimmed(p)) =~= pv.subrange(
            0,
            i as int,
        ).map_values(|p: Seq<char>| trimmed(p)).push(trimmed(pv[i as int])));
        assert(r@.map_values(|s: String| s@) =~= pv.subrange(0, i + 1).map_values(
            |p: Seq<char>| trimmed(p),
        ));
        i += 1;
    }
    assert(pv.subrange(0, ps@.len() as int) =~= pv);
    r
}

/// The names of the running applications, from the bridge's comma-separated
/// answer.
pub fn get_all_app_names(output: &str) -> (r: Vec<String>)
    ensures
        r@.map_values(|s: String| s@) == names_in(output@),
{
    trimmed_names(output)
}

/// The windows of `app_name`, numbered from 1, from the bridge's
/// comma-separated list of window names.
pub fn get_app_windows(app_name: &str, output: &str) -> (r: Vec<AppWindow>)
    requires
        output@.len() < 0x7fff_ffff,
    ensures
        r@.len() == names_in(output@).len(),
        forall|i: int|
            0 <= i < r@.len() ==> (#[trigger] r@[i]).app@ == app_name@ && r@[i].win_idx == i + 1
                && r@[i].win_name@ == names_in(output@)[i],
{
    proof {
        lemma_split_len(output@, ',');
    }
    let names = trimmed_names(output);
    let ghost nv = names@.map_values(|s: String| s@);
    assert(nv.len() == names@.len());
    let mut r: Vec<AppWindow> = Vec::new();
    let mut i: usize = 0;
    while i < names.len()
        invariant
            i <= names.len(),
            names@.len() <= 0x7fff_ffff,
            nv == names@.map_values(|s: String| s@),
            nv == names_in(output@),
            r@.len() == i,
            forall|k: int|
                0 <= k < i ==> (#[trigger] r@[k]).app@ == app_name@ && r@[k].win_idx == k + 1
                    && r@[k].win_name@ == nv[k],
        decreases names.len() - i,
    {
        r.push(
            AppWindow {
                app: String::from_str(app_name),
                win_idx: (i + 1) as i32,
                win_name: names[i].clone(),
            },
        );
        i += 1;
    }
    r
}

/// The frontmost window of `app_name`: the first of the list.
pub fn get_front_window(app_name: &str, output: &str) -> (r: Option<AppWindow>)
    ensures
        output@.len() == 0 ==> r is None,
        output@.len() > 0 ==> r is Some && r->0.app@ == app_name@ && r->0.win_idx == 1
            && r->0.win_name@ == names_in(output@)[0],
{
    proof {
        lemma_split_len(output@, ',');
    }
    let names = trimmed_names(output);
    assert(names@.map_values(|s: String| s@).len() == names@.len());
    if names.len() == 0 {
        return None;
    }
    assert(names@.map_values(|s: String| s@)[0] == names@[0]@);
    Some(AppWindow { app: String::from_str(app_name), win_idx: 1, win_name: names[0].clone() })
}

/// The integers among the trimmed pieces, in order; pieces that are not
/// integers are passed over.
pub open spec fn ints_of(ps: Seq<Seq<char>>) -> Seq<i32>
    decreases ps.len(),
{
    if ps.len() == 0 {
        seq![]
    } else {
        let r = ints_of(ps.drop_last());
        match i32_of(trimmed(ps.last())) {
            Some(x) => r.push(x),
            None => r,
        }
    }
}

pub open spec fn fits_i32(v: int) -> bool {
    -0x8000_0000 <= v <= 0x7fff_ffff
}

/// The bounds that `x1, y1, x2, y2` describes, when exactly four integers
/// stand in the text and the size fits.
pub open spec fn bounds_spec(out: Seq<char>) -> Option<WindowBounds> {
    let n = ints_of(split_by(out, ','));
    if n.len() == 4 && fits_i32(n[2] - n[0]) && fits_i32(n[3] - n[1]) {
        Some(
            WindowBounds {
                x: n[0],
                y: n[1],
                width: (n[2] - n[0]) as i32,
                height: (n[3] - n[1]) as i32,
            },
        )
    } else {
        None
    }
}

/// Reads window bounds from the bridge's `x1, y1, x2, y2` answer.
pub fn parse_bounds(output: &str) -> (r: Result<WindowBounds, Error>)
    ensures
        match bounds_spec(output@) {
            Some(b) => r == Ok::<WindowBounds, Error>(b),
            None => match r {
                Err(Error::UnexpectedBounds { output: o }) => o@ == output@,
                _ => false,
            },
        },
{
    let v = chars_of(output);
    let ps = split(&v, ',');
    let ghost pv = views(ps@);
    let mut n: Vec<i32> = Vec::new();
    let mut i: usize = 0;
    assert(pv.subrange(0, 0) =~= Seq::<Seq<char>>::empty());
    while i < ps.len()
        invariant
            i <= ps.len(),
            pv == views(ps@),
            pv == split_by(output@, ','),
            n@ == ints_of(pv.subrange(0, i as int)),
        decreases ps.len() - i,
    {
        assert(pv.subrange(0, i + 1).drop_last() =~= pv.subrange(0, i as int));
        let t = trim(&ps[i]);
        match parse_i32(&t) {
            Some(x) => n.push(x),
            None => {},
        }
        i += 1;
    }
    assert(pv.subrange(0, ps@.len() as int) =~= pv);
    if n.len() != 4 {
        return Err(Error::UnexpectedBounds { output: String::from_str(output) });
    }
    let w: i64 = n[2] as i64 - n[0] as i64;
    let h: i64 = n[3] as i64 - n[1] as i64;
    if w < -0x8000_0000 || w > 0x7fff_ffff || h < -0x8000_0000 || h > 0x7fff_ffff {
        return Err(Error::UnexpectedBounds { output: String::from_str(output) });
    }
    Ok(WindowBounds { x: n[0], y: n[1], width: w as i32, height: h as i32 })
}

/// The bounds of the frontmost window of `app_name`, from the bridge's window
/// list and its bounds answer. Without a window, the application is named in
/// the failure.
pub fn get_front_window_bounds(app_name: &str, windows_output: &str, bounds_output: &str) -> (r:
    Result<WindowBounds, Error>)
    ensures
        windows_output@.len() == 0 ==> match r {
            Err(Error::WindowNotFound { app }) => app@ == app_name@,
            _ => false,
        },
        windows_output@.len() > 0 ==> match bounds_spec(bounds_output@) {
            Some(b) => r == Ok::<WindowBounds, Error>(b),
            None => match r {
                Err(Error::UnexpectedBounds { output: o }) => o@ == bounds_output@,
                _ => false,
            },
        },
{
    if get_front_window(app_name, windows_output).is_none() {
        return Err(Error::WindowNotFound { app: String::from_str(app_name) });
    }
    parse_bounds(bounds_output)
}

/// The bottom-right corner of `b`, when it fits.
pub fn far_corner(b: WindowBounds) -> (r: Option<(i32, i32)>)
    ensures
        match r {
            Some((x2, y2)) => x2 == b.x + b.width && y2 == b.y + b.height,
            None => !fits_i32(b.x + b.width) || !fits_i32(b.y + b.height),
        },
{
    let x2: i64 = b.x as i64 + b.width as i64;
    let y2: i64 = b.y as i64 + b.height as i64;
    if x2 < -0x8000_0000 || x2 > 0x7fff_ffff || y2 < -0x8000_0000 || y2 > 0x7fff_ffff {
        return None;
    }
    Some((x2 as i32, y2 as i32))
}


/// The AppleScript that moves and resizes the frontmost window of `app` to
/// the rectangle with corners `(x1, y1)` and `(x2, y2)`.
pub open spec fn bounds_script(app: Seq<char>, x1: int, y1: int, x2: int, y2: int) -> Seq<char> {
    "tell application \""@ + app + "\"\n\t\t\tset bounds of window 1 to {"@ + int_text(x1) + ", "@
        + int_text(y1) + ", "@ + int_text(x2) + ", "@ + int_text(y2) + "}\n\t\tend tell"@
}

/// The script that sets the bounds of the frontmost window of `app_name`,
/// given the bridge's window list; fails without a window, or when the far
/// corner does not fit.
pub fn set_front_window_bounds(app_name: &str, bounds: WindowBounds, windows_output: &str) -> (r:
    Result<String, Error>)
    ensures
        windows_output@.len() == 0 ==> match r {
            Err(Error::WindowNotFound { app }) => app@ == app_name@,
            _ => false,
        },
        windows_output@.len() > 0 ==> if fits_i32(bounds.x + bounds.width) && fits_i32(
            bounds.y + bounds.height,
        ) {
            r is Ok && r->Ok_0@ == bounds_script(
                app_name@,
                bounds.x as int,
                bounds.y as int,
                bounds.x + bounds.width,
                bounds.y + bounds.height,
            )
        } else {
            r == Err::<String, Error>(Error::BoundsOutOfRange)
        },
{
    if get_front_window(app_name, windows_output).is_none() {
        return Err(Error::WindowNotFound { app: String::from_str(app_name) });
    }
    let Some((x2, y2)) = far_corner(bounds) else { return Err(Error::BoundsOutOfRange) };
    let mut s = chars_of("tell application \"");
    append(&mut s, &chars_of(app_name));
    append(&mut s, &chars_of("\"\n\t\t\tset bounds of window 1 to {"));
    append(&mut s, &int_chars(bounds.x));
    append(&mut s, &chars_of(", "));
    append(&mut s, &int_chars(bounds.y));
    append(&mut s, &chars_of(", "));
    append(&mut s, &int_chars(x2));
    append(&mut s, &chars_of(", "));
    append(&mut s, &int_chars(y2));
    append(&mut s, &chars_of("}\n\t\tend tell"));
    Ok(string_of(&s))
}

} // verus!
