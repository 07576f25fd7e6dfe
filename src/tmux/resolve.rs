//! Finding the pane a keystroke goes to.

use crate::error::Error;
use crate::text::{opt_view, str_eq};
use crate::tmux::types::{
    pane_at, valid_pane, PaneModel, SessionModel, TmuxPane, TmuxSessions, TmuxWindow, WindowModel,
};
use vstd::prelude::*;
use vstd::string::StringExecFns;

verus! {

/// The name of the process that a directory-only search looks for.
pub const DRIVER_COMMAND: &'static str = "aip";

pub open spec fn driver() -> Seq<char> {
    "aip"@
}

/// `(i, j, k)` comes before `(a, b, c)` in tree order.
pub open spec fn before3(i: int, j: int, k: int, a: int, b: int, c: int) -> bool {
    i < a || (i == a && (j < b || (j == b && k < c)))
}

/// The pane bears `title` and, where a directory is given, sits in it.
pub open spec fn titled(p: PaneModel, title: Seq<char>, dir: Option<Seq<char>>) -> bool {
    p.title == title && match dir {
        Some(d) => p.path == d,
        None => true,
    }
}

pub open spec fn no_titled_before(
    t: Seq<SessionModel>,
    title: Seq<char>,
    dir: Option<Seq<char>>,
    a: int,
    b: int,
    c: int,
) -> bool {
    forall|i: int, j: int, k: int|
        valid_pane(t, i, j, k) && before3(i, j, k, a, b, c) ==> !titled(
            #[trigger] pane_at(t, i, j, k),
            title,
            dir,
        )
}

/// `(i, j, k)` is the first pane in tree order that bears `title` (in `dir`).
pub open spec fn first_titled(
    t: Seq<SessionModel>,
    title: Seq<char>,
    dir: Option<Seq<char>>,
    i: int,
    j: int,
    k: int,
) -> bool {
    valid_pane(t, i, j, k) && titled(pane_at(t, i, j, k), title, dir) && no_titled_before(
        t,
        title,
        dir,
        i,
        j,
        k,
    )
}

fn titled_exec(p: &TmuxPane, dir: Option<&str>, title: &str) -> (r: bool)
    ensures
        r == titled(p@, title@, opt_view(dir)),
{
    str_eq(p.title.as_str(), title) && match dir {
        Some(d) => str_eq(p.path.as_str(), d),
        None => true,
    }
}

/// The first pane, sessions then windows then panes in order, whose title is
/// `title` and, where `dir` is given, whose path is `dir`.
pub fn find_first_pane(sessions: &TmuxSessions, dir: Option<&str>, title: &str) -> (r: Option<
    TmuxPane,
>)
    ensures
        match r {
            Some(p) => exists|i: int, j: int, k: int|
                first_titled(sessions@, title@, opt_view(dir), i, j, k) && p@ == #[trigger] pane_at(
                    sessions@,
                    i,
                    j,
                    k,
                ),
            None => no_titled_before(sessions@, title@, opt_view(dir), sessions@.len() as int, 0, 0),
        },
{
    let ghost t = sessions@;
    let ghost d = opt_view(dir);
    let ss = &sessions.0;
    let mut i: usize = 0;
    while i < ss.len()
        invariant
            i <= ss.len(),
            t == sessions@,
            ss == &sessions.0,
            d == opt_view(dir),
            no_titled_before(t, title@, d, i as int, 0, 0),
        decreases ss.len() - i,
    {
        let ws = &ss[i].windows;
        let mut j: usize = 0;
        while j < ws.len()
            invariant
                i < ss.len(),
                j <= ws.len(),
                t == sessions@,
                ss == &sessions.0,
                ws == &ss[i as int].windows,
                d == opt_view(dir),
                no_titled_before(t, title@, d, i as int, j as int, 0),
            decreases ws.len() - j,
        {
            let ps = &ws[j].panes;
            let mut k: usize = 0;
            while k < ps.len()
                invariant
                    i < ss.len(),
                    j < ws.len(),
                    k <= ps.len(),
                    t == sessions@,
                    ss == &sessions.0,
                    ws == &ss[i as int].windows,
                    ps == &ws[j as int].panes,
                    d == opt_view(dir),
                    no_titled_before(t, title@, d, i as int, j as int, k as int),
                decreases ps.len() - k,
            {
                assert(pane_at(t, i as int, j as int, k as int) == ps[k as int]@);
                if titled_exec(&ps[k], dir, title) {
                    return Some(ps[k].copied());
                }
                k += 1;
            }
            j += 1;
        }
        i += 1;
    }
    None
}


pub open spec fn valid_window(t: Seq<SessionModel>, i: int, j: int) -> bool {
    0 <= i < t.len() && 0 <= j < t[i].windows.len()
}

/// Some pane of the window sits in `d`.
pub open spec fn has_path(w: WindowModel, d: Seq<char>) -> bool {
    exists|k: int| 0 <= k < w.panes.len() && #[trigger] w.panes[k].path == d
}

/// The window has a pane in `d`; when `strict`, it is also the active window
/// of an attached session.
pub open spec fn window_ok(t: Seq<SessionModel>, i: int, j: int, d: Seq<char>, strict: bool) -> bool {
    (strict ==> t[i].attached && t[i].windows[j].active) && has_path(t[i].windows[j], d)
}

pub open spec fn no_window_before(t: Seq<SessionModel>, d: Seq<char>, strict: bool, a: int, b: int) -> bool {
    forall|i: int, j: int|
        valid_window(t, i, j) && (i < a || (i == a && j < b)) ==> !#[trigger] window_ok(
            t,
            i,
            j,
            d,
            strict,
        )
}

pub open spec fn first_window(t: Seq<SessionModel>, d: Seq<char>, strict: bool, i: int, j: int) -> bool {
    valid_window(t, i, j) && window_ok(t, i, j, d, strict) && no_window_before(t, d, strict, i, j)
}

/// The window a directory-only search settles on: the first active window of
/// an attached session with a pane in `d`, else the first window of any
/// session with a pane in `d`.
pub open spec fn chosen_window(t: Seq<SessionModel>, d: Seq<char>, i: int, j: int) -> bool {
    first_window(t, d, true, i, j) || (no_window_before(t, d, true, t.len() as int, 0)
        && first_window(t, d, false, i, j))
}

pub open spec fn driver_ok(p: PaneModel, active_only: bool) -> bool {
    p.command == driver() && (active_only ==> p.active)
}

pub open spec fn no_driver_before(ps: Seq<PaneModel>, active_only: bool, k: int) -> bool {
    forall|k2: int| 0 <= k2 < k && k2 < ps.len() ==> !driver_ok(#[trigger] ps[k2], active_only)
}

pub open spec fn first_driver(ps: Seq<PaneModel>, active_only: bool, k: int) -> bool {
    0 <= k < ps.len() && driver_ok(ps[k], active_only) && no_driver_before(ps, active_only, k)
}

/// The pane a directory-only search settles on within its window: the first
/// active pane that runs the driver, else the first pane that runs it.
pub open spec fn chosen_pane(ps: Seq<PaneModel>, k: int) -> bool {
    first_driver(ps, true, k) || (no_driver_before(ps, true, ps.len() as int) && first_driver(
        ps,
        false,
        k,
    ))
}

/// Within the window the search settles on, a pane that is active and runs
/// the driver wins over every other pane, however they are ordered.
pub proof fn lemma_active_pane_preferred(ps: Seq<PaneModel>, k: int, a: int)
    requires
        chosen_pane(ps, k),
        0 <= a < ps.len(),
        driver_ok(ps[a], true),
    ensures
        ps[k].active,
        ps[k].command == driver(),
        k <= a,
{
    if !first_driver(ps, true, k) {
        assert(!driver_ok(ps[a], true));
    }
}

fn window_has_path(w: &TmuxWindow, d: &str) -> (r: bool)
    ensures
        r == has_path(w@, d@),
{
    let mut k: usize = 0;
    while k < w.panes.len()
        invariant
            k <= w.panes.len(),
            forall|k2: int| 0 <= k2 < k ==> #[trigger] w@.panes[k2].path != d@,
        decreases w.panes.len() - k,
    {
        if str_eq(w.panes[k].path.as_str(), d) {
            assert(w@.panes[k as int].path == d@);
            return true;
        }
        k += 1;
    }
    false
}

fn find_window(sessions: &TmuxSessions, d: &str, strict: bool) -> (r: Option<(usize, usize)>)
    ensures
        match r {
            Some((i, j)) => first_window(sessions@, d@, strict, i as int, j as int),
            None => no_window_before(sessions@, d@, strict, sessions@.len() as int, 0),
        },
{
    let ghost t = sessions@;
    let ss = &sessions.0;
    let mut i: usize = 0;
    while i < ss.len()
        invariant
            i <= ss.len(),
            t == sessions@,
            ss == &sessions.0,
            no_window_before(t, d@, strict, i as int, 0),
        decreases ss.len() - i,
    {
        let ws = &ss[i].windows;
        let mut j: usize = 0;
        while j < ws.len()
            invariant
                i < ss.len(),
                j <= ws.len(),
                t == sessions@,
                ss == &sessions.0,
                ws == &ss[i as int].windows,
                no_window_before(t, d@, strict, i as int, j as int),
            decreases ws.len() - j,
        {
            assert(t[i as int].windows[j as int] == ws[j as int]@);
            let ok = (!strict || (ss[i].attached && ws[j].active)) && window_has_path(&ws[j], d);
            if ok {
                assert(window_ok(t, i as int, j as int, d@, strict));
                return Some((i, j));
            }
            assert(!window_ok(t, i as int, j as int, d@, strict));
            j += 1;
        }
        i += 1;
    }
    None
}

fn find_driver(ps: &Vec<TmuxPane>, active_only: bool) -> (r: Option<usize>)
    ensures
        match r {
            Some(k) => first_driver(crate::tmux::types::pane_models(ps@), active_only, k as int),
            None => no_driver_before(
                crate::tmux::types::pane_models(ps@),
                active_only,
                ps@.len() as int,
            ),
        },
{
    let ghost m = crate::tmux::types::pane_models(ps@);
    let mut k: usize = 0;
    while k < ps.len()
        invariant
            k <= ps.len(),
            m == crate::tmux::types::pane_models(ps@),
            no_driver_before(m, active_only, k as int),
        decreases ps.len() - k,
    {
        assert(m[k as int] == ps[k as int]@);
        if str_eq(ps[k].command.as_str(), DRIVER_COMMAND) && (!active_only || ps[k].active) {
            return Some(k);
        }
        k += 1;
    }
    None
}

pub open spec fn opt_string(o: Option<String>) -> Option<Seq<char>> {
    match o {
        Some(s) => Some(s@),
        None => None,
    }
}

/// `e` is the failure that names the directory and title searched for.
pub open spec fn not_found(e: Error, dir: Option<&str>, title: Option<&str>) -> bool {
    match e {
        Error::PaneNotFound { dir: ed, title: et } => opt_string(ed) == opt_view(dir) && opt_string(
            et,
        ) == opt_view(title),
        _ => false,
    }
}

fn not_found_error(dir: Option<&str>, title: Option<&str>) -> (e: Error)
    ensures
        not_found(e, dir, title),
{
    Error::PaneNotFound {
        dir: match dir {
            Some(d) => Some(String::from_str(d)),
            None => None,
        },
        title: match title {
            Some(t) => Some(String::from_str(t)),
            None => None,
        },
    }
}

/// Resolves the pane a keystroke goes to. With a title: the first pane in
/// tree order with that title (and in `dir`, where given). Without one: the
/// window of `chosen_window` for `dir`, and in it the pane of `chosen_pane`.
pub fn resolve_pane(sessions: &TmuxSessions, dir: Option<&str>, title: Option<&str>) -> (r: Result<
    TmuxPane,
    Error,
>)
    ensures
        match title {
            Some(ti) => match r {
                Ok(p) => exists|i: int, j: int, k: int|
                    first_titled(sessions@, ti@, opt_view(dir), i, j, k) && p@ == #[trigger] pane_at(
                        sessions@,
                        i,
                        j,
                        k,
                    ),
                Err(e) => no_titled_before(
                    sessions@,
                    ti@,
                    opt_view(dir),
                    sessions@.len() as int,
                    0,
                    0,
                ) && not_found(e, dir, title),
            },
            None => match dir {
                None => match r {
                    Err(e) => not_found(e, dir, title),
                    Ok(_) => false,
                },
                Some(d) => match r {
                    Ok(p) => exists|i: int, j: int, k: int|
                        chosen_window(sessions@, d@, i, j) && chosen_pane(
                            sessions@[i].windows[j].panes,
                            k,
                        ) && p@ == #[trigger] pane_at(sessions@, i, j, k),
                    Err(e) => (no_window_before(sessions@, d@, true, sessions@.len() as int, 0)
                        && no_window_before(sessions@, d@, false, sessions@.len() as int, 0)
                        && not_found(e, dir, title)) || exists|i: int, j: int|
                        chosen_window(sessions@, d@, i, j) && no_driver_before(
                            #[trigger] sessions@[i].windows[j].panes,
                            false,
                            sessions@[i].windows[j].panes.len() as int,
                        ) && match e {
                            Error::DriverPaneNotFound { directory } => directory@ == d@,
                            _ => false,
                        },
                },
            },
        },
{
    match title {
        Some(ti) => {
            match find_first_pane(sessions, dir, ti) {
                Some(p) => Ok(p),
                None => Err(not_found_error(dir, title)),
            }
        },
        None => {
            let Some(d) = dir else { return Err(not_found_error(dir, title)) };
            let (i, j) = match find_window(sessions, d, true) {
                Some(w) => w,
                None => match find_window(sessions, d, false) {
                    Some(w) => w,
                    None => return Err(not_found_error(dir, title)),
                },
            };
            let ps = &sessions.0[i].windows[j].panes;
            assert(sessions@[i as int].windows[j as int].panes == crate::tmux::types::pane_models(
                ps@,
            ));
            let k = match find_driver(ps, true) {
                Some(k) => k,
                None => match find_driver(ps, false) {
                    Some(k) => k,
                    None => {
                        return Err(Error::DriverPaneNotFound { directory: String::from_str(d) });
                    },
                },
            };
            assert(pane_at(sessions@, i as int, j as int, k as int) == ps[k as int]@);
            Ok(ps[k].copied())
        },
    }
}

} // verus!
