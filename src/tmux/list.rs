//! The snapshot wire format: one line per pane, and the tree built from the
//! lines.
//!
//! A line reads
//! `<ATTACHED|DETACHED> <session>:<win>.<pane> <window name> [<pane title>] <path> <command> <session id> <window id> <pane id> <window active> <pane active>`,
//! where the two trailing flags, each `1` or `0`, may be left out: a line
//! without them reads both as `0`. The three identifiers are required.

use crate::error::Error;
use crate::text::{
    chars_of, contains, contains_seq, last_of, last_pair, lemma_last_of_range, lines, lines_of,
    opt_int, opt_view, parse_usize, rfind_char, rfind_pair, rsplit_once, same, slice, split_first,
    split_last, split_once, string_of, trim, trimmed, usize_of, views,
};
use crate::tmux::types::{
    in_tree, pane_at, pane_models, session_models, valid_pane, window_models, PaneId, PaneModel, SessionId, SessionModel,
    TmuxPane, TmuxSession, TmuxSessions, TmuxWindow, WindowId, WindowModel,
};
use vstd::prelude::*;

verus! {

/// The fields of one snapshot line.
#[derive(Debug, Clone)]
pub struct PaneLine {
    pub s_name: String,
    pub attached: bool,
    pub s_id: String,
    pub w_idx: usize,
    pub w_id: String,
    pub w_name: String,
    pub w_active: bool,
    pub p_idx: usize,
    pub p_id: String,
    pub p_title: String,
    pub path: String,
    pub cmd: String,
    pub p_active: bool,
}

pub struct LineModel {
    pub s_name: Seq<char>,
    pub attached: bool,
    pub s_id: Seq<char>,
    pub w_idx: usize,
    pub w_id: Seq<char>,
    pub w_name: Seq<char>,
    pub w_active: bool,
    pub p_idx: usize,
    pub p_id: Seq<char>,
    pub p_title: Seq<char>,
    pub path: Seq<char>,
    pub cmd: Seq<char>,
    pub p_active: bool,
}

impl View for PaneLine {
    type V = LineModel;

    open spec fn view(&self) -> LineModel {
        LineModel {
            s_name: self.s_name@,
            attached: self.attached,
            s_id: self.s_id@,
            w_idx: self.w_idx,
            w_id: self.w_id@,
            w_name: self.w_name@,
            w_active: self.w_active,
            p_idx: self.p_idx,
            p_id: self.p_id@,
            p_title: self.p_title@,
            path: self.path@,
            cmd: self.cmd@,
            p_active: self.p_active,
        }
    }
}

pub open spec fn line_opt(o: Option<PaneLine>) -> Option<LineModel> {
    match o {
        Some(l) => Some(l@),
        None => None,
    }
}

pub open spec fn attached_word() -> Seq<char> {
    seq!['A', 'T', 'T', 'A', 'C', 'H', 'E', 'D']
}

/// A trailing flag: `1` or `0`.
pub open spec fn flag_of(s: Seq<char>) -> Option<bool> {
    if s == seq!['1'] {
        Some(true)
    } else if s == seq!['0'] {
        Some(false)
    } else {
        None
    }
}

/// The fields after the pane title, read from the right: the path is what is
/// left, so it may hold spaces.
pub struct TailModel {
    pub path: Seq<char>,
    pub cmd: Seq<char>,
    pub s_id: Seq<char>,
    pub w_id: Seq<char>,
    pub p_id: Seq<char>,
    pub w_active: bool,
    pub p_active: bool,
}

/// The two trailing activity flags, where the last two tokens are flags:
/// what stands before them, the window's flag and the pane's.
pub open spec fn flags_split(t: Seq<char>) -> Option<(Seq<char>, bool, bool)> {
    match split_last(t, ' ') {
        None => None,
        Some((t1, pa)) => match split_last(t1, ' ') {
            None => None,
            Some((t2, wa)) => match (flag_of(wa), flag_of(pa)) {
                (Some(w_active), Some(p_active)) => Some((t2, w_active, p_active)),
                _ => None,
            },
        },
    }
}

/// Path, command and the three identifiers, read from the right.
pub open spec fn ids_spec(t: Seq<char>, w_active: bool, p_active: bool) -> Option<TailModel> {
    match split_last(t, ' ') {
        None => None,
        Some((t3, p_id)) => match split_last(t3, ' ') {
            None => None,
            Some((t4, w_id)) => match split_last(t4, ' ') {
                None => None,
                Some((path_cmd, s_id)) => {
                    let (path, cmd) = match split_last(path_cmd, ' ') {
                        Some(pc) => pc,
                        None => (path_cmd, Seq::empty()),
                    };
                    Some(TailModel { path, cmd, s_id, w_id, p_id, w_active, p_active })
                },
            },
        },
    }
}

/// The tail of a line; without the trailing flags, both panes and windows
/// count as inactive.
pub open spec fn tail_spec(t: Seq<char>) -> Option<TailModel> {
    match flags_split(t) {
        Some((rest, w_active, p_active)) => ids_spec(rest, w_active, p_active),
        None => ids_spec(t, false, false),
    }
}

/// What one snapshot line holds, or `None` where it does not parse.
pub open spec fn line_spec(line: Seq<char>) -> Option<LineModel> {
    match split_first(line, ' ') {
        None => None,
        Some((flag, after)) => match split_first(after, ' ') {
            None => None,
            Some((coord, rest)) => match split_first(coord, ':') {
                None => None,
                Some((s_name, win_pane)) => match split_first(win_pane, '.') {
                    None => None,
                    Some((w_str, p_str)) => match (
                        usize_of(w_str),
                        usize_of(p_str),
                        last_pair(rest, ' ', '['),
                        last_of(rest, ']'),
                    ) {
                        (Some(w_idx), Some(p_idx), Some(open), Some(close)) => {
                            if close < open || close - open < 2 {
                                None
                            } else {
                                match tail_spec(trimmed(rest.subrange(close + 1, rest.len() as int))) {
                                    None => None,
                                    Some(t) => Some(
                                        LineModel {
                                            s_name,
                                            attached: flag == attached_word(),
                                            s_id: t.s_id,
                                            w_idx,
                                            w_id: t.w_id,
                                            w_name: trimmed(rest.subrange(0, open)),
                                            w_active: t.w_active,
                                            p_idx,
                                            p_id: t.p_id,
                                            p_title: rest.subrange(open + 2, close),
                                            path: t.path,
                                            cmd: t.cmd,
                                            p_active: t.p_active,
                                        },
                                    ),
                                }
                            }
                        },
                        _ => None,
                    },
                },
            },
        },
    }
}

fn parse_flag(v: &Vec<char>) -> (r: Option<bool>)
    ensures
        r == flag_of(v@),
{
    if v.len() == 1 && v[0] == '1' {
        assert(v@ =~= seq!['1']);
        Some(true)
    } else if v.len() == 1 && v[0] == '0' {
        assert(v@ =~= seq!['0']);
        Some(false)
    } else {
        None
    }
}

fn parse_flags(t: &Vec<char>) -> (r: Option<(Vec<char>, bool, bool)>)
    ensures
        match (r, flags_split(t@)) {
            (None, None) => true,
            (Some((rest, w, p)), Some((mr, mw, mp))) => rest@ == mr && w == mw && p == mp,
            _ => false,
        },
{
    let Some((t1, pa)) = rsplit_once(t, ' ') else { return None };
    let Some((t2, wa)) = rsplit_once(&t1, ' ') else { return None };
    let Some(w_active) = parse_flag(&wa) else { return None };
    let Some(p_active) = parse_flag(&pa) else { return None };
    Some((t2, w_active, p_active))
}

fn parse_ids(t: &Vec<char>, w_active: bool, p_active: bool) -> (r: Option<
    (Vec<char>, Vec<char>, Vec<char>, Vec<char>, Vec<char>, bool, bool),
>)
    ensures
        match (r, ids_spec(t@, w_active, p_active)) {
            (None, None) => true,
            (Some((path, cmd, s_id, w_id, p_id, wa, pa)), Some(m)) => path@ == m.path && cmd@
                == m.cmd && s_id@ == m.s_id && w_id@ == m.w_id && p_id@ == m.p_id && wa
                == m.w_active && pa == m.p_active,
            _ => false,
        },
{
    let Some((t3, p_id)) = rsplit_once(t, ' ') else { return None };
    let Some((t4, w_id)) = rsplit_once(&t3, ' ') else { return None };
    let Some((path_cmd, s_id)) = rsplit_once(&t4, ' ') else { return None };
    let (path, cmd) = match rsplit_once(&path_cmd, ' ') {
        Some(pc) => pc,
        None => (path_cmd, Vec::new()),
    };
    Some((path, cmd, s_id, w_id, p_id, w_active, p_active))
}

fn parse_tail(t: &Vec<char>) -> (r: Option<(Vec<char>, Vec<char>, Vec<char>, Vec<char>, Vec<char>, bool, bool)>)
    ensures
        match (r, tail_spec(t@)) {
            (None, None) => true,
            (Some((path, cmd, s_id, w_id, p_id, w_active, p_active)), Some(m)) => path@ == m.path
                && cmd@ == m.cmd && s_id@ == m.s_id && w_id@ == m.w_id && p_id@ == m.p_id
                && w_active == m.w_active && p_active == m.p_active,
            _ => false,
        },
{
    match parse_flags(t) {
        Some((rest, w_active, p_active)) => parse_ids(&rest, w_active, p_active),
        None => parse_ids(t, false, false),
    }
}

/// Reads one snapshot line; a line that does not parse cleanly gives `None`.
pub fn parse_line(line: &str) -> (r: Option<PaneLine>)
    ensures
        line_opt(r) == line_spec(line@),
{
    let v = chars_of(line);
    parse_line_chars(&v)
}

fn parse_line_chars(v: &Vec<char>) -> (r: Option<PaneLine>)
    ensures
        line_opt(r) == line_spec(v@),
{
    let Some((flag, after)) = split_once(v, ' ') else { return None };
    let Some((coord, rest)) = split_once(&after, ' ') else { return None };
    let Some((s_name, win_pane)) = split_once(&coord, ':') else { return None };
    let Some((w_str, p_str)) = split_once(&win_pane, '.') else { return None };
    let Some(w_idx) = parse_usize(&w_str) else { return None };
    let Some(p_idx) = parse_usize(&p_str) else { return None };
    let Some(open) = rfind_pair(&rest, ' ', '[') else { return None };
    let Some(close) = rfind_char(&rest, ']') else { return None };
    if close < open || close - open < 2 {
        return None;
    }
    proof {
        lemma_last_of_range(rest@, ']');
    }
    let n = rest.len();
    let tail = trim(&slice(&rest, close + 1, n));
    let Some((path, cmd, s_id, w_id, p_id, w_active, p_active)) = parse_tail(&tail) else {
        return None
    };
    let word = chars_of("ATTACHED");
    proof {
        reveal_strlit("ATTACHED");
        assert(word@ =~= attached_word());
    }
    let attached = same(&flag, &word);
    let w_name = trim(&slice(&rest, 0, open));
    let p_title = slice(&rest, open + 2, close);
    Some(
        PaneLine {
            s_name: string_of(&s_name),
            attached,
            s_id: string_of(&s_id),
            w_idx,
            w_id: string_of(&w_id),
            w_name: string_of(&w_name),
            w_active,
            p_idx,
            p_id: string_of(&p_id),
            p_title: string_of(&p_title),
            path: string_of(&path),
            cmd: string_of(&cmd),
            p_active,
        },
    )
}


pub open spec fn pane_of_line(l: LineModel) -> PaneModel {
    PaneModel {
        id: l.p_id,
        session_id: l.s_id,
        window_id: l.w_id,
        index: l.p_idx,
        title: l.p_title,
        path: l.path,
        command: l.cmd,
        active: l.p_active,
    }
}

/// First session at or after `i` with this id.
pub open spec fn session_pos(t: Seq<SessionModel>, id: Seq<char>, i: int) -> Option<int>
    decreases t.len() - i,
{
    if i < 0 || i >= t.len() {
        None
    } else if t[i].id == id {
        Some(i)
    } else {
        session_pos(t, id, i + 1)
    }
}

/// First window at or after `i` with this id.
pub open spec fn window_pos(ws: Seq<WindowModel>, id: Seq<char>, i: int) -> Option<int>
    decreases ws.len() - i,
{
    if i < 0 || i >= ws.len() {
        None
    } else if ws[i].id == id {
        Some(i)
    } else {
        window_pos(ws, id, i + 1)
    }
}

pub open spec fn window_add(w: WindowModel, l: LineModel) -> WindowModel {
    WindowModel {
        id: w.id,
        index: w.index,
        name: w.name,
        active: w.active,
        panes: w.panes.push(pane_of_line(l)),
    }
}

pub open spec fn fresh_window(l: LineModel) -> WindowModel {
    WindowModel { id: l.w_id, index: l.w_idx, name: l.w_name, active: l.w_active, panes: seq![] }
}

/// The session with the line's pane added to the window of its id, which is
/// created at the end when the session has none yet.
pub open spec fn session_add(s: SessionModel, l: LineModel) -> SessionModel {
    SessionModel {
        id: s.id,
        name: s.name,
        attached: s.attached,
        windows: match window_pos(s.windows, l.w_id, 0) {
            Some(j) => s.windows.update(j, window_add(s.windows[j], l)),
            None => s.windows.push(window_add(fresh_window(l), l)),
        },
    }
}

pub open spec fn fresh_session(l: LineModel) -> SessionModel {
    SessionModel { id: l.s_id, name: l.s_name, attached: l.attached, windows: seq![] }
}

/// Find-or-create of the session, then of the window, then the pane appended.
pub open spec fn tree_add(t: Seq<SessionModel>, l: LineModel) -> Seq<SessionModel> {
    match session_pos(t, l.s_id, 0) {
        Some(i) => t.update(i, session_add(t[i], l)),
        None => t.push(session_add(fresh_session(l), l)),
    }
}

/// The tree built from lines in order; lines that do not parse are skipped.
pub open spec fn tree_of_lines(ls: Seq<Seq<char>>) -> Seq<SessionModel>
    decreases ls.len(),
{
    if ls.len() == 0 {
        seq![]
    } else {
        let t = tree_of_lines(ls.drop_last());
        match line_spec(ls.last()) {
            Some(l) => tree_add(t, l),
            None => t,
        }
    }
}

pub open spec fn snapshot_tree(text: Seq<char>) -> Seq<SessionModel> {
    tree_of_lines(lines_of(text))
}

fn pane_from(l: PaneLine) -> (r: TmuxPane)
    ensures
        r@ == pane_of_line(l@),
{
    TmuxPane {
        id: PaneId(l.p_id),
        session_id: SessionId(l.s_id),
        window_id: WindowId(l.w_id),
        index: l.p_idx,
        title: l.p_title,
        path: l.path,
        command: l.cmd,
        active: l.p_active,
    }
}

fn find_session(t: &Vec<TmuxSession>, id: &String) -> (r: Option<usize>)
    ensures
        opt_int(r) == session_pos(session_models(t@), id@, 0),
{
    let mut i: usize = 0;
    while i < t.len()
        invariant
            i <= t.len(),
            session_pos(session_models(t@), id@, 0) == session_pos(
                session_models(t@),
                id@,
                i as int,
            ),
        decreases t.len() - i,
    {
        if t[i].id.0 == *id {
            return Some(i);
        }
        i += 1;
    }
    None
}

fn find_window(ws: &Vec<TmuxWindow>, id: &String) -> (r: Option<usize>)
    ensures
        opt_int(r) == window_pos(window_models(ws@), id@, 0),
{
    let mut i: usize = 0;
    while i < ws.len()
        invariant
            i <= ws.len(),
            window_pos(window_models(ws@), id@, 0) == window_pos(
                window_models(ws@),
                id@,
                i as int,
            ),
        decreases ws.len() - i,
    {
        if ws[i].id.0 == *id {
            return Some(i);
        }
        i += 1;
    }
    None
}

proof fn lemma_window_pos_range(ws: Seq<WindowModel>, id: Seq<char>, i: int)
    requires
        0 <= i,
    ensures
        window_pos(ws, id, i) is Some ==> i <= window_pos(ws, id, i)->0 < ws.len(),
    decreases ws.len() - i,
{
    if i < ws.len() && ws[i].id != id {
        lemma_window_pos_range(ws, id, i + 1);
    }
}

proof fn lemma_session_pos_range(t: Seq<SessionModel>, id: Seq<char>, i: int)
    requires
        0 <= i,
    ensures
        session_pos(t, id, i) is Some ==> i <= session_pos(t, id, i)->0 < t.len(),
    decreases t.len() - i,
{
    if i < t.len() && t[i].id != id {
        lemma_session_pos_range(t, id, i + 1);
    }
}

fn add_to_session(s: &mut TmuxSession, l: PaneLine)
    ensures
        final(s)@ == session_add(old(s)@, l@),
{
    let ghost lm = l@;
    let ghost old_ws = window_models(s.windows@);
    proof {
        lemma_window_pos_range(old_ws, lm.w_id, 0);
    }
    match find_window(&s.windows, &l.w_id) {
        Some(j) => {
            let mut w = s.windows.remove(j);
            let ghost wm = w@;
            w.panes.push(pane_from(l));
            assert(pane_models(w.panes@) =~= wm.panes.push(pane_of_line(lm)));
            s.windows.insert(j, w);
            assert(window_models(s.windows@) =~= old_ws.update(j as int, window_add(old_ws[j as int], lm)));
        },
        None => {
            let mut w = TmuxWindow {
                id: WindowId(l.w_id.clone()),
                index: l.w_idx,
                name: l.w_name.clone(),
                active: l.w_active,
                panes: Vec::new(),
            };
            w.panes.push(pane_from(l));
            assert(pane_models(w.panes@) =~= seq![pane_of_line(lm)]);
            s.windows.push(w);
            assert(window_models(s.windows@) =~= old_ws.push(window_add(fresh_window(lm), lm)));
        },
    }
}

fn add_line(t: &mut Vec<TmuxSession>, l: PaneLine)
    ensures
        session_models(final(t)@) == tree_add(session_models(old(t)@), l@),
{
    let ghost lm = l@;
    let ghost old_t = session_models(t@);
    proof {
        lemma_session_pos_range(old_t, lm.s_id, 0);
    }
    match find_session(t, &l.s_id) {
        Some(i) => {
            let mut s = t.remove(i);
            add_to_session(&mut s, l);
            t.insert(i, s);
            assert(session_models(t@) =~= old_t.update(i as int, session_add(old_t[i as int], lm)));
        },
        None => {
            let mut s = TmuxSession {
                id: SessionId(l.s_id.clone()),
                name: l.s_name.clone(),
                attached: l.attached,
                windows: Vec::new(),
            };
            assert(window_models(s.windows@) =~= seq![]);
            add_to_session(&mut s, l);
            t.push(s);
            assert(session_models(t@) =~= old_t.push(session_add(fresh_session(lm), lm)));
        },
    }
}

/// Builds the session tree from the text of a snapshot: sessions and windows
/// in first-seen order, panes in line order; lines that do not parse are
/// skipped.
pub fn build_tree(text: &str) -> (r: TmuxSessions)
    ensures
        r@ == snapshot_tree(text@),
        tree_wf(r@),
{
    proof {
        lemma_tree_wf(lines_of(text@));
    }
    let v = chars_of(text);
    let ls = lines(&v);
    let mut t: Vec<TmuxSession> = Vec::new();
    let mut k: usize = 0;
    assert(views(ls@).subrange(0, 0) =~= Seq::<Seq<char>>::empty());
    assert(session_models(t@) =~= seq![]);
    while k < ls.len()
        invariant
            k <= ls@.len(),
            views(ls@) == lines_of(v@),
            session_models(t@) == tree_of_lines(views(ls@).subrange(0, k as int)),
        decreases ls.len() - k,
    {
        assert(views(ls@).subrange(0, k + 1).drop_last() =~= views(ls@).subrange(0, k as int));
        assert(views(ls@).subrange(0, k + 1).last() == ls@[k as int]@);
        match parse_line_chars(&ls[k]) {
            Some(l) => add_line(&mut t, l),
            None => {},
        }
        k += 1;
    }
    assert(views(ls@).subrange(0, ls@.len() as int) =~= views(ls@));
    TmuxSessions(t)
}


/// The snapshot command's failure message says that no tmux server runs.
pub open spec fn no_server(m: Seq<char>) -> bool {
    contains(m, "no server running"@) || contains(m, "failed to connect to server"@)
}

pub fn is_no_server(message: &str) -> (r: bool)
    ensures
        r == no_server(message@),
{
    let m = chars_of(message);
    contains_seq(&m, &chars_of("no server running")) || contains_seq(
        &m,
        &chars_of("failed to connect to server"),
    )
}

/// The session tree from the outcome of the snapshot command: its output, or
/// its failure message. No running server gives an empty tree; any other
/// failure is passed on.
pub fn list_sessions(outcome: Result<String, String>) -> (r: Result<TmuxSessions, Error>)
    ensures
        match outcome {
            Ok(text) => r is Ok && r->Ok_0@ == snapshot_tree(text@) && tree_wf(r->Ok_0@),
            Err(msg) => if no_server(msg@) {
                r is Ok && r->Ok_0@.len() == 0
            } else {
                r == Err::<TmuxSessions, Error>(Error::CommandFailed { message: msg })
            },
        },
{
    match outcome {
        Ok(text) => Ok(build_tree(text.as_str())),
        Err(msg) => {
            if is_no_server(msg.as_str()) {
                let t = TmuxSessions(Vec::new());
                assert(t@ =~= seq![]);
                Ok(t)
            } else {
                Err(Error::CommandFailed { message: msg })
            }
        },
    }
}

/// The line's pane sits in `folder` and bears the title `name`, for each
/// filter that is given.
pub open spec fn keeps(l: LineModel, folder: Option<Seq<char>>, name: Option<Seq<char>>) -> bool {
    (match folder {
        Some(f) => l.path == f,
        None => true,
    }) && (match name {
        Some(n) => l.p_title == n,
        None => true,
    })
}

/// The panes of the lines that parse and pass the filters, in line order.
pub open spec fn panes_of_lines(
    ls: Seq<Seq<char>>,
    folder: Option<Seq<char>>,
    name: Option<Seq<char>>,
) -> Seq<PaneModel>
    decreases ls.len(),
{
    if ls.len() == 0 {
        seq![]
    } else {
        let p = panes_of_lines(ls.drop_last(), folder, name);
        match line_spec(ls.last()) {
            Some(l) => if keeps(l, folder, name) {
                p.push(pane_of_line(l))
            } else {
                p
            },
            None => p,
        }
    }
}

fn path_matches(l: &PaneLine, folder: Option<&str>, pane_name: Option<&str>) -> (r: bool)
    ensures
        r == keeps(l@, opt_view(folder), opt_view(pane_name)),
{
    let f = match folder {
        Some(f) => same(&chars_of(l.path.as_str()), &chars_of(f)),
        None => true,
    };
    let n = match pane_name {
        Some(n) => same(&chars_of(l.p_title.as_str()), &chars_of(n)),
        None => true,
    };
    f && n
}

/// The panes of a snapshot, flat and in line order, that sit in `folder` and
/// bear the title `pane_name` (each filter only where given). No running
/// server gives no panes; any other failure is passed on.
pub fn list_panes(outcome: Result<String, String>, folder: Option<&str>, pane_name: Option<&str>) -> (r:
    Result<Vec<TmuxPane>, Error>)
    ensures
        match outcome {
            Ok(text) => r is Ok && pane_models(r->Ok_0@) == panes_of_lines(
                lines_of(text@),
                opt_view(folder),
                opt_view(pane_name),
            ),
            Err(msg) => if no_server(msg@) {
                r is Ok && r->Ok_0@.len() == 0
            } else {
                r == Err::<Vec<TmuxPane>, Error>(Error::CommandFailed { message: msg })
            },
        },
{
    let text = match outcome {
        Ok(text) => text,
        Err(msg) => {
            if is_no_server(msg.as_str()) {
                return Ok(Vec::new());
            } else {
                return Err(Error::CommandFailed { message: msg });
            }
        },
    };
    let v = chars_of(text.as_str());
    let ls = lines(&v);
    let mut panes: Vec<TmuxPane> = Vec::new();
    let mut k: usize = 0;
    let ghost fo = opt_view(folder);
    let ghost na = opt_view(pane_name);
    assert(views(ls@).subrange(0, 0) =~= Seq::<Seq<char>>::empty());
    assert(pane_models(panes@) =~= seq![]);
    while k < ls.len()
        invariant
            k <= ls@.len(),
            views(ls@) == lines_of(v@),
            fo == opt_view(folder),
            na == opt_view(pane_name),
            pane_models(panes@) == panes_of_lines(views(ls@).subrange(0, k as int), fo, na),
        decreases ls.len() - k,
    {
        assert(views(ls@).subrange(0, k + 1).drop_last() =~= views(ls@).subrange(0, k as int));
        assert(views(ls@).subrange(0, k + 1).last() == ls@[k as int]@);
        let ghost before = pane_models(panes@);
        match parse_line_chars(&ls[k]) {
            Some(l) => {
                if path_matches(&l, folder, pane_name) {
                    let ghost lm = l@;
                    panes.push(pane_from(l));
                    assert(pane_models(panes@) =~= before.push(pane_of_line(lm)));
                }
            },
            None => {},
        }
        k += 1;
    }
    assert(views(ls@).subrange(0, ls@.len() as int) =~= views(ls@));
    Ok(panes)
}


/// Every pane of the window belongs to session `sid` and to the window.
pub open spec fn window_wf(w: WindowModel, sid: Seq<char>) -> bool {
    &&& w.panes.len() > 0
    &&& forall|k: int|
        0 <= k < w.panes.len() ==> (#[trigger] w.panes[k]).session_id == sid && w.panes[k].window_id
            == w.id
}

pub open spec fn windows_ok(s: SessionModel) -> bool {
    &&& forall|a: int, b: int|
        0 <= a < b < s.windows.len() ==> (#[trigger] s.windows[a]).id != (#[trigger] s.windows[b]).id
    &&& forall|j: int| 0 <= j < s.windows.len() ==> window_wf(#[trigger] s.windows[j], s.id)
}

/// A well-formed tree: session ids unique, window ids unique in their
/// session, every pane carrying the ids of its session and window, and no
/// session or window left empty.
pub open spec fn tree_wf(t: Seq<SessionModel>) -> bool {
    &&& forall|a: int, b: int| 0 <= a < b < t.len() ==> (#[trigger] t[a]).id != (#[trigger] t[b]).id
    &&& forall|i: int| 0 <= i < t.len() ==> windows_ok(#[trigger] t[i]) && t[i].windows.len() > 0
}

proof fn lemma_window_pos_found(ws: Seq<WindowModel>, id: Seq<char>, i: int)
    requires
        0 <= i,
    ensures
        match window_pos(ws, id, i) {
            Some(j) => i <= j < ws.len() && ws[j].id == id,
            None => forall|j: int| i <= j < ws.len() ==> (#[trigger] ws[j]).id != id,
        },
    decreases ws.len() - i,
{
    if i < ws.len() && ws[i].id != id {
        lemma_window_pos_found(ws, id, i + 1);
    }
}

proof fn lemma_session_pos_found(t: Seq<SessionModel>, id: Seq<char>, i: int)
    requires
        0 <= i,
    ensures
        match session_pos(t, id, i) {
            Some(j) => i <= j < t.len() && t[j].id == id,
            None => forall|j: int| i <= j < t.len() ==> (#[trigger] t[j]).id != id,
        },
    decreases t.len() - i,
{
    if i < t.len() && t[i].id != id {
        lemma_session_pos_found(t, id, i + 1);
    }
}

proof fn lemma_session_add_wf(s: SessionModel, l: LineModel)
    requires
        windows_ok(s),
        l.s_id == s.id,
    ensures
        windows_ok(session_add(s, l)),
        session_add(s, l).windows.len() > 0,
        session_add(s, l).id == s.id,
{
    lemma_window_pos_found(s.windows, l.w_id, 0);
    let r = session_add(s, l);
    match window_pos(s.windows, l.w_id, 0) {
        Some(j) => {
            let w = window_add(s.windows[j], l);
            assert(window_wf(w, s.id)) by {
                assert forall|k: int| 0 <= k < w.panes.len() implies (#[trigger] w.panes[k]).session_id
                    == s.id && w.panes[k].window_id == w.id by {
                    if k < s.windows[j].panes.len() {
                        assert(w.panes[k] == s.windows[j].panes[k]);
                    }
                }
            }
            assert forall|x: int| 0 <= x < r.windows.len() implies window_wf(
                #[trigger] r.windows[x],
                r.id,
            ) by {
                if x != j {
                    assert(r.windows[x] == s.windows[x]);
                }
            }
        },
        None => {
            let w = window_add(fresh_window(l), l);
            assert(w.panes =~= seq![pane_of_line(l)]);
            assert(window_wf(w, s.id));
            assert forall|x: int| 0 <= x < r.windows.len() implies window_wf(
                #[trigger] r.windows[x],
                r.id,
            ) by {
                if x < s.windows.len() {
                    assert(r.windows[x] == s.windows[x]);
                }
            }
        },
    }
}

proof fn lemma_tree_add_wf(t: Seq<SessionModel>, l: LineModel)
    requires
        tree_wf(t),
    ensures
        tree_wf(tree_add(t, l)),
{
    lemma_session_pos_found(t, l.s_id, 0);
    let r = tree_add(t, l);
    match session_pos(t, l.s_id, 0) {
        Some(i) => {
            lemma_session_add_wf(t[i], l);
            assert forall|x: int| 0 <= x < r.len() implies windows_ok(#[trigger] r[x]) && r[x].windows.len()
                > 0 by {
                if x != i {
                    assert(r[x] == t[x]);
                }
            }
        },
        None => {
            assert(windows_ok(fresh_session(l)));
            lemma_session_add_wf(fresh_session(l), l);
            assert forall|x: int| 0 <= x < r.len() implies windows_ok(#[trigger] r[x]) && r[x].windows.len()
                > 0 by {
                if x < t.len() {
                    assert(r[x] == t[x]);
                }
            }
        },
    }
}

/// The tree built from any lines is well formed.
pub proof fn lemma_tree_wf(ls: Seq<Seq<char>>)
    ensures
        tree_wf(tree_of_lines(ls)),
    decreases ls.len(),
{
    if ls.len() > 0 {
        lemma_tree_wf(ls.drop_last());
        match line_spec(ls.last()) {
            Some(l) => lemma_tree_add_wf(tree_of_lines(ls.drop_last()), l),
            None => {},
        }
    }
}

proof fn lemma_tree_add_keeps(t: Seq<SessionModel>, l: LineModel, p: PaneModel)
    requires
        in_tree(t, p),
    ensures
        in_tree(tree_add(t, l), p),
{
    let (i, j, k) = choose|i: int, j: int, k: int| valid_pane(t, i, j, k) && #[trigger] pane_at(t, i, j, k) == p;
    let r = tree_add(t, l);
    lemma_session_pos_found(t, l.s_id, 0);
    match session_pos(t, l.s_id, 0) {
        Some(si) => {
            if si == i {
                let s = t[i];
                lemma_window_pos_found(s.windows, l.w_id, 0);
                match window_pos(s.windows, l.w_id, 0) {
                    Some(wj) => {
                        if wj == j {
                            assert(r[i].windows[j].panes[k] == p);
                        } else {
                            assert(r[i].windows[j] == s.windows[j]);
                        }
                    },
                    None => {
                        assert(r[i].windows[j] == s.windows[j]);
                    },
                }
            } else {
                assert(r[i] == t[i]);
            }
        },
        None => {
            assert(r[i] == t[i]);
        },
    }
    assert(valid_pane(r, i, j, k) && pane_at(r, i, j, k) == p);
}

proof fn lemma_tree_add_adds(t: Seq<SessionModel>, l: LineModel)
    ensures
        in_tree(tree_add(t, l), pane_of_line(l)),
{
    let r = tree_add(t, l);
    let p = pane_of_line(l);
    lemma_session_pos_found(t, l.s_id, 0);
    let si = match session_pos(t, l.s_id, 0) {
        Some(si) => si,
        None => t.len() as int,
    };
    let s = if si < t.len() {
        t[si]
    } else {
        fresh_session(l)
    };
    assert(r[si] == session_add(s, l));
    lemma_window_pos_found(s.windows, l.w_id, 0);
    let wj = match window_pos(s.windows, l.w_id, 0) {
        Some(wj) => wj,
        None => s.windows.len() as int,
    };
    let kk = if wj < s.windows.len() {
        s.windows[wj].panes.len() as int
    } else {
        0
    };
    assert(valid_pane(r, si, wj, kk) && pane_at(r, si, wj, kk) == p);
}

/// Every line of a snapshot that parses has its pane in the tree, whatever
/// the other lines hold.
pub proof fn lemma_well_formed_lines_kept(ls: Seq<Seq<char>>, m: int)
    requires
        0 <= m < ls.len(),
        line_spec(ls[m]) is Some,
    ensures
        in_tree(tree_of_lines(ls), pane_of_line(line_spec(ls[m])->0)),
    decreases ls.len(),
{
    let t = tree_of_lines(ls.drop_last());
    if m == ls.len() - 1 {
        lemma_tree_add_adds(t, line_spec(ls[m])->0);
    } else {
        assert(ls.drop_last()[m] == ls[m]);
        lemma_well_formed_lines_kept(ls.drop_last(), m);
        match line_spec(ls.last()) {
            Some(l) => lemma_tree_add_keeps(t, l, pane_of_line(line_spec(ls[m])->0)),
            None => {},
        }
    }
}

/// The number of panes over the windows.
pub open spec fn windows_panes(ws: Seq<WindowModel>) -> nat
    decreases ws.len(),
{
    if ws.len() == 0 {
        0
    } else {
        windows_panes(ws.drop_last()) + ws.last().panes.len()
    }
}

/// The number of panes in the tree.
pub open spec fn pane_count(t: Seq<SessionModel>) -> nat
    decreases t.len(),
{
    if t.len() == 0 {
        0
    } else {
        pane_count(t.drop_last()) + windows_panes(t.last().windows)
    }
}

/// The number of lines that parse.
pub open spec fn good_lines(ls: Seq<Seq<char>>) -> nat
    decreases ls.len(),
{
    if ls.len() == 0 {
        0
    } else {
        good_lines(ls.drop_last()) + if line_spec(ls.last()) is Some {
            1nat
        } else {
            0nat
        }
    }
}

proof fn lemma_windows_panes_update(ws: Seq<WindowModel>, j: int, w: WindowModel)
    requires
        0 <= j < ws.len(),
    ensures
        windows_panes(ws.update(j, w)) + ws[j].panes.len() == windows_panes(ws) + w.panes.len(),
    decreases ws.len(),
{
    let u = ws.update(j, w);
    if j == ws.len() - 1 {
        assert(u.drop_last() =~= ws.drop_last());
    } else {
        assert(u.drop_last() =~= ws.drop_last().update(j, w));
        lemma_windows_panes_update(ws.drop_last(), j, w);
    }
}

proof fn lemma_pane_count_update(t: Seq<SessionModel>, i: int, s: SessionModel)
    requires
        0 <= i < t.len(),
    ensures
        pane_count(t.update(i, s)) + windows_panes(t[i].windows) == pane_count(t) + windows_panes(
            s.windows,
        ),
    decreases t.len(),
{
    let u = t.update(i, s);
    if i == t.len() - 1 {
        assert(u.drop_last() =~= t.drop_last());
    } else {
        assert(u.drop_last() =~= t.drop_last().update(i, s));
        lemma_pane_count_update(t.drop_last(), i, s);
    }
}

proof fn lemma_session_add_count(s: SessionModel, l: LineModel)
    ensures
        windows_panes(session_add(s, l).windows) == windows_panes(s.windows) + 1,
{
    lemma_window_pos_found(s.windows, l.w_id, 0);
    match window_pos(s.windows, l.w_id, 0) {
        Some(j) => {
            lemma_windows_panes_update(s.windows, j, window_add(s.windows[j], l));
        },
        None => {
            let ws = s.windows.push(window_add(fresh_window(l), l));
            assert(ws.drop_last() =~= s.windows);
        },
    }
}

proof fn lemma_tree_add_count(t: Seq<SessionModel>, l: LineModel)
    ensures
        pane_count(tree_add(t, l)) == pane_count(t) + 1,
{
    lemma_session_pos_found(t, l.s_id, 0);
    match session_pos(t, l.s_id, 0) {
        Some(i) => {
            lemma_session_add_count(t[i], l);
            lemma_pane_count_update(t, i, session_add(t[i], l));
        },
        None => {
            let f = fresh_session(l);
            lemma_session_add_count(f, l);
            assert(windows_panes(f.windows) == 0);
            let r = t.push(session_add(f, l));
            assert(r.drop_last() =~= t);
        },
    }
}

/// The tree holds exactly one pane per line that parses: lines that do not
/// parse are the only ones skipped.
pub proof fn lemma_pane_count(ls: Seq<Seq<char>>)
    ensures
        pane_count(tree_of_lines(ls)) == good_lines(ls),
    decreases ls.len(),
{
    if ls.len() > 0 {
        lemma_pane_count(ls.drop_last());
        match line_spec(ls.last()) {
            Some(l) => lemma_tree_add_count(tree_of_lines(ls.drop_last()), l),
            None => {},
        }
    }
}

/// A line that does not parse leaves the tree as it is, wherever it stands
/// among the other lines: every well-formed line's pane is still there.
pub proof fn lemma_bad_line_skipped(ls: Seq<Seq<char>>, j: int, bad: Seq<char>)
    requires
        0 <= j <= ls.len(),
        line_spec(bad) is None,
    ensures
        tree_of_lines(ls.insert(j, bad)) == tree_of_lines(ls),
    decreases ls.len(),
{
    let with = ls.insert(j, bad);
    if j == ls.len() {
        assert(with.drop_last() =~= ls);
    } else {
        assert(with.drop_last() =~= ls.drop_last().insert(j, bad));
        assert(with.last() == ls.last());
        lemma_bad_line_skipped(ls.drop_last(), j, bad);
    }
}

} // verus!
