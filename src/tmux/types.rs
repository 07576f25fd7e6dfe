//! Identifiers and records of one tmux snapshot.

use vstd::prelude::*;
use vstd::string::*;

verus! {

/// A tmux session identifier (`$1`), compared by content.
#[derive(Debug, Clone, PartialEq, Eq, Hash)]
pub struct SessionId(pub String);

/// A tmux window identifier (`@2`), compared by content.
#[derive(Debug, Clone, PartialEq, Eq, Hash)]
pub struct WindowId(pub String);

/// A tmux pane identifier (`%3`), compared by content.
#[derive(Debug, Clone, PartialEq, Eq, Hash)]
pub struct PaneId(pub String);

impl View for SessionId {
    type V = Seq<char>;

    open spec fn view(&self) -> Seq<char> {
        self.0@
    }
}

impl View for WindowId {
    type V = Seq<char>;

    open spec fn view(&self) -> Seq<char> {
        self.0@
    }
}

impl View for PaneId {
    type V = Seq<char>;

    open spec fn view(&self) -> Seq<char> {
        self.0@
    }
}

impl SessionId {
    pub fn new(s: &str) -> (r: SessionId)
        ensures
            r@ == s@,
    {
        SessionId(String::from_str(s))
    }

    pub fn as_str(&self) -> (r: &str)
        ensures
            r@ == self@,
    {
        self.0.as_str()
    }
}

impl WindowId {
    pub fn new(s: &str) -> (r: WindowId)
        ensures
            r@ == s@,
    {
        WindowId(String::from_str(s))
    }

    pub fn as_str(&self) -> (r: &str)
        ensures
            r@ == self@,
    {
        self.0.as_str()
    }
}

impl PaneId {
    pub fn new(s: &str) -> (r: PaneId)
        ensures
            r@ == s@,
    {
        PaneId(String::from_str(s))
    }

    pub fn as_str(&self) -> (r: &str)
        ensures
            r@ == self@,
    {
        self.0.as_str()
    }
}

/// One pane: where it sits, what it shows and what runs in it.
#[derive(Debug, Clone)]
pub struct TmuxPane {
    pub id: PaneId,
    pub session_id: SessionId,
    pub window_id: WindowId,
    pub index: usize,
    pub title: String,
    pub path: String,
    pub command: String,
    pub active: bool,
}

/// One window and its panes, in listing order.
#[derive(Debug, Clone)]
pub struct TmuxWindow {
    pub id: WindowId,
    pub index: usize,
    pub name: String,
    pub active: bool,
    pub panes: Vec<TmuxPane>,
}

/// One session and its windows, in first-seen order.
#[derive(Debug, Clone)]
pub struct TmuxSession {
    pub id: SessionId,
    pub name: String,
    pub attached: bool,
    pub windows: Vec<TmuxWindow>,
}

/// A whole snapshot: the sessions in first-seen order.
#[derive(Debug, Clone)]
pub struct TmuxSessions(pub Vec<TmuxSession>);

pub struct PaneModel {
    pub id: Seq<char>,
    pub session_id: Seq<char>,
    pub window_id: Seq<char>,
    pub index: usize,
    pub title: Seq<char>,
    pub path: Seq<char>,
    pub command: Seq<char>,
    pub active: bool,
}

pub struct WindowModel {
    pub id: Seq<char>,
    pub index: usize,
    pub name: Seq<char>,
    pub active: bool,
    pub panes: Seq<PaneModel>,
}

pub struct SessionModel {
    pub id: Seq<char>,
    pub name: Seq<char>,
    pub attached: bool,
    pub windows: Seq<WindowModel>,
}

impl View for TmuxPane {
    type V = PaneModel;

    open spec fn view(&self) -> PaneModel {
        PaneModel {
            id: self.id@,
            session_id: self.session_id@,
            window_id: self.window_id@,
            index: self.index,
            title: self.title@,
            path: self.path@,
            command: self.command@,
            active: self.active,
        }
    }
}

pub open spec fn pane_models(v: Seq<TmuxPane>) -> Seq<PaneModel> {
    v.map_values(|p: TmuxPane| p@)
}

impl View for TmuxWindow {
    type V = WindowModel;

    open spec fn view(&self) -> WindowModel {
        WindowModel {
            id: self.id@,
            index: self.index,
            name: self.name@,
            active: self.active,
            panes: pane_models(self.panes@),
        }
    }
}

pub open spec fn window_models(v: Seq<TmuxWindow>) -> Seq<WindowModel> {
    v.map_values(|w: TmuxWindow| w@)
}

impl View for TmuxSession {
    type V = SessionModel;

    open spec fn view(&self) -> SessionModel {
        SessionModel {
            id: self.id@,
            name: self.name@,
            attached: self.attached,
            windows: window_models(self.windows@),
        }
    }
}

pub open spec fn session_models(v: Seq<TmuxSession>) -> Seq<SessionModel> {
    v.map_values(|s: TmuxSession| s@)
}

impl View for TmuxSessions {
    type V = Seq<SessionModel>;

    open spec fn view(&self) -> Seq<SessionModel> {
        session_models(self.0@)
    }
}

/// `(i, j, k)` addresses a pane: session `i`, its window `j`, its pane `k`.
pub open spec fn valid_pane(t: Seq<SessionModel>, i: int, j: int, k: int) -> bool {
    0 <= i < t.len() && 0 <= j < t[i].windows.len() && 0 <= k < t[i].windows[j].panes.len()
}

pub open spec fn pane_at(t: Seq<SessionModel>, i: int, j: int, k: int) -> PaneModel {
    t[i].windows[j].panes[k]
}

/// The pane `p` stands somewhere in the tree.
pub open spec fn in_tree(t: Seq<SessionModel>, p: PaneModel) -> bool {
    exists|i: int, j: int, k: int| valid_pane(t, i, j, k) && #[trigger] pane_at(t, i, j, k) == p
}

impl TmuxPane {
    /// A copy of this pane, field by field.
    pub fn copied(&self) -> (r: TmuxPane)
        ensures
            r@ == self@,
    {
        TmuxPane {
            id: PaneId(self.id.0.clone()),
            session_id: SessionId(self.session_id.0.clone()),
            window_id: WindowId(self.window_id.0.clone()),
            index: self.index,
            title: self.title.clone(),
            path: self.path.clone(),
            command: self.command.clone(),
            active: self.active,
        }
    }
}

impl TmuxSessions {
    pub fn is_empty(&self) -> (r: bool)
        ensures
            r == (self@.len() == 0),
    {
        self.0.len() == 0
    }
}

} // verus!
