use jc_zed_tasks::error::Error;
use jc_zed_tasks::tmux::list::{build_tree, list_panes, list_sessions, parse_line};
use jc_zed_tasks::tmux::resolve::{find_first_pane, resolve_pane};

const SNAPSHOT: &str = "\
ATTACHED main:1.0 editor [aip] /home/u/proj aip $1 @1 %1 1 1
ATTACHED main:1.1 editor [shell] /home/u/proj zsh $1 @1 %2 1 0
ATTACHED main:2.0 logs [tail] /var/log tail $1 @2 %3 0 1
DETACHED side:0.0 work [aip] /home/u/other aip $2 @3 %4 1 1
";

#[test]
fn parses_a_full_line() {
    let l = parse_line("ATTACHED main:1.0 my editor [a[b] title] /home/u/my proj aip $1 @1 %1 1 0").unwrap();
    assert!(l.attached);
    assert_eq!(l.s_name, "main");
    assert_eq!(l.w_idx, 1);
    assert_eq!(l.p_idx, 0);
    assert_eq!(l.w_name, "my editor");
    assert_eq!(l.p_title, "a[b] title");
    assert_eq!(l.path, "/home/u/my proj");
    assert_eq!(l.cmd, "aip");
    assert_eq!(l.s_id, "$1");
    assert_eq!(l.w_id, "@1");
    assert_eq!(l.p_id, "%1");
    assert!(l.w_active);
    assert!(!l.p_active);
}

#[test]
fn detached_and_malformed_lines() {
    let l = parse_line("DETACHED s:0.0 w [t] /p c $1 @1 %1 0 0").unwrap();
    assert!(!l.attached);
    assert!(parse_line("ATTACHED main:1.0 editor [aip] /home/u/proj").is_none());
    assert!(parse_line("ATTACHED main:x.0 editor [aip] /p aip $1 @1 %1 1 1").is_none());
    assert!(parse_line("ATTACHED main1.0 editor [aip] /p aip $1 @1 %1 1 1").is_none());
    assert!(parse_line("ATTACHED main:1.0 editor [aip] /p aip").is_none());
    assert!(parse_line("").is_none());
}

#[test]
fn parses_a_line_without_activity_flags() {
    let l = parse_line("ATTACHED main:1.0 my [win] [title] /Users/me/my dir zsh $1 @2 %3").unwrap();
    assert!(l.attached);
    assert_eq!(l.s_name, "main");
    assert_eq!(l.w_idx, 1);
    assert_eq!(l.p_idx, 0);
    assert_eq!(l.w_name, "my [win]");
    assert_eq!(l.p_title, "title");
    assert_eq!(l.path, "/Users/me/my dir");
    assert_eq!(l.cmd, "zsh");
    assert_eq!(l.s_id, "$1");
    assert_eq!(l.w_id, "@2");
    assert_eq!(l.p_id, "%3");
    assert!(!l.w_active);
    assert!(!l.p_active);
}

#[test]
fn snapshot_without_flags_builds_tree() {
    let text = "ATTACHED main:1.0 editor [aip] /home/u/proj aip $1 @1 %1\nDETACHED side:0.0 w [t] /tmp zsh $2 @2 %2\n";
    let t = list_sessions(Ok(text.to_string())).unwrap();
    assert_eq!(t.0.len(), 2);
    assert_eq!(t.0[1].windows[0].panes[0].id.as_str(), "%2");
    let p = resolve_pane(&t, Some("/home/u/proj"), Some("aip")).unwrap();
    assert_eq!(p.id.as_str(), "%1");
}

#[test]
fn tree_groups_by_session_and_window() {
    let t = build_tree(SNAPSHOT);
    assert_eq!(t.0.len(), 2);
    assert_eq!(t.0[0].id.as_str(), "$1");
    assert!(t.0[0].attached);
    assert_eq!(t.0[0].windows.len(), 2);
    assert_eq!(t.0[0].windows[0].panes.len(), 2);
    assert_eq!(t.0[0].windows[0].panes[1].id.as_str(), "%2");
    assert_eq!(t.0[0].windows[1].name, "logs");
    assert_eq!(t.0[1].name, "side");
    assert!(!t.0[1].attached);
}

#[test]
fn truncated_line_is_skipped() {
    let text = "\
ATTACHED main:1.0 editor [aip] /home/u/proj aip $1 @1 %1 1 1
ATTACHED main:1.1 editor [shell] /home/u/pr
ATTACHED main:1.2 editor [other] /home/u/proj zsh $1 @1 %3 1 0";
    let t = build_tree(text);
    assert_eq!(t.0.len(), 1);
    let panes = &t.0[0].windows[0].panes;
    assert_eq!(panes.len(), 2);
    assert_eq!(panes[0].id.as_str(), "%1");
    assert_eq!(panes[1].id.as_str(), "%3");
}

#[test]
fn no_server_gives_empty_tree() {
    let t = list_sessions(Err("no server running on /tmp/tmux-501/default\n".to_string())).unwrap();
    assert!(t.is_empty());
    let t = list_sessions(Err("error connecting to /tmp/x (failed to connect to server)".to_string())).unwrap();
    assert!(t.is_empty());
}

#[test]
fn other_failure_is_passed_on() {
    match list_sessions(Err("unknown option".to_string())) {
        Err(Error::CommandFailed { message }) => assert_eq!(message, "unknown option"),
        other => panic!("unexpected: {other:?}"),
    }
}

#[test]
fn list_sessions_parses_output() {
    let t = list_sessions(Ok(SNAPSHOT.to_string())).unwrap();
    assert!(!t.is_empty());
    assert_eq!(t.0.len(), 2);
}

#[test]
fn list_panes_filters() {
    let all = list_panes(Ok(SNAPSHOT.to_string()), None, None).unwrap();
    assert_eq!(all.len(), 4);
    let in_proj = list_panes(Ok(SNAPSHOT.to_string()), Some("/home/u/proj"), None).unwrap();
    assert_eq!(in_proj.len(), 2);
    let aip = list_panes(Ok(SNAPSHOT.to_string()), None, Some("aip")).unwrap();
    assert_eq!(aip.len(), 2);
    assert_eq!(aip[1].id.as_str(), "%4");
    let both = list_panes(Ok(SNAPSHOT.to_string()), Some("/home/u/other"), Some("aip")).unwrap();
    assert_eq!(both.len(), 1);
    assert!(list_panes(Err("no server running".to_string()), None, None).unwrap().is_empty());
}

#[test]
fn resolve_prefers_active_pane() {
    let text = "\
ATTACHED main:1.0 editor [one] /home/u/proj aip $1 @1 %1 1 0
ATTACHED main:1.1 editor [two] /home/u/proj aip $1 @1 %2 1 1";
    let t = build_tree(text);
    let p = resolve_pane(&t, Some("/home/u/proj"), None).unwrap();
    assert_eq!(p.id.as_str(), "%2");
}

#[test]
fn resolve_falls_back_to_driver_pane() {
    let t = build_tree(SNAPSHOT);
    let p = resolve_pane(&t, Some("/home/u/proj"), None).unwrap();
    assert_eq!(p.id.as_str(), "%1");
}

#[test]
fn resolve_broadens_to_all_sessions() {
    let t = build_tree(SNAPSHOT);
    let p = resolve_pane(&t, Some("/home/u/other"), None).unwrap();
    assert_eq!(p.id.as_str(), "%4");
}

#[test]
fn resolve_by_title() {
    let t = build_tree(SNAPSHOT);
    let p = resolve_pane(&t, None, Some("aip")).unwrap();
    assert_eq!(p.id.as_str(), "%1");
    let p = resolve_pane(&t, Some("/home/u/other"), Some("aip")).unwrap();
    assert_eq!(p.id.as_str(), "%4");
    assert_eq!(find_first_pane(&t, None, "tail").unwrap().id.as_str(), "%3");
    assert!(find_first_pane(&t, None, "nothing").is_none());
}

#[test]
fn resolve_failures() {
    let t = build_tree(SNAPSHOT);
    match resolve_pane(&t, Some("/nowhere"), None) {
        Err(Error::PaneNotFound { dir, title }) => {
            assert_eq!(dir.as_deref(), Some("/nowhere"));
            assert_eq!(title, None);
        }
        other => panic!("unexpected: {other:?}"),
    }
    match resolve_pane(&t, Some("/var/log"), None) {
        Err(Error::DriverPaneNotFound { directory }) => assert_eq!(directory, "/var/log"),
        other => panic!("unexpected: {other:?}"),
    }
    match resolve_pane(&t, Some("/home/u/proj"), Some("nope")) {
        Err(Error::PaneNotFound { dir, title }) => {
            assert_eq!(dir.as_deref(), Some("/home/u/proj"));
            assert_eq!(title.as_deref(), Some("nope"));
        }
        other => panic!("unexpected: {other:?}"),
    }
    assert!(matches!(resolve_pane(&t, None, None), Err(Error::PaneNotFound { .. })));
}
