use jc_zed_tasks::cli::{auto_position, terminal_args, AutoPos};
use jc_zed_tasks::mac::WindowBounds;
use jc_zed_tasks::tmux::ops::send_keys;
use jc_zed_tasks::tmux::types::PaneId;

#[test]
fn terminal_below_editor_is_centred() {
    let zed = WindowBounds { x: 100, y: 50, width: 1200, height: 800 };
    let term = WindowBounds { x: 0, y: 0, width: 801, height: 300 };
    assert_eq!(auto_position(zed, term, AutoPos::Below), Some((299, 854)));
    assert_eq!(auto_position(zed, term, AutoPos::Bottom), Some((299, 550)));
}

#[test]
fn wider_terminal_rounds_toward_zero() {
    let zed = WindowBounds { x: 0, y: 0, width: 100, height: 100 };
    let term = WindowBounds { x: 0, y: 0, width: 105, height: 10 };
    assert_eq!(auto_position(zed, term, AutoPos::Below), Some((-2, 104)));
}

#[test]
fn position_out_of_range_is_none() {
    let zed = WindowBounds { x: 0, y: i32::MAX, width: 100, height: 100 };
    let term = WindowBounds { x: 0, y: 0, width: 10, height: 10 };
    assert_eq!(auto_position(zed, term, AutoPos::Below), None);
}

#[test]
fn terminal_args_for_running_instance_with_tmux() {
    let args = terminal_args("/tmp/p", true, true);
    assert_eq!(
        args,
        vec!["msg", "create-window", "--working-directory", "/tmp/p", "-e", "tmux", "new-session"]
    );
    let args = terminal_args("/tmp/p", false, false);
    assert_eq!(args, vec!["--working-directory", "/tmp/p"]);
}

#[test]
fn send_keys_targets_pane() {
    let args = send_keys(&PaneId::new("%7"), "r");
    assert_eq!(args, vec!["send-keys", "-t", "%7", "r"]);
}
