use jc_zed_tasks::error::Error;
use jc_zed_tasks::mac::{
    far_corner, get_all_app_names, get_app_windows, get_front_window,
    get_front_window_bounds, parse_bounds, set_front_window_bounds, WindowBounds, APP_NAME_ZED,
};

const ZED_WINDOWS: &str = "main.rs — jc-zed-tasks, notes.md — notes";
const ZED_BOUNDS: &str = "100, 50, 1300, 850";

#[test]
fn test_support_mac_common_get_front_window_zed() {
    // -- Exec
    let res = get_front_window(APP_NAME_ZED, ZED_WINDOWS);

    // -- Check
    match res {
        Some(window) => {
            println!("Zed front window: {window:?}");
        }
        None => {
            println!("No Zed window found.");
        }
    }
}

#[test]
fn test_support_mac_common_get_app_windows_zed() {
    // -- Exec
    let windows = get_app_windows(APP_NAME_ZED, ZED_WINDOWS);

    // -- Check
    println!("Zed windows: {windows:?}");
}

#[test]
fn test_support_mac_common_get_all_app_names_simple() {
    // -- Exec
    let names = get_all_app_names("Finder, Zed, Alacritty");

    // -- Nice Print
    let names = names.join("\n");
    println!("Running application names: \n{names}");

    // -- Check
    assert!(!names.is_empty(), "Should have at least some apps running");
}

#[test]
fn test_support_mac_common_get_front_window_bounds_zed() {
    // -- Exec
    let res = get_front_window_bounds(APP_NAME_ZED, ZED_WINDOWS, ZED_BOUNDS);

    // -- Check
    match res {
        Ok(bounds) => {
            println!("Zed front window bounds: {bounds:?}");
        }
        Err(err) => match err {
            Error::WindowNotFound { .. } | Error::UnexpectedBounds { .. } => {
                println!("Skipping check because Zed is not accessible or has no windows: {err:?}");
            }
            other => panic!("unexpected failure: {other:?}"),
        },
    }
}

#[test]
fn front_window_is_first_trimmed_name() {
    let w = get_front_window("Zed", ZED_WINDOWS).unwrap();
    assert_eq!(w.app, "Zed");
    assert_eq!(w.win_idx, 1);
    assert_eq!(w.win_name, "main.rs — jc-zed-tasks");
    assert!(get_front_window("Zed", "").is_none());
}

#[test]
fn app_windows_are_numbered_from_one() {
    let ws = get_app_windows("Zed", ZED_WINDOWS);
    assert_eq!(ws.len(), 2);
    assert_eq!(ws[0].win_idx, 1);
    assert_eq!(ws[1].win_idx, 2);
    assert_eq!(ws[1].win_name, "notes.md — notes");
    assert!(get_app_windows("Zed", "").is_empty());
}

#[test]
fn app_names_are_trimmed() {
    let names = get_all_app_names("Finder,  Zed ,Alacritty");
    assert_eq!(names, vec!["Finder".to_string(), "Zed".to_string(), "Alacritty".to_string()]);
    assert!(get_all_app_names("").is_empty());
}

#[test]
fn bounds_are_corner_and_size() {
    let b = parse_bounds(ZED_BOUNDS).unwrap();
    assert_eq!(b, WindowBounds { x: 100, y: 50, width: 1200, height: 800 });
    let neg = parse_bounds("-20, +5, 10, 5").unwrap();
    assert_eq!(neg, WindowBounds { x: -20, y: 5, width: 30, height: 0 });
}

#[test]
fn bounds_skip_pieces_that_are_not_integers() {
    let b = parse_bounds("1, x, 2, 3, 4").unwrap();
    assert_eq!(b, WindowBounds { x: 1, y: 2, width: 2, height: 2 });
}

#[test]
fn bounds_need_four_integers() {
    match parse_bounds("1, 2, 3") {
        Err(Error::UnexpectedBounds { output }) => assert_eq!(output, "1, 2, 3"),
        other => panic!("unexpected: {other:?}"),
    }
    match parse_bounds("-2147483648, 0, 2147483647, 0") {
        Err(Error::UnexpectedBounds { .. }) => {}
        other => panic!("unexpected: {other:?}"),
    }
}

#[test]
fn bounds_without_window_name_the_app() {
    match get_front_window_bounds("Zed", "", ZED_BOUNDS) {
        Err(Error::WindowNotFound { app }) => assert_eq!(app, "Zed"),
        other => panic!("unexpected: {other:?}"),
    }
}

#[test]
fn far_corner_adds_size() {
    let b = WindowBounds { x: 10, y: 20, width: 300, height: 400 };
    assert_eq!(far_corner(b), Some((310, 420)));
    let big = WindowBounds { x: i32::MAX, y: 0, width: 1, height: 0 };
    assert_eq!(far_corner(big), None);
}

#[test]
fn set_bounds_script_holds_both_corners() {
    let b = WindowBounds { x: -10, y: 25, width: 810, height: 600 };
    let script = set_front_window_bounds("Zed", b, ZED_WINDOWS).unwrap();
    assert_eq!(
        script,
        "tell application \"Zed\"\n\t\t\tset bounds of window 1 to {-10, 25, 800, 625}\n\t\tend tell"
    );
}

#[test]
fn set_bounds_needs_window_and_range() {
    let b = WindowBounds { x: 0, y: 0, width: 10, height: 10 };
    assert!(matches!(set_front_window_bounds("Zed", b, ""), Err(Error::WindowNotFound { .. })));
    let far = WindowBounds { x: 0, y: i32::MAX, width: 10, height: 1 };
    assert_eq!(set_front_window_bounds("Zed", far, ZED_WINDOWS), Err(Error::BoundsOutOfRange));
    let min = WindowBounds { x: i32::MIN, y: 0, width: 0, height: 0 };
    let script = set_front_window_bounds("A", min, "w").unwrap();
    assert!(script.contains("{-2147483648, 0, -2147483648, 0}"));
}
