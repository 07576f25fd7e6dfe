use jc_zed_tasks::error::Error;
use jc_zed_tasks::patch::{ConfigValue, Syntax};
use jc_zed_tasks::profile::{
    apply_entries, initial_profiles, next_profile_name, toggle_profile, ConfigEntry, NamedProfile,
    Profile, ProfilesConfig,
};

fn entry(path: &[&str], value: ConfigValue) -> ConfigEntry {
    ConfigEntry { config_path: path.iter().map(|s| s.to_string()).collect(), value }
}

fn profile(name: &str, size: &str) -> NamedProfile {
    NamedProfile {
        name: name.to_string(),
        profile: Profile {
            zed_config: vec![entry(&["ui_font_size"], ConfigValue::Number(size.to_string()))],
            alacritty_config: vec![],
        },
    }
}

fn abc() -> ProfilesConfig {
    ProfilesConfig {
        order: vec!["a".to_string(), "b".to_string(), "c".to_string()],
        profiles: vec![profile("a", "10"), profile("b", "20"), profile("c", "30"), profile("default", "16")],
    }
}

#[test]
fn cycle_moves_to_next_and_wraps() {
    let cfg = abc();
    assert_eq!(next_profile_name(&cfg, Some("b"), None).unwrap(), "c");
    assert_eq!(next_profile_name(&cfg, Some("c"), None).unwrap(), "a");
    assert_eq!(next_profile_name(&cfg, Some("zzz"), None).unwrap(), "a");
    assert_eq!(next_profile_name(&cfg, None, None).unwrap(), "b");
}

#[test]
fn same_target_goes_to_default() {
    let cfg = abc();
    assert_eq!(next_profile_name(&cfg, Some("b"), Some("b")).unwrap(), "default");
    assert_eq!(next_profile_name(&cfg, Some("b"), Some("c")).unwrap(), "c");
}

#[test]
fn unknown_target_and_empty_order_fail() {
    let cfg = abc();
    match next_profile_name(&cfg, Some("a"), Some("x")) {
        Err(Error::ProfileNotFound { name }) => assert_eq!(name, "x"),
        other => panic!("unexpected: {other:?}"),
    }
    let empty = ProfilesConfig { order: vec![], profiles: vec![] };
    assert_eq!(next_profile_name(&empty, None, None), Err(Error::NoProfiles));
}

#[test]
fn toggle_applies_editor_entries() {
    let cfg = abc();
    let settings = "{\n  \"ui_font_size\": 16\n}\n";
    let sw = toggle_profile(&cfg, Some("a"), None, settings, None).unwrap();
    assert_eq!(sw.name, "b");
    assert_eq!(sw.profile_index, 1);
    assert_eq!(sw.settings, "{\n  \"ui_font_size\": 20\n}\n");
    assert_eq!(sw.terminal, None);
}

#[test]
fn toggle_to_undefined_next_profile_fails() {
    let cfg = ProfilesConfig { order: vec!["a".to_string(), "ghost".to_string()], profiles: vec![profile("a", "10")] };
    match toggle_profile(&cfg, Some("a"), None, "{}", None) {
        Err(Error::ProfileNotFound { name }) => assert_eq!(name, "ghost"),
        other => panic!("unexpected: {other:?}"),
    }
}

#[test]
fn toggle_reports_patch_failure() {
    let cfg = abc();
    match toggle_profile(&cfg, Some("a"), None, "{}", None) {
        Err(Error::KeyNotFound { key }) => assert_eq!(key, "ui_font_size"),
        other => panic!("unexpected: {other:?}"),
    }
}

#[test]
fn entries_apply_in_order() {
    let toml = "[font]\nsize = 12\n[window]\nopacity = 1\n";
    let es = vec![
        entry(&["font", "size"], ConfigValue::Number("20".to_string())),
        entry(&["window", "opacity"], ConfigValue::Number("0.8".to_string())),
    ];
    let out = apply_entries(toml, &es, Syntax::Toml).unwrap();
    assert_eq!(out, "[font]\nsize = 20\n[window]\nopacity = 0.8\n");
    let bad = vec![entry(&[], ConfigValue::Bool(true))];
    assert_eq!(apply_entries(toml, &bad, Syntax::Toml), Err(Error::EmptyPath));
    assert_eq!(apply_entries(toml, &vec![], Syntax::Toml).unwrap(), toml);
}

#[test]
fn first_use_store() {
    let (cfg, cur) = initial_profiles(
        ConfigValue::Number("15".to_string()),
        ConfigValue::Number("14".to_string()),
        None,
    );
    assert_eq!(cfg.order, vec!["default".to_string(), "demo".to_string()]);
    assert_eq!(cur.current_profile, "demo");
    assert_eq!(cfg.profiles[0].name, "default");
    assert_eq!(cfg.profiles[0].profile.zed_config[0].value, ConfigValue::Number("15".to_string()));
    assert_eq!(cfg.profiles[0].profile.alacritty_config[0].value, ConfigValue::Number("16".to_string()));
    assert_eq!(cfg.profiles[1].profile.zed_config[1].value, ConfigValue::Number("24".to_string()));
    assert_eq!(cfg.profiles[1].profile.alacritty_config[0].config_path, vec!["font".to_string(), "size".to_string()]);
    // the first toggle restores the captured profile
    assert_eq!(next_profile_name(&cfg, Some(&cur.current_profile), None).unwrap(), "default");
}

fn with_terminal(size: &str) -> NamedProfile {
    let mut p = profile("big", "24");
    p.profile.alacritty_config = vec![entry(&["font", "size"], ConfigValue::Number(size.to_string()))];
    p
}

#[test]
fn toggle_applies_terminal_entries() {
    let cfg = ProfilesConfig { order: vec!["big".to_string()], profiles: vec![with_terminal("20")] };
    let sw = toggle_profile(&cfg, Some("x"), None, "{\"ui_font_size\": 12}", Some("[font]\nsize = 14\n")).unwrap();
    assert_eq!(sw.settings, "{\"ui_font_size\": 24}");
    assert_eq!(sw.terminal.as_deref(), Some("[font]\nsize = 20\n"));
}

#[test]
fn toggle_fails_on_terminal_entry() {
    let cfg = ProfilesConfig { order: vec!["big".to_string()], profiles: vec![with_terminal("20")] };
    match toggle_profile(&cfg, Some("x"), None, "{\"ui_font_size\": 12}", Some("[font]\n")) {
        Err(Error::KeyNotFound { key }) => assert_eq!(key, "size"),
        other => panic!("unexpected: {other:?}"),
    }
    assert!(matches!(
        toggle_profile(&cfg, Some("x"), None, "{\"ui_font_size\": 12}", None),
        Err(Error::TerminalConfigMissing)
    ));
}
