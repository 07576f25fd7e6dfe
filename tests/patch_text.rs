use jc_zed_tasks::error::Error;
use jc_zed_tasks::patch::{
    toggle_bool_text_mode, update_json_value_text_mode, update_toml_value_text_mode, ConfigValue,
};

const TOML: &str = "# terminal\n[font]\nsize = 14.5 # pt\n\n[window]\nopacity = 0.9\ntitle = \"dev\"\n";

#[test]
fn toml_number_patch_keeps_other_lines() {
    let out = update_toml_value_text_mode(TOML, &["font", "size"], &ConfigValue::Number("20".to_string())).unwrap();
    assert_eq!(out, "# terminal\n[font]\nsize = 20 # pt\n\n[window]\nopacity = 0.9\ntitle = \"dev\"\n");
}

#[test]
fn toml_string_and_bool_patch() {
    let out = update_toml_value_text_mode(TOML, &["title"], &ConfigValue::Text("work".to_string())).unwrap();
    assert!(out.ends_with("title = \"work\"\n"));
    let src = "  live_config_reload=false\n";
    let out = update_toml_value_text_mode(src, &["live_config_reload"], &ConfigValue::Bool(true)).unwrap();
    assert_eq!(out, "  live_config_reload=true\n");
}

#[test]
fn patch_then_read_back() {
    let out = update_toml_value_text_mode(TOML, &["opacity"], &ConfigValue::Number("1.0".to_string())).unwrap();
    let again = update_toml_value_text_mode(&out, &["opacity"], &ConfigValue::Number("1.0".to_string())).unwrap();
    assert_eq!(out, again);
    assert!(out.contains("opacity = 1.0\n"));
    let old_lines: Vec<&str> = TOML.lines().collect();
    let new_lines: Vec<&str> = out.lines().collect();
    assert_eq!(old_lines.len(), new_lines.len());
    for (a, b) in old_lines.iter().zip(new_lines.iter()) {
        if !a.starts_with("opacity") {
            assert_eq!(a, b);
        }
    }
}

#[test]
fn toml_key_must_lead_its_line() {
    let src = "x = \"size = 3\"\nsize = 4\n";
    let out = update_toml_value_text_mode(src, &["size"], &ConfigValue::Number("5".to_string())).unwrap();
    assert_eq!(out, "x = \"size = 3\"\nsize = 5\n");
}

#[test]
fn duplicate_key_is_ambiguous() {
    let src = "[a]\nsize = 1\n[b]\nsize = 2\n";
    match update_toml_value_text_mode(src, &["b", "size"], &ConfigValue::Number("3".to_string())) {
        Err(Error::AmbiguousKey { key, count }) => {
            assert_eq!(key, "size");
            assert_eq!(count, 2);
        }
        other => panic!("unexpected: {other:?}"),
    }
    let json = "{\"a\": {\"ui_font_size\": 16}, \"b\": {\"ui_font_size\": 18}}";
    assert!(matches!(
        update_json_value_text_mode(json, &["ui_font_size"], &ConfigValue::Number("3".to_string())),
        Err(Error::AmbiguousKey { count: 2, .. })
    ));
}

#[test]
fn missing_key_and_bad_values() {
    match update_toml_value_text_mode(TOML, &["missing"], &ConfigValue::Bool(true)) {
        Err(Error::KeyNotFound { key }) => assert_eq!(key, "missing"),
        other => panic!("unexpected: {other:?}"),
    }
    assert_eq!(
        update_toml_value_text_mode(TOML, &["size"], &ConfigValue::Null),
        Err(Error::UnsupportedValue)
    );
    assert_eq!(
        update_json_value_text_mode("{\"a\": 1}", &["a"], &ConfigValue::Array),
        Err(Error::UnsupportedValue)
    );
    assert_eq!(update_toml_value_text_mode(TOML, &[], &ConfigValue::Bool(true)), Err(Error::EmptyPath));
}

#[test]
fn json_patch_keeps_comments() {
    let src = "{\n  // fonts\n  \"ui_font_size\": 16,\n  \"theme\": \"One Dark\",\n  \"buffer_font_size\":15\n}\n";
    let out = update_json_value_text_mode(src, &["ui_font_size"], &ConfigValue::Number("24".to_string())).unwrap();
    assert_eq!(out, "{\n  // fonts\n  \"ui_font_size\": 24,\n  \"theme\": \"One Dark\",\n  \"buffer_font_size\":15\n}\n");
    let out = update_json_value_text_mode(&out, &["theme"], &ConfigValue::Text("Ayu".to_string())).unwrap();
    assert!(out.contains("\"theme\": \"Ayu\","));
    let out = update_json_value_text_mode(&out, &["buffer_font_size"], &ConfigValue::Number("18".to_string())).unwrap();
    assert!(out.contains("\"buffer_font_size\":18\n"));
}

#[test]
fn toggle_flips_existing_bool() {
    let src = "{\n  \"disable_ai\":true,\n  \"vim_mode\": false\n}";
    let out = toggle_bool_text_mode(src, &["disable_ai"]).unwrap();
    assert_eq!(out, "{\n  \"disable_ai\": false,\n  \"vim_mode\": false\n}");
    let back = toggle_bool_text_mode(&out, &["disable_ai"]).unwrap();
    assert_eq!(back, "{\n  \"disable_ai\": true,\n  \"vim_mode\": false\n}");
}

#[test]
fn toggle_inserts_absent_key_after_first_brace() {
    let src = "// settings\n{\n  \"vim_mode\": false\n}\n";
    let out = toggle_bool_text_mode(src, &["disable_ai"]).unwrap();
    assert_eq!(out, "// settings\n{\n  \"disable_ai\": true,\n  \"vim_mode\": false\n}");
}

#[test]
fn toggle_without_brace_writes_object() {
    let out = toggle_bool_text_mode("", &["disable_ai"]).unwrap();
    assert_eq!(out, "{\n  \"disable_ai\": true\n}");
    assert_eq!(toggle_bool_text_mode("{}", &[]), Err(Error::EmptyPath));
}

#[test]
fn numbers_must_be_literals() {
    let src = "size = 14\n";
    for ok in ["-3", "1e5", "2.5E-3", "0"] {
        let out = update_toml_value_text_mode(src, &["size"], &ConfigValue::Number(ok.to_string())).unwrap();
        assert_eq!(out, format!("size = {ok}\n"));
    }
    for bad in ["", "-", "1.", "x", "1e", "3 4", ".5"] {
        assert_eq!(
            update_toml_value_text_mode(src, &["size"], &ConfigValue::Number(bad.to_string())),
            Err(Error::UnsupportedValue)
        );
    }
}
