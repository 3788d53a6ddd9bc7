use lapsus_control::codec::load_config;
use lapsus_control::codec::parse_config;
use lapsus_control::codec::save_config;
use lapsus_control::config::Config;

fn config(start: bool, path: Option<&str>, dock: bool) -> Config {
    Config {
        start_at_login: start,
        lapsus_rust_path: path.map(|p| p.to_string()),
        show_dock_icon: dock,
    }
}

fn assert_same(a: &Config, b: &Config) {
    assert_eq!(a.start_at_login, b.start_at_login);
    assert_eq!(a.lapsus_rust_path, b.lapsus_rust_path);
    assert_eq!(a.show_dock_icon, b.show_dock_icon);
}

#[test]
fn round_trip_full() {
    let c = config(true, Some("/opt/lapsus/lapsus_rust"), true);
    let doc = save_config(&c);
    let back = load_config(&doc);
    assert_same(&c, &back);
}

#[test]
fn round_trip_defaults() {
    let c = Config::default();
    let back = load_config(&save_config(&c));
    assert_same(&c, &back);
}

#[test]
fn round_trip_escaped_path() {
    let c = config(false, Some("/we\"ird\\path/lapsus_rust"), true);
    let back = load_config(&save_config(&c));
    assert_same(&c, &back);
}

#[test]
fn save_exact_text_without_path() {
    let c = config(false, None, false);
    assert_eq!(
        save_config(&c),
        "{\"start_at_login\":false,\"lapsus_rust_path\":null,\"show_dock_icon\":false}"
    );
}

#[test]
fn save_exact_text_with_path() {
    let c = config(true, Some("/usr/local/bin/lapsus_rust"), false);
    assert_eq!(
        save_config(&c),
        "{\"start_at_login\":true,\"lapsus_rust_path\":\"/usr/local/bin/lapsus_rust\",\"show_dock_icon\":false}"
    );
}

#[test]
fn load_empty_yields_defaults() {
    let c = load_config("");
    assert_same(&c, &Config::default());
}

#[test]
fn load_garbage_yields_defaults() {
    let c = load_config("this is not a configuration {{{");
    assert_same(&c, &Config::default());
}

#[test]
fn load_empty_object_yields_defaults() {
    let c = load_config("{}");
    assert_same(&c, &Config::default());
}

#[test]
fn load_wrong_type_falls_back_per_field() {
    let c = load_config("{\"start_at_login\":5,\"show_dock_icon\":true}");
    assert!(!c.start_at_login);
    assert!(c.show_dock_icon);
    assert_eq!(c.lapsus_rust_path, None);
}

#[test]
fn load_unknown_scalar_field_ignored() {
    let c = load_config("{\"badge_count\":12,\"start_at_login\":true}");
    assert!(c.start_at_login);
}

#[test]
fn load_tolerates_whitespace() {
    let c = load_config(" {\n  \"start_at_login\" : true ,\n  \"show_dock_icon\" : false\n}\n");
    assert!(c.start_at_login);
    assert!(!c.show_dock_icon);
}

#[test]
fn load_null_path_is_none() {
    let c = load_config("{\"lapsus_rust_path\":null,\"start_at_login\":true}");
    assert_eq!(c.lapsus_rust_path, None);
}

#[test]
fn load_path_value() {
    let c = load_config("{\"lapsus_rust_path\":\"/tmp/lapsus_rust\"}");
    assert_eq!(c.lapsus_rust_path.as_deref(), Some("/tmp/lapsus_rust"));
}

#[test]
fn trailing_garbage_is_malformed() {
    assert!(parse_config("{} trailing").is_none());
    let c = load_config("{\"start_at_login\":true} x");
    assert_same(&c, &Config::default());
}

#[test]
fn top_level_array_is_malformed() {
    assert!(parse_config("[1, 2]").is_none());
}

#[test]
fn unknown_array_field_is_ignored() {
    let c = load_config("{\"extra\":[1,{\"a\":\"]\"},true],\"start_at_login\":true}");
    assert!(c.start_at_login);
}

#[test]
fn unknown_object_field_is_ignored() {
    let c = load_config("{\"meta\":{\"x\":1,\"tags\":[]},\"show_dock_icon\":true}");
    assert!(c.show_dock_icon);
}

#[test]
fn known_key_with_composite_value_falls_back() {
    let c = load_config("{\"start_at_login\":[true],\"show_dock_icon\":true}");
    assert!(!c.start_at_login);
    assert!(c.show_dock_icon);
}

#[test]
fn unbalanced_composite_is_malformed() {
    assert!(parse_config("{\"x\":[1,2}").is_none());
    assert!(parse_config("{\"x\":{\"y\":1]}").is_none());
}

#[test]
fn unterminated_string_is_malformed() {
    assert!(parse_config("{\"start_at_login").is_none());
}
