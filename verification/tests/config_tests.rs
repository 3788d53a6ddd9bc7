use lapsus_control::Config;
use lapsus_control::config::default_show_dock_icon;
use lapsus_control::text::str_contains;

#[test]
fn dock_icon_defaults_to_hidden() {
    assert!(!default_show_dock_icon());
}

#[test]
fn default_record() {
    let c = Config::default();
    assert!(!c.start_at_login);
    assert_eq!(c.lapsus_rust_path, None);
    assert!(!c.show_dock_icon);
}

#[test]
fn setters_touch_only_their_field() {
    let mut c = Config::default();
    c.set_start_at_login(true);
    assert!(c.start_at_login && !c.show_dock_icon);
    c.set_show_dock_icon(true);
    assert!(c.start_at_login && c.show_dock_icon);
    c.set_lapsus_rust_path(Some("/x/lapsus_rust".to_string()));
    assert_eq!(c.lapsus_rust_path.as_deref(), Some("/x/lapsus_rust"));
    assert!(c.start_at_login && c.show_dock_icon);
}

#[test]
fn clone_preserves_fields() {
    let mut c = Config::default();
    c.set_lapsus_rust_path(Some("/y".to_string()));
    let d = c.clone();
    assert_eq!(d.lapsus_rust_path.as_deref(), Some("/y"));
}

#[test]
fn substring_search() {
    assert!(str_contains("a lapsus_rust daemon", "lapsus_rust"));
    assert!(str_contains("x", ""));
    assert!(!str_contains("lapsus", "lapsus_rust"));
}
