use lapsus_control::resolve::Resolver;
use lapsus_control::resolve::candidate_paths;
use lapsus_control::resolve::parent_dir;
use lapsus_control::resolve::resolve;

fn strings(items: &[&str]) -> Vec<String> {
    items.iter().map(|s| s.to_string()).collect()
}

#[test]
fn first_existing_position_wins() {
    let candidates = strings(&["c1", "c2", "c3", "c4", "c5", "c6", "c7", "c8"]);
    // Existing files at search positions 2 and 5 (1-based): position 2 wins.
    let exists = vec![false, true, false, false, true, false, false, false];
    let hit = resolve(&candidates, &exists).unwrap();
    assert_eq!(hit, "c2");
}

#[test]
fn custom_path_takes_priority() {
    let candidates = strings(&["custom", "bundled"]);
    let exists = vec![true, true];
    assert_eq!(resolve(&candidates, &exists).unwrap(), "custom");
}

#[test]
fn nothing_found_reports_all_tried() {
    let candidates = strings(&["a", "b", "c"]);
    let exists = vec![false, false, false];
    let err = resolve(&candidates, &exists).unwrap_err();
    assert_eq!(err.tried, candidates);
}

#[test]
fn candidate_order_follows_search_list() {
    let custom = Some("/custom/lapsus".to_string());
    let home = Some("/home/u".to_string());
    let got = candidate_paths(&custom, &home, "/opt/app/Contents/MacOS");
    let want = strings(&[
        "/custom/lapsus",
        "/opt/app/Contents/MacOS/lapsus_rust",
        "/opt/app/Contents/Resources/lapsus_rust",
        "/opt/app/lapsus_rust",
        "/opt/lapsus_rust",
        "/Users/ryder/bin/lapsus/lapsus_rust",
        "/home/u/bin/lapsus/lapsus_rust",
        "/usr/local/bin/lapsus_rust",
    ]);
    assert_eq!(got, want);
}

#[test]
fn candidate_order_without_custom_or_home() {
    let got = candidate_paths(&None, &None, "bin");
    let want = strings(&[
        "bin/lapsus_rust",
        "/Users/ryder/bin/lapsus/lapsus_rust",
        "/usr/local/bin/lapsus_rust",
    ]);
    assert_eq!(got, want);
}

#[test]
fn resolver_probes_lazily_and_stops_on_hit() {
    let mut r = Resolver::new(strings(&["p0", "p1", "p2"]));
    assert_eq!(r.pending().unwrap(), "p0");
    assert!(r.advance(false).is_none());
    assert_eq!(r.pending().unwrap(), "p1");
    let outcome = r.advance(true).unwrap();
    assert_eq!(outcome.unwrap(), "p1");
}

#[test]
fn resolver_exhaustion_reports_tried() {
    let mut r = Resolver::new(strings(&["p0", "p1"]));
    assert!(r.advance(false).is_none());
    let outcome = r.advance(false).unwrap();
    let err = outcome.unwrap_err();
    assert_eq!(err.tried, strings(&["p0", "p1"]));
}

#[test]
fn parent_dir_levels() {
    assert_eq!(parent_dir("/opt/app/bin").as_deref(), Some("/opt/app"));
    assert_eq!(parent_dir("/opt").as_deref(), Some("/"));
    assert_eq!(parent_dir("plain"), None);
    assert_eq!(parent_dir("/"), None);
}
