use lapsus_control::platform::user_paths;
use lapsus_control::supervise::SupervisionError;
use lapsus_control::system::liveness_with_table;
use lapsus_control::system::scan_process_table;
use lapsus_control::system::stop_direct;

#[test]
fn live_service_report_decides_without_a_scan() {
    assert!(liveness_with_table(true));
}

#[test]
fn table_scan_finds_no_supervised_process_here() {
    // No lapsus_rust daemon runs on this machine, so the scan of the real
    // process table reports dead and a direct stop finds nothing to signal.
    assert!(!scan_process_table());
    match stop_direct() {
        Err(SupervisionError::NotRunning) => {}
        other => panic!("expected the not-running error, got {:?}", other),
    }
}

#[test]
fn user_paths_hang_off_the_home_directory() {
    if let Some(u) = user_paths() {
        assert_eq!(u.config_file, format!("{}/.lapsus_menubar_config.json", u.home));
        assert_eq!(
            u.descriptor,
            format!("{}/Library/LaunchAgents/com.lapsus.rust.plist", u.home)
        );
    }
}
