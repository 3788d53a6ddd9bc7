use lapsus_control::supervise::StartPlan;
use lapsus_control::supervise::StopPlan;
use lapsus_control::supervise::SupervisionError;
use lapsus_control::supervise::interpret_kill_round;
use lapsus_control::supervise::interpret_load_result;
use lapsus_control::supervise::interpret_unload_result;
use lapsus_control::supervise::plan_start;
use lapsus_control::supervise::plan_stop;

#[test]
fn start_is_idempotent_under_service_manager() {
    // Already running: the load command fails, but only says so.
    let r = interpret_load_result(false, "load: Already loaded");
    assert!(r.is_ok());
    let r = interpret_load_result(false, "Bootstrap failed: service already loaded");
    assert!(r.is_ok());
}

#[test]
fn start_success_is_ok() {
    assert!(interpret_load_result(true, "").is_ok());
}

#[test]
fn start_failure_surfaces_message() {
    let r = interpret_load_result(false, "no such file");
    match r {
        Err(SupervisionError::BackendFailed(m)) => assert_eq!(m, "no such file"),
        _ => panic!("expected a backend failure"),
    }
}

#[test]
fn stop_is_idempotent_under_service_manager() {
    // Already stopped: the unload command fails, but only says so.
    let r = interpret_unload_result(false, "Could not find specified service");
    assert!(r.is_ok());
    let r = interpret_unload_result(false, "unload: service not loaded");
    assert!(r.is_ok());
}

#[test]
fn stop_failure_surfaces_message() {
    let r = interpret_unload_result(false, "permission denied");
    match r {
        Err(SupervisionError::BackendFailed(m)) => assert_eq!(m, "permission denied"),
        _ => panic!("expected a backend failure"),
    }
}

#[test]
fn descriptor_routes_start_through_service_manager() {
    assert_eq!(plan_start(true, false).unwrap(), StartPlan::ServiceLoad);
    assert_eq!(plan_start(true, true).unwrap(), StartPlan::ServiceLoad);
}

#[test]
fn no_descriptor_falls_back_to_direct_spawn() {
    assert_eq!(plan_start(false, true).unwrap(), StartPlan::DirectSpawn);
}

#[test]
fn direct_start_without_binary_is_binary_missing() {
    match plan_start(false, false) {
        Err(SupervisionError::BinaryMissing) => {},
        _ => panic!("expected the binary-missing error"),
    }
}

#[test]
fn stop_backend_selection() {
    assert_eq!(plan_stop(true), StopPlan::ServiceUnload);
    assert_eq!(plan_stop(false), StopPlan::DirectKill);
}

#[test]
fn one_delivered_signal_is_success() {
    assert!(interpret_kill_round(&vec![false, true, false]).is_ok());
}

#[test]
fn no_match_and_no_delivery_are_not_running() {
    match interpret_kill_round(&Vec::new()) {
        Err(SupervisionError::NotRunning) => {},
        _ => panic!("expected the not-running error"),
    }
    match interpret_kill_round(&vec![false, false]) {
        Err(SupervisionError::NotRunning) => {},
        _ => panic!("expected the not-running error"),
    }
}
