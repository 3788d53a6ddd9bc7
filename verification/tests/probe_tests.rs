use lapsus_control::probe::ProcessEntry;
use lapsus_control::probe::combine_probe;
use lapsus_control::probe::matching_pids;
use lapsus_control::probe::process_table_has_match;
use lapsus_control::probe::service_output_reports_pid;

fn entries(rows: &[(u32, &str)]) -> Vec<ProcessEntry> {
    rows.iter().map(|(pid, name)| ProcessEntry { pid: *pid, name: name.to_string() }).collect()
}

#[test]
fn service_reply_with_pid_is_live() {
    assert!(service_output_reports_pid(true, "12345\t0\tcom.lapsus.rust"));
}

#[test]
fn service_reply_with_dash_is_not_live() {
    assert!(!service_output_reports_pid(true, "-\t0\tcom.lapsus.rust"));
}

#[test]
fn failed_query_is_not_live() {
    assert!(!service_output_reports_pid(false, "12345\t0\tcom.lapsus.rust"));
}

#[test]
fn empty_reply_is_not_live() {
    assert!(!service_output_reports_pid(true, ""));
}

#[test]
fn only_first_line_counts() {
    assert!(!service_output_reports_pid(true, "-\t0\tfirst\n999\t0\tsecond"));
}

#[test]
fn leading_whitespace_is_skipped() {
    assert!(service_output_reports_pid(true, "  777 0 com.lapsus.rust"));
}

#[test]
fn oversized_identifier_is_rejected() {
    assert!(!service_output_reports_pid(true, "99999999999999999999\t0\tx"));
    assert!(service_output_reports_pid(true, "2147483647\t0\tx"));
    assert!(!service_output_reports_pid(true, "2147483648\t0\tx"));
}

#[test]
fn non_numeric_field_is_rejected() {
    assert!(!service_output_reports_pid(true, "12a45\t0\tx"));
}

#[test]
fn probe_signals_are_or_ed() {
    // A live service report alone decides, with nothing in the table.
    assert!(combine_probe(true, false));
    assert!(combine_probe(false, true));
    assert!(!combine_probe(false, false));
}

#[test]
fn table_match_exact_name() {
    let es = entries(&[(10, "init"), (42, "lapsus_rust")]);
    assert!(process_table_has_match(&es));
}

#[test]
fn table_match_on_prefixed_name() {
    let es = entries(&[(7, "lapsus_rust_helper")]);
    assert!(process_table_has_match(&es));
}

#[test]
fn containing_without_prefix_is_no_match() {
    let es = entries(&[(8, "my_lapsus_rust")]);
    assert!(!process_table_has_match(&es));
}

#[test]
fn table_without_match() {
    let es = entries(&[(1, "systemd"), (2, "bash")]);
    assert!(!process_table_has_match(&es));
}

#[test]
fn matching_pids_keeps_order_and_duplicates() {
    let es = entries(&[(5, "lapsus_rust"), (6, "other"), (9, "lapsus_rust"), (11, "xlapsus_rust")]);
    assert_eq!(matching_pids(&es), vec![5, 9]);
}

#[test]
fn matching_pids_empty_without_match() {
    let es = entries(&[(5, "other")]);
    assert_eq!(matching_pids(&es), Vec::<u32>::new());
}
