//! The OS process table, reached through the `sysinfo` crate: a snapshot
//! type, its refresh, the extraction of plain rows, and per-process
//! termination signals. Everything that decides — which rows match, what a
//! round of signals means — is verified and lives in the probe and
//! supervisor modules; only the calls themselves are trusted.

use vstd::prelude::*;
use vstd::multiset::Multiset;
use crate::probe::ProcessEntry;
use crate::probe::process_table_has_match;
use crate::probe::matching_pids;
use crate::supervise::SupervisionError;
use crate::supervise::SupervisionErrorView;
use crate::supervise::interpret_kill_round;

verus! {

#[verifier::external_type_specification]
#[verifier::external_body]
pub struct ExSystem(sysinfo::System);

/// What a process-table snapshot holds: identifier and executable name of
/// each process, without order (the underlying table is a hash map).
pub uninterp spec fn table_of(s: sysinfo::System) -> Multiset<(u32, Seq<char>)>;

/// Relies on sysinfo::System::new: a snapshot with nothing loaded.
#[verifier::external_body]
fn new_system() -> (r: sysinfo::System)
    ensures
        table_of(r) == Multiset::<(u32, Seq<char>)>::empty(),
{
    sysinfo::System::new()
}

/// Relies on sysinfo::System::refresh_processes: reloads the snapshot from
/// the live process table, whose content depends on the machine, so
/// nothing is claimed of the result.
#[verifier::external_body]
fn refresh_process_table(s: &mut sysinfo::System) {
    s.refresh_processes(sysinfo::ProcessesToUpdate::All, true);
}

/// Relies on sysinfo::System::processes and sysinfo::Process::name: hands
/// out exactly the snapshot's rows, each as identifier and name.
#[verifier::external_body]
fn process_entries(s: &sysinfo::System) -> (r: Vec<ProcessEntry>)
    ensures
        r@.map_values(|e: ProcessEntry| (e.pid, e.name@)).to_multiset() == table_of(*s),
{
    s.processes().iter().map(
        |entry: (&sysinfo::Pid, &sysinfo::Process)| ProcessEntry {
            pid: entry.0.as_u32(),
            name: entry.1.name().to_string_lossy().into_owned(),
        },
    ).collect()
}

/// Relies on sysinfo::System::process and sysinfo::Process::kill_with with
/// the termination signal: nothing when the process is gone from the
/// snapshot or the platform knows no such signal, otherwise whether the
/// signal was delivered.
#[verifier::external_body]
fn signal_terminate(s: &sysinfo::System, pid: u32) -> (r: Option<bool>) {
    match s.process(sysinfo::Pid::from_u32(pid)) {
        Some(p) => p.kill_with(sysinfo::Signal::Term),
        None => None,
    }
}

/// Probe the live process table for the supervised binary. The table's
/// content depends on the machine; the matching rule itself is verified in
/// [`process_table_has_match`].
pub fn scan_process_table() -> bool {
    let mut sys = new_system();
    refresh_process_table(&mut sys);
    let entries = process_entries(&sys);
    process_table_has_match(&entries)
}

/// The whole liveness probe given the service manager's signal: a live
/// service report alone decides; only without one is the process table
/// scanned (the two signals are OR-ed).
pub fn liveness_with_table(service_live: bool) -> (r: bool)
    ensures
        service_live ==> r == true,
{
    if service_live {
        true
    } else {
        scan_process_table()
    }
}

/// Direct stop: signal termination to every process whose name matches the
/// supervised binary, all of them, and fold the delivery results — at
/// least one delivered signal is success, none (in particular an empty
/// match) is `NotRunning`. Which rows match and what the results mean are
/// verified; the table's content is the machine's, so all that holds of
/// every outcome is that a direct stop fails only as `NotRunning`.
pub fn stop_direct() -> (r: Result<(), SupervisionError>)
    ensures
        r is Ok || (r matches Err(e) && e@ == SupervisionErrorView::NotRunning),
{
    let mut sys = new_system();
    refresh_process_table(&mut sys);
    let entries = process_entries(&sys);
    let pids = matching_pids(&entries);
    let mut delivered: Vec<bool> = Vec::new();
    let mut i: usize = 0;
    while i < pids.len()
        decreases pids@.len() - i,
    {
        let sent = match signal_terminate(&sys, pids[i]) {
            Some(ok) => ok,
            None => false,
        };
        delivered.push(sent);
        i += 1;
    }
    interpret_kill_round(&delivered)
}

} // verus!
