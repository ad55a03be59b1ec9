use buckgraph::process::exited_of;
use buckgraph::process::get_sysinfo_status;
use buckgraph::process::kill;
use buckgraph::process::kill_outcome_of;
use buckgraph::process::process_exists;
use buckgraph::process::KillProbe;
use buckgraph::process::KilledProcessHandle;
use buckgraph::process::ProcStatus;
use buckgraph::process::ProcessError;

fn current_pid() -> u32 {
    sysinfo::get_current_pid().unwrap().as_u32()
}

#[test]
fn the_current_process_exists() {
    let pid = current_pid();
    for _ in 0..5 {
        assert!(process_exists(pid).unwrap());
    }
}

#[test]
fn a_bogus_pid_does_not_exist() {
    // Close to the pid ceiling, vanishingly unlikely to be live.
    let pid = 4_194_000u32;
    assert!(!process_exists(pid).unwrap());
    // Killing a process that does not exist observes nothing.
    assert!(kill(pid).unwrap().is_none());
}

#[test]
fn a_dead_handle_reports_exited() {
    let handle = KilledProcessHandle { pid: 4_194_001u32 };
    assert!(handle.has_exited().unwrap());
    assert!(handle.status().is_none());
}

#[test]
fn the_exited_decision_is_exact() {
    // Gone from the table, or lingering only as a zombie or dead
    // entry, means exited; anything else does not.
    assert!(exited_of(None));
    assert!(exited_of(Some(ProcStatus::Zombie)));
    assert!(exited_of(Some(ProcStatus::Dead)));
    assert!(!exited_of(Some(ProcStatus::Running)));
    assert!(!exited_of(Some(ProcStatus::Other)));
}

#[test]
fn the_kill_decision_is_exact() {
    let pid = 1234u32;
    assert_eq!(kill_outcome_of(pid, KillProbe::Absent), Ok(None));
    assert_eq!(
        kill_outcome_of(pid, KillProbe::Sent),
        Ok(Some(KilledProcessHandle { pid }))
    );
    assert_eq!(
        kill_outcome_of(pid, KillProbe::Refused),
        Err(ProcessError::KillFailed { pid })
    );
}

#[test]
fn status_of_a_live_process_is_textual() {
    let status = get_sysinfo_status(current_pid());
    assert!(status.is_some());
    assert!(!status.unwrap().is_empty());
}
