//! Cross-platform process control.
//!
//! Process existence, kill and status queries go through the sysinfo
//! crate. What the operating system reports depends on the machine
//! and the moment, so the trusted items promise nothing about the
//! outcomes; the library states what each result means structurally.

use vstd::prelude::*;

verus! {

/// The process table, as sysinfo models it.
#[verifier::external_type_specification]
#[verifier::external_body]
pub struct ExSystem(sysinfo::System);

/// One process of the table, as sysinfo models it.
#[verifier::external_type_specification]
#[verifier::external_body]
pub struct ExProcess(sysinfo::Process);

/// Relies on sysinfo::System::new: a process table with nothing
/// refreshed yet.
#[verifier::external_body]
fn sys_new() -> sysinfo::System {
    sysinfo::System::new()
}

/// Relies on sysinfo::System::refresh_process_specifics: refreshes
/// the one process and reports whether it exists.
#[verifier::external_body]
fn sys_refresh_process(sys: &mut sysinfo::System, pid: u32) -> bool {
    sys.refresh_process_specifics(
        sysinfo::Pid::from_u32(pid),
        sysinfo::ProcessRefreshKind::new(),
    )
}

/// Relies on sysinfo::System::process: the refreshed process for the
/// pid, if the table has one.
#[verifier::external_body]
fn sys_process(sys: &sysinfo::System, pid: u32) -> Option<&sysinfo::Process> {
    sys.process(sysinfo::Pid::from_u32(pid))
}

/// Relies on sysinfo::Process::kill: sends the kill signal and
/// reports whether it was sent.
#[verifier::external_body]
fn proc_kill(p: &sysinfo::Process) -> bool {
    p.kill()
}

/// Relies on sysinfo::Process::start_time: seconds since the epoch at
/// which the process started.
#[verifier::external_body]
fn proc_start_time(p: &sysinfo::Process) -> u64 {
    p.start_time()
}

/// Relies on sysinfo::Process::status, rendered through its Display
/// implementation.
#[verifier::external_body]
fn proc_status_string(p: &sysinfo::Process) -> String {
    format!("{}", p.status())
}

/// The coarse state of a process, as this library reads it.
#[derive(Clone, Copy, Debug, PartialEq, Eq, Structural)]
pub enum ProcStatus {
    Running,
    Zombie,
    Dead,
    Other,
}

/// Relies on sysinfo::Process::status: maps the reported state onto
/// the library's coarse categories, one arm per interesting variant.
#[verifier::external_body]
fn proc_status_category(p: &sysinfo::Process) -> ProcStatus {
    match p.status() {
        sysinfo::ProcessStatus::Run => ProcStatus::Running,
        sysinfo::ProcessStatus::Zombie => ProcStatus::Zombie,
        sysinfo::ProcessStatus::Dead => ProcStatus::Dead,
        _ => ProcStatus::Other,
    }
}

/// What process control can fail with.
#[derive(Clone, Copy, Debug, PartialEq, Eq, Structural)]
pub enum ProcessError {
    /// The process exists but the kill signal could not be sent.
    KillFailed { pid: u32 },
}

/// Whether a process with this pid currently exists, according to a
/// fresh refresh of the process table. The answer is a snapshot: the
/// table can change the moment after.
pub fn process_exists(pid: u32) -> (r: Result<bool, ProcessError>)
    ensures
        r is Ok,
{
    let mut sys = sys_new();
    let found = sys_refresh_process(&mut sys, pid);
    Result::Ok(found)
}

/// A handle observing a process that was sent the kill signal.
#[derive(Clone, Copy, Debug, PartialEq, Eq, Structural)]
pub struct KilledProcessHandle {
    pub pid: u32,
}

/// What one probe of a process-table entry observed: whether the
/// signal could be sent.
#[derive(Clone, Copy, Debug, PartialEq, Eq, Structural)]
pub enum KillProbe {
    /// No entry with the pid exists.
    Absent,
    /// The entry exists and the kill signal was sent.
    Sent,
    /// The entry exists but the kill signal was refused.
    Refused,
}

/// The outcome `kill` owes for each probe of the process table: no
/// entry yields nothing to observe, a sent signal yields the handle,
/// and a refused signal is the kill-failed error.
pub open spec fn spec_kill_outcome(pid: u32, probe: KillProbe) -> Result<
    Option<KilledProcessHandle>,
    ProcessError,
> {
    match probe {
        KillProbe::Absent => Result::Ok(Option::None),
        KillProbe::Sent => Result::Ok(Option::Some(KilledProcessHandle { pid })),
        KillProbe::Refused => Result::Err(ProcessError::KillFailed { pid }),
    }
}

/// The decision `kill` makes with what its probe observed.
pub fn kill_outcome_of(pid: u32, probe: KillProbe) -> (r: Result<
    Option<KilledProcessHandle>,
    ProcessError,
>)
    ensures
        r == spec_kill_outcome(pid, probe),
{
    match probe {
        KillProbe::Absent => Result::Ok(Option::None),
        KillProbe::Sent => Result::Ok(Option::Some(KilledProcessHandle { pid })),
        KillProbe::Refused => Result::Err(ProcessError::KillFailed { pid }),
    }
}

/// Sends the kill signal to the process and maps what the probe
/// observed through `kill_outcome_of`: that decision carries the
/// exact contract; what the probe observes depends on the machine and
/// the moment, so nothing more can be promised here.
pub fn kill(pid: u32) -> (r: Result<Option<KilledProcessHandle>, ProcessError>)
    ensures
        r matches Result::Ok(Option::Some(h)) ==> h.pid == pid,
        r matches Result::Err(e) ==> e == (ProcessError::KillFailed { pid }),
{
    let mut sys = sys_new();
    let found = sys_refresh_process(&mut sys, pid);
    let probe = if !found {
        KillProbe::Absent
    } else {
        match sys_process(&sys, pid) {
            Option::None => KillProbe::Absent,
            Option::Some(p) => {
                if proc_kill(p) {
                    KillProbe::Sent
                } else {
                    KillProbe::Refused
                }
            },
        }
    };
    kill_outcome_of(pid, probe)
}

/// Whether a probe of the process table means the process has exited:
/// it is gone from the table, or lingers only as a zombie or dead
/// entry. Absence from the table is the `None` probe.
pub open spec fn spec_exited(probe: Option<ProcStatus>) -> bool {
    match probe {
        Option::None => true,
        Option::Some(status) => status == ProcStatus::Zombie || status == ProcStatus::Dead,
    }
}

/// The decision `has_exited` makes with what its probe observed.
pub fn exited_of(probe: Option<ProcStatus>) -> (r: bool)
    ensures
        r == spec_exited(probe),
{
    match probe {
        Option::None => true,
        Option::Some(ProcStatus::Zombie) => true,
        Option::Some(ProcStatus::Dead) => true,
        Option::Some(_) => false,
    }
}

impl KilledProcessHandle {
    /// Probes a fresh process table and maps the observation through
    /// `exited_of`: that decision carries the exact contract; the
    /// observation itself depends on the machine and the moment, so
    /// nothing more can be promised here.
    pub fn has_exited(&self) -> (r: Result<bool, ProcessError>)
        ensures
            r is Ok,
    {
        let mut sys = sys_new();
        let found = sys_refresh_process(&mut sys, self.pid);
        let probe: Option<ProcStatus> = if !found {
            Option::None
        } else {
            match sys_process(&sys, self.pid) {
                Option::None => Option::None,
                Option::Some(p) => Option::Some(proc_status_category(p)),
            }
        };
        Result::Ok(exited_of(probe))
    }

    /// The textual status of the killed process, if it still has a
    /// process-table entry.
    pub fn status(&self) -> Option<String> {
        get_sysinfo_status(self.pid)
    }
}

/// The textual status snapshot of a process, taken via a fresh
/// refresh scoped to that single pid.
pub fn get_sysinfo_status(pid: u32) -> Option<String> {
    let mut sys = sys_new();
    sys_refresh_process(&mut sys, pid);
    match sys_process(&sys, pid) {
        Option::None => Option::None,
        Option::Some(p) => Option::Some(proc_status_string(p)),
    }
}

/// The moment a process started, in seconds since the epoch, as the
/// process table reports it.
pub fn process_creation_time(process: &sysinfo::Process) -> Option<u64> {
    Option::Some(proc_start_time(process))
}

} // verus!
