//! Process-trace primitives, through the nix crate. Every item here is a
//! thin wrapper around one tracing call; nothing can be promised of the
//! machine state they touch, so their contracts say only how failures are
//! reported, and the supervisor is verified against every possible outcome.

use vstd::prelude::*;

verus! {

/// What one blocking wait on the tracee reported, collapsed to the cases
/// the supervisor distinguishes.
#[derive(Clone, Copy, Debug)]
pub enum WaitEvent {
    /// Stopped by the trap signal a software breakpoint raises.
    StoppedTrap,
    /// Stopped by a segmentation-fault-class signal.
    StoppedSegv,
    /// Stopped by some other signal, given by its number.
    StoppedOther(i32),
    /// The process exited normally.
    Exited,
    /// Any other status report (killed, continued, still alive).
    OtherStatus,
    /// The wait call itself failed.
    WaitFailed,
}

/// A register snapshot of a stopped tracee; opaque to the verifier.
#[verifier::external_type_specification]
#[verifier::external_body]
pub struct ExUserRegs(nix::libc::user_regs_struct);

/// Relies on nix's waitpid: blocks until the tracee changes state and
/// reports how; each status variant is mapped to the matching event.
#[verifier::external_body]
pub(crate) fn wait_event(pid: i32) -> WaitEvent {
    match nix::sys::wait::waitpid(nix::unistd::Pid::from_raw(pid), None) {
        Ok(nix::sys::wait::WaitStatus::Stopped(_, sig)) => match sig {
            nix::sys::signal::Signal::SIGTRAP => WaitEvent::StoppedTrap,
            nix::sys::signal::Signal::SIGSEGV => WaitEvent::StoppedSegv,
            other => WaitEvent::StoppedOther(other as i32),
        },
        Ok(nix::sys::wait::WaitStatus::Exited(_, _)) => WaitEvent::Exited,
        Ok(_) => WaitEvent::OtherStatus,
        Err(_) => WaitEvent::WaitFailed,
    }
}

/// Relies on nix's ptrace::getregs: the registers of a stopped tracee, or
/// nothing if the call failed.
#[verifier::external_body]
pub(crate) fn ptrace_getregs(pid: i32) -> Option<nix::libc::user_regs_struct> {
    nix::sys::ptrace::getregs(nix::unistd::Pid::from_raw(pid)).ok()
}

/// Relies on nix's ptrace::setregs: writes a register snapshot back into a
/// stopped tracee.
#[verifier::external_body]
pub(crate) fn ptrace_setregs(pid: i32, regs: &nix::libc::user_regs_struct) -> Option<()> {
    nix::sys::ptrace::setregs(nix::unistd::Pid::from_raw(pid), *regs).ok()
}

/// Picks the instruction pointer out of a register snapshot.
#[verifier::external_body]
pub(crate) fn regs_rip(regs: &nix::libc::user_regs_struct) -> u64 {
    regs.rip
}

/// The snapshot with its instruction pointer replaced.
#[verifier::external_body]
pub(crate) fn regs_with_rip(
    regs: &nix::libc::user_regs_struct,
    rip: u64,
) -> nix::libc::user_regs_struct {
    let mut r = *regs;
    r.rip = rip;
    r
}

/// Relies on nix's ptrace::read: one machine word of tracee memory.
#[verifier::external_body]
pub(crate) fn ptrace_read_word(pid: i32, addr: u64) -> Option<i64> {
    nix::sys::ptrace::read(
        nix::unistd::Pid::from_raw(pid),
        addr as nix::sys::ptrace::AddressType,
    ).ok()
}

/// Relies on nix's ptrace::write: overwrites one machine word of tracee
/// memory.
#[verifier::external_body]
pub(crate) fn ptrace_write_word(pid: i32, addr: u64, word: i64) -> Option<()> {
    nix::sys::ptrace::write(
        nix::unistd::Pid::from_raw(pid),
        addr as nix::sys::ptrace::AddressType,
        word,
    ).ok()
}

/// Relies on nix's ptrace::cont: resumes the tracee, delivering the given
/// signal if one is passed; a number that names no signal is reported as a
/// delivery failure.
#[verifier::external_body]
pub(crate) fn ptrace_cont(pid: i32, signal: Option<i32>) -> Option<()> {
    let sig = match signal {
        None => None,
        Some(n) => match nix::sys::signal::Signal::try_from(n) {
            Ok(s) => Some(s),
            Err(_) => return None,
        },
    };
    nix::sys::ptrace::cont(nix::unistd::Pid::from_raw(pid), sig).ok()
}

} // verus!
