//! The trace supervisor: installs and restores one-byte software
//! breakpoints in a live tracee and drives the wait/continue event loop
//! that distinguishes breakpoint hits, crashes and clean exits.

use vstd::prelude::*;
use std::collections::HashMap;
use crate::sys;
use crate::sys::WaitEvent;

verus! {

broadcast use vstd::std_specs::hash::group_hash_axioms;

/// Outcome of supervising one tracee execution: a clean exit with the
/// ordered sequence of breakpoint addresses visited, or a crash with the
/// faulting instruction pointer.
#[derive(Debug)]
pub enum ParentStatus {
    Clean(Vec<u64>),
    Crash(u64),
}

/// A failure inside the supervisor that aborts the current run.
#[derive(Clone, Copy, Debug, PartialEq, Eq, Structural)]
pub enum TraceError {
    /// The wait call failed repeatedly.
    Wait,
    /// The tracee's registers could not be read or written.
    Regs,
    /// The tracee's memory could not be read or written.
    Memory,
    /// The tracee could not be resumed.
    Resume,
    /// A breakpoint offset added to the load base leaves the address space.
    AddressOverflow,
    /// The tracee produced more events than one run's budget allows.
    Timeout,
}

/// How often the wait call may fail in a row before the run is abandoned.
pub const MAX_WAIT_FAILURES: u32 = 64;

/// How many stop events one run may produce before it is written off as
/// hung; a bounded budget in place of a wall-clock watchdog, so that a
/// runaway tracee cannot stall the fuzzing loop forever.
pub const MAX_RUN_EVENTS: u64 = 1048576;

/// A machine word with its low byte replaced by the one-byte trap opcode.
pub open spec fn patched_word(w: u64) -> u64 {
    (w & 0xffff_ffff_ffff_ff00) | 0xcc
}

/// The content of a memory word after a write: the written value, whatever
/// stood there before.
pub open spec fn write_word(previous: u64, written: u64) -> u64 {
    written
}

/// Installing a trap touches only the low byte of the word, and restoring
/// the captured original afterwards leaves the memory byte-identical to
/// what it held before installation.
pub proof fn lemma_install_restore_round_trip(w: u64)
    ensures
        patched_word(w) & 0xff == 0xcc,
        patched_word(w) & 0xffff_ffff_ffff_ff00 == w & 0xffff_ffff_ffff_ff00,
        patched_word(w) >> 8 == w >> 8,
        write_word(write_word(w, patched_word(w)), w) == w,
{
    assert(((w & 0xffff_ffff_ffff_ff00) | 0xcc) & 0xff == 0xcc) by (bit_vector);
    assert(((w & 0xffff_ffff_ffff_ff00) | 0xcc) & 0xffff_ffff_ffff_ff00 == w
        & 0xffff_ffff_ffff_ff00) by (bit_vector);
    assert(((w & 0xffff_ffff_ffff_ff00) | 0xcc) >> 8 == w >> 8) by (bit_vector);
}

/// The word to embed in the tracee: the original with its low byte cleared
/// and set to the trap opcode.
pub fn patch_word(w: u64) -> (r: u64)
    ensures
        r == patched_word(w),
{
    (w & 0xffff_ffff_ffff_ff00) | 0xcc
}

/// Read the machine word at `addr` in the tracee, write it back with a
/// trap in its low byte, and hand out the original word for the later
/// restore. The tracee must be stopped; a failed read or write reports a
/// memory error.
pub fn set_breakpoint(pid: i32, addr: u64) -> (r: Result<i64, TraceError>)
    ensures
        r matches Err(e) ==> e is Memory,
{
    match sys::ptrace_read_word(pid, addr) {
        None => Err(TraceError::Memory),
        Some(orig) => {
            let patched = patch_word(orig as u64);
            match sys::ptrace_write_word(pid, addr, patched as i64) {
                None => Err(TraceError::Memory),
                Some(_) => Ok(orig),
            }
        },
    }
}

/// Write the captured original word back verbatim at `addr`. The tracee
/// must be stopped; a failed write reports a memory error.
pub fn restore_breakpoint(pid: i32, addr: u64, orig_value: i64) -> (r: Result<(), TraceError>)
    ensures
        r matches Err(e) ==> e is Memory,
{
    match sys::ptrace_write_word(pid, addr, orig_value) {
        None => Err(TraceError::Memory),
        Some(_) => Ok(()),
    }
}

/// Whether an address already stands in the recorded trace.
fn trace_contains(trace: &Vec<u64>, addr: u64) -> (r: bool)
    ensures
        r == trace@.contains(addr),
{
    let mut i: usize = 0;
    while i < trace.len()
        invariant
            i <= trace@.len(),
            forall|j: int| 0 <= j < i ==> trace@[j] != addr,
        decreases trace@.len() - i,
    {
        if trace[i] == addr {
            proof {
                assert(trace@.contains(addr));
            }
            return true;
        }
        i = i + 1;
    }
    proof {
        if trace@.contains(addr) {
            let j = choose|j: int| 0 <= j < trace@.len() && trace@[j] == addr;
            assert(false);
        }
    }
    false
}

/// Whether this trap stop is a breakpoint hit that must be handled: the
/// instruction pointer sits one byte past an address the run installed, and
/// that address has not fired before in this run.
pub open spec fn is_fresh_hit(rip: u64, dom: Set<u64>, recorded: Seq<u64>) -> bool {
    rip >= 1 && dom.contains((rip - 1) as u64) && !recorded.contains((rip - 1) as u64)
}

/// Handle a trap stop whose instruction pointer was read as `rip`. On a
/// fresh hit — `rip` one byte past an installed address that has not fired
/// yet — restore the original word there, rewind the instruction pointer
/// onto it, and record exactly that address; every other trap (no entry in
/// the map, or an address already restored earlier in this run) leaves the
/// trace and the tracee's memory and registers unmodified. `regs` is the
/// snapshot `rip` was projected from, needed verbatim for the rewind.
fn handle_trap_at(
    pid: i32,
    regs: &nix::libc::user_regs_struct,
    rip: u64,
    saved_values: &HashMap<u64, i64>,
    trace: &mut Vec<u64>,
) -> (r: Result<(), TraceError>)
    ensures
        r matches Err(e) ==> e is Memory || e is Regs,
        is_fresh_hit(rip, saved_values@.dom(), old(trace)@) && r is Ok ==> final(trace)@ == old(
            trace,
        )@.push((rip - 1) as u64),
        is_fresh_hit(rip, saved_values@.dom(), old(trace)@) && r is Err ==> final(trace)@ == old(
            trace,
        )@,
        !is_fresh_hit(rip, saved_values@.dom(), old(trace)@) ==> r is Ok && final(trace)@ == old(
            trace,
        )@,
{
    if rip < 1 {
        return Ok(());
    }
    let target = rip - 1;
    let orig_value = match saved_values.get(&target) {
        None => { return Ok(()) },
        Some(orig) => *orig,
    };
    if trace_contains(trace, target) {
        // the trap at this address was already consumed and restored once
        // this run; treat the stop as an unexpected trap
        return Ok(());
    }
    match restore_breakpoint(pid, target, orig_value) {
        Err(e) => { return Err(e) },
        Ok(_) => {},
    }
    let rewound = sys::regs_with_rip(regs, target);
    match sys::ptrace_setregs(pid, &rewound) {
        None => { return Err(TraceError::Regs) },
        Some(_) => {},
    }
    trace.push(target);
    Ok(())
}

/// One transition of the supervisor state machine (spec'd per event): a
/// normal exit yields the clean outcome with the trace recorded so far; a
/// segmentation fault yields the crash outcome with the faulting
/// instruction pointer, or a register error when none could be read; a trap
/// is handled by `handle_trap_at` and the tracee resumed; any other signal
/// is forwarded to the tracee unmodified; any other status resumes the
/// tracee; a wait failure raises the failure counter and gives up exactly
/// at the `MAX_WAIT_FAILURES`-th consecutive failure. `ip` is the
/// instruction pointer projected from `regs` where the event carries one.
pub fn supervise_step(
    pid: i32,
    event: WaitEvent,
    regs: Option<nix::libc::user_regs_struct>,
    ip: Option<u64>,
    mapping: &HashMap<u64, i64>,
    trace: &mut Vec<u64>,
    wait_failures: &mut u32,
) -> (r: Result<Option<ParentStatus>, TraceError>)
    requires
        *old(wait_failures) < MAX_WAIT_FAILURES,
        ip is Some <==> regs is Some,
    ensures
        r is Ok ==> *final(wait_failures) < MAX_WAIT_FAILURES,
        final(trace)@ == old(trace)@ || (exists|x: u64|
            #[trigger] mapping@.dom().contains(x) && !old(trace)@.contains(x) && final(trace)@
                == old(trace)@.push(x)),
        event is Exited ==> (r matches Ok(Some(ParentStatus::Clean(t))) && t@ == old(trace)@
            && final(trace)@ == old(trace)@),
        event is StoppedSegv && ip is Some ==> (r matches Ok(Some(ParentStatus::Crash(a))) && a
            == ip->0) && final(trace)@ == old(trace)@,
        event is StoppedSegv && ip is None ==> (r matches Err(TraceError::Regs)) && final(trace)@
            == old(trace)@,
        event is StoppedTrap && ip is None ==> (r matches Err(TraceError::Regs)) && final(trace)@
            == old(trace)@,
        event is StoppedTrap && ip is Some && is_fresh_hit(
            ip->0,
            mapping@.dom(),
            old(trace)@,
        ) ==> {
            &&& r is Ok ==> (r matches Ok(None)) && final(trace)@ == old(trace)@.push(
                (ip->0 - 1) as u64,
            )
            &&& r is Err ==> (final(trace)@ == old(trace)@ || final(trace)@ == old(trace)@.push(
                (ip->0 - 1) as u64,
            ))
        },
        event is StoppedTrap && ip is Some && !is_fresh_hit(
            ip->0,
            mapping@.dom(),
            old(trace)@,
        ) ==> ((r matches Ok(None)) || (r matches Err(TraceError::Resume))) && final(trace)@ == old(
            trace,
        )@,
        event is StoppedOther ==> (r matches Ok(None)) && final(trace)@ == old(trace)@,
        event is OtherStatus ==> ((r matches Ok(None)) || (r matches Err(TraceError::Resume)))
            && final(trace)@ == old(trace)@,
        event is WaitFailed ==> final(trace)@ == old(trace)@ && *final(wait_failures) == *old(
            wait_failures,
        ) + 1 && ((r matches Err(TraceError::Wait)) <==> *old(wait_failures) + 1
            >= MAX_WAIT_FAILURES) && (*old(wait_failures) + 1 < MAX_WAIT_FAILURES ==> (r matches Ok(
            None,
        ))),
        event !is WaitFailed ==> *final(wait_failures) == 0,
{
    match event {
        WaitEvent::StoppedTrap => {
            *wait_failures = 0;
            let rg = match regs {
                None => { return Err(TraceError::Regs) },
                Some(rg) => rg,
            };
            let a = match ip {
                None => { return Err(TraceError::Regs) },
                Some(a) => a,
            };
            match handle_trap_at(pid, &rg, a, mapping, trace) {
                Err(e) => { return Err(e) },
                Ok(_) => {},
            }
            match sys::ptrace_cont(pid, None) {
                None => Err(TraceError::Resume),
                Some(_) => Ok(None),
            }
        },
        WaitEvent::StoppedSegv => {
            *wait_failures = 0;
            match ip {
                None => Err(TraceError::Regs),
                Some(a) => Ok(Some(ParentStatus::Crash(a))),
            }
        },
        WaitEvent::StoppedOther(signal) => {
            *wait_failures = 0;
            // forward the signal unmodified; a delivery failure is
            // recorded by waiting again rather than by giving up
            match sys::ptrace_cont(pid, Some(signal)) {
                _ => {},
            }
            Ok(None)
        },
        WaitEvent::Exited => {
            *wait_failures = 0;
            Ok(Some(ParentStatus::Clean(crate::mutator::clone_addrs(trace))))
        },
        WaitEvent::OtherStatus => {
            *wait_failures = 0;
            match sys::ptrace_cont(pid, None) {
                None => Err(TraceError::Resume),
                Some(_) => Ok(None),
            }
        },
        WaitEvent::WaitFailed => {
            *wait_failures = *wait_failures + 1;
            if *wait_failures >= MAX_WAIT_FAILURES {
                Err(TraceError::Wait)
            } else {
                Ok(None)
            }
        },
    }
}

/// Own the wait/continue loop for one tracee until it exits or crashes.
/// A clean exit reports the ordered trace of breakpoint hits, every one of
/// them an address the breakpoint map knows and none of them twice: a
/// breakpoint fires at most once per execution, since its trap is restored
/// on the first hit. A segmentation fault reports the faulting instruction
/// pointer. Signals the supervisor does not understand are forwarded to the
/// tracee unmodified; the per-event behaviour is the contract of
/// `supervise_step`, and a wait failure is retried a bounded number of
/// times rather than looping forever.
pub fn run_parent(pid: i32, mapping: &HashMap<u64, i64>) -> (r: Result<ParentStatus, TraceError>)
    ensures
        r matches Ok(ParentStatus::Clean(t)) ==> forall|k: int|
            0 <= k < t@.len() ==> mapping@.dom().contains(#[trigger] t@[k]),
        r matches Ok(ParentStatus::Clean(t)) ==> forall|k1: int, k2: int|
            0 <= k1 < k2 < t@.len() ==> t@[k1] != t@[k2],
{
    let mut trace: Vec<u64> = Vec::new();
    let mut wait_failures: u32 = 0;
    let mut events: u64 = 0;
    while events < MAX_RUN_EVENTS
        invariant
            wait_failures < MAX_WAIT_FAILURES,
            events <= MAX_RUN_EVENTS,
            forall|k: int| 0 <= k < trace@.len() ==> mapping@.dom().contains(#[trigger] trace@[k]),
            forall|k1: int, k2: int| 0 <= k1 < k2 < trace@.len() ==> trace@[k1] != trace@[k2],
        decreases MAX_RUN_EVENTS - events,
    {
        events = events + 1;
        let event = sys::wait_event(pid);
        let needs_regs = match event {
            WaitEvent::StoppedTrap => true,
            WaitEvent::StoppedSegv => true,
            _ => false,
        };
        let (regs, ip) = if needs_regs {
            match sys::ptrace_getregs(pid) {
                Some(rg) => {
                    let a = sys::regs_rip(&rg);
                    (Some(rg), Some(a))
                },
                None => (None, None),
            }
        } else {
            (None, None)
        };
        let ghost pre_trace = trace@;
        match supervise_step(pid, event, regs, ip, mapping, &mut trace, &mut wait_failures) {
            Ok(None) => {
                proof {
                    if trace@ != pre_trace {
                        let x = choose|x: u64|
                            #[trigger] mapping@.dom().contains(x) && !pre_trace.contains(x)
                                && trace@ == pre_trace.push(x);
                        assert(forall|k: int| 0 <= k < pre_trace.len() ==> pre_trace[k] != x);
                    }
                }
            },
            Ok(Some(status)) => { return Ok(status) },
            Err(e) => { return Err(e) },
        }
    }
    Err(TraceError::Timeout)
}

/// With no breakpoints installed, every clean outcome carries the empty
/// trace: each recorded address lies in the breakpoint map's domain, and
/// there is none.
pub proof fn lemma_no_breakpoints_means_empty_trace(dom: Set<u64>, t: Seq<u64>)
    requires
        dom =~= Set::<u64>::empty(),
        forall|k: int| 0 <= k < t.len() ==> dom.contains(#[trigger] t[k]),
    ensures
        t == Seq::<u64>::empty(),
{
    if t.len() > 0 {
        assert(dom.contains(t[0]));
    }
    assert(t =~= Seq::<u64>::empty());
}

/// Hits are recorded in chronological order with their repetitions: a run
/// that visits a, then b, then a again is recorded as [a, b, a], which
/// differs from the recording of a, a, b although both visit exactly the
/// same addresses.
pub proof fn lemma_trace_order_distinguishes(a: u64, b: u64)
    requires
        a != b,
    ensures
        seq![a].push(b).push(a) == seq![a, b, a],
        seq![a, b, a] != seq![a, a, b],
        forall|x: u64| seq![a, b, a].contains(x) <==> seq![a, a, b].contains(x),
{
    assert(seq![a].push(b).push(a) =~= seq![a, b, a]);
    assert(seq![a, b, a][1] == b && seq![a, a, b][1] == a);
    assert forall|x: u64| seq![a, b, a].contains(x) <==> seq![a, a, b].contains(x) by {
        if x == a {
            assert(seq![a, b, a][0] == x);
            assert(seq![a, a, b][0] == x);
        } else if x == b {
            assert(seq![a, b, a][1] == x);
            assert(seq![a, a, b][2] == x);
        } else {
            assert(forall|i: int| 0 <= i < 3 ==> seq![a, b, a][i] != x);
            assert(forall|i: int| 0 <= i < 3 ==> seq![a, a, b][i] != x);
        }
    }
}

} // verus!
