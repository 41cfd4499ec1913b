use std::collections::HashMap;

use rufus::parent::{supervise_step, ParentStatus, TraceError};
use rufus::sys::WaitEvent;

fn regs_with_rip(rip: u64) -> nix::libc::user_regs_struct {
    nix::libc::user_regs_struct {
        r15: 0,
        r14: 0,
        r13: 0,
        r12: 0,
        rbp: 0,
        rbx: 0,
        r11: 0,
        r10: 0,
        r9: 0,
        r8: 0,
        rax: 0,
        rcx: 0,
        rdx: 0,
        rsi: 0,
        rdi: 0,
        orig_rax: 0,
        rip,
        cs: 0,
        eflags: 0,
        rsp: 0,
        ss: 0,
        fs_base: 0,
        gs_base: 0,
        ds: 0,
        es: 0,
        fs: 0,
        gs: 0,
    }
}

const DEAD_PID: i32 = 999999;

#[test]
fn exit_reports_clean_with_the_trace_so_far() {
    let map: HashMap<u64, i64> = HashMap::new();
    let mut trace = vec![0x400010u64, 0x400020];
    let mut failures: u32 = 0;
    let r = supervise_step(DEAD_PID, WaitEvent::Exited, None, None, &map, &mut trace, &mut failures);
    match r {
        Ok(Some(ParentStatus::Clean(t))) => assert_eq!(t, vec![0x400010u64, 0x400020]),
        other => panic!("expected a clean outcome, got {:?}", other.map(|_| ())),
    }
    assert_eq!(trace, vec![0x400010u64, 0x400020]);
}

#[test]
fn segfault_reports_the_faulting_instruction_pointer() {
    let map: HashMap<u64, i64> = HashMap::new();
    let mut trace: Vec<u64> = vec![];
    let mut failures: u32 = 0;
    let regs = regs_with_rip(0xdead_beef);
    let r = supervise_step(
        DEAD_PID,
        WaitEvent::StoppedSegv,
        Some(regs),
        Some(0xdead_beef),
        &map,
        &mut trace,
        &mut failures,
    );
    assert!(matches!(r, Ok(Some(ParentStatus::Crash(0xdead_beef)))));
    assert!(trace.is_empty());
}

#[test]
fn a_stop_without_readable_registers_is_a_register_error() {
    let map: HashMap<u64, i64> = HashMap::new();
    let mut trace: Vec<u64> = vec![];
    let mut failures: u32 = 0;
    let r = supervise_step(DEAD_PID, WaitEvent::StoppedTrap, None, None, &map, &mut trace, &mut failures);
    assert!(matches!(r, Err(TraceError::Regs)));
    let r = supervise_step(DEAD_PID, WaitEvent::StoppedSegv, None, None, &map, &mut trace, &mut failures);
    assert!(matches!(r, Err(TraceError::Regs)));
    assert!(trace.is_empty());
}

#[test]
fn wait_failures_give_up_exactly_at_the_bound() {
    let map: HashMap<u64, i64> = HashMap::new();
    let mut trace: Vec<u64> = vec![];
    let mut failures: u32 = 0;
    for expected in 1..64u32 {
        let r = supervise_step(DEAD_PID, WaitEvent::WaitFailed, None, None, &map, &mut trace, &mut failures);
        assert!(matches!(r, Ok(None)));
        assert_eq!(failures, expected);
    }
    let r = supervise_step(DEAD_PID, WaitEvent::WaitFailed, None, None, &map, &mut trace, &mut failures);
    assert!(matches!(r, Err(TraceError::Wait)));
    assert_eq!(failures, 64);
}

#[test]
fn a_successful_wait_resets_the_failure_count() {
    let map: HashMap<u64, i64> = HashMap::new();
    let mut trace: Vec<u64> = vec![];
    let mut failures: u32 = 5;
    let r = supervise_step(DEAD_PID, WaitEvent::StoppedOther(10), None, None, &map, &mut trace, &mut failures);
    assert!(matches!(r, Ok(None)));
    assert_eq!(failures, 0);
}

#[test]
fn an_unknown_signal_keeps_the_loop_running() {
    // forwarding to a dead process fails to deliver; the supervisor keeps
    // waiting rather than giving up
    let map: HashMap<u64, i64> = HashMap::new();
    let mut trace: Vec<u64> = vec![0x1];
    let mut failures: u32 = 0;
    let r = supervise_step(DEAD_PID, WaitEvent::StoppedOther(10), None, None, &map, &mut trace, &mut failures);
    assert!(matches!(r, Ok(None)));
    assert_eq!(trace, vec![0x1]);
}

#[test]
fn an_unexpected_trap_records_nothing() {
    // no entry one byte below the instruction pointer: nothing may be
    // recorded, and the resume on a dead process fails
    let map: HashMap<u64, i64> = HashMap::new();
    let mut trace: Vec<u64> = vec![];
    let mut failures: u32 = 0;
    let regs = regs_with_rip(0x400011);
    let r = supervise_step(
        DEAD_PID,
        WaitEvent::StoppedTrap,
        Some(regs),
        Some(0x400011),
        &map,
        &mut trace,
        &mut failures,
    );
    assert!(matches!(r, Err(TraceError::Resume)));
    assert!(trace.is_empty());
}

#[test]
fn an_address_already_restored_is_not_recorded_twice() {
    // the trap at 0x400010 already fired once this run; a second stop at
    // the same spot is treated as an unexpected trap
    let mut map: HashMap<u64, i64> = HashMap::new();
    map.insert(0x400010, 0x48c7c03c);
    let mut trace: Vec<u64> = vec![0x400010];
    let mut failures: u32 = 0;
    let regs = regs_with_rip(0x400011);
    let r = supervise_step(
        DEAD_PID,
        WaitEvent::StoppedTrap,
        Some(regs),
        Some(0x400011),
        &map,
        &mut trace,
        &mut failures,
    );
    assert!(matches!(r, Err(TraceError::Resume)));
    assert_eq!(trace, vec![0x400010]);
}

#[test]
fn a_fresh_hit_on_a_dead_process_is_a_memory_error() {
    // restoring the original word fails before anything is recorded
    let mut map: HashMap<u64, i64> = HashMap::new();
    map.insert(0x400010, 0x48c7c03c);
    let mut trace: Vec<u64> = vec![];
    let mut failures: u32 = 0;
    let regs = regs_with_rip(0x400011);
    let r = supervise_step(
        DEAD_PID,
        WaitEvent::StoppedTrap,
        Some(regs),
        Some(0x400011),
        &map,
        &mut trace,
        &mut failures,
    );
    assert!(matches!(r, Err(TraceError::Memory)));
    assert!(trace.is_empty());
}
