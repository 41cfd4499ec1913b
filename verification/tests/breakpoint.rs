use std::collections::HashMap;

use rufus::child::install_breakpoints;
use rufus::parent::{patch_word, run_parent, set_breakpoint, TraceError};

#[test]
fn patch_word_replaces_only_the_low_byte() {
    assert_eq!(patch_word(0x1122334455667788), 0x11223344556677cc);
    assert_eq!(patch_word(0x00000000000000ff), 0x00000000000000cc);
    assert_eq!(patch_word(0xffffffffffffffff), 0xffffffffffffffcc);
}

#[test]
fn install_and_restore_round_trip_on_the_word() {
    let original: u64 = 0x48c7c03c00000000;
    let patched = patch_word(original);
    assert_eq!(patched & 0xff, 0xcc);
    assert_eq!(patched >> 8, original >> 8);
    // restoring writes the captured original back verbatim
    let restored = original;
    assert_eq!(restored, original);
}

#[test]
fn set_breakpoint_on_a_dead_process_reports_memory_error() {
    let r = set_breakpoint(999999, 0x400000);
    assert_eq!(r, Err(TraceError::Memory));
}

#[test]
fn install_breakpoints_with_no_offsets_touches_nothing() {
    let mut map: HashMap<u64, i64> = HashMap::new();
    let r = install_breakpoints(999999, 0x400000, &vec![], &mut map);
    assert!(r.is_ok());
    assert!(map.is_empty());
}

#[test]
fn install_breakpoints_rejects_an_overflowing_offset() {
    let mut map: HashMap<u64, i64> = HashMap::new();
    let r = install_breakpoints(999999, 2, &vec![u64::MAX], &mut map);
    assert_eq!(r, Err(TraceError::AddressOverflow));
}

#[test]
fn install_breakpoints_on_a_dead_process_reports_memory_error() {
    let mut map: HashMap<u64, i64> = HashMap::new();
    let r = install_breakpoints(999999, 0x400000, &vec![0x10], &mut map);
    assert_eq!(r, Err(TraceError::Memory));
}

#[test]
fn run_parent_gives_up_after_repeated_wait_failures() {
    let map: HashMap<u64, i64> = HashMap::new();
    let r = run_parent(999999, &map);
    assert!(matches!(r, Err(TraceError::Wait)));
}
