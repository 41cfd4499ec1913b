//! Resolving a tracee's load base from its memory-map listing, and
//! pre-installing the configured breakpoints before the tracee is allowed
//! past its entry stop.

use vstd::prelude::*;
use std::collections::HashMap;
use crate::hex;
use crate::parent;
use crate::parent::TraceError;
use crate::sys;
use crate::sys::WaitEvent;

verus! {

broadcast use vstd::std_specs::hash::group_hash_axioms;

/// The first position at or after `from` holding byte `b`, or the length
/// of the string if there is none.
pub open spec fn first_at(s: Seq<u8>, from: int, b: u8) -> int
    decreases s.len() - from,
{
    if !(0 <= from < s.len()) {
        s.len() as int
    } else if s[from] == b {
        from
    } else {
        first_at(s, from + 1, b)
    }
}

/// The first position at or after `from` holding a byte other than `b`,
/// or the length of the string if there is none.
pub open spec fn first_not(s: Seq<u8>, from: int, b: u8) -> int
    decreases s.len() - from,
{
    if !(0 <= from < s.len()) {
        s.len() as int
    } else if s[from] != b {
        from
    } else {
        first_not(s, from + 1, b)
    }
}

/// Whether a memory-map line describes an executable mapping: its second
/// whitespace-separated field contains the executable permission bit.
pub open spec fn exec_perm_line(s: Seq<u8>) -> bool {
    let e0 = first_at(s, 0, 32);
    let p0 = first_not(s, e0, 32);
    let p1 = first_at(s, p0, 32);
    exists|k: int| p0 <= k < p1 && s[k] == 120
}

/// Where the address field of a memory-map line ends: at the dash that
/// separates the mapping's start from its end, or at the first space if no
/// dash precedes it.
pub open spec fn addr_end(s: Seq<u8>) -> int {
    let e0 = first_at(s, 0, 32);
    let d = first_at(s, 0, 45);
    if d < e0 {
        d
    } else {
        e0
    }
}

/// The load base a memory-map listing yields: the parsed start address of
/// the first line describing an executable mapping, or nothing if no such
/// line exists or its address does not parse.
pub open spec fn maps_base(lines: Seq<Seq<u8>>) -> Option<u64>
    decreases lines.len(),
{
    if lines.len() == 0 {
        None
    } else if exec_perm_line(lines[0]) {
        hex::hex_option(lines[0].take(addr_end(lines[0])))
    } else {
        maps_base(lines.drop_first())
    }
}

/// The first position at or after `from` holding byte `b`.
fn find_byte(v: &Vec<u8>, from: usize, b: u8) -> (r: usize)
    requires
        from <= v@.len(),
    ensures
        r == first_at(v@, from as int, b),
        from <= r <= v@.len(),
        r < v@.len() ==> v@[r as int] == b,
        forall|k: int| from <= k < r ==> v@[k] != b,
    decreases v@.len() - from,
{
    let mut i: usize = from;
    while i < v.len()
        invariant
            from <= i <= v@.len(),
            first_at(v@, from as int, b) == first_at(v@, i as int, b),
            forall|k: int| from <= k < i ==> v@[k] != b,
        decreases v@.len() - i,
    {
        if v[i] == b {
            return i;
        }
        i = i + 1;
    }
    i
}

/// The first position at or after `from` holding a byte other than `b`.
fn skip_byte(v: &Vec<u8>, from: usize, b: u8) -> (r: usize)
    requires
        from <= v@.len(),
    ensures
        r == first_not(v@, from as int, b),
        from <= r <= v@.len(),
    decreases v@.len() - from,
{
    let mut i: usize = from;
    while i < v.len()
        invariant
            from <= i <= v@.len(),
            first_not(v@, from as int, b) == first_not(v@, i as int, b),
        decreases v@.len() - i,
    {
        if v[i] != b {
            return i;
        }
        i = i + 1;
    }
    i
}

/// Whether byte `b` occurs in `v[from..to]`.
fn contains_byte(v: &Vec<u8>, from: usize, to: usize, b: u8) -> (r: bool)
    requires
        from <= to <= v@.len(),
    ensures
        r == exists|k: int| from <= k < to && v@[k] == b,
{
    let mut i: usize = from;
    while i < to
        invariant
            from <= i <= to <= v@.len(),
            forall|k: int| from <= k < i ==> v@[k] != b,
        decreases to - i,
    {
        if v[i] == b {
            return true;
        }
        i = i + 1;
    }
    false
}

/// Find the load base in the lines of a process memory-map listing: the
/// hexadecimal start address of the first mapping whose permission field
/// contains the executable bit. Returns nothing — a fatal initialization
/// error for the caller — if no executable mapping is listed or its
/// address field does not parse.
pub fn find_executable_base(lines: &Vec<Vec<u8>>) -> (r: Option<u64>)
    ensures
        r == maps_base(lines.deep_view()),
{
    let ghost all = lines.deep_view();
    proof {
        assert(all =~= all.skip(0));
    }
    let mut i: usize = 0;
    while i < lines.len()
        invariant
            i <= lines@.len(),
            all == lines.deep_view(),
            all.len() == lines@.len(),
            forall|j: int| 0 <= j < all.len() ==> all[j] == lines@[j]@,
            maps_base(all) == maps_base(all.skip(i as int)),
        decreases lines@.len() - i,
    {
        let line = &lines[i];
        let e0 = find_byte(line, 0, 32);
        let p0 = skip_byte(line, e0, 32);
        let p1 = find_byte(line, p0, 32);
        proof {
            assert(line@ == all[i as int]);
            assert(p0 >= e0) by {
                lemma_first_not_at_least(line@, e0 as int, 32);
            }
            assert(p1 >= p0) by {
                lemma_first_at_at_least(line@, p0 as int, 32);
            }
        }
        if contains_byte(line, p0, p1, 120) {
            proof {
                assert(exec_perm_line(all[i as int]));
                assert(all.skip(i as int)[0] == all[i as int]);
            }
            let d = find_byte(line, 0, 45);
            let stop = if d < e0 {
                d
            } else {
                e0
            };
            proof {
                assert(stop == addr_end(all[i as int]));
                assert(line@.take(stop as int) =~= line@.subrange(0, stop as int));
            }
            return hex::parse_hex_range(line, 0, stop);
        }
        proof {
            assert(!exec_perm_line(all[i as int]));
            assert(all.skip(i as int)[0] == all[i as int]);
            assert(all.skip(i as int).drop_first() =~= all.skip(i + 1));
        }
        i = i + 1;
    }
    proof {
        assert(all.skip(all.len() as int).len() == 0);
    }
    None
}

proof fn lemma_first_at_at_least(s: Seq<u8>, from: int, b: u8)
    requires
        0 <= from <= s.len(),
    ensures
        from <= first_at(s, from, b) <= s.len(),
    decreases s.len() - from,
{
    if from < s.len() && s[from] != b {
        lemma_first_at_at_least(s, from + 1, b);
    }
}

proof fn lemma_first_not_at_least(s: Seq<u8>, from: int, b: u8)
    requires
        0 <= from <= s.len(),
    ensures
        from <= first_not(s, from, b) <= s.len(),
    decreases s.len() - from,
{
    if from < s.len() && s[from] == b {
        lemma_first_not_at_least(s, from + 1, b);
    }
}

/// The absolute addresses a list of offsets denotes over a load base.
pub open spec fn addr_set(offsets: Seq<u64>, base: u64) -> Set<u64> {
    Set::new(
        |a: u64| exists|i: int| 0 <= i < offsets.len() && #[trigger] offsets[i] + base == a as int,
    )
}

proof fn lemma_addr_set_take_step(offsets: Seq<u64>, base: u64, k: int, a: u64)
    requires
        0 <= k < offsets.len(),
        offsets[k] + base == a as int,
    ensures
        addr_set(offsets.take(k + 1), base) =~= addr_set(offsets.take(k), base).insert(a),
{
    let pre = offsets.take(k);
    let cur = offsets.take(k + 1);
    assert(cur[k] == offsets[k]);
    assert forall|x: u64| addr_set(cur, base).contains(x) implies addr_set(pre, base).insert(
        a,
    ).contains(x) by {
        let i = choose|i: int| 0 <= i < cur.len() && #[trigger] cur[i] + base == x as int;
        if i < k {
            assert(pre[i] + base == x as int);
        }
    }
    assert forall|x: u64| addr_set(pre, base).insert(a).contains(x) implies addr_set(
        cur,
        base,
    ).contains(x) by {
        if addr_set(pre, base).contains(x) {
            let i = choose|i: int| 0 <= i < pre.len() && #[trigger] pre[i] + base == x as int;
            assert(cur[i] + base == x as int);
        } else {
            assert(cur[k] + base == x as int);
        }
    }
}

/// Install a breakpoint at `offset + base` for every configured offset,
/// remembering each original word under its absolute address. On success
/// the map's domain has grown by exactly those addresses; an offset that
/// leaves the address space is reported as such before anything else is
/// touched, and a failed install aborts the run.
pub fn install_breakpoints(
    pid: i32,
    base: u64,
    offsets: &Vec<u64>,
    bpmap: &mut HashMap<u64, i64>,
) -> (r: Result<(), TraceError>)
    ensures
        r is Ok ==> final(bpmap)@.dom() == old(bpmap)@.dom().union(addr_set(offsets@, base)),
        offsets@.len() == 0 ==> r is Ok,
        r matches Err(e) ==> e is AddressOverflow || e is Memory,
        r matches Err(e) && e is AddressOverflow ==> exists|i: int|
            0 <= i < offsets@.len() && #[trigger] offsets@[i] + base > u64::MAX,
{
    let mut k: usize = 0;
    proof {
        assert(addr_set(offsets@.take(0), base) =~= Set::<u64>::empty());
        assert(bpmap@.dom() =~= bpmap@.dom().union(addr_set(offsets@.take(0), base)));
    }
    while k < offsets.len()
        invariant
            k <= offsets@.len(),
            bpmap@.dom() =~= old(bpmap)@.dom().union(addr_set(offsets@.take(k as int), base)),
        decreases offsets@.len() - k,
    {
        let offset = offsets[k];
        let addr = match offset.checked_add(base) {
            None => { return Err(TraceError::AddressOverflow) },
            Some(a) => a,
        };
        let orig = match parent::set_breakpoint(pid, addr) {
            Err(e) => { return Err(e) },
            Ok(w) => w,
        };
        bpmap.insert(addr, orig);
        proof {
            lemma_addr_set_take_step(offsets@, base, k as int, addr);
        }
        k = k + 1;
    }
    proof {
        assert(offsets@.take(offsets@.len() as int) =~= offsets@);
    }
    Ok(())
}

/// Wait for the implicit trap the trace mechanism raises at program entry.
/// Any other first event means the tracee could not be started under
/// control.
pub fn wait_for_entry_trap(pid: i32) -> (r: Result<(), TraceError>)
    ensures
        r matches Err(e) ==> e is Wait,
{
    match sys::wait_event(pid) {
        WaitEvent::StoppedTrap => Ok(()),
        _ => Err(TraceError::Wait),
    }
}

/// Let the tracee run on past a stop.
pub fn resume_tracee(pid: i32) -> (r: Result<(), TraceError>)
    ensures
        r matches Err(e) ==> e is Resume,
{
    match sys::ptrace_cont(pid, None) {
        None => Err(TraceError::Resume),
        Some(_) => Ok(()),
    }
}

} // verus!
