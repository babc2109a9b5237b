use mevi::event::{AddrRange, MeviEvent, TraceeId, TraceePayload};
use mevi::memmap::MemState;
use mevi::tracer::{SignalAction, StopSignal, SysExit, SysRegs, Tracee, Tracer};

fn regs(orig_rax: u64, rax: u64, rdi: u64, rsi: u64, r8: u64) -> SysRegs {
    SysRegs { orig_rax, rax, rdi, rsi, r8 }
}

const MMAP: u64 = 9;
const BRK: u64 = 12;
const NO_FD: u64 = 0xffff_ffff;

#[test]
fn anonymous_mmap_maps_not_resident() {
    let mut t = Tracee::new(TraceeId(1));
    let r = t.on_sys_exit(regs(MMAP, 0x7f00_0000_0000, 0, 65536, NO_FD));
    assert_eq!(
        r,
        SysExit::Mapped(
            AddrRange { start: 0x7f00_0000_0000, end: 0x7f00_0001_0000 },
            MemState::NotResident
        )
    );
}

#[test]
fn mmap_with_fd_or_hint_is_ignored() {
    let mut t = Tracee::new(TraceeId(1));
    assert_eq!(t.on_sys_exit(regs(MMAP, 0x7f00_0000_0000, 0, 4096, 3)), SysExit::Ignored);
    assert_eq!(
        t.on_sys_exit(regs(MMAP, 0x7f00_0000_0000, 0x7f00_0000_0000, 4096, NO_FD)),
        SysExit::Ignored
    );
}

#[test]
fn failed_mmap_is_ignored() {
    let mut t = Tracee::new(TraceeId(1));
    let enomem = (-12i64) as u64;
    assert_eq!(t.on_sys_exit(regs(MMAP, enomem, 0, 4096, NO_FD)), SysExit::Ignored);
}

#[test]
fn brk_grow_then_shrink() {
    let mut t = Tracee::new(TraceeId(1));
    let h0: u64 = 0x5555_0000;
    assert_eq!(t.on_sys_exit(regs(BRK, h0, 0, 0, 0)), SysExit::Ignored);
    assert_eq!(t.heap_range, Some(AddrRange { start: h0, end: h0 }));
    assert_eq!(
        t.on_sys_exit(regs(BRK, h0 + 4096, h0 + 4096, 0, 0)),
        SysExit::Mapped(AddrRange { start: h0, end: h0 + 4096 }, MemState::Resident)
    );
    assert_eq!(t.on_sys_exit(regs(BRK, h0, h0, 0, 0)), SysExit::Ignored);
    assert_eq!(t.heap_range, Some(AddrRange { start: h0, end: h0 }));
}

#[test]
fn second_brk_query_keeps_heap() {
    let mut t = Tracee::new(TraceeId(1));
    t.on_sys_exit(regs(BRK, 0x1000, 0, 0, 0));
    t.on_sys_exit(regs(BRK, 0x9000, 0, 0, 0));
    assert_eq!(t.heap_range, Some(AddrRange { start: 0x1000, end: 0x1000 }));
}

#[test]
fn brk_before_query_is_ignored() {
    let mut t = Tracee::new(TraceeId(1));
    assert_eq!(t.on_sys_exit(regs(BRK, 0x3000, 0x3000, 0, 0)), SysExit::Ignored);
    assert_eq!(t.heap_range, None);
}

#[test]
fn execve_forgets_heap() {
    let mut t = Tracee::new(TraceeId(1));
    t.on_sys_exit(regs(BRK, 0x1000, 0, 0, 0));
    assert_eq!(t.on_sys_exit(regs(59, 0, 0, 0, 0)), SysExit::Execve);
    assert_eq!(t.heap_range, None);
    t.on_sys_exit(regs(BRK, 0x1000, 0, 0, 0));
    assert_eq!(t.on_sys_exit(regs(322, 0, 0, 0, 0)), SysExit::Execve);
    assert_eq!(t.heap_range, None);
}

#[test]
fn syscall_stops_alternate() {
    let mut tr = Tracer::new();
    assert!(!tr.on_syscall_stop(TraceeId(7)));
    assert!(tr.on_syscall_stop(TraceeId(7)));
    assert!(!tr.on_syscall_stop(TraceeId(8)));
    assert!(!tr.on_syscall_stop(TraceeId(7)));
    assert!(tr.on_syscall_stop(TraceeId(8)));
    assert_eq!(tr.tracees.len(), 2);
}

#[test]
fn fork_arms_next_stop() {
    let mut tr = Tracer::new();
    tr.on_ptrace_event(TraceeId(5), 1);
    assert_eq!(tr.next_parent, Some(TraceeId(5)));
    assert_eq!(
        tr.on_signal(StopSignal::Stop),
        SignalAction { adopt_from: Some(TraceeId(5)), forward: None }
    );
    assert_eq!(tr.next_parent, None);
    assert_eq!(tr.on_signal(StopSignal::Stop), SignalAction { adopt_from: None, forward: None });
}

#[test]
fn clone_and_vfork_do_not_arm() {
    let mut tr = Tracer::new();
    tr.on_ptrace_event(TraceeId(5), 2);
    tr.on_ptrace_event(TraceeId(5), 3);
    assert_eq!(tr.next_parent, None);
}

#[test]
fn signals_are_forwarded_traps_are_not() {
    let mut tr = Tracer::new();
    assert_eq!(tr.on_signal(StopSignal::Trap), SignalAction { adopt_from: None, forward: None });
    assert_eq!(
        tr.on_signal(StopSignal::Other(10)),
        SignalAction { adopt_from: None, forward: Some(10) }
    );
}

#[test]
fn exit_forgets_scratch_and_reports_exit() {
    let mut tr = Tracer::new();
    tr.on_syscall_stop(TraceeId(7));
    tr.on_syscall_stop(TraceeId(8));
    assert_eq!(tr.on_exit(TraceeId(7)), MeviEvent::TraceeEvent(TraceeId(7), TraceePayload::Exit));
    assert_eq!(tr.tracees.len(), 1);
    assert!(!tr.on_syscall_stop(TraceeId(7)));
    assert_eq!(tr.on_exit(TraceeId(99)), MeviEvent::TraceeEvent(TraceeId(99), TraceePayload::Exit));
    assert_eq!(tr.tracees.len(), 2);
}
