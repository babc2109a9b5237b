use crate::event::{AddrRange, MeviEvent, TraceeId, TraceePayload};
use crate::memmap::MemState;
use vstd::prelude::*;

verus! {

/// Relies on `libc::SYS_mmap`: the number of `mmap` on x86-64 Linux.
#[verifier::external_body]
fn sys_mmap() -> (r: i64)
    ensures
        r == 9,
{
    libc::SYS_mmap
}

/// Relies on `libc::SYS_brk`: the number of `brk` on x86-64 Linux.
#[verifier::external_body]
fn sys_brk() -> (r: i64)
    ensures
        r == 12,
{
    libc::SYS_brk
}

/// Relies on `libc::SYS_execve`: the number of `execve` on x86-64 Linux.
#[verifier::external_body]
fn sys_execve() -> (r: i64)
    ensures
        r == 59,
{
    libc::SYS_execve
}

/// Relies on `libc::SYS_execveat`: the number of `execveat` on x86-64 Linux.
#[verifier::external_body]
fn sys_execveat() -> (r: i64)
    ensures
        r == 322,
{
    libc::SYS_execveat
}

/// Relies on `libc::PTRACE_EVENT_FORK`: the ptrace event of a fork.
#[verifier::external_body]
fn ptrace_event_fork() -> (r: i32)
    ensures
        r == 1,
{
    libc::PTRACE_EVENT_FORK
}

/// The smallest return value of a system call that is an error (`-4095`).
pub const FIRST_ERRNO_RETURN: u64 = 0xffff_ffff_ffff_f001;

/// The registers read at a syscall-exit stop.
#[derive(Clone, Copy, PartialEq, Eq, Debug, Structural)]
pub struct SysRegs {
    /// The syscall number.
    pub orig_rax: u64,
    /// The return value.
    pub rax: u64,
    /// The first argument.
    pub rdi: u64,
    /// The second argument.
    pub rsi: u64,
    /// The fifth argument.
    pub r8: u64,
}

/// What a syscall exit means to the map.
#[derive(Clone, Copy, PartialEq, Eq, Debug, Structural)]
pub enum SysExit {
    /// Nothing to report.
    Ignored,
    /// A new program image: the tracee's earlier state is gone.
    Execve,
    /// A new range was mapped, in the given state.
    Mapped(AddrRange, MemState),
}

/// The tracer's scratch state for one tracee.
#[derive(Clone, Copy, PartialEq, Eq, Debug, Structural)]
pub struct Tracee {
    pub tid: TraceeId,
    /// Whether the next syscall stop is an exit.
    pub was_in_syscall: bool,
    /// The heap, from its start to its current top, once `brk(0)` told it.
    pub heap_range: Option<AddrRange>,
}

/// A signal that stopped a tracee, as the tracer tells them apart.
#[derive(Clone, Copy, PartialEq, Eq, Debug, Structural)]
pub enum StopSignal {
    Trap,
    Stop,
    Other(i32),
}

/// What to do for a signal-delivery stop.
#[derive(Clone, Copy, PartialEq, Eq, Debug, Structural)]
pub struct SignalAction {
    /// The parent whose pending userfault descriptor the stopped tracee adopts.
    pub adopt_from: Option<TraceeId>,
    /// The signal to pass on when resuming the tracee.
    pub forward: Option<i32>,
}

/// Whether `ret` is a successful return (not `-1` to `-4095`).
pub open spec fn is_success(ret: u64) -> bool {
    ret < FIRST_ERRNO_RETURN
}

/// The meaning of a syscall exit with registers `r` for a tracee whose heap is `heap`.
pub open spec fn sys_exit_spec(heap: Option<AddrRange>, r: SysRegs) -> SysExit {
    if r.orig_rax == 59 || r.orig_rax == 322 {
        SysExit::Execve
    } else if r.orig_rax == 9 {
        if r.r8 % 0x1_0000_0000 == 0xffff_ffff && r.rdi == 0 && is_success(r.rax) && r.rsi > 0 && r.rax + r.rsi
            <= u64::MAX {
            SysExit::Mapped(
                AddrRange { start: r.rax, end: (r.rax + r.rsi) as u64 },
                MemState::NotResident,
            )
        } else {
            SysExit::Ignored
        }
    } else if r.orig_rax == 12 && r.rdi != 0 && heap is Some && r.rax > heap->0.end {
        SysExit::Mapped(AddrRange { start: heap->0.end, end: r.rax }, MemState::Resident)
    } else {
        SysExit::Ignored
    }
}

/// The heap after a syscall exit with registers `r`.
pub open spec fn heap_after(heap: Option<AddrRange>, r: SysRegs) -> Option<AddrRange> {
    if r.orig_rax == 59 || r.orig_rax == 322 {
        None
    } else if r.orig_rax == 12 {
        if r.rdi == 0 {
            if heap is None {
                Some(AddrRange { start: r.rax, end: r.rax })
            } else {
                heap
            }
        } else if heap is Some {
            Some(AddrRange { start: heap->0.start, end: r.rax })
        } else {
            None
        }
    } else {
        heap
    }
}

impl Tracee {
    /// A tracee first seen at a syscall stop.
    pub fn new(tid: TraceeId) -> (r: Tracee)
        ensures
            r == (Tracee { tid, was_in_syscall: false, heap_range: None }),
    {
        Tracee { tid, was_in_syscall: false, heap_range: None }
    }

    /// Decodes a syscall exit: `execve` and `execveat` forget the heap; an
    /// anonymous `mmap` at a kernel-chosen address that succeeded maps its range
    /// not resident; `brk(0)` tells the heap top once; a `brk` that raises a known
    /// top maps the new part resident. A failed `mmap`, an empty one, and one
    /// whose end would pass the address space are ignored.
    pub fn on_sys_exit(&mut self, regs: SysRegs) -> (r: SysExit)
        ensures
            r == sys_exit_spec(old(self).heap_range, regs),
            final(self).heap_range == heap_after(old(self).heap_range, regs),
            final(self).tid == old(self).tid,
            final(self).was_in_syscall == old(self).was_in_syscall,
    {
        let nr = regs.orig_rax;
        if nr == sys_execve() as u64 || nr == sys_execveat() as u64 {
            self.heap_range = None;
            return SysExit::Execve;
        }
        if nr == sys_mmap() as u64 {
            // the descriptor argument is an `int`: -1 has its low 32 bits set
            let anonymous = regs.r8 % 0x1_0000_0000 == 0xffff_ffff;
            let ret = regs.rax;
            let len = regs.rsi;
            if anonymous && regs.rdi == 0 && ret < FIRST_ERRNO_RETURN && len > 0 && len <= u64::MAX
                - ret {
                return SysExit::Mapped(AddrRange { start: ret, end: ret + len }, MemState::NotResident);
            }
            return SysExit::Ignored;
        }
        if nr == sys_brk() as u64 {
            let ret = regs.rax;
            if regs.rdi == 0 {
                if self.heap_range.is_none() {
                    self.heap_range = Some(AddrRange { start: ret, end: ret });
                }
            } else if let Some(heap) = self.heap_range {
                let old_top = heap.end;
                self.heap_range = Some(AddrRange { start: heap.start, end: ret });
                if ret > old_top {
                    return SysExit::Mapped(AddrRange { start: old_top, end: ret }, MemState::Resident);
                }
            }
        }
        SysExit::Ignored
    }
}

/// The tracer's state: the scratch of each tracee met at a syscall stop, and
/// the parent of the fork whose child has yet to stop.
pub struct Tracer {
    pub tracees: Vec<Tracee>,
    pub next_parent: Option<TraceeId>,
}

impl Tracer {
    /// The tracees' scratch, in order of first syscall stop.
    pub open spec fn tracees(&self) -> Seq<Tracee> {
        self.tracees@
    }

    pub fn new() -> (r: Tracer)
        ensures
            r.tracees() == Seq::<Tracee>::empty(),
            r.next_parent is None,
    {
        Tracer { tracees: Vec::new(), next_parent: None }
    }

    fn find(&self, tid: TraceeId) -> (r: Option<usize>)
        ensures
            r matches Some(i) ==> i < self.tracees().len() && self.tracees()[i as int].tid == tid
                && forall|k: int| 0 <= k < i ==> (#[trigger] self.tracees()[k]).tid != tid,
            r is None ==> forall|k: int|
                0 <= k < self.tracees().len() ==> (#[trigger] self.tracees()[k]).tid != tid,
            r matches Some(i) ==> self.find_spec(tid) == Some(i as int),
            r is None ==> self.find_spec(tid) is None,
    {
        let mut i: usize = 0;
        while i < self.tracees.len()
            invariant
                i <= self.tracees@.len(),
                forall|k: int| 0 <= k < i ==> (#[trigger] self.tracees@[k]).tid != tid,
            decreases self.tracees@.len() - i,
        {
            if self.tracees[i].tid == tid {
                proof {
                    assert(self.tracees@[i as int].tid == tid);
                    let j = choose|j: int|
                        0 <= j < self.tracees@.len() && self.tracees@[j].tid == tid && forall|k: int|
                            0 <= k < j ==> (#[trigger] self.tracees@[k]).tid != tid;
                    assert(0 <= j < self.tracees@.len() && self.tracees@[j].tid == tid && forall|k: int|
                            0 <= k < j ==> (#[trigger] self.tracees@[k]).tid != tid);
                    if j < i {
                    } else if j > i {
                        assert(self.tracees@[i as int].tid != tid);
                    }
                }
                return Some(i);
            }
            i = i + 1;
        }
        None
    }

    /// A signal-delivery stop. A trap resumes plainly; a stop is taken as a new
    /// child's first stop, which adopts the pending descriptor of the parent of
    /// the last fork, if one is armed, and disarms it; any other signal is
    /// passed on.
    pub fn on_signal(&mut self, sig: StopSignal) -> (r: SignalAction)
        ensures
            final(self).tracees() == old(self).tracees(),
            match sig {
                StopSignal::Trap => r == (SignalAction { adopt_from: None, forward: None })
                    && final(self).next_parent == old(self).next_parent,
                StopSignal::Stop => r == (SignalAction {
                    adopt_from: old(self).next_parent,
                    forward: None,
                }) && final(self).next_parent is None,
                StopSignal::Other(s) => r == (SignalAction { adopt_from: None, forward: Some(s) })
                    && final(self).next_parent == old(self).next_parent,
            },
    {
        match sig {
            StopSignal::Trap => SignalAction { adopt_from: None, forward: None },
            StopSignal::Stop => {
                let parent = self.next_parent.take();
                SignalAction { adopt_from: parent, forward: None }
            },
            StopSignal::Other(s) => SignalAction { adopt_from: None, forward: Some(s) },
        }
    }

    /// A ptrace event stop: a fork arms `next_parent` with the forking tracee;
    /// clone and vfork do not.
    pub fn on_ptrace_event(&mut self, tid: TraceeId, event: i32)
        ensures
            final(self).tracees() == old(self).tracees(),
            final(self).next_parent == (if event == 1 {
                Some(tid)
            } else {
                old(self).next_parent
            }),
    {
        if event == ptrace_event_fork() {
            self.next_parent = Some(tid);
        }
    }

    /// A syscall stop of `tid`: entry and exit alternate, starting with an entry
    /// for a tracee not seen before. Returns whether this stop is an exit.
    pub fn on_syscall_stop(&mut self, tid: TraceeId) -> (is_exit: bool)
        ensures
            final(self).next_parent == old(self).next_parent,
            match old(self).find_spec(tid) {
                Some(i) => {
                    &&& is_exit == old(self).tracees()[i].was_in_syscall
                    &&& final(self).tracees() == old(self).tracees().update(
                        i,
                        Tracee { was_in_syscall: !is_exit, ..old(self).tracees()[i] },
                    )
                },
                None => {
                    &&& !is_exit
                    &&& final(self).tracees() == old(self).tracees().push(
                        Tracee { tid, was_in_syscall: true, heap_range: None },
                    )
                },
            },
    {
        match self.find(tid) {
            Some(i) => {
                let mut t = self.tracees[i];
                let is_exit = t.was_in_syscall;
                t.was_in_syscall = !is_exit;
                self.tracees.set(i, t);
                is_exit
            },
            None => {
                let mut t = Tracee::new(tid);
                t.was_in_syscall = true;
                self.tracees.push(t);
                false
            },
        }
    }

    /// A syscall exit of `tid`, decoded against that tracee's scratch; a tracee
    /// never met at a syscall stop has nothing to decode against.
    pub fn on_sys_exit(&mut self, tid: TraceeId, regs: SysRegs) -> (r: SysExit)
        ensures
            final(self).next_parent == old(self).next_parent,
            match old(self).find_spec(tid) {
                Some(i) => {
                    &&& r == sys_exit_spec(old(self).tracees()[i].heap_range, regs)
                    &&& final(self).tracees() == old(self).tracees().update(
                        i,
                        Tracee {
                            heap_range: heap_after(old(self).tracees()[i].heap_range, regs),
                            ..old(self).tracees()[i]
                        },
                    )
                },
                None => r == SysExit::Ignored && final(self).tracees() == old(self).tracees(),
            },
    {
        match self.find(tid) {
            Some(i) => {
                let mut t = self.tracees[i];
                let r = t.on_sys_exit(regs);
                self.tracees.set(i, t);
                r
            },
            None => SysExit::Ignored,
        }
    }

    /// The end of tracee `tid`, whether it exited or a signal killed it: its
    /// scratch is forgotten, so that a later process with the same id starts
    /// afresh, and its `Exit` is to be sent.
    pub fn on_exit(&mut self, tid: TraceeId) -> (r: MeviEvent)
        ensures
            r == MeviEvent::TraceeEvent(tid, TraceePayload::Exit),
            final(self).next_parent == old(self).next_parent,
            match old(self).find_spec(tid) {
                Some(i) => final(self).tracees() == old(self).tracees().remove(i),
                None => final(self).tracees() == old(self).tracees(),
            },
    {
        match self.find(tid) {
            Some(i) => {
                self.tracees.remove(i);
            },
            None => {},
        }
        MeviEvent::TraceeEvent(tid, TraceePayload::Exit)
    }

    /// The position of the first tracee with id `tid`.
    pub open spec fn find_spec(&self, tid: TraceeId) -> Option<int> {
        if exists|i: int| 0 <= i < self.tracees@.len() && self.tracees@[i].tid == tid {
            Some(
                choose|i: int|
                    0 <= i < self.tracees@.len() && self.tracees@[i].tid == tid && forall|k: int|
                        0 <= k < i ==> (#[trigger] self.tracees@[k]).tid != tid,
            )
        } else {
            None
        }
    }
}

} // verus!
