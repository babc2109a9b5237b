use crate::event::{AddrRange, TraceePayload};
use vstd::prelude::*;

verus! {

/// A userfault notification, as plain values.
#[derive(Clone, Copy, PartialEq, Eq, Debug, Structural)]
pub enum UffdEvent {
    /// A fault on the page at `addr`, which the worker fills with zeros.
    Pagefault { addr: u64 },
    /// `len` bytes moved from `from` to `to`.
    Remap { from: u64, to: u64, len: u64 },
    /// Pages of `[start, end)` were given back (madvise).
    Remove { start: u64, end: u64 },
    /// `[start, end)` was unmapped.
    Unmap { start: u64, end: u64 },
    /// The process forked; `fd` is the descriptor for the child.
    Fork { fd: i32 },
    /// Anything else.
    Other,
}

/// What the worker does with a notification.
#[derive(Clone, PartialEq, Eq, Debug)]
pub enum UffdAction {
    /// Pass this change on to the relay.
    Send(TraceePayload),
    /// Queue this descriptor for the next child of the watched tracee.
    Queue(i32),
    /// Nothing.
    Ignore,
}

/// The meaning of notification `ev`, for pages of `page_size` bytes. A range
/// that would pass the end of the address space is ignored.
pub open spec fn uffd_action(ev: UffdEvent, page_size: u64) -> UffdAction {
    match ev {
        UffdEvent::Pagefault { addr } => if addr <= u64::MAX - page_size {
            UffdAction::Send(
                TraceePayload::PageIn { range: AddrRange { start: addr, end: (addr + page_size) as u64 } },
            )
        } else {
            UffdAction::Ignore
        },
        UffdEvent::Remap { from, to, len } => if from <= u64::MAX - len && to <= u64::MAX - len {
            UffdAction::Send(
                TraceePayload::Remap {
                    old_range: AddrRange { start: from, end: (from + len) as u64 },
                    new_range: AddrRange { start: to, end: (to + len) as u64 },
                },
            )
        } else {
            UffdAction::Ignore
        },
        UffdEvent::Remove { start, end } => UffdAction::Send(
            TraceePayload::PageOut { range: AddrRange { start, end } },
        ),
        UffdEvent::Unmap { start, end } => UffdAction::Send(
            TraceePayload::Unmap { range: AddrRange { start, end } },
        ),
        UffdEvent::Fork { fd } => UffdAction::Queue(fd),
        UffdEvent::Other => UffdAction::Ignore,
    }
}

/// Decides what a userfault notification becomes: a served page fault is a
/// page-in of that page, a remap moves its range, a remove pages out, an unmap
/// unmaps, and a fork queues the child's descriptor.
pub fn on_uffd_event(ev: UffdEvent, page_size: u64) -> (r: UffdAction)
    requires
        page_size > 0,
    ensures
        r == uffd_action(ev, page_size),
{
    match ev {
        UffdEvent::Pagefault { addr } => {
            if addr <= u64::MAX - page_size {
                UffdAction::Send(
                    TraceePayload::PageIn { range: AddrRange { start: addr, end: addr + page_size } },
                )
            } else {
                UffdAction::Ignore
            }
        },
        UffdEvent::Remap { from, to, len } => {
            if from <= u64::MAX - len && to <= u64::MAX - len {
                UffdAction::Send(
                    TraceePayload::Remap {
                        old_range: AddrRange { start: from, end: from + len },
                        new_range: AddrRange { start: to, end: to + len },
                    },
                )
            } else {
                UffdAction::Ignore
            }
        },
        UffdEvent::Remove { start, end } => UffdAction::Send(
            TraceePayload::PageOut { range: AddrRange { start, end } },
        ),
        UffdEvent::Unmap { start, end } => UffdAction::Send(
            TraceePayload::Unmap { range: AddrRange { start, end } },
        ),
        UffdEvent::Fork { fd } => UffdAction::Queue(fd),
        UffdEvent::Other => UffdAction::Ignore,
    }
}

} // verus!
