use mevi::event::{AddrRange, TraceePayload};
use mevi::userfault::{on_uffd_event, UffdAction, UffdEvent};

const PAGE: u64 = 4096;

#[test]
fn page_fault_pages_in_one_page() {
    assert_eq!(
        on_uffd_event(UffdEvent::Pagefault { addr: 0x7f00_0000_1000 }, PAGE),
        UffdAction::Send(TraceePayload::PageIn {
            range: AddrRange { start: 0x7f00_0000_1000, end: 0x7f00_0000_2000 }
        })
    );
}

#[test]
fn page_fault_at_top_of_address_space_is_ignored() {
    assert_eq!(on_uffd_event(UffdEvent::Pagefault { addr: u64::MAX - 100 }, PAGE), UffdAction::Ignore);
}

#[test]
fn remap_moves_range() {
    assert_eq!(
        on_uffd_event(UffdEvent::Remap { from: 0x1000, to: 0x9000, len: 0x2000 }, PAGE),
        UffdAction::Send(TraceePayload::Remap {
            old_range: AddrRange { start: 0x1000, end: 0x3000 },
            new_range: AddrRange { start: 0x9000, end: 0xb000 },
        })
    );
    assert_eq!(
        on_uffd_event(UffdEvent::Remap { from: 0x1000, to: u64::MAX - 1, len: 0x2000 }, PAGE),
        UffdAction::Ignore
    );
}

#[test]
fn remove_pages_out_and_unmap_unmaps() {
    assert_eq!(
        on_uffd_event(UffdEvent::Remove { start: 0x1000, end: 0x5000 }, PAGE),
        UffdAction::Send(TraceePayload::PageOut { range: AddrRange { start: 0x1000, end: 0x5000 } })
    );
    assert_eq!(
        on_uffd_event(UffdEvent::Unmap { start: 0x1000, end: 0x5000 }, PAGE),
        UffdAction::Send(TraceePayload::Unmap { range: AddrRange { start: 0x1000, end: 0x5000 } })
    );
}

#[test]
fn fork_queues_child_descriptor_and_others_are_ignored() {
    assert_eq!(on_uffd_event(UffdEvent::Fork { fd: 12 }, PAGE), UffdAction::Queue(12));
    assert_eq!(on_uffd_event(UffdEvent::Other, PAGE), UffdAction::Ignore);
}
