use mevi::event::{AddrRange, ConnectSource, MeviEvent, TraceeId, TraceePayload, TraceeSnapshot};
use mevi::memmap::{MemState, Span};
use mevi::relay::{wait_after, Relay, Wait, BATCH_SIZE};

fn ev(tid: u64, p: TraceePayload) -> MeviEvent {
    MeviEvent::TraceeEvent(TraceeId(tid), p)
}

fn r(start: u64, end: u64) -> AddrRange {
    AddrRange { start, end }
}

fn sp(start: u64, end: u64, state: MemState) -> Span {
    Span { start, end, state }
}

fn cmd(words: &[&str]) -> Vec<Vec<u8>> {
    words.iter().map(|w| w.as_bytes().to_vec()).collect()
}

fn connected(tid: u64, source: ConnectSource, uffd: i32) -> MeviEvent {
    ev(tid, TraceePayload::Connected { source, uffd })
}

fn mapped(tid: u64, start: u64, end: u64, state: MemState) -> MeviEvent {
    ev(tid, TraceePayload::Mapped { range: r(start, end), state })
}

fn snapshot(relay: &mut Relay) -> Vec<TraceeSnapshot> {
    let out = relay.handle(MeviEvent::Snapshot(vec![]), vec![], false);
    match out.last() {
        Some(MeviEvent::Snapshot(s)) => s.clone(),
        other => panic!("no snapshot: {:?}", other),
    }
}

#[test]
fn first_event_of_a_tracee_is_start() {
    let mut relay = Relay::new();
    let out = relay.handle(connected(1, ConnectSource::LdPreload, 3), cmd(&["/bin/true"]), false);
    assert_eq!(
        out,
        vec![
            ev(1, TraceePayload::Start { cmdline: cmd(&["/bin/true"]) }),
            connected(1, ConnectSource::LdPreload, 3),
        ]
    );
    let out = relay.handle(connected(1, ConnectSource::Fork, 4), cmd(&["ignored"]), false);
    assert_eq!(out, vec![connected(1, ConnectSource::Fork, 4)]);
}

#[test]
fn anonymous_mmap_then_exit() {
    let mut relay = Relay::new();
    let a: u64 = 0x7f00_0000_0000;
    let mut out = relay.handle(connected(1, ConnectSource::LdPreload, 3), cmd(&["./child"]), false);
    let m = mapped(1, a, a + 65536, MemState::NotResident);
    assert_eq!(relay.registration_fd(&m), Some(3));
    out.extend(relay.handle(m.clone(), vec![], true));
    out.extend(relay.handle(ev(1, TraceePayload::Exit), vec![], false));
    assert_eq!(
        out,
        vec![
            ev(1, TraceePayload::Start { cmdline: cmd(&["./child"]) }),
            connected(1, ConnectSource::LdPreload, 3),
            m,
            ev(1, TraceePayload::Exit),
        ]
    );
    assert!(!relay.knows(TraceeId(1)));
    assert_eq!(relay.len(), 0);
}

#[test]
fn touch_after_map_leaves_resident_head() {
    let mut relay = Relay::new();
    let a: u64 = 0x7f00_0000_0000;
    relay.handle(connected(1, ConnectSource::LdPreload, 3), cmd(&["c"]), false);
    relay.handle(mapped(1, a, a + 8192, MemState::NotResident), vec![], true);
    let out = relay.handle(ev(1, TraceePayload::PageIn { range: r(a, a + 4096) }), vec![], false);
    assert!(out.is_empty());
    let out = relay.flush_all();
    assert_eq!(
        out,
        vec![ev(1, TraceePayload::Batch { batch: vec![sp(a, a + 4096, MemState::Resident)] })]
    );
    let snap = snapshot(&mut relay);
    assert_eq!(snap.len(), 1);
    assert_eq!(
        snap[0].map,
        vec![sp(a, a + 4096, MemState::Resident), sp(a + 4096, a + 8192, MemState::NotResident)]
    );
}

#[test]
fn brk_grow_then_page_out() {
    let mut relay = Relay::new();
    let h0: u64 = 0x5555_0000;
    relay.handle(connected(1, ConnectSource::LdPreload, 3), cmd(&["c"]), false);
    relay.handle(mapped(1, h0, h0 + 4096, MemState::Resident), vec![], true);
    relay.handle(ev(1, TraceePayload::PageOut { range: r(h0, h0 + 4096) }), vec![], false);
    let out = relay.flush_all();
    assert_eq!(
        out,
        vec![ev(1, TraceePayload::Batch { batch: vec![sp(h0, h0 + 4096, MemState::NotResident)] })]
    );
    relay.handle(ev(1, TraceePayload::Unmap { range: r(h0, h0 + 4096) }), vec![], false);
    assert!(snapshot(&mut relay)[0].map.is_empty());
}

#[test]
fn fork_children_have_their_own_state() {
    let mut relay = Relay::new();
    relay.handle(connected(1, ConnectSource::LdPreload, 3), cmd(&["p"]), false);
    relay.handle(connected(2, ConnectSource::Fork, 4), cmd(&["p"]), false);
    relay.handle(mapped(1, 0x1000, 0x2000, MemState::NotResident), vec![], true);
    relay.handle(mapped(2, 0x1000, 0x2000, MemState::NotResident), vec![], true);
    relay.handle(ev(1, TraceePayload::PageIn { range: r(0x1000, 0x2000) }), vec![], false);
    relay.handle(ev(2, TraceePayload::PageIn { range: r(0x1000, 0x2000) }), vec![], false);
    let out = relay.flush_all();
    assert_eq!(
        out,
        vec![
            ev(1, TraceePayload::Batch { batch: vec![sp(0x1000, 0x2000, MemState::Resident)] }),
            ev(2, TraceePayload::Batch { batch: vec![sp(0x1000, 0x2000, MemState::Resident)] }),
        ]
    );
    assert_eq!(relay.len(), 2);
}

#[test]
fn execve_clears_map_and_descriptor() {
    let mut relay = Relay::new();
    relay.handle(connected(1, ConnectSource::LdPreload, 3), cmd(&["a"]), false);
    relay.handle(mapped(1, 0x10_0000, 0x20_0000, MemState::NotResident), vec![], true);
    let out = relay.handle(ev(1, TraceePayload::Execve), vec![], false);
    assert_eq!(out, vec![ev(1, TraceePayload::Execve)]);
    assert!(snapshot(&mut relay)[0].map.is_empty());
    let m = mapped(1, 0x30_0000, 0x30_1000, MemState::NotResident);
    assert_eq!(relay.registration_fd(&m), None);
    let out = relay.handle(m.clone(), vec![], false);
    assert_eq!(
        out,
        vec![
            m,
            ev(1, TraceePayload::Batch {
                batch: vec![sp(0x30_0000, 0x30_1000, MemState::Untracked)]
            }),
        ]
    );
    assert_eq!(snapshot(&mut relay)[0].map, vec![sp(0x30_0000, 0x30_1000, MemState::Untracked)]);
}

#[test]
fn snapshot_for_a_late_subscriber() {
    let mut relay = Relay::new();
    relay.handle(connected(1, ConnectSource::LdPreload, 3), cmd(&["p", "x"]), false);
    relay.handle(connected(2, ConnectSource::Fork, 4), cmd(&["p", "x"]), false);
    relay.handle(mapped(1, 0x1000, 0x2000, MemState::NotResident), vec![], true);
    relay.handle(ev(2, TraceePayload::PageIn { range: r(0x8000, 0x9000) }), vec![], false);
    let out = relay.handle(MeviEvent::Snapshot(vec![]), vec![], false);
    assert_eq!(
        out,
        vec![
            ev(2, TraceePayload::Batch { batch: vec![sp(0x8000, 0x9000, MemState::Resident)] }),
            MeviEvent::Snapshot(vec![
                TraceeSnapshot {
                    tid: TraceeId(1),
                    cmdline: cmd(&["p", "x"]),
                    map: vec![sp(0x1000, 0x2000, MemState::NotResident)],
                },
                TraceeSnapshot {
                    tid: TraceeId(2),
                    cmdline: cmd(&["p", "x"]),
                    map: vec![sp(0x8000, 0x9000, MemState::Resident)],
                },
            ]),
        ]
    );
}

#[test]
fn map_without_descriptor_is_untracked() {
    let mut relay = Relay::new();
    let m = mapped(1, 0x1000, 0x3000, MemState::NotResident);
    assert_eq!(relay.registration_fd(&m), None);
    let out = relay.handle(m.clone(), cmd(&["c"]), true);
    assert_eq!(
        out,
        vec![
            ev(1, TraceePayload::Start { cmdline: cmd(&["c"]) }),
            m,
            ev(1, TraceePayload::Batch { batch: vec![sp(0x1000, 0x3000, MemState::Untracked)] }),
        ]
    );
}

#[test]
fn refused_registration_is_untracked() {
    let mut relay = Relay::new();
    relay.handle(connected(1, ConnectSource::LdPreload, 3), cmd(&["c"]), false);
    let m = mapped(1, 0x1000, 0x3000, MemState::NotResident);
    let out = relay.handle(m.clone(), vec![], false);
    assert_eq!(
        out,
        vec![m, ev(1, TraceePayload::Batch { batch: vec![sp(0x1000, 0x3000, MemState::Untracked)] })]
    );
}

#[test]
fn page_ins_coalesce_into_one_batch() {
    let mut relay = Relay::new();
    relay.handle(connected(1, ConnectSource::LdPreload, 3), cmd(&["c"]), false);
    for page in [0x1000u64, 0x3000, 0x2000, 0x8000] {
        let out = relay.handle(ev(1, TraceePayload::PageIn { range: r(page, page + 0x1000) }), vec![], false);
        assert!(out.is_empty());
    }
    let out = relay.flush_all();
    assert_eq!(
        out,
        vec![ev(1, TraceePayload::Batch {
            batch: vec![sp(0x1000, 0x4000, MemState::Resident), sp(0x8000, 0x9000, MemState::Resident)]
        })]
    );
    assert!(relay.flush_all().is_empty());
}

#[test]
fn full_batch_is_sent_early() {
    let mut relay = Relay::new();
    relay.handle(connected(1, ConnectSource::LdPreload, 3), cmd(&["c"]), false);
    let n = BATCH_SIZE as u64 + 1;
    for i in 0..n {
        let a = 0x10_0000 + 2 * 0x1000 * i;
        let out = relay.handle(ev(1, TraceePayload::PageIn { range: r(a, a + 0x1000) }), vec![], false);
        assert!(out.is_empty());
    }
    let a = 0x10_0000 + 2 * 0x1000 * n;
    let out = relay.handle(ev(1, TraceePayload::PageIn { range: r(a, a + 0x1000) }), vec![], false);
    assert_eq!(out.len(), 1);
    match &out[0] {
        MeviEvent::TraceeEvent(TraceeId(1), TraceePayload::Batch { batch }) => {
            assert_eq!(batch.len(), n as usize)
        }
        other => panic!("unexpected {:?}", other),
    }
    let out = relay.flush_all();
    assert_eq!(
        out,
        vec![ev(1, TraceePayload::Batch { batch: vec![sp(a, a + 0x1000, MemState::Resident)] })]
    );
}

#[test]
fn other_events_send_pending_batch_first() {
    let mut relay = Relay::new();
    relay.handle(connected(1, ConnectSource::LdPreload, 3), cmd(&["c"]), false);
    relay.handle(ev(1, TraceePayload::PageIn { range: r(0x1000, 0x2000) }), vec![], false);
    let out = relay.handle(ev(1, TraceePayload::Unmap { range: r(0x1000, 0x2000) }), vec![], false);
    assert_eq!(
        out,
        vec![
            ev(1, TraceePayload::Batch { batch: vec![sp(0x1000, 0x2000, MemState::Resident)] }),
            ev(1, TraceePayload::Unmap { range: r(0x1000, 0x2000) }),
        ]
    );
}

#[test]
fn remap_moves_range_as_resident() {
    let mut relay = Relay::new();
    relay.handle(connected(1, ConnectSource::LdPreload, 3), cmd(&["c"]), false);
    relay.handle(mapped(1, 0x1000, 0x3000, MemState::NotResident), vec![], true);
    relay.handle(
        ev(1, TraceePayload::Remap { old_range: r(0x1000, 0x3000), new_range: r(0x9000, 0xb000) }),
        vec![],
        false,
    );
    assert_eq!(snapshot(&mut relay)[0].map, vec![sp(0x9000, 0xb000, MemState::Resident)]);
}

#[test]
fn exit_of_unknown_tracee_starts_and_forgets_it() {
    let mut relay = Relay::new();
    let out = relay.handle(ev(4, TraceePayload::Exit), cmd(&["x"]), false);
    assert_eq!(
        out,
        vec![ev(4, TraceePayload::Start { cmdline: cmd(&["x"]) }), ev(4, TraceePayload::Exit)]
    );
    assert_eq!(relay.len(), 0);
    assert!(snapshot(&mut relay).is_empty());
}

#[test]
fn empty_ranges_change_nothing() {
    let mut relay = Relay::new();
    relay.handle(connected(1, ConnectSource::LdPreload, 3), cmd(&["c"]), false);
    let out = relay.handle(ev(1, TraceePayload::PageIn { range: r(0x1000, 0x1000) }), vec![], false);
    assert!(out.is_empty());
    let m = mapped(1, 0x2000, 0x2000, MemState::NotResident);
    assert_eq!(relay.registration_fd(&m), None);
    assert_eq!(relay.handle(m.clone(), vec![], false), vec![m]);
    assert!(relay.flush_all().is_empty());
    assert!(snapshot(&mut relay)[0].map.is_empty());
}

#[test]
fn batch_window_then_unbounded_wait() {
    assert_eq!(wait_after(false), Wait::Window(48));
    assert_eq!(wait_after(true), Wait::Forever);
}

#[test]
fn uffd_warning_is_latched() {
    let mut relay = Relay::new();
    relay.handle(ev(1, TraceePayload::Execve), cmd(&["c"]), false);
    assert!(!relay.uffd_warning_given(TraceeId(1)));
    relay.handle(mapped(1, 0x1000, 0x2000, MemState::NotResident), vec![], false);
    assert!(relay.uffd_warning_given(TraceeId(1)));
    assert!(!relay.uffd_warning_given(TraceeId(2)));
}
