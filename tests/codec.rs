use mevi::codec::{decode_snapshot, encode_event};
use mevi::event::split_cmdline;
use mevi::event::{AddrRange, ConnectSource, MeviEvent, TraceeId, TraceePayload, TraceeSnapshot};
use mevi::memmap::{MemState, Span};

fn sample_snapshot() -> Vec<TraceeSnapshot> {
    vec![
        TraceeSnapshot {
            tid: TraceeId(41),
            cmdline: vec![b"/usr/bin/ls".to_vec(), b"-l".to_vec()],
            map: vec![
                Span { start: 0x1000, end: 0x3000, state: MemState::Resident },
                Span { start: 0x3000, end: 0x4000, state: MemState::Untracked },
            ],
        },
        TraceeSnapshot { tid: TraceeId(42), cmdline: vec![], map: vec![] },
    ]
}

#[test]
fn snapshot_round_trip() {
    let snap = sample_snapshot();
    let bytes = encode_event(&MeviEvent::Snapshot(snap.clone()));
    assert_eq!(decode_snapshot(&bytes), Some(snap));
}

#[test]
fn empty_snapshot_round_trip() {
    let bytes = encode_event(&MeviEvent::Snapshot(vec![]));
    assert_eq!(bytes, vec![0, 0, 0, 0, 0, 0, 0, 0, 0, 0, 0, 0]);
    assert_eq!(decode_snapshot(&bytes), Some(vec![]));
}

#[test]
fn snapshot_encoding_matches_bincode() {
    let expected = bincode::serialize(&(
        0u32,
        vec![
            (
                41u64,
                vec!["/usr/bin/ls".to_string(), "-l".to_string()],
                vec![((0x1000u64, 0x3000u64), 0u32), ((0x3000u64, 0x4000u64), 3u32)],
            ),
            (42u64, Vec::<String>::new(), vec![]),
        ],
    ))
    .unwrap();
    assert_eq!(encode_event(&MeviEvent::Snapshot(sample_snapshot())), expected);
}

#[test]
fn map_event_matches_bincode() {
    let e = MeviEvent::TraceeEvent(
        TraceeId(7),
        TraceePayload::Mapped {
            range: AddrRange { start: 0x7f00_0000_0000, end: 0x7f00_0001_0000 },
            state: MemState::NotResident,
        },
    );
    let expected =
        bincode::serialize(&(1u32, 7u64, 0u32, 0x7f00_0000_0000u64..0x7f00_0001_0000u64, 1u32))
            .unwrap();
    assert_eq!(encode_event(&e), expected);
}

#[test]
fn connected_event_matches_bincode() {
    let e = MeviEvent::TraceeEvent(
        TraceeId(7),
        TraceePayload::Connected { source: ConnectSource::Fork, uffd: -1 },
    );
    let expected = bincode::serialize(&(1u32, 7u64, 1u32, 1u32, -1i32)).unwrap();
    assert_eq!(encode_event(&e), expected);
}

#[test]
fn unit_events_match_bincode() {
    let execve = MeviEvent::TraceeEvent(TraceeId(3), TraceePayload::Execve);
    let exit = MeviEvent::TraceeEvent(TraceeId(3), TraceePayload::Exit);
    assert_eq!(encode_event(&execve), bincode::serialize(&(1u32, 3u64, 2u32)).unwrap());
    assert_eq!(encode_event(&exit), bincode::serialize(&(1u32, 3u64, 9u32)).unwrap());
}

#[test]
fn range_events_match_bincode() {
    let rg = AddrRange { start: 0x2000, end: 0x3000 };
    let cases = [
        (TraceePayload::PageIn { range: rg }, 3u32),
        (TraceePayload::PageOut { range: rg }, 4u32),
        (TraceePayload::Unmap { range: rg }, 5u32),
    ];
    for (p, tag) in cases {
        let expected = bincode::serialize(&(1u32, 9u64, tag, 0x2000u64..0x3000u64)).unwrap();
        assert_eq!(encode_event(&MeviEvent::TraceeEvent(TraceeId(9), p)), expected);
    }
    let remap = TraceePayload::Remap { old_range: rg, new_range: AddrRange { start: 0x8000, end: 0x9000 } };
    let expected =
        bincode::serialize(&(1u32, 9u64, 6u32, 0x2000u64..0x3000u64, 0x8000u64..0x9000u64)).unwrap();
    assert_eq!(encode_event(&MeviEvent::TraceeEvent(TraceeId(9), remap)), expected);
}

#[test]
fn batch_and_start_match_bincode() {
    let batch = TraceePayload::Batch {
        batch: vec![Span { start: 0x1000, end: 0x2000, state: MemState::Unmapped }],
    };
    let expected =
        bincode::serialize(&(1u32, 5u64, 7u32, vec![((0x1000u64, 0x2000u64), 2u32)])).unwrap();
    assert_eq!(encode_event(&MeviEvent::TraceeEvent(TraceeId(5), batch)), expected);
    let start = TraceePayload::Start { cmdline: vec![b"sh".to_vec(), b"-c".to_vec()] };
    let expected =
        bincode::serialize(&(1u32, 5u64, 8u32, vec!["sh".to_string(), "-c".to_string()])).unwrap();
    assert_eq!(encode_event(&MeviEvent::TraceeEvent(TraceeId(5), start)), expected);
}

#[test]
fn decode_rejects_trailing_bytes() {
    let mut bytes = encode_event(&MeviEvent::Snapshot(sample_snapshot()));
    bytes.push(0);
    assert_eq!(decode_snapshot(&bytes), None);
}

#[test]
fn decode_rejects_truncated_frame() {
    let bytes = encode_event(&MeviEvent::Snapshot(sample_snapshot()));
    assert_eq!(decode_snapshot(&bytes[..bytes.len() - 1].to_vec()), None);
    assert_eq!(decode_snapshot(&vec![]), None);
}

#[test]
fn decode_rejects_tracee_event() {
    let bytes = encode_event(&MeviEvent::TraceeEvent(TraceeId(1), TraceePayload::Exit));
    assert_eq!(decode_snapshot(&bytes), None);
}

#[test]
fn decode_rejects_unknown_state() {
    let mut bytes = encode_event(&MeviEvent::Snapshot(vec![TraceeSnapshot {
        tid: TraceeId(1),
        cmdline: vec![],
        map: vec![Span { start: 1, end: 2, state: MemState::Resident }],
    }]));
    let n = bytes.len();
    bytes[n - 4] = 4;
    assert_eq!(decode_snapshot(&bytes), None);
}

#[test]
fn copy_lines_copies() {
    let c = vec![b"a".to_vec(), vec![], b"bc".to_vec()];
    assert_eq!(mevi::event::copy_lines(&c), c);
}

#[test]
fn split_cmdline_drops_empty_words() {
    assert_eq!(split_cmdline(&b"ls\0-l\0\0/tmp\0".to_vec()), vec![b"ls".to_vec(), b"-l".to_vec(), b"/tmp".to_vec()]);
    assert_eq!(split_cmdline(&b"a\0bc".to_vec()), vec![b"a".to_vec(), b"bc".to_vec()]);
    assert!(split_cmdline(&vec![]).is_empty());
    assert!(split_cmdline(&vec![0, 0]).is_empty());
}
