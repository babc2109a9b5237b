use mevi::event::TraceeId;
use mevi::pending::PendingFds;

#[test]
fn pending_fds_are_fifo_per_parent() {
    let mut p = PendingFds::new();
    p.push(TraceeId(10), 3);
    p.push(TraceeId(20), 4);
    p.push(TraceeId(10), 5);
    assert_eq!(p.pop_front(TraceeId(10)), Some(3));
    assert_eq!(p.pop_front(TraceeId(10)), Some(5));
    assert_eq!(p.pop_front(TraceeId(10)), None);
    assert_eq!(p.pop_front(TraceeId(20)), Some(4));
}

#[test]
fn no_pending_fd_for_unknown_parent() {
    let mut p = PendingFds::new();
    assert_eq!(p.pop_front(TraceeId(1)), None);
    p.push(TraceeId(2), 7);
    assert_eq!(p.pop_front(TraceeId(1)), None);
}

