use crate::event::{
    copy_lines, lines, AddrRange, MeviEvent, TraceeId, TraceePayload, TraceeSnapshot,
};
use crate::memmap::{addrs, canonical, covers, fill, no_addrs, MemMap, MemState};
use vstd::prelude::*;

verus! {

/// How many page events a tracee's batch takes before it is sent out early.
pub const BATCH_SIZE: usize = 512;

/// How long, in milliseconds, the relay waits for the next event before it
/// sends every pending batch: three display ticks of 16 ms.
pub const BATCH_WINDOW_MS: u64 = 48;

/// How long the relay waits for its next event.
#[derive(Clone, Copy, PartialEq, Eq, Debug, Structural)]
pub enum Wait {
    /// Up to this many milliseconds; when they pass with no event, every
    /// pending batch is sent.
    Window(u64),
    /// Until an event comes.
    Forever,
}

/// The wait before the next event: after an event, up to the batch window;
/// once a window has passed with no event (and the batches were sent), with
/// no limit.
pub fn wait_after(timed_out: bool) -> (r: Wait)
    ensures
        r == (if timed_out {
            Wait::Forever
        } else {
            Wait::Window(BATCH_WINDOW_MS)
        }),
{
    if timed_out {
        Wait::Forever
    } else {
        Wait::Window(BATCH_WINDOW_MS)
    }
}

/// The relay's state for one live tracee.
pub struct TraceeState {
    pub tid: TraceeId,
    pub cmdline: Vec<Vec<u8>>,
    pub map: MemMap,
    pub batch: MemMap,
    pub batch_size: usize,
    pub uffd: Option<i32>,
    pub printed_uffd_warning: bool,
}

/// The model of a tracee's state.
pub struct TraceeView {
    pub tid: TraceeId,
    pub cmdline: Seq<Seq<u8>>,
    pub map: Map<u64, MemState>,
    pub batch: Map<u64, MemState>,
    pub batch_size: nat,
    pub uffd: Option<i32>,
    pub warned: bool,
}

impl View for TraceeState {
    type V = TraceeView;

    open spec fn view(&self) -> TraceeView {
        TraceeView {
            tid: self.tid,
            cmdline: lines(self.cmdline@),
            map: self.map@,
            batch: self.batch@,
            batch_size: self.batch_size as nat,
            uffd: self.uffd,
            warned: self.printed_uffd_warning,
        }
    }
}

/// What one outbound frame is to show.
pub enum Frame {
    /// First contact with a tracee, with its command line.
    Start(TraceeId, Seq<Seq<u8>>),
    /// A batch of residency changes, as an address-wise map.
    Batch(TraceeId, Map<u64, MemState>),
    /// An inbound change, passed on as it came.
    Event(TraceeId, TraceePayload),
    /// The snapshot asked for (its entries so far), followed by the given tracees.
    Snapshot(Seq<TraceeSnapshot>, Seq<TraceeView>),
}

/// `s` is the snapshot entry of tracee `t`.
pub open spec fn snapshot_of(s: TraceeSnapshot, t: TraceeView) -> bool {
    &&& s.tid == t.tid
    &&& lines(s.cmdline@) == t.cmdline
    &&& canonical(s.map@)
    &&& covers(s.map@, t.map)
}

/// The frame `e` is what `f` describes.
pub open spec fn shows(e: MeviEvent, f: Frame) -> bool {
    match f {
        Frame::Start(tid, c) => e matches MeviEvent::TraceeEvent(
            t,
            TraceePayload::Start { cmdline },
        ) && t == tid && lines(cmdline@) == c,
        Frame::Batch(tid, m) => e matches MeviEvent::TraceeEvent(t, TraceePayload::Batch { batch })
            && t == tid && canonical(batch@) && covers(batch@, m),
        Frame::Event(tid, p) => e == MeviEvent::TraceeEvent(tid, p),
        Frame::Snapshot(prefix, ts) => e matches MeviEvent::Snapshot(v) && v@.len() == prefix.len()
            + ts.len() && v@.subrange(0, prefix.len() as int) == prefix && forall|i: int|
            0 <= i < ts.len() ==> snapshot_of(#[trigger] v@[prefix.len() + i], ts[i]),
    }
}

/// The frames `out` are those that `fs` describe, one by one.
pub open spec fn describes(out: Seq<MeviEvent>, fs: Seq<Frame>) -> bool {
    &&& out.len() == fs.len()
    &&& forall|i: int| 0 <= i < out.len() ==> shows(#[trigger] out[i], fs[i])
}

/// A tracee met for the first time, with command line `c`.
pub open spec fn fresh(tid: TraceeId, c: Seq<Seq<u8>>) -> TraceeView {
    TraceeView {
        tid,
        cmdline: c,
        map: no_addrs(),
        batch: no_addrs(),
        batch_size: 0,
        uffd: None,
        warned: false,
    }
}

/// `t` with its pending batch sent.
pub open spec fn flushed(t: TraceeView) -> TraceeView {
    TraceeView { batch: no_addrs(), batch_size: 0, ..t }
}

/// The frames that sending `t`'s pending batch produces.
pub open spec fn flush_frames(t: TraceeView) -> Seq<Frame> {
    if t.batch_size == 0 {
        seq![]
    } else {
        seq![Frame::Batch(t.tid, t.batch)]
    }
}

/// The frames that sending the pending batch of every tracee, in order, produces.
pub open spec fn flush_all_frames(ts: Seq<TraceeView>) -> Seq<Frame>
    decreases ts.len(),
{
    if ts.len() == 0 {
        seq![]
    } else {
        flush_all_frames(ts.drop_last()) + flush_frames(ts.last())
    }
}

/// `t` with a page event of `range` to `state` added to its batch.
pub open spec fn accumulated(t: TraceeView, range: AddrRange, state: MemState) -> TraceeView {
    if t.batch_size > BATCH_SIZE {
        TraceeView { batch: fill(range.start, range.end, state), batch_size: 1, ..t }
    } else {
        TraceeView {
            batch: t.batch.union_prefer_right(fill(range.start, range.end, state)),
            batch_size: t.batch_size + 1,
            ..t
        }
    }
}

/// `m` with `range` set to `state`; an empty range changes nothing.
pub open spec fn set_range(m: Map<u64, MemState>, range: AddrRange, state: MemState) -> Map<
    u64,
    MemState,
> {
    if range.nonempty() {
        m.union_prefer_right(fill(range.start, range.end, state))
    } else {
        m
    }
}

/// `m` without `range`; an empty range changes nothing.
pub open spec fn drop_range(m: Map<u64, MemState>, range: AddrRange) -> Map<u64, MemState> {
    if range.nonempty() {
        m.remove_keys(addrs(range.start, range.end))
    } else {
        m
    }
}

/// A range announced by a map event is registered with the tracee's userfault
/// descriptor only where it has one and the kernel accepted the range.
pub open spec fn watched(t: TraceeView, registered: bool) -> bool {
    t.uffd is Some && registered
}

/// The state of a live tracee after `p`; `registered` is whether the kernel
/// accepted a new mapping for userfault tracking.
pub open spec fn step(t: TraceeView, p: TraceePayload, registered: bool) -> TraceeView {
    match p {
        TraceePayload::PageIn { range } => if range.nonempty() {
            TraceeView {
                map: set_range(t.map, range, MemState::Resident),
                ..accumulated(t, range, MemState::Resident)
            }
        } else {
            t
        },
        TraceePayload::PageOut { range } => if range.nonempty() {
            TraceeView {
                map: set_range(t.map, range, MemState::NotResident),
                ..accumulated(t, range, MemState::NotResident)
            }
        } else {
            t
        },
        TraceePayload::Mapped { range, state } => {
            let f = flushed(t);
            if !range.nonempty() {
                f
            } else if watched(t, registered) {
                TraceeView { map: set_range(t.map, range, state), ..f }
            } else {
                TraceeView { map: set_range(t.map, range, MemState::Untracked), warned: true, ..f }
            }
        },
        TraceePayload::Connected { uffd, .. } => if t.uffd is Some {
            flushed(t)
        } else {
            TraceeView { uffd: Some(uffd), ..flushed(t) }
        },
        TraceePayload::Execve => TraceeView { uffd: None, map: no_addrs(), ..flushed(t) },
        TraceePayload::Unmap { range } => TraceeView {
            map: drop_range(t.map, range),
            ..flushed(t)
        },
        TraceePayload::Remap { old_range, new_range } => TraceeView {
            map: set_range(drop_range(t.map, old_range), new_range, MemState::Resident),
            ..flushed(t)
        },
        _ => flushed(t),
    }
}

/// The frames that `p` for a tracee in state `t` produces.
pub open spec fn step_frames(t: TraceeView, p: TraceePayload, registered: bool) -> Seq<Frame> {
    match p {
        TraceePayload::PageIn { range } => if range.nonempty() && t.batch_size > BATCH_SIZE {
            flush_frames(t)
        } else {
            seq![]
        },
        TraceePayload::PageOut { range } => if range.nonempty() && t.batch_size > BATCH_SIZE {
            flush_frames(t)
        } else {
            seq![]
        },
        TraceePayload::Mapped { range, state } => if range.nonempty() && !watched(t, registered) {
            flush_frames(t) + seq![
                Frame::Event(t.tid, p),
                Frame::Batch(t.tid, fill(range.start, range.end, MemState::Untracked)),
            ]
        } else {
            flush_frames(t) + seq![Frame::Event(t.tid, p)]
        },
        _ => flush_frames(t) + seq![Frame::Event(t.tid, p)],
    }
}

/// Whether some tracee of `ts` has id `tid`.
pub open spec fn known(ts: Seq<TraceeView>, tid: TraceeId) -> bool {
    exists|i: int| 0 <= i < ts.len() && ts[i].tid == tid
}

/// The position of `tid` in `ts`, where it is known.
pub open spec fn position(ts: Seq<TraceeView>, tid: TraceeId) -> int {
    choose|i: int| 0 <= i < ts.len() && ts[i].tid == tid
}

/// The state before `tid`'s event is applied: its own, or a fresh one.
pub open spec fn before(ts: Seq<TraceeView>, tid: TraceeId, c: Seq<Seq<u8>>) -> TraceeView {
    if known(ts, tid) {
        ts[position(ts, tid)]
    } else {
        fresh(tid, c)
    }
}

/// The tracees after event `p` for `tid`, where an unknown tracee starts with
/// command line `c`. An exit removes the tracee.
pub open spec fn next_tracees(
    ts: Seq<TraceeView>,
    tid: TraceeId,
    p: TraceePayload,
    c: Seq<Seq<u8>>,
    registered: bool,
) -> Seq<TraceeView> {
    if known(ts, tid) {
        if p is Exit {
            ts.remove(position(ts, tid))
        } else {
            ts.update(position(ts, tid), step(ts[position(ts, tid)], p, registered))
        }
    } else if p is Exit {
        ts
    } else {
        ts.push(step(fresh(tid, c), p, registered))
    }
}

/// The frames that event `p` for `tid` produces: a `Start` first for an unknown
/// tracee, then those of the step.
pub open spec fn event_frames(
    ts: Seq<TraceeView>,
    tid: TraceeId,
    p: TraceePayload,
    c: Seq<Seq<u8>>,
    registered: bool,
) -> Seq<Frame> {
    if known(ts, tid) {
        step_frames(ts[position(ts, tid)], p, registered)
    } else {
        seq![Frame::Start(tid, c)] + step_frames(fresh(tid, c), p, registered)
    }
}

/// The events that tracer and userfault worker send in: a snapshot request, or
/// a change other than the relay's own `Batch` and `Start`.
pub open spec fn inbound(ev: MeviEvent) -> bool {
    match ev {
        MeviEvent::Snapshot(_) => true,
        MeviEvent::TraceeEvent(_, p) => !(p is Batch) && !(p is Start),
    }
}

proof fn lemma_describes_push(out: Seq<MeviEvent>, fs: Seq<Frame>, e: MeviEvent, f: Frame)
    requires
        describes(out, fs),
        shows(e, f),
    ensures
        describes(out.push(e), fs.push(f)),
{
}

impl TraceeState {
    pub open spec fn wf(&self) -> bool {
        &&& self.batch_size <= BATCH_SIZE + 1
        &&& self.batch_size == 0 ==> self.batch@ == no_addrs()
    }

    fn fresh_state(tid: TraceeId, cmdline: Vec<Vec<u8>>) -> (r: TraceeState)
        ensures
            r.wf(),
            r@ == fresh(tid, lines(cmdline@)),
    {
        TraceeState {
            tid,
            cmdline,
            map: MemMap::new(),
            batch: MemMap::new(),
            batch_size: 0,
            uffd: None,
            printed_uffd_warning: false,
        }
    }

    /// Sends the pending batch, if any.
    fn flush(&mut self, out: &mut Vec<MeviEvent>, Ghost(fs): Ghost<Seq<Frame>>)
        requires
            old(self).wf(),
            describes(old(out)@, fs),
        ensures
            final(self).wf(),
            final(self)@ == flushed(old(self)@),
            describes(final(out)@, fs + flush_frames(old(self)@)),
    {
        if self.batch_size == 0 {
            assert(fs + flush_frames(self@) =~= fs);
            assert(flushed(self@) == self@);
            return ;
        }
        self.batch_size = 0;
        let batch = self.batch.spans();
        self.batch = MemMap::new();
        out.push(MeviEvent::TraceeEvent(self.tid, TraceePayload::Batch { batch }));
        proof {
            lemma_describes_push(
                old(out)@,
                fs,
                final(out)@.last(),
                Frame::Batch(self.tid, old(self)@.batch),
            );
            assert(fs.push(Frame::Batch(self.tid, old(self)@.batch)) =~= fs + flush_frames(
                old(self)@,
            ));
        }
    }

    /// Adds a page event to the batch, sending the batch first when it is full.
    fn accumulate(
        &mut self,
        range: AddrRange,
        state: MemState,
        out: &mut Vec<MeviEvent>,
        Ghost(fs): Ghost<Seq<Frame>>,
    )
        requires
            old(self).wf(),
            range.nonempty(),
            describes(old(out)@, fs),
        ensures
            final(self).wf(),
            final(self)@ == accumulated(old(self)@, range, state),
            old(self)@.batch_size > BATCH_SIZE ==> describes(
                final(out)@,
                fs + flush_frames(old(self)@),
            ),
            old(self)@.batch_size <= BATCH_SIZE ==> final(out)@ == old(out)@,
    {
        if self.batch_size > BATCH_SIZE {
            self.flush(out, Ghost(fs));
        }
        self.batch.insert(range.start, range.end, state);
        self.batch_size = self.batch_size + 1;
        proof {
            if old(self)@.batch_size > BATCH_SIZE {
                assert(no_addrs().union_prefer_right(fill(range.start, range.end, state))
                    =~= fill(range.start, range.end, state));
            }
        }
    }

    /// Applies one inbound change, emitting its frames.
    fn apply(
        &mut self,
        p: TraceePayload,
        registered: bool,
        out: &mut Vec<MeviEvent>,
        Ghost(fs): Ghost<Seq<Frame>>,
    )
        requires
            old(self).wf(),
            describes(old(out)@, fs),
        ensures
            final(self).wf(),
            final(self)@ == step(old(self)@, p, registered),
            describes(final(out)@, fs + step_frames(old(self)@, p, registered)),
    {
        let ghost t0 = self@;
        match &p {
            TraceePayload::PageIn { range } => {
                if range.start < range.end {
                    self.accumulate(*range, MemState::Resident, out, Ghost(fs));
                    self.map.insert(range.start, range.end, MemState::Resident);
                }
                assert(fs + step_frames(t0, p, registered) =~= if range.nonempty() && t0.batch_size > BATCH_SIZE {
                    fs + flush_frames(t0)
                } else {
                    fs
                });
                return ;
            },
            TraceePayload::PageOut { range } => {
                if range.start < range.end {
                    self.accumulate(*range, MemState::NotResident, out, Ghost(fs));
                    self.map.insert(range.start, range.end, MemState::NotResident);
                }
                assert(fs + step_frames(t0, p, registered) =~= if range.nonempty() && t0.batch_size > BATCH_SIZE {
                    fs + flush_frames(t0)
                } else {
                    fs
                });
                return ;
            },
            _ => {},
        }
        self.flush(out, Ghost(fs));
        let ghost fs1 = fs + flush_frames(t0);
        let mut untracked: Option<AddrRange> = None;
        match &p {
            TraceePayload::Mapped { range, state } => {
                if range.start < range.end {
                    if self.uffd.is_some() && registered {
                        self.map.insert(range.start, range.end, *state);
                    } else {
                        self.printed_uffd_warning = true;
                        self.map.insert(range.start, range.end, MemState::Untracked);
                        untracked = Some(*range);
                    }
                }
            },
            TraceePayload::Connected { uffd, .. } => {
                if self.uffd.is_none() {
                    self.uffd = Some(*uffd);
                }
            },
            TraceePayload::Execve => {
                self.uffd = None;
                self.map = MemMap::new();
            },
            TraceePayload::Unmap { range } => {
                if range.start < range.end {
                    self.map.remove(range.start, range.end);
                }
            },
            TraceePayload::Remap { old_range, new_range } => {
                if old_range.start < old_range.end {
                    self.map.remove(old_range.start, old_range.end);
                }
                if new_range.start < new_range.end {
                    self.map.insert(new_range.start, new_range.end, MemState::Resident);
                }
            },
            _ => {},
        }
        let ghost pc = p;
        let ghost out1 = out@;
        out.push(MeviEvent::TraceeEvent(self.tid, p));
        proof {
            lemma_describes_push(out1, fs1, out@.last(), Frame::Event(t0.tid, pc));
        }
        let ghost fs2 = fs1.push(Frame::Event(t0.tid, pc));
        if let Some(r) = untracked {
            let mut b = MemMap::new();
            b.insert(r.start, r.end, MemState::Untracked);
            proof {
                assert(no_addrs().union_prefer_right(fill(r.start, r.end, MemState::Untracked))
                    =~= fill(r.start, r.end, MemState::Untracked));
            }
            let ghost out2 = out@;
            out.push(MeviEvent::TraceeEvent(self.tid, TraceePayload::Batch { batch: b.spans() }));
            proof {
                lemma_describes_push(
                    out2,
                    fs2,
                    out@.last(),
                    Frame::Batch(t0.tid, fill(r.start, r.end, MemState::Untracked)),
                );
                assert(fs2.push(Frame::Batch(t0.tid, fill(r.start, r.end, MemState::Untracked)))
                    =~= fs + step_frames(t0, p, registered));
            }
        } else {
            proof {
                assert(fs2 =~= fs + step_frames(t0, p, registered));
            }
        }
    }
}

/// The relay's authoritative state: every live tracee, each tid at most once.
pub struct Relay {
    tracees: Vec<TraceeState>,
}

/// Every tracee of `ts` with its pending batch sent.
pub open spec fn flushed_all(ts: Seq<TraceeView>) -> Seq<TraceeView> {
    ts.map_values(|t: TraceeView| flushed(t))
}

impl Relay {
    /// The live tracees, in order of first contact.
    pub closed spec fn views(&self) -> Seq<TraceeView> {
        self.tracees@.map_values(|t: TraceeState| t@)
    }

    pub closed spec fn wf(&self) -> bool {
        &&& forall|i: int| 0 <= i < self.tracees@.len() ==> (#[trigger] self.tracees@[i]).wf()
        &&& forall|i: int, j: int|
            0 <= i < self.tracees@.len() && 0 <= j < self.tracees@.len() && i != j
                ==> (#[trigger] self.tracees@[i]).tid != (#[trigger] self.tracees@[j]).tid
    }

    /// A relay that knows no tracee.
    pub fn new() -> (r: Relay)
        ensures
            r.wf(),
            r.views() == Seq::<TraceeView>::empty(),
    {
        let r = Relay { tracees: Vec::new() };
        assert(r.views() =~= Seq::<TraceeView>::empty());
        r
    }

    fn find(&self, tid: TraceeId) -> (r: Option<usize>)
        requires
            self.wf(),
        ensures
            r is None <==> !known(self.views(), tid),
            r matches Some(i) ==> i < self.views().len() && position(self.views(), tid) == i
                && self.views()[i as int].tid == tid,
    {
        let mut i: usize = 0;
        while i < self.tracees.len()
            invariant
                self.wf(),
                i <= self.tracees@.len(),
                forall|k: int| 0 <= k < i ==> (#[trigger] self.tracees@[k]).tid != tid,
            decreases self.tracees@.len() - i,
        {
            if self.tracees[i].tid == tid {
                proof {
                    assert(self.views()[i as int].tid == tid);
                    assert(known(self.views(), tid));
                    let j = position(self.views(), tid);
                    assert(0 <= j < self.tracees@.len());
                    assert(self.tracees@[j].tid == tid);
                    if j != i as int {
                        assert(self.tracees@[i as int].tid != self.tracees@[j].tid);
                    }
                }
                return Some(i);
            }
            i = i + 1;
        }
        proof {
            if known(self.views(), tid) {
                let j = choose|j: int| 0 <= j < self.views().len() && self.views()[j].tid == tid;
                assert(self.tracees@[j].tid == tid);
            }
        }
        None
    }

    /// Whether the relay holds state for `tid`.
    pub fn knows(&self, tid: TraceeId) -> (r: bool)
        requires
            self.wf(),
        ensures
            r == known(self.views(), tid),
    {
        self.find(tid).is_some()
    }

    /// The number of live tracees.
    pub fn len(&self) -> (r: usize)
        ensures
            r == self.views().len(),
    {
        self.tracees.len()
    }

    /// The userfault descriptor that tracee `tid` holds, if it is known and has one.
    pub fn uffd_of(&self, tid: TraceeId) -> (r: Option<i32>)
        requires
            self.wf(),
        ensures
            r == (if known(self.views(), tid) {
                self.views()[position(self.views(), tid)].uffd
            } else {
                None
            }),
    {
        match self.find(tid) {
            Some(i) => self.tracees[i].uffd,
            None => None,
        }
    }

    /// Whether the "no userfault descriptor" warning was given for tracee `tid`.
    pub fn uffd_warning_given(&self, tid: TraceeId) -> (r: bool)
        requires
            self.wf(),
        ensures
            r == (known(self.views(), tid) && self.views()[position(self.views(), tid)].warned),
    {
        match self.find(tid) {
            Some(i) => self.tracees[i].printed_uffd_warning,
            None => false,
        }
    }

    /// Sends every tracee's pending batch, in order.
    pub fn flush_all(&mut self) -> (out: Vec<MeviEvent>)
        requires
            old(self).wf(),
        ensures
            final(self).wf(),
            final(self).views() == flushed_all(old(self).views()),
            describes(out@, flush_all_frames(old(self).views())),
    {
        let mut out: Vec<MeviEvent> = Vec::new();
        let ghost old_ts = self.views();
        let mut i: usize = 0;
        proof {
            assert(old_ts.take(0) =~= Seq::<TraceeView>::empty());
        }
        while i < self.tracees.len()
            invariant
                self.wf(),
                self.views().len() == old_ts.len(),
                i <= old_ts.len(),
                forall|k: int| 0 <= k < i ==> self.views()[k] == flushed(#[trigger] old_ts[k]),
                forall|k: int| i <= k < old_ts.len() ==> self.views()[k] == #[trigger] old_ts[k],
                describes(out@, flush_all_frames(old_ts.take(i as int))),
            decreases old_ts.len() - i,
        {
            let ghost before_tr = self.tracees@;
            let mut t = self.tracees.remove(i);
            assert(t@ == old_ts[i as int]);
            t.flush(&mut out, Ghost(flush_all_frames(old_ts.take(i as int))));
            self.tracees.insert(i, t);
            proof {
                assert(self.tracees@ =~= before_tr.update(i as int, t));
                assert(old_ts.take(i + 1).drop_last() =~= old_ts.take(i as int));
            }
            i = i + 1;
        }
        proof {
            assert(old_ts.take(old_ts.len() as int) =~= old_ts);
            assert(self.views() =~= flushed_all(old_ts));
        }
        out
    }

    /// The entries of a snapshot of every tracee, after `prefix`.
    fn snapshot_entries(&self, prefix: Vec<TraceeSnapshot>) -> (r: Vec<TraceeSnapshot>)
        ensures
            r@.len() == prefix@.len() + self.views().len(),
            r@.subrange(0, prefix@.len() as int) == prefix@,
            forall|i: int|
                0 <= i < self.views().len() ==> snapshot_of(
                    #[trigger] r@[prefix@.len() + i],
                    self.views()[i],
                ),
    {
        let mut r = prefix;
        let mut i: usize = 0;
        while i < self.tracees.len()
            invariant
                i <= self.tracees@.len(),
                r@.len() == prefix@.len() + i,
                r@.subrange(0, prefix@.len() as int) == prefix@,
                forall|k: int|
                    0 <= k < i ==> snapshot_of(#[trigger] r@[prefix@.len() + k], self.views()[k]),
            decreases self.tracees@.len() - i,
        {
            let t = &self.tracees[i];
            let entry = TraceeSnapshot { tid: t.tid, cmdline: copy_lines(&t.cmdline), map: t.map.spans() };
            let ghost r0 = r@;
            r.push(entry);
            proof {
                assert(r@.subrange(0, prefix@.len() as int) =~= r0.subrange(0, prefix@.len() as int));
                assert(r@[prefix@.len() + i] == entry);
            }
            i = i + 1;
        }
        r
    }

    /// The userfault descriptor to register the range of `ev` with: that of the
    /// tracee, for a map event of a non-empty range of a known tracee.
    pub fn registration_fd(&self, ev: &MeviEvent) -> (r: Option<i32>)
        requires
            self.wf(),
        ensures
            r == (match *ev {
                MeviEvent::TraceeEvent(tid, TraceePayload::Mapped { range, state }) => if range.nonempty()
                    && known(self.views(), tid) {
                    self.views()[position(self.views(), tid)].uffd
                } else {
                    None
                },
                _ => None,
            }),
    {
        match ev {
            MeviEvent::TraceeEvent(tid, TraceePayload::Mapped { range, state }) => {
                if range.start < range.end {
                    match self.find(*tid) {
                        Some(i) => self.tracees[i].uffd,
                        None => None,
                    }
                } else {
                    None
                }
            },
            _ => None,
        }
    }

    /// Reduces one inbound event into the state and returns the frames to send.
    ///
    /// A snapshot request sends every pending batch, then the snapshot with an
    /// entry for each live tracee. A change for an unknown tracee first creates
    /// it with `cmdline` and sends `Start`. Page events go into the tracee's
    /// batch; any other change sends the batch, then the change itself, and is
    /// applied. A map event's range is tracked with its state when the tracee
    /// has a userfault descriptor and `registered` says the kernel took the
    /// range; otherwise it is `Untracked`, and a batch says so.
    pub fn handle(&mut self, ev: MeviEvent, cmdline: Vec<Vec<u8>>, registered: bool) -> (out: Vec<
        MeviEvent,
    >)
        requires
            old(self).wf(),
            inbound(ev),
        ensures
            final(self).wf(),
            match ev {
                MeviEvent::Snapshot(prefix) => {
                    &&& final(self).views() == flushed_all(old(self).views())
                    &&& describes(
                        out@,
                        flush_all_frames(old(self).views()).push(
                            Frame::Snapshot(prefix@, final(self).views()),
                        ),
                    )
                },
                MeviEvent::TraceeEvent(tid, p) => {
                    &&& final(self).views() == next_tracees(
                        old(self).views(),
                        tid,
                        p,
                        lines(cmdline@),
                        registered,
                    )
                    &&& describes(
                        out@,
                        event_frames(old(self).views(), tid, p, lines(cmdline@), registered),
                    )
                },
            },
    {
        let ghost ts = self.views();
        let ghost c = lines(cmdline@);
        match ev {
            MeviEvent::Snapshot(prefix) => {
                let ghost pre = prefix@;
                let mut out = self.flush_all();
                let entries = self.snapshot_entries(prefix);
                let ghost out1 = out@;
                out.push(MeviEvent::Snapshot(entries));
                proof {
                    lemma_describes_push(
                        out1,
                        flush_all_frames(ts),
                        out@.last(),
                        Frame::Snapshot(pre, self.views()),
                    );
                }
                out
            },
            MeviEvent::TraceeEvent(tid, p) => {
                let mut out: Vec<MeviEvent> = Vec::new();
                let ghost pc = p;
                let is_exit = matches!(p, TraceePayload::Exit);
                let ghost tr0 = self.tracees@;
                match self.find(tid) {
                    Some(i) => {
                        let mut t = self.tracees.remove(i);
                        assert(t@ == ts[i as int]);
                        proof {
                            assert(Seq::<Frame>::empty() + step_frames(t@, pc, registered) =~= step_frames(t@, pc, registered));
                        }
                        let ghost nofs = Seq::<Frame>::empty();
                        t.apply(p, registered, &mut out, Ghost(nofs));
                        if !is_exit {
                            self.tracees.insert(i, t);
                            proof {
                                assert(self.tracees@ =~= tr0.update(i as int, t));
                                assert(self.views() =~= ts.update(i as int, t@));
                                assert forall|a: int, b: int|
                                    0 <= a < self.tracees@.len() && 0 <= b < self.tracees@.len()
                                        && a != b implies (#[trigger] self.tracees@[a]).tid
                                    != (#[trigger] self.tracees@[b]).tid by {
                                    if a != i as int && b != i as int {
                                        assert(tr0[a].tid != tr0[b].tid);
                                    } else if a == i as int {
                                        assert(tr0[a].tid != tr0[b].tid);
                                    } else {
                                        assert(tr0[a].tid != tr0[b].tid);
                                    }
                                }
                            }
                        } else {
                            proof {
                                assert(self.views() =~= ts.remove(i as int));
                                assert forall|a: int, b: int|
                                    0 <= a < self.tracees@.len() && 0 <= b < self.tracees@.len()
                                        && a != b implies (#[trigger] self.tracees@[a]).tid
                                    != (#[trigger] self.tracees@[b]).tid by {
                                    let a0 = if a < i { a } else { a + 1 };
                                    let b0 = if b < i { b } else { b + 1 };
                                    assert(self.tracees@[a] == tr0[a0]);
                                    assert(self.tracees@[b] == tr0[b0]);
                                    assert(tr0[a0].tid != tr0[b0].tid);
                                }
                            }
                        }
                    },
                    None => {
                        let start = MeviEvent::TraceeEvent(
                            tid,
                            TraceePayload::Start { cmdline: copy_lines(&cmdline) },
                        );
                        out.push(start);
                        let mut t = TraceeState::fresh_state(tid, cmdline);
                        proof {
                            assert(describes(out@, seq![Frame::Start(tid, c)]));
                        }
                        let ghost sfs = seq![Frame::Start(tid, c)];
                        t.apply(p, registered, &mut out, Ghost(sfs));
                        if !is_exit {
                            self.tracees.push(t);
                            proof {
                                assert(self.views() =~= ts.push(t@));
                                assert forall|a: int, b: int|
                                    0 <= a < self.tracees@.len() && 0 <= b < self.tracees@.len()
                                        && a != b implies (#[trigger] self.tracees@[a]).tid
                                    != (#[trigger] self.tracees@[b]).tid by {
                                    if a < tr0.len() && b < tr0.len() {
                                        assert(tr0[a].tid != tr0[b].tid);
                                    } else if a < tr0.len() {
                                        assert(ts[a].tid != tid);
                                    } else {
                                        assert(ts[b].tid != tid);
                                    }
                                }
                            }
                        }
                    },
                }
                out
            },
        }
    }
}

/// The tracee a tracee frame is about.
pub open spec fn frame_tid(f: Frame) -> Option<TraceeId> {
    match f {
        Frame::Start(tid, _) => Some(tid),
        Frame::Batch(tid, _) => Some(tid),
        Frame::Event(tid, _) => Some(tid),
        Frame::Snapshot(_, _) => None,
    }
}

/// No two tracees of `ts` share an id.
pub open spec fn unique_tids(ts: Seq<TraceeView>) -> bool {
    forall|i: int, j: int|
        0 <= i < ts.len() && 0 <= j < ts.len() && i != j ==> (#[trigger] ts[i]).tid != (
        #[trigger] ts[j]).tid
}

/// A well-formed relay holds each tracee once.
pub proof fn relay_tids_unique(r: &Relay)
    requires
        r.wf(),
    ensures
        unique_tids(r.views()),
{
    assert forall|i: int, j: int|
        0 <= i < r.views().len() && 0 <= j < r.views().len() && i != j implies (
        #[trigger] r.views()[i]).tid != (#[trigger] r.views()[j]).tid by {
        assert(r.tracees@[i].tid != r.tracees@[j].tid);
    }
}

/// In a well-formed relay every tracee's batch holds at most one more page
/// event than a batch takes, and a batch with no events is empty.
pub proof fn relay_batches_consistent(r: &Relay)
    requires
        r.wf(),
    ensures
        forall|i: int|
            0 <= i < r.views().len() ==> (#[trigger] r.views()[i]).batch_size <= BATCH_SIZE + 1
                && (r.views()[i].batch_size == 0 ==> r.views()[i].batch == no_addrs()),
{
    assert forall|i: int| 0 <= i < r.views().len() implies (#[trigger] r.views()[i]).batch_size
        <= BATCH_SIZE + 1 && (r.views()[i].batch_size == 0 ==> r.views()[i].batch == no_addrs()) by {
        assert(r.tracees@[i].wf());
    }
}

/// The first frame sent about a tracee the relay did not know is its `Start`,
/// with the command line it was created with; a known tracee gets no `Start`
/// again; and every frame of an event is about that event's tracee.
pub proof fn start_comes_first(
    ts: Seq<TraceeView>,
    tid: TraceeId,
    p: TraceePayload,
    c: Seq<Seq<u8>>,
    registered: bool,
)
    requires
        unique_tids(ts),
    ensures
        !known(ts, tid) ==> event_frames(ts, tid, p, c, registered).len() >= 1 && event_frames(
            ts,
            tid,
            p,
            c,
            registered,
        )[0] == Frame::Start(tid, c),
        known(ts, tid) ==> forall|i: int|
            0 <= i < event_frames(ts, tid, p, c, registered).len() ==> !(#[trigger] event_frames(
                ts,
                tid,
                p,
                c,
                registered,
            )[i] is Start),
        forall|i: int|
            0 <= i < event_frames(ts, tid, p, c, registered).len() ==> frame_tid(
                #[trigger] event_frames(ts, tid, p, c, registered)[i],
            ) == Some(tid),
{
    let t = before(ts, tid, c);
    if known(ts, tid) {
        let k = position(ts, tid);
        assert(ts[k].tid == tid);
    }
    assert(t.tid == tid);
}

/// The tracee after page-ins of `ps`, one after another.
pub open spec fn page_ins(t: TraceeView, ps: Seq<AddrRange>) -> TraceeView
    decreases ps.len(),
{
    if ps.len() == 0 {
        t
    } else {
        step(page_ins(t, ps.drop_last()), TraceePayload::PageIn { range: ps.last() }, false)
    }
}

/// The union of the ranges of `ps`, each address mapped to `state`.
pub open spec fn union_fill(ps: Seq<AddrRange>, state: MemState) -> Map<u64, MemState>
    decreases ps.len(),
{
    if ps.len() == 0 {
        no_addrs()
    } else {
        union_fill(ps.drop_last(), state).union_prefer_right(
            fill(ps.last().start, ps.last().end, state),
        )
    }
}

proof fn lemma_union_fill_members(ps: Seq<AddrRange>, state: MemState)
    ensures
        forall|a: u64|
            #[trigger] union_fill(ps, state).contains_key(a) <==> exists|i: int|
                0 <= i < ps.len() && ps[i].start <= a && a < #[trigger] ps[i].end,
        forall|a: u64| #[trigger] union_fill(ps, state).contains_key(a) ==> union_fill(ps, state)[a]
            == state,
    decreases ps.len(),
{
    if ps.len() > 0 {
        let q = ps.drop_last();
        lemma_union_fill_members(q, state);
        assert forall|a: u64| #[trigger] union_fill(ps, state).contains_key(a) implies exists|i: int|
            0 <= i < ps.len() && ps[i].start <= a && a < #[trigger] ps[i].end by {
            if union_fill(q, state).contains_key(a) {
                let i = choose|i: int| 0 <= i < q.len() && q[i].start <= a && a < #[trigger] q[i].end;
                assert(ps[i] == q[i]);
            } else {
                assert(ps[ps.len() - 1].start <= a && a < ps[ps.len() - 1].end);
            }
        }
        assert forall|a: u64|
            (exists|i: int| 0 <= i < ps.len() && ps[i].start <= a && a < #[trigger] ps[i].end)
                implies #[trigger] union_fill(ps, state).contains_key(a) by {
            let i = choose|i: int| 0 <= i < ps.len() && ps[i].start <= a && a < #[trigger] ps[i].end;
            if i < ps.len() - 1 {
                assert(q[i] == ps[i]);
                assert(q[i].start <= a && a < q[i].end);
            }
        }
    }
}

/// Page-ins of non-empty ranges, no more than a batch takes, on a tracee with
/// nothing pending, leave as its batch the union of their ranges, all resident;
/// sending it then makes one `Batch` frame of exactly that.
pub proof fn page_ins_coalesce(t: TraceeView, ps: Seq<AddrRange>)
    requires
        t.batch_size == 0,
        t.batch == no_addrs(),
        ps.len() <= BATCH_SIZE + 1,
        forall|i: int| 0 <= i < ps.len() ==> (#[trigger] ps[i]).nonempty(),
    ensures
        page_ins(t, ps).batch == union_fill(ps, MemState::Resident),
        page_ins(t, ps).batch_size == ps.len(),
        page_ins(t, ps).tid == t.tid,
        forall|a: u64|
            #[trigger] page_ins(t, ps).batch.contains_key(a) <==> exists|i: int|
                0 <= i < ps.len() && ps[i].start <= a && a < #[trigger] ps[i].end,
        forall|a: u64| #[trigger] page_ins(t, ps).batch.contains_key(a) ==> page_ins(t, ps).batch[a]
            == MemState::Resident,
        ps.len() > 0 ==> flush_frames(page_ins(t, ps)) == seq![
            Frame::Batch(t.tid, union_fill(ps, MemState::Resident)),
        ],
    decreases ps.len(),
{
    if ps.len() > 0 {
        let q = ps.drop_last();
        assert forall|i: int| 0 <= i < q.len() implies (#[trigger] q[i]).nonempty() by {
            assert(q[i] == ps[i]);
        }
        page_ins_coalesce(t, q);
        assert(ps[ps.len() - 1].nonempty());
        if q.len() == 0 {
            assert(no_addrs().union_prefer_right(fill(ps.last().start, ps.last().end, MemState::Resident))
                == union_fill(ps, MemState::Resident));
        }
    }
    lemma_union_fill_members(ps, MemState::Resident);
}

/// After an exit the relay holds nothing for that tracee.
pub proof fn exit_forgets(ts: Seq<TraceeView>, tid: TraceeId, c: Seq<Seq<u8>>, registered: bool)
    requires
        unique_tids(ts),
    ensures
        !known(next_tracees(ts, tid, TraceePayload::Exit, c, registered), tid),
        unique_tids(next_tracees(ts, tid, TraceePayload::Exit, c, registered)),
{
    let n = next_tracees(ts, tid, TraceePayload::Exit, c, registered);
    if known(ts, tid) {
        let k = position(ts, tid);
        assert(ts[k].tid == tid);
        assert forall|i: int| 0 <= i < n.len() implies (#[trigger] n[i]).tid != tid by {
            if i < k {
                assert(n[i] == ts[i]);
            } else {
                assert(n[i] == ts[i + 1]);
            }
        }
        assert forall|i: int, j: int|
            0 <= i < n.len() && 0 <= j < n.len() && i != j implies (#[trigger] n[i]).tid != (
            #[trigger] n[j]).tid by {
            let i0 = if i < k { i } else { i + 1 };
            let j0 = if j < k { j } else { j + 1 };
            assert(n[i] == ts[i0]);
            assert(n[j] == ts[j0]);
        }
    }
}

/// After `execve` a tracee has no userfault descriptor and an empty map.
pub proof fn execve_resets(t: TraceeView, registered: bool)
    ensures
        step(t, TraceePayload::Execve, registered).uffd is None,
        step(t, TraceePayload::Execve, registered).map == no_addrs(),
{
}

/// A map event keeps the tracee's descriptor, and a non-empty range keeps the
/// state it was announced in (other than `Untracked`) only where the tracee
/// holds a userfault descriptor and the kernel took the range; else every
/// address of it is `Untracked`.
pub proof fn tracked_maps_need_descriptor(
    t: TraceeView,
    range: AddrRange,
    state: MemState,
    registered: bool,
)
    requires
        range.nonempty(),
        state != MemState::Untracked,
    ensures
        step(t, TraceePayload::Mapped { range, state }, registered).uffd == t.uffd,
        forall|a: u64|
            range.start <= a < range.end ==> #[trigger] step(
                t,
                TraceePayload::Mapped { range, state },
                registered,
            ).map.contains_key(a),
        forall|a: u64|
            range.start <= a < range.end ==> (#[trigger] step(
                t,
                TraceePayload::Mapped { range, state },
                registered,
            ).map[a] == state <==> t.uffd is Some && registered),
        !(t.uffd is Some && registered) ==> forall|a: u64|
            range.start <= a < range.end ==> #[trigger] step(
                t,
                TraceePayload::Mapped { range, state },
                registered,
            ).map[a] == MemState::Untracked,
{
}

/// Address `a` lies in a range that `p` maps, pages in or out, or moves to.
pub open spec fn brings(p: TraceePayload, a: u64) -> bool {
    match p {
        TraceePayload::Mapped { range, .. } => range.start <= a < range.end,
        TraceePayload::PageIn { range } => range.start <= a < range.end,
        TraceePayload::PageOut { range } => range.start <= a < range.end,
        TraceePayload::Remap { new_range, .. } => new_range.start <= a < new_range.end,
        _ => false,
    }
}

/// The tracee after the changes `ps`, the `i`-th with registration answer `regs[i]`.
pub open spec fn steps(t: TraceeView, ps: Seq<TraceePayload>, regs: Seq<bool>) -> TraceeView
    decreases ps.len(),
{
    if ps.len() == 0 {
        t
    } else {
        step(steps(t, ps.drop_last(), regs), ps.last(), regs[ps.len() - 1])
    }
}

proof fn lemma_step_map(u: TraceeView, p: TraceePayload, registered: bool, a: u64)
    ensures
        step(u, p, registered).map.contains_key(a) ==> u.map.contains_key(a) || brings(p, a),
{
}

proof fn lemma_steps_map(t: TraceeView, ps: Seq<TraceePayload>, regs: Seq<bool>, a: u64)
    ensures
        steps(t, ps, regs).map.contains_key(a) ==> t.map.contains_key(a) || exists|i: int|
            0 <= i < ps.len() && brings(#[trigger] ps[i], a),
    decreases ps.len(),
{
    if ps.len() > 0 {
        let q = ps.drop_last();
        lemma_steps_map(t, q, regs, a);
        lemma_step_map(steps(t, q, regs), ps.last(), regs[ps.len() - 1], a);
        if exists|i: int| 0 <= i < q.len() && brings(#[trigger] q[i], a) {
            let i = choose|i: int| 0 <= i < q.len() && brings(#[trigger] q[i], a);
            assert(ps[i] == q[i]);
        }
        if brings(ps.last(), a) {
            assert(brings(ps[ps.len() - 1], a));
        }
    }
}

/// After `execve`, whatever changes follow, the tracee's map holds only
/// addresses that those later changes brought in: nothing from before.
pub proof fn execve_forgets_old_ranges(
    t: TraceeView,
    registered: bool,
    ps: Seq<TraceePayload>,
    regs: Seq<bool>,
)
    ensures
        forall|a: u64|
            #[trigger] steps(step(t, TraceePayload::Execve, registered), ps, regs).map.contains_key(a)
                ==> exists|i: int| 0 <= i < ps.len() && brings(#[trigger] ps[i], a),
{
    let t0 = step(t, TraceePayload::Execve, registered);
    assert forall|a: u64| #[trigger] steps(t0, ps, regs).map.contains_key(a) implies exists|i: int|
        0 <= i < ps.len() && brings(#[trigger] ps[i], a) by {
        lemma_steps_map(t0, ps, regs, a);
    }
}

} // verus!
