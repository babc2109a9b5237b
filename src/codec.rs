use crate::event::{lines, AddrRange, ConnectSource, MeviEvent, TraceeId, TraceePayload, TraceeSnapshot};
use crate::memmap::{MemState, Span};
use vstd::prelude::*;

verus! {

// Frames are little-endian: integers at their full width, enum variants as a
// `u32` index, and every sequence, byte string included, behind its `u64`
// length.

/// `x` as `n` little-endian bytes, the higher ones dropped.
pub open spec fn le(x: nat, n: nat) -> Seq<u8>
    decreases n,
{
    if n == 0 {
        seq![]
    } else {
        seq![(x % 256) as u8] + le(x / 256, (n - 1) as nat)
    }
}

/// The number that little-endian bytes `s` stand for.
pub open spec fn le_value(s: Seq<u8>) -> nat
    decreases s.len(),
{
    if s.len() == 0 {
        0
    } else {
        s[0] as nat + 256 * le_value(s.drop_first())
    }
}

pub open spec fn pow256(n: nat) -> nat
    decreases n,
{
    if n == 0 {
        1
    } else {
        256 * pow256((n - 1) as nat)
    }
}

pub open spec fn enc_u64(x: u64) -> Seq<u8> {
    le(x as nat, 8)
}

pub open spec fn enc_u32(x: u32) -> Seq<u8> {
    le(x as nat, 4)
}

pub open spec fn state_tag(s: MemState) -> u32 {
    match s {
        MemState::Resident => 0,
        MemState::NotResident => 1,
        MemState::Unmapped => 2,
        MemState::Untracked => 3,
    }
}

pub open spec fn enc_range(r: AddrRange) -> Seq<u8> {
    enc_u64(r.start) + enc_u64(r.end)
}

pub open spec fn enc_span(s: Span) -> Seq<u8> {
    enc_u64(s.start) + enc_u64(s.end) + enc_u32(state_tag(s.state))
}

pub open spec fn enc_span_items(ss: Seq<Span>) -> Seq<u8>
    decreases ss.len(),
{
    if ss.len() == 0 {
        seq![]
    } else {
        enc_span(ss[0]) + enc_span_items(ss.drop_first())
    }
}

pub open spec fn enc_spans(ss: Seq<Span>) -> Seq<u8> {
    enc_u64(ss.len() as u64) + enc_span_items(ss)
}

pub open spec fn enc_bytes(b: Seq<u8>) -> Seq<u8> {
    enc_u64(b.len() as u64) + b
}

pub open spec fn enc_line_items(ls: Seq<Seq<u8>>) -> Seq<u8>
    decreases ls.len(),
{
    if ls.len() == 0 {
        seq![]
    } else {
        enc_bytes(ls[0]) + enc_line_items(ls.drop_first())
    }
}

pub open spec fn enc_lines(ls: Seq<Seq<u8>>) -> Seq<u8> {
    enc_u64(ls.len() as u64) + enc_line_items(ls)
}

/// A snapshot entry as plain sequences.
pub struct EntryView {
    pub tid: TraceeId,
    pub cmdline: Seq<Seq<u8>>,
    pub map: Seq<Span>,
}

pub open spec fn entry_view(s: TraceeSnapshot) -> EntryView {
    EntryView { tid: s.tid, cmdline: lines(s.cmdline@), map: s.map@ }
}

pub open spec fn entry_views(ss: Seq<TraceeSnapshot>) -> Seq<EntryView> {
    ss.map_values(|s: TraceeSnapshot| entry_view(s))
}

#[verifier::opaque]
pub open spec fn enc_entry(e: EntryView) -> Seq<u8> {
    enc_u64(e.tid.0) + enc_lines(e.cmdline) + enc_spans(e.map)
}

pub open spec fn enc_entry_items(es: Seq<EntryView>) -> Seq<u8>
    decreases es.len(),
{
    if es.len() == 0 {
        seq![]
    } else {
        enc_entry(es[0]) + enc_entry_items(es.drop_first())
    }
}

/// The frame of a snapshot with entries `es`.
pub open spec fn enc_snapshot(es: Seq<EntryView>) -> Seq<u8> {
    enc_u32(0) + enc_u64(es.len() as u64) + enc_entry_items(es)
}

pub open spec fn enc_payload(p: TraceePayload) -> Seq<u8> {
    match p {
        TraceePayload::Mapped { range, state } => enc_u32(0) + enc_range(range) + enc_u32(
            state_tag(state),
        ),
        TraceePayload::Connected { source, uffd } => enc_u32(1) + enc_u32(
            match source {
                ConnectSource::LdPreload => 0u32,
                ConnectSource::Fork => 1u32,
            },
        ) + enc_u32(uffd as u32),
        TraceePayload::Execve => enc_u32(2),
        TraceePayload::PageIn { range } => enc_u32(3) + enc_range(range),
        TraceePayload::PageOut { range } => enc_u32(4) + enc_range(range),
        TraceePayload::Unmap { range } => enc_u32(5) + enc_range(range),
        TraceePayload::Remap { old_range, new_range } => enc_u32(6) + enc_range(old_range)
            + enc_range(new_range),
        TraceePayload::Batch { batch } => enc_u32(7) + enc_spans(batch@),
        TraceePayload::Start { cmdline } => enc_u32(8) + enc_lines(lines(cmdline@)),
        TraceePayload::Exit => enc_u32(9),
    }
}

/// The frame of event `e`.
pub open spec fn enc_event(e: MeviEvent) -> Seq<u8> {
    match e {
        MeviEvent::Snapshot(ss) => enc_snapshot(entry_views(ss@)),
        MeviEvent::TraceeEvent(tid, p) => enc_u32(1) + enc_u64(tid.0) + enc_payload(p),
    }
}

/// Appends the `n` low bytes of `v`, lowest first.
fn put_le(out: &mut Vec<u8>, v: u64, n: usize)
    ensures
        final(out)@ == old(out)@ + le(v as nat, n as nat),
{
    let mut x: u64 = v;
    let mut k: usize = 0;
    while k < n
        invariant
            k <= n,
            old(out)@ + le(v as nat, n as nat) == out@ + le(x as nat, (n - k) as nat),
        decreases n - k,
    {
        let ghost before = out@;
        out.push((x % 256) as u8);
        proof {
            assert(le(x as nat, (n - k) as nat) == seq![(x % 256) as u8] + le(
                (x / 256) as nat,
                (n - k - 1) as nat,
            ));
            assert(before + le(x as nat, (n - k) as nat) =~= out@ + le(
                (x / 256) as nat,
                (n - k - 1) as nat,
            ));
        }
        x = x / 256;
        k = k + 1;
    }
    assert(out@ + le(x as nat, 0) =~= out@);
}

fn put_u64(out: &mut Vec<u8>, v: u64)
    ensures
        final(out)@ == old(out)@ + enc_u64(v),
{
    put_le(out, v, 8);
}

fn put_u32(out: &mut Vec<u8>, v: u32)
    ensures
        final(out)@ == old(out)@ + enc_u32(v),
{
    put_le(out, v as u64, 4);
}

fn state_code(s: MemState) -> (r: u32)
    ensures
        r == state_tag(s),
{
    match s {
        MemState::Resident => 0,
        MemState::NotResident => 1,
        MemState::Unmapped => 2,
        MemState::Untracked => 3,
    }
}

fn put_range(out: &mut Vec<u8>, r: AddrRange)
    ensures
        final(out)@ == old(out)@ + enc_range(r),
{
    put_u64(out, r.start);
    put_u64(out, r.end);
    assert(out@ =~= old(out)@ + enc_range(r));
}

fn put_spans(out: &mut Vec<u8>, ss: &Vec<Span>)
    ensures
        final(out)@ == old(out)@ + enc_spans(ss@),
{
    put_u64(out, ss.len() as u64);
    let ghost base = out@;
    let mut k: usize = 0;
    assert(ss@.skip(0) =~= ss@);
    assert(base + enc_span_items(ss@) =~= out@ + enc_span_items(ss@.skip(0)));
    while k < ss.len()
        invariant
            k <= ss@.len(),
            base + enc_span_items(ss@) == out@ + enc_span_items(ss@.skip(k as int)),
        decreases ss@.len() - k,
    {
        let s = ss[k];
        let ghost before = out@;
        put_u64(out, s.start);
        put_u64(out, s.end);
        put_u32(out, state_code(s.state));
        proof {
            assert(ss@.skip(k as int).drop_first() =~= ss@.skip(k + 1));
            assert(before + enc_span_items(ss@.skip(k as int)) =~= out@ + enc_span_items(
                ss@.skip(k + 1),
            ));
        }
        k = k + 1;
    }
    assert(enc_span_items(ss@.skip(k as int)) =~= seq![]);
    assert(out@ =~= old(out)@ + enc_spans(ss@));
}

fn put_bytes(out: &mut Vec<u8>, b: &Vec<u8>)
    ensures
        final(out)@ == old(out)@ + enc_bytes(b@),
{
    put_u64(out, b.len() as u64);
    let ghost base = out@;
    let mut k: usize = 0;
    while k < b.len()
        invariant
            k <= b@.len(),
            out@ == base + b@.take(k as int),
        decreases b@.len() - k,
    {
        out.push(b[k]);
        k = k + 1;
        assert(out@ =~= base + b@.take(k as int));
    }
    assert(b@.take(k as int) =~= b@);
    assert(out@ =~= old(out)@ + enc_bytes(b@));
}

fn put_lines(out: &mut Vec<u8>, ls: &Vec<Vec<u8>>)
    ensures
        final(out)@ == old(out)@ + enc_lines(lines(ls@)),
{
    let ghost ll = lines(ls@);
    put_u64(out, ls.len() as u64);
    let ghost base = out@;
    let mut k: usize = 0;
    assert(ll.skip(0) =~= ll);
    assert(base + enc_line_items(ll) =~= out@ + enc_line_items(ll.skip(0)));
    while k < ls.len()
        invariant
            k <= ls@.len(),
            ll == lines(ls@),
            base + enc_line_items(ll) == out@ + enc_line_items(ll.skip(k as int)),
        decreases ls@.len() - k,
    {
        let ghost before = out@;
        put_bytes(out, &ls[k]);
        proof {
            assert(ll.skip(k as int).drop_first() =~= ll.skip(k + 1));
            assert(ll.skip(k as int)[0] == ls@[k as int]@);
            assert(before + enc_line_items(ll.skip(k as int)) =~= out@ + enc_line_items(
                ll.skip(k + 1),
            ));
        }
        k = k + 1;
    }
    assert(enc_line_items(ll.skip(k as int)) =~= seq![]);
    assert(out@ =~= old(out)@ + enc_lines(ll));
}

fn put_entries(out: &mut Vec<u8>, es: &Vec<TraceeSnapshot>)
    ensures
        final(out)@ == old(out)@ + enc_u64(es@.len() as u64) + enc_entry_items(entry_views(es@)),
{
    let ghost ev = entry_views(es@);
    put_u64(out, es.len() as u64);
    let ghost base = out@;
    let mut k: usize = 0;
    assert(ev.skip(0) =~= ev);
    assert(base + enc_entry_items(ev) =~= out@ + enc_entry_items(ev.skip(0)));
    while k < es.len()
        invariant
            k <= es@.len(),
            ev == entry_views(es@),
            base + enc_entry_items(ev) == out@ + enc_entry_items(ev.skip(k as int)),
        decreases es@.len() - k,
    {
        let ghost before = out@;
        let e = &es[k];
        put_u64(out, e.tid.0);
        put_lines(out, &e.cmdline);
        put_spans(out, &e.map);
        proof {
            reveal(enc_entry);
            assert(ev.skip(k as int).drop_first() =~= ev.skip(k + 1));
            assert(ev.skip(k as int)[0] == entry_view(es@[k as int]));
            assert(before + enc_entry_items(ev.skip(k as int)) =~= out@ + enc_entry_items(
                ev.skip(k + 1),
            ));
        }
        k = k + 1;
    }
    assert(enc_entry_items(ev.skip(k as int)) =~= seq![]);
    assert(out@ =~= old(out)@ + enc_u64(es@.len() as u64) + enc_entry_items(ev));
}

/// The frame of `e`, as subscribers receive it.
pub fn encode_event(e: &MeviEvent) -> (r: Vec<u8>)
    ensures
        r@ == enc_event(*e),
{
    let mut out: Vec<u8> = Vec::new();
    match e {
        MeviEvent::Snapshot(ss) => {
            put_u32(&mut out, 0);
            put_entries(&mut out, ss);
        },
        MeviEvent::TraceeEvent(tid, p) => {
            put_u32(&mut out, 1);
            put_u64(&mut out, tid.0);
            match p {
                TraceePayload::Mapped { range, state } => {
                    put_u32(&mut out, 0);
                    put_range(&mut out, *range);
                    put_u32(&mut out, state_code(*state));
                },
                TraceePayload::Connected { source, uffd } => {
                    put_u32(&mut out, 1);
                    put_u32(
                        &mut out,
                        match source {
                            ConnectSource::LdPreload => 0,
                            ConnectSource::Fork => 1,
                        },
                    );
                    put_u32(&mut out, *uffd as u32);
                },
                TraceePayload::Execve => put_u32(&mut out, 2),
                TraceePayload::PageIn { range } => {
                    put_u32(&mut out, 3);
                    put_range(&mut out, *range);
                },
                TraceePayload::PageOut { range } => {
                    put_u32(&mut out, 4);
                    put_range(&mut out, *range);
                },
                TraceePayload::Unmap { range } => {
                    put_u32(&mut out, 5);
                    put_range(&mut out, *range);
                },
                TraceePayload::Remap { old_range, new_range } => {
                    put_u32(&mut out, 6);
                    put_range(&mut out, *old_range);
                    put_range(&mut out, *new_range);
                },
                TraceePayload::Batch { batch } => {
                    put_u32(&mut out, 7);
                    put_spans(&mut out, batch);
                },
                TraceePayload::Start { cmdline } => {
                    put_u32(&mut out, 8);
                    put_lines(&mut out, cmdline);
                },
                TraceePayload::Exit => put_u32(&mut out, 9),
            }
        },
    }
    assert(out@ =~= enc_event(*e));
    out
}

// Reading frames back.

/// An unsigned number of `n` bytes at the front of `b`, and what follows it.
pub open spec fn parse_uint(b: Seq<u8>, n: nat) -> Option<(nat, Seq<u8>)> {
    if b.len() >= n {
        Some((le_value(b.take(n as int)), b.skip(n as int)))
    } else {
        None
    }
}

pub open spec fn state_of_tag(t: nat) -> Option<MemState> {
    if t == 0 {
        Some(MemState::Resident)
    } else if t == 1 {
        Some(MemState::NotResident)
    } else if t == 2 {
        Some(MemState::Unmapped)
    } else if t == 3 {
        Some(MemState::Untracked)
    } else {
        None
    }
}

pub open spec fn parse_span(b: Seq<u8>) -> Option<(Span, Seq<u8>)> {
    match parse_uint(b, 8) {
        Some((s, r1)) => match parse_uint(r1, 8) {
            Some((e, r2)) => match parse_uint(r2, 4) {
                Some((t, r3)) => match state_of_tag(t) {
                    Some(st) => Some((Span { start: s as u64, end: e as u64, state: st }, r3)),
                    None => None,
                },
                None => None,
            },
            None => None,
        },
        None => None,
    }
}

pub open spec fn parse_span_items(b: Seq<u8>, n: nat) -> Option<(Seq<Span>, Seq<u8>)>
    decreases n,
{
    if n == 0 {
        Some((seq![], b))
    } else {
        match parse_span(b) {
            Some((s, r1)) => match parse_span_items(r1, (n - 1) as nat) {
                Some((ss, r2)) => Some((seq![s] + ss, r2)),
                None => None,
            },
            None => None,
        }
    }
}

pub open spec fn parse_spans(b: Seq<u8>) -> Option<(Seq<Span>, Seq<u8>)> {
    match parse_uint(b, 8) {
        Some((n, r1)) => parse_span_items(r1, n),
        None => None,
    }
}

pub open spec fn parse_bytes(b: Seq<u8>) -> Option<(Seq<u8>, Seq<u8>)> {
    match parse_uint(b, 8) {
        Some((n, r1)) => if r1.len() >= n {
            Some((r1.take(n as int), r1.skip(n as int)))
        } else {
            None
        },
        None => None,
    }
}

pub open spec fn parse_line_items(b: Seq<u8>, n: nat) -> Option<(Seq<Seq<u8>>, Seq<u8>)>
    decreases n,
{
    if n == 0 {
        Some((seq![], b))
    } else {
        match parse_bytes(b) {
            Some((l, r1)) => match parse_line_items(r1, (n - 1) as nat) {
                Some((ls, r2)) => Some((seq![l] + ls, r2)),
                None => None,
            },
            None => None,
        }
    }
}

pub open spec fn parse_lines(b: Seq<u8>) -> Option<(Seq<Seq<u8>>, Seq<u8>)> {
    match parse_uint(b, 8) {
        Some((n, r1)) => parse_line_items(r1, n),
        None => None,
    }
}

#[verifier::opaque]
pub open spec fn parse_entry(b: Seq<u8>) -> Option<(EntryView, Seq<u8>)> {
    match parse_uint(b, 8) {
        Some((tid, r1)) => match parse_lines(r1) {
            Some((c, r2)) => match parse_spans(r2) {
                Some((m, r3)) => Some((EntryView { tid: TraceeId(tid as u64), cmdline: c, map: m }, r3)),
                None => None,
            },
            None => None,
        },
        None => None,
    }
}

pub open spec fn parse_entry_items(b: Seq<u8>, n: nat) -> Option<(Seq<EntryView>, Seq<u8>)>
    decreases n,
{
    if n == 0 {
        Some((seq![], b))
    } else {
        match parse_entry(b) {
            Some((e, r1)) => match parse_entry_items(r1, (n - 1) as nat) {
                Some((es, r2)) => Some((seq![e] + es, r2)),
                None => None,
            },
            None => None,
        }
    }
}

/// The entries of a snapshot frame that is `b` exactly.
pub open spec fn parse_snapshot(b: Seq<u8>) -> Option<Seq<EntryView>> {
    match parse_uint(b, 4) {
        Some((tag, r1)) => if tag == 0 {
            match parse_uint(r1, 8) {
                Some((n, r2)) => match parse_entry_items(r2, n) {
                    Some((es, r3)) => if r3.len() == 0 {
                        Some(es)
                    } else {
                        None
                    },
                    None => None,
                },
                None => None,
            }
        } else {
            None
        },
        None => None,
    }
}

/// Prepends `acc` to the items of a parse result.
pub open spec fn after<T>(acc: Seq<T>, r: Option<(Seq<T>, Seq<u8>)>) -> Option<(Seq<T>, Seq<u8>)> {
    match r {
        Some((s, rest)) => Some((acc + s, rest)),
        None => None,
    }
}

proof fn lemma_pow256_mono(m: nat, n: nat)
    requires
        m <= n,
    ensures
        pow256(m) <= pow256(n),
        pow256(m) >= 1,
    decreases n,
{
    if n > 0 {
        if m < n {
            lemma_pow256_mono(m, (n - 1) as nat);
        }
        lemma_pow256_mono(0, (n - 1) as nat);
    }
}

proof fn lemma_pow256_values()
    ensures
        pow256(4) == 0x1_0000_0000,
        pow256(8) == 0x1_0000_0000_0000_0000,
{
    reveal_with_fuel(pow256, 9);
}

fn get_uint(b: &Vec<u8>, pos: usize, n: usize) -> (r: Option<(u64, usize)>)
    requires
        pos <= b@.len(),
        n <= 8,
    ensures
        match parse_uint(b@.skip(pos as int), n as nat) {
            Some((x, rest)) => r matches Some((v, p)) && v as nat == x && pos <= p <= b@.len()
                && rest == b@.skip(p as int),
            None => r is None,
        },
{
    if b.len() - pos < n {
        return None;
    }
    let blen = b.len();
    let mut v: u64 = 0;
    let mut k: usize = n;
    proof {
        lemma_pow256_values();
        assert(b@.subrange(pos + n, pos + n) =~= Seq::<u8>::empty());
    }
    while k > 0
        invariant
            k <= n <= 8,
            pos + n <= b@.len(),
            blen == b@.len(),
            v as nat == le_value(b@.subrange(pos + k, pos + n)),
            (v as nat) < pow256((n - k) as nat),
        decreases k,
    {
        k = k - 1;
        proof {
            lemma_pow256_mono((n - k) as nat, 8);
            lemma_pow256_values();
            let p = pow256((n - k - 1) as nat);
            assert(pow256((n - k) as nat) == 256 * p);
            assert(v * 256 + 255 < 256 * p) by (nonlinear_arith)
                requires
                    (v as nat) < p,
            ;
            assert(b@.subrange(pos + k, pos + n).drop_first() =~= b@.subrange(pos + k + 1, pos + n));
        }
        assert(pos + k < b@.len());
        assert(v * 256 + 255 < 0x1_0000_0000_0000_0000);
        v = v * 256 + b[pos + k] as u64;
    }
    assert(b@.skip(pos as int).take(n as int) =~= b@.subrange(pos as int, pos + n));
    assert(b@.skip(pos as int).skip(n as int) =~= b@.skip(pos + n));
    Some((v, pos + n))
}

fn get_span(b: &Vec<u8>, pos: usize) -> (r: Option<(Span, usize)>)
    requires
        pos <= b@.len(),
    ensures
        match parse_span(b@.skip(pos as int)) {
            Some((x, rest)) => r matches Some((v, p)) && v == x && pos <= p <= b@.len() && rest
                == b@.skip(p as int),
            None => r is None,
        },
{
    let (start, p1) = match get_uint(b, pos, 8) {
        Some(x) => x,
        None => return None,
    };
    let (end, p2) = match get_uint(b, p1, 8) {
        Some(x) => x,
        None => return None,
    };
    let (tag, p3) = match get_uint(b, p2, 4) {
        Some(x) => x,
        None => return None,
    };
    let state = if tag == 0 {
        MemState::Resident
    } else if tag == 1 {
        MemState::NotResident
    } else if tag == 2 {
        MemState::Unmapped
    } else if tag == 3 {
        MemState::Untracked
    } else {
        return None;
    };
    Some((Span { start, end, state }, p3))
}

fn get_spans(b: &Vec<u8>, pos: usize) -> (r: Option<(Vec<Span>, usize)>)
    requires
        pos <= b@.len(),
    ensures
        match parse_spans(b@.skip(pos as int)) {
            Some((x, rest)) => r matches Some((v, p)) && v@ == x && pos <= p <= b@.len() && rest
                == b@.skip(p as int),
            None => r is None,
        },
{
    let (n, p0) = match get_uint(b, pos, 8) {
        Some(x) => x,
        None => return None,
    };
    let mut acc: Vec<Span> = Vec::new();
    let mut p = p0;
    let mut k: u64 = 0;
    assert(after(acc@, parse_span_items(b@.skip(p as int), n as nat)) =~= parse_span_items(
        b@.skip(p0 as int),
        n as nat,
    )) by {
        assert(acc@ =~= Seq::<Span>::empty());
        match parse_span_items(b@.skip(p as int), n as nat) {
            Some((s, rest)) => assert(acc@ + s =~= s),
            None => {},
        }
    }
    while k < n
        invariant
            k <= n,
            p0 <= p <= b@.len(),
            parse_spans(b@.skip(pos as int)) == parse_span_items(b@.skip(p0 as int), n as nat),
            parse_span_items(b@.skip(p0 as int), n as nat) == after(
                acc@,
                parse_span_items(b@.skip(p as int), (n - k) as nat),
            ),
        decreases n - k,
    {
        match get_span(b, p) {
            Some((s, p1)) => {
                proof {
                    match parse_span_items(b@.skip(p1 as int), (n - k - 1) as nat) {
                        Some((ss, r2)) => assert(acc@ + (seq![s] + ss) =~= acc@.push(s) + ss),
                        None => {},
                    }
                }
                acc.push(s);
                p = p1;
                k = k + 1;
            },
            None => return None,
        }
    }
    proof {
        assert(acc@ + Seq::<Span>::empty() =~= acc@);
    }
    Some((acc, p))
}

fn get_bytes(b: &Vec<u8>, pos: usize) -> (r: Option<(Vec<u8>, usize)>)
    requires
        pos <= b@.len(),
    ensures
        match parse_bytes(b@.skip(pos as int)) {
            Some((x, rest)) => r matches Some((v, p)) && v@ == x && pos <= p <= b@.len() && rest
                == b@.skip(p as int),
            None => r is None,
        },
{
    let (n, p0) = match get_uint(b, pos, 8) {
        Some(x) => x,
        None => return None,
    };
    if ((b.len() - p0) as u64) < n {
        return None;
    }
    let end = p0 + n as usize;
    let mut v: Vec<u8> = Vec::new();
    let mut i: usize = p0;
    while i < end
        invariant
            p0 <= i <= end <= b@.len(),
            v@ == b@.subrange(p0 as int, i as int),
        decreases end - i,
    {
        v.push(b[i]);
        i = i + 1;
        assert(v@ =~= b@.subrange(p0 as int, i as int));
    }
    assert(b@.skip(p0 as int).take(n as int) =~= b@.subrange(p0 as int, end as int));
    assert(b@.skip(p0 as int).skip(n as int) =~= b@.skip(end as int));
    Some((v, end))
}

fn get_lines(b: &Vec<u8>, pos: usize) -> (r: Option<(Vec<Vec<u8>>, usize)>)
    requires
        pos <= b@.len(),
    ensures
        match parse_lines(b@.skip(pos as int)) {
            Some((x, rest)) => r matches Some((v, p)) && lines(v@) == x && pos <= p <= b@.len()
                && rest == b@.skip(p as int),
            None => r is None,
        },
{
    let (n, p0) = match get_uint(b, pos, 8) {
        Some(x) => x,
        None => return None,
    };
    let mut acc: Vec<Vec<u8>> = Vec::new();
    let mut p = p0;
    let mut k: u64 = 0;
    assert(after(lines(acc@), parse_line_items(b@.skip(p as int), n as nat)) =~= parse_line_items(
        b@.skip(p0 as int),
        n as nat,
    )) by {
        assert(lines(acc@) =~= Seq::<Seq<u8>>::empty());
        match parse_line_items(b@.skip(p as int), n as nat) {
            Some((s, rest)) => assert(lines(acc@) + s =~= s),
            None => {},
        }
    }
    while k < n
        invariant
            k <= n,
            p0 <= p <= b@.len(),
            parse_lines(b@.skip(pos as int)) == parse_line_items(b@.skip(p0 as int), n as nat),
            parse_line_items(b@.skip(p0 as int), n as nat) == after(
                lines(acc@),
                parse_line_items(b@.skip(p as int), (n - k) as nat),
            ),
        decreases n - k,
    {
        match get_bytes(b, p) {
            Some((l, p1)) => {
                let ghost before = acc@;
                acc.push(l);
                proof {
                    assert(lines(acc@) =~= lines(before).push(l@));
                    match parse_line_items(b@.skip(p1 as int), (n - k - 1) as nat) {
                        Some((ls, r2)) => assert(lines(before) + (seq![l@] + ls) =~= lines(acc@)
                            + ls),
                        None => {},
                    }
                }
                p = p1;
                k = k + 1;
            },
            None => return None,
        }
    }
    proof {
        assert(lines(acc@) + Seq::<Seq<u8>>::empty() =~= lines(acc@));
    }
    Some((acc, p))
}

fn get_entry(b: &Vec<u8>, pos: usize) -> (r: Option<(TraceeSnapshot, usize)>)
    requires
        pos <= b@.len(),
    ensures
        match parse_entry(b@.skip(pos as int)) {
            Some((x, rest)) => r matches Some((v, p)) && entry_view(v) == x && pos <= p
                <= b@.len() && rest == b@.skip(p as int),
            None => r is None,
        },
{
    reveal(parse_entry);
    let (tid, p1) = match get_uint(b, pos, 8) {
        Some(x) => x,
        None => return None,
    };
    let (cmdline, p2) = match get_lines(b, p1) {
        Some(x) => x,
        None => return None,
    };
    let (map, p3) = match get_spans(b, p2) {
        Some(x) => x,
        None => return None,
    };
    Some((TraceeSnapshot { tid: TraceeId(tid), cmdline, map }, p3))
}

/// Reads a snapshot frame back: its entries where `b` is exactly one snapshot
/// frame, else `None`.
pub fn decode_snapshot(b: &Vec<u8>) -> (r: Option<Vec<TraceeSnapshot>>)
    ensures
        match parse_snapshot(b@) {
            Some(es) => r matches Some(v) && entry_views(v@) == es,
            None => r is None,
        },
{
    assert(b@.skip(0) =~= b@);
    let (tag, p1) = match get_uint(b, 0, 4) {
        Some(x) => x,
        None => return None,
    };
    if tag != 0 {
        return None;
    }
    let (n, p0) = match get_uint(b, p1, 8) {
        Some(x) => x,
        None => return None,
    };
    let mut acc: Vec<TraceeSnapshot> = Vec::new();
    let mut p = p0;
    let mut k: u64 = 0;
    assert(after(entry_views(acc@), parse_entry_items(b@.skip(p as int), n as nat))
        =~= parse_entry_items(b@.skip(p0 as int), n as nat)) by {
        assert(entry_views(acc@) =~= Seq::<EntryView>::empty());
        match parse_entry_items(b@.skip(p as int), n as nat) {
            Some((s, rest)) => assert(entry_views(acc@) + s =~= s),
            None => {},
        }
    }
    while k < n
        invariant
            k <= n,
            p0 <= p <= b@.len(),
            parse_snapshot(b@) == match parse_entry_items(b@.skip(p0 as int), n as nat) {
                Some((es, r3)) => if r3.len() == 0 {
                    Some(es)
                } else {
                    None
                },
                None => None,
            },
            parse_entry_items(b@.skip(p0 as int), n as nat) == after(
                entry_views(acc@),
                parse_entry_items(b@.skip(p as int), (n - k) as nat),
            ),
        decreases n - k,
    {
        match get_entry(b, p) {
            Some((e, p2)) => {
                let ghost before = acc@;
                let ghost ev = entry_view(e);
                acc.push(e);
                proof {
                    assert(entry_views(acc@) =~= entry_views(before).push(ev));
                    match parse_entry_items(b@.skip(p2 as int), (n - k - 1) as nat) {
                        Some((es, r2)) => assert(entry_views(before) + (seq![ev] + es)
                            =~= entry_views(acc@) + es),
                        None => {},
                    }
                }
                p = p2;
                k = k + 1;
            },
            None => return None,
        }
    }
    proof {
        assert(entry_views(acc@) + Seq::<EntryView>::empty() =~= entry_views(acc@));
    }
    if p != b.len() {
        return None;
    }
    Some(acc)
}

// The encoding read back.

/// Every length in `e` fits the `u64` that carries it.
pub open spec fn entry_fits(e: EntryView) -> bool {
    &&& e.cmdline.len() <= u64::MAX
    &&& e.map.len() <= u64::MAX
    &&& forall|i: int| 0 <= i < e.cmdline.len() ==> (#[trigger] e.cmdline[i]).len() <= u64::MAX
}

pub open spec fn entries_fit(es: Seq<EntryView>) -> bool {
    &&& es.len() <= u64::MAX
    &&& forall|i: int| 0 <= i < es.len() ==> entry_fits(#[trigger] es[i])
}

proof fn lemma_le_round(x: nat, n: nat)
    requires
        x < pow256(n),
    ensures
        le(x, n).len() == n,
        le_value(le(x, n)) == x,
    decreases n,
{
    if n > 0 {
        let p = pow256((n - 1) as nat);
        assert(x / 256 < p) by (nonlinear_arith)
            requires
                x < 256 * p,
        ;
        lemma_le_round(x / 256, (n - 1) as nat);
        let s = le(x, n);
        assert(s.drop_first() =~= le(x / 256, (n - 1) as nat));
    }
}

proof fn lemma_parse_uint(x: nat, n: nat, rest: Seq<u8>)
    requires
        x < pow256(n),
    ensures
        parse_uint(le(x, n) + rest, n) == Some((x, rest)),
{
    lemma_le_round(x, n);
    assert((le(x, n) + rest).take(n as int) =~= le(x, n));
    assert((le(x, n) + rest).skip(n as int) =~= rest);
}

proof fn lemma_parse_u64(x: u64, rest: Seq<u8>)
    ensures
        parse_uint(enc_u64(x) + rest, 8) == Some((x as nat, rest)),
{
    lemma_pow256_values();
    lemma_parse_uint(x as nat, 8, rest);
}

proof fn lemma_parse_u32(x: u32, rest: Seq<u8>)
    ensures
        parse_uint(enc_u32(x) + rest, 4) == Some((x as nat, rest)),
{
    lemma_pow256_values();
    lemma_parse_uint(x as nat, 4, rest);
}

proof fn lemma_parse_span(s: Span, rest: Seq<u8>)
    ensures
        parse_span(enc_span(s) + rest) == Some((s, rest)),
{
    let r2 = enc_u32(state_tag(s.state)) + rest;
    let r1 = enc_u64(s.end) + r2;
    assert(enc_span(s) + rest =~= enc_u64(s.start) + r1);
    lemma_parse_u64(s.start, r1);
    lemma_parse_u64(s.end, r2);
    lemma_parse_u32(state_tag(s.state), rest);
}

proof fn lemma_parse_span_items(ss: Seq<Span>, rest: Seq<u8>)
    ensures
        parse_span_items(enc_span_items(ss) + rest, ss.len()) == Some((ss, rest)),
    decreases ss.len(),
{
    if ss.len() == 0 {
        assert(enc_span_items(ss) + rest =~= rest);
    } else {
        let tail = enc_span_items(ss.drop_first()) + rest;
        assert(enc_span_items(ss) + rest =~= enc_span(ss[0]) + tail);
        lemma_parse_span(ss[0], tail);
        lemma_parse_span_items(ss.drop_first(), rest);
        assert(seq![ss[0]] + ss.drop_first() =~= ss);
    }
}

proof fn lemma_parse_spans(ss: Seq<Span>, rest: Seq<u8>)
    requires
        ss.len() <= u64::MAX,
    ensures
        parse_spans(enc_spans(ss) + rest) == Some((ss, rest)),
{
    let tail = enc_span_items(ss) + rest;
    assert(enc_spans(ss) + rest =~= enc_u64(ss.len() as u64) + tail);
    lemma_parse_u64(ss.len() as u64, tail);
    lemma_parse_span_items(ss, rest);
}

proof fn lemma_parse_bytes(l: Seq<u8>, rest: Seq<u8>)
    requires
        l.len() <= u64::MAX,
    ensures
        parse_bytes(enc_bytes(l) + rest) == Some((l, rest)),
{
    let tail = l + rest;
    assert(enc_bytes(l) + rest =~= enc_u64(l.len() as u64) + tail);
    lemma_parse_u64(l.len() as u64, tail);
    assert(tail.take(l.len() as int) =~= l);
    assert(tail.skip(l.len() as int) =~= rest);
}

proof fn lemma_parse_line_items(ls: Seq<Seq<u8>>, rest: Seq<u8>)
    requires
        forall|i: int| 0 <= i < ls.len() ==> (#[trigger] ls[i]).len() <= u64::MAX,
    ensures
        parse_line_items(enc_line_items(ls) + rest, ls.len()) == Some((ls, rest)),
    decreases ls.len(),
{
    if ls.len() == 0 {
        assert(enc_line_items(ls) + rest =~= rest);
    } else {
        let tail = enc_line_items(ls.drop_first()) + rest;
        assert(enc_line_items(ls) + rest =~= enc_bytes(ls[0]) + tail);
        lemma_parse_bytes(ls[0], tail);
        assert forall|i: int| 0 <= i < ls.drop_first().len() implies (
        #[trigger] ls.drop_first()[i]).len() <= u64::MAX by {
            assert(ls.drop_first()[i] == ls[i + 1]);
        }
        lemma_parse_line_items(ls.drop_first(), rest);
        assert(seq![ls[0]] + ls.drop_first() =~= ls);
    }
}

proof fn lemma_parse_lines(ls: Seq<Seq<u8>>, rest: Seq<u8>)
    requires
        ls.len() <= u64::MAX,
        forall|i: int| 0 <= i < ls.len() ==> (#[trigger] ls[i]).len() <= u64::MAX,
    ensures
        parse_lines(enc_lines(ls) + rest) == Some((ls, rest)),
{
    let tail = enc_line_items(ls) + rest;
    assert(enc_lines(ls) + rest =~= enc_u64(ls.len() as u64) + tail);
    lemma_parse_u64(ls.len() as u64, tail);
    lemma_parse_line_items(ls, rest);
}

proof fn lemma_parse_entry(e: EntryView, rest: Seq<u8>)
    requires
        entry_fits(e),
    ensures
        parse_entry(enc_entry(e) + rest) == Some((e, rest)),
{
    reveal(enc_entry);
    reveal(parse_entry);
    let r2 = enc_spans(e.map) + rest;
    let r1 = enc_lines(e.cmdline) + r2;
    assert(enc_entry(e) + rest =~= enc_u64(e.tid.0) + r1);
    lemma_parse_u64(e.tid.0, r1);
    lemma_parse_lines(e.cmdline, r2);
    lemma_parse_spans(e.map, rest);
}

proof fn lemma_parse_entry_items(es: Seq<EntryView>, rest: Seq<u8>)
    requires
        forall|i: int| 0 <= i < es.len() ==> entry_fits(#[trigger] es[i]),
    ensures
        parse_entry_items(enc_entry_items(es) + rest, es.len()) == Some((es, rest)),
    decreases es.len(),
{
    if es.len() == 0 {
        assert(enc_entry_items(es) + rest =~= rest);
    } else {
        let tail = enc_entry_items(es.drop_first()) + rest;
        assert(enc_entry_items(es) + rest =~= enc_entry(es[0]) + tail);
        lemma_parse_entry(es[0], tail);
        assert forall|i: int| 0 <= i < es.drop_first().len() implies entry_fits(
            #[trigger] es.drop_first()[i],
        ) by {
            assert(es.drop_first()[i] == es[i + 1]);
        }
        lemma_parse_entry_items(es.drop_first(), rest);
        assert(seq![es[0]] + es.drop_first() =~= es);
    }
}

/// Encoding a snapshot and reading the frame back gives the same entries.
pub proof fn snapshot_round_trip(es: Seq<EntryView>)
    requires
        entries_fit(es),
    ensures
        parse_snapshot(enc_snapshot(es)) == Some(es),
{
    let empty = Seq::<u8>::empty();
    let r2 = enc_entry_items(es) + empty;
    let r1 = enc_u64(es.len() as u64) + r2;
    assert(enc_snapshot(es) =~= enc_u32(0) + r1);
    lemma_parse_u32(0, r1);
    lemma_parse_u64(es.len() as u64, r2);
    lemma_parse_entry_items(es, empty);
}

/// Every snapshot the library can hold encodes to a frame that reads back as
/// the same entries: its lengths all fit the `u64` that carries them.
pub proof fn snapshot_vec_round_trip(ss: Vec<TraceeSnapshot>)
    ensures
        parse_snapshot(enc_event(MeviEvent::Snapshot(ss))) == Some(entry_views(ss@)),
{
    let es = entry_views(ss@);
    assert(ss@.len() == ss.len());
    assert forall|i: int| 0 <= i < es.len() implies entry_fits(#[trigger] es[i]) by {
        let s = ss@[i];
        assert(s.cmdline@.len() == s.cmdline.len());
        assert(s.map@.len() == s.map.len());
        assert forall|j: int| 0 <= j < es[i].cmdline.len() implies (
        #[trigger] es[i].cmdline[j]).len() <= u64::MAX by {
            assert(es[i].cmdline[j] == s.cmdline@[j]@);
            assert(s.cmdline@[j]@.len() == s.cmdline@[j].len());
        }
    }
    snapshot_round_trip(es);
}

} // verus!
