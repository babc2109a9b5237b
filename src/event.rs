use crate::memmap::{MemState, Span};
use vstd::prelude::*;

verus! {

/// A tracee: the kernel's thread-group id.
#[derive(Clone, Copy, PartialEq, Eq, Debug, Hash, Structural)]
pub struct TraceeId(pub u64);

/// A half-open address range `[start, end)`.
#[derive(Clone, Copy, PartialEq, Eq, Debug, Structural)]
pub struct AddrRange {
    pub start: u64,
    pub end: u64,
}

impl AddrRange {
    pub open spec fn nonempty(self) -> bool {
        self.start < self.end
    }
}

/// Where a tracee's userfault descriptor came from.
#[derive(Clone, Copy, PartialEq, Eq, Debug, Structural)]
pub enum ConnectSource {
    LdPreload,
    Fork,
}

/// An incremental change to one tracee.
#[derive(Clone, PartialEq, Eq, Debug)]
pub enum TraceePayload {
    Mapped { range: AddrRange, state: MemState },
    Connected { source: ConnectSource, uffd: i32 },
    Execve,
    PageIn { range: AddrRange },
    PageOut { range: AddrRange },
    Unmap { range: AddrRange },
    Remap { old_range: AddrRange, new_range: AddrRange },
    Batch { batch: Vec<Span> },
    Start { cmdline: Vec<Vec<u8>> },
    Exit,
}

/// The full view of one tracee, as a snapshot carries it.
#[derive(Clone, PartialEq, Eq, Debug)]
pub struct TraceeSnapshot {
    pub tid: TraceeId,
    pub cmdline: Vec<Vec<u8>>,
    pub map: Vec<Span>,
}

/// One frame of the stream: a snapshot of every live tracee, or a change to one.
#[derive(Clone, PartialEq, Eq, Debug)]
pub enum MeviEvent {
    Snapshot(Vec<TraceeSnapshot>),
    TraceeEvent(TraceeId, TraceePayload),
}

/// The byte strings of a command line, as sequences.
pub open spec fn lines(c: Seq<Vec<u8>>) -> Seq<Seq<u8>> {
    c.map_values(|l: Vec<u8>| l@)
}

/// A copy of a command line.
pub fn copy_lines(c: &Vec<Vec<u8>>) -> (r: Vec<Vec<u8>>)
    ensures
        lines(r@) == lines(c@),
{
    let mut r: Vec<Vec<u8>> = Vec::new();
    let mut i: usize = 0;
    while i < c.len()
        invariant
            i <= c@.len(),
            r@.len() == i,
            forall|k: int| 0 <= k < i ==> #[trigger] r@[k]@ == c@[k]@,
        decreases c@.len() - i,
    {
        let mut line: Vec<u8> = Vec::new();
        let src = &c[i];
        let mut j: usize = 0;
        while j < src.len()
            invariant
                j <= src@.len(),
                line@ == src@.subrange(0, j as int),
            decreases src@.len() - j,
        {
            line.push(src[j]);
            j = j + 1;
            proof {
                assert(line@ =~= src@.subrange(0, j as int));
            }
        }
        proof {
            assert(line@ =~= src@);
        }
        r.push(line);
        i = i + 1;
    }
    assert(lines(r@) =~= lines(c@));
    r
}

/// The non-empty words of NUL-separated bytes `s`, where `cur` is the word
/// read so far.
pub open spec fn nul_words(s: Seq<u8>, cur: Seq<u8>) -> Seq<Seq<u8>>
    decreases s.len(),
{
    if s.len() == 0 {
        if cur.len() > 0 {
            seq![cur]
        } else {
            seq![]
        }
    } else if s[0] == 0 {
        (if cur.len() > 0 {
            seq![cur]
        } else {
            seq![]
        }) + nul_words(s.drop_first(), seq![])
    } else {
        nul_words(s.drop_first(), cur.push(s[0]))
    }
}

/// A command line from the kernel's NUL-separated form, empty words dropped.
pub fn split_cmdline(raw: &Vec<u8>) -> (r: Vec<Vec<u8>>)
    ensures
        lines(r@) == nul_words(raw@, seq![]),
{
    let mut out: Vec<Vec<u8>> = Vec::new();
    let mut cur: Vec<u8> = Vec::new();
    let mut i: usize = 0;
    assert(raw@.skip(0) =~= raw@);
    assert(lines(out@) + nul_words(raw@.skip(0), cur@) =~= nul_words(raw@, seq![]));
    while i < raw.len()
        invariant
            i <= raw@.len(),
            lines(out@) + nul_words(raw@.skip(i as int), cur@) == nul_words(raw@, seq![]),
        decreases raw@.len() - i,
    {
        let ghost before = lines(out@);
        let ghost cur0 = cur@;
        assert(raw@.skip(i as int).drop_first() =~= raw@.skip(i + 1));
        if raw[i] == 0 {
            if cur.len() > 0 {
                let word = cur;
                out.push(word);
                assert(lines(out@) =~= before.push(cur0));
                assert(before + (seq![cur0] + nul_words(raw@.skip(i + 1), seq![])) =~= lines(out@)
                    + nul_words(raw@.skip(i + 1), seq![]));
            } else {
                assert(before + (Seq::<Seq<u8>>::empty() + nul_words(raw@.skip(i + 1), seq![]))
                    =~= before + nul_words(raw@.skip(i + 1), seq![]));
            }
            cur = Vec::new();
            assert(cur@ =~= Seq::<u8>::empty());
        } else {
            cur.push(raw[i]);
        }
        i = i + 1;
    }
    let ghost before = lines(out@);
    if cur.len() > 0 {
        let ghost cur0 = cur@;
        out.push(cur);
        assert(lines(out@) =~= before.push(cur0));
        assert(before + seq![cur0] =~= lines(out@));
    } else {
        assert(before + Seq::<Seq<u8>>::empty() =~= before);
    }
    out
}

proof fn lemma_nul_words_word(w: Seq<u8>, rest: Seq<u8>, cur: Seq<u8>)
    requires
        forall|i: int| 0 <= i < w.len() ==> #[trigger] w[i] != 0,
    ensures
        nul_words(w + seq![0u8] + rest, cur) == (if (cur + w).len() > 0 {
            seq![cur + w]
        } else {
            Seq::<Seq<u8>>::empty()
        }) + nul_words(rest, seq![]),
    decreases w.len(),
{
    let s = w + seq![0u8] + rest;
    if w.len() == 0 {
        assert(s[0] == 0);
        assert(s.drop_first() =~= rest);
        assert(cur + w =~= cur);
    } else {
        assert(s[0] == w[0]);
        assert(s.drop_first() =~= w.drop_first() + seq![0u8] + rest);
        assert forall|i: int| 0 <= i < w.drop_first().len() implies #[trigger] w.drop_first()[i]
            != 0 by {
            assert(w.drop_first()[i] == w[i + 1]);
        }
        lemma_nul_words_word(w.drop_first(), rest, cur.push(w[0]));
        assert(cur.push(w[0]) + w.drop_first() =~= cur + w);
    }
}

/// A command line as the kernel shows it for a program started as `path`
/// followed by its arguments (`path`, a NUL, then the rest) yields `path` as
/// its first word, wherever `path` is not empty.
pub proof fn cmdline_starts_with_path(path: Seq<u8>, rest: Seq<u8>)
    requires
        path.len() > 0,
        forall|i: int| 0 <= i < path.len() ==> #[trigger] path[i] != 0,
    ensures
        nul_words(path + seq![0u8] + rest, seq![]).len() >= 1,
        nul_words(path + seq![0u8] + rest, seq![])[0] == path,
{
    lemma_nul_words_word(path, rest, seq![]);
    assert(Seq::<u8>::empty() + path =~= path);
}

} // verus!
