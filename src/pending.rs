use crate::event::TraceeId;
use vstd::prelude::*;

verus! {

/// A userfault descriptor sent by a forking parent, awaiting its child.
#[derive(Clone, Copy, PartialEq, Eq, Debug, Structural)]
pub struct PendingFd {
    pub parent: TraceeId,
    pub fd: i32,
}

/// The oldest descriptor of `parent` in `es`, and `es` without it.
pub open spec fn take_first(es: Seq<PendingFd>, parent: TraceeId) -> (Option<i32>, Seq<PendingFd>)
    decreases es.len(),
{
    if es.len() == 0 {
        (None, es)
    } else if es[0].parent == parent {
        (Some(es[0].fd), es.drop_first())
    } else {
        let (r, rest) = take_first(es.drop_first(), parent);
        (r, seq![es[0]] + rest)
    }
}

/// Descriptors leave in the order they came: what arrives for `e.parent` is
/// taken only once those pending before it are gone, and an arrival for
/// another parent changes nothing for `parent`.
pub proof fn pending_fifo(es: Seq<PendingFd>, parent: TraceeId, e: PendingFd)
    ensures
        take_first(es.push(e), parent).0 == (if take_first(es, parent).0 is Some {
            take_first(es, parent).0
        } else if e.parent == parent {
            Some(e.fd)
        } else {
            None
        }),
        take_first(es, parent).0 is Some ==> take_first(es.push(e), parent).1 == take_first(
            es,
            parent,
        ).1.push(e),
    decreases es.len(),
{
    reveal_with_fuel(take_first, 2);
    if es.len() == 0 {
        assert(es.push(e)[0] == e);
        assert(es.push(e).drop_first() =~= Seq::<PendingFd>::empty());
    } else {
        assert(es.push(e)[0] == es[0]);
        assert(es.push(e).drop_first() =~= es.drop_first().push(e));
        pending_fifo(es.drop_first(), parent, e);
        if es[0].parent != parent {
            let (r, rest) = take_first(es.drop_first(), parent);
            assert(seq![es[0]] + rest.push(e) =~= (seq![es[0]] + rest).push(e));
        }
    }
}

/// Userfault descriptors awaiting adoption by newly forked children, kept per
/// parent in the order they came.
pub struct PendingFds {
    entries: Vec<PendingFd>,
}

impl PendingFds {
    /// The pending descriptors in order of arrival.
    pub closed spec fn entries(&self) -> Seq<PendingFd> {
        self.entries@
    }

    pub fn new() -> (r: PendingFds)
        ensures
            r.entries() == Seq::<PendingFd>::empty(),
    {
        PendingFds { entries: Vec::new() }
    }

    /// Queues `fd` behind the others of `parent`.
    pub fn push(&mut self, parent: TraceeId, fd: i32)
        ensures
            final(self).entries() == old(self).entries().push(PendingFd { parent, fd }),
    {
        self.entries.push(PendingFd { parent, fd });
    }

    /// Takes the oldest descriptor pending for `parent`, if any.
    pub fn pop_front(&mut self, parent: TraceeId) -> (r: Option<i32>)
        ensures
            r == take_first(old(self).entries(), parent).0,
            final(self).entries() == take_first(old(self).entries(), parent).1,
    {
        let ghost es = self.entries@;
        let mut i: usize = 0;
        assert(es.take(0) + es.skip(0) =~= es);
        while i < self.entries.len()
            invariant
                self.entries@ == es,
                es == old(self).entries@,
                i <= es.len(),
                forall|k: int| 0 <= k < i ==> (#[trigger] es[k]).parent != parent,
                take_first(es, parent) == (take_first(es.skip(i as int), parent).0, es.take(i as int)
                    + take_first(es.skip(i as int), parent).1),
            decreases es.len() - i,
        {
            assert(es.skip(i as int).drop_first() =~= es.skip(i + 1));
            assert(es.skip(i as int)[0] == es[i as int]);
            if self.entries[i].parent == parent {
                let e = self.entries.remove(i);
                assert(es.take(i as int) + es.skip(i + 1) =~= es.remove(i as int));
                return Some(e.fd);
            }
            proof {
                let rest = take_first(es.skip(i + 1), parent).1;
                assert(es.take(i as int) + (seq![es[i as int]] + rest) =~= es.take(i + 1) + rest);
            }
            i = i + 1;
        }
        assert(es.skip(i as int) =~= Seq::<PendingFd>::empty());
        assert(es.take(i as int) + Seq::<PendingFd>::empty() =~= es);
        None
    }
}

} // verus!
