//! The order-restoring sink.
//!
//! Probe results arrive in an arbitrary order. The sink emits each port's
//! result exactly once, in strictly increasing port order with no gaps,
//! as soon as the prefix up to that port is complete: a result for the
//! next expected port (and every buffered successor) is handed back
//! immediately, anything that arrived ahead of schedule is buffered.

use vstd::prelude::*;

use crate::range::PortRange;
use crate::status::ProbeResult;
use crate::status::Status;

verus! {

/// The ordering state of one scan: the cursor of the next port still owed
/// to the output, and the buffer of results that arrived ahead of it.
///
/// `history` and `recorded` are ghost bookkeeping: the sequence of results
/// emitted so far, and the port-to-status map of every result received so
/// far. The invariant [`Sink::wf`] ties the concrete fields to them.
pub struct Sink {
    /// First port of the range.
    pub start: u16,
    /// Last port of the range, inclusive.
    pub end: u16,
    /// The next port owed to the output; runs from `start` to `end + 1`.
    pub next: u32,
    /// Results that arrived ahead of the cursor, strictly sorted by port.
    pub pending: Vec<(u16, Status)>,
    /// Every result emitted so far, in emission order.
    pub history: Ghost<Seq<ProbeResult>>,
    /// The status received for each port seen so far.
    pub recorded: Ghost<Map<u16, Status>>,
}

impl Sink {
    /// Whether some buffered entry carries `port`.
    pub open spec fn pending_has(self, port: u16) -> bool {
        exists|k: int| 0 <= k < self.pending@.len() && (#[trigger] self.pending@[k]).0 == port
    }

    /// The invariant, except that the first buffered entry may sit exactly
    /// at the cursor (which happens transiently while the sink drains a
    /// freshly completed prefix).
    pub open spec fn base_inv(self) -> bool {
        &&& self.start <= self.end
        &&& self.start <= self.next <= self.end + 1
        &&& self.history@.len() == self.next - self.start
        &&& forall|j: int|
            0 <= j < self.history@.len() ==> (#[trigger] self.history@[j]).port == self.start + j
        &&& forall|j: int|
            0 <= j < self.history@.len() ==> self.recorded@.contains_key(
                (#[trigger] self.history@[j]).port,
            ) && self.recorded@[self.history@[j].port] == self.history@[j].status
        &&& forall|k: int|
            0 <= k < self.pending@.len() ==> self.next <= (#[trigger] self.pending@[k]).0
                <= self.end
        &&& forall|k1: int, k2: int|
            0 <= k1 < k2 < self.pending@.len() ==> (#[trigger] self.pending@[k1]).0 < (
            #[trigger] self.pending@[k2]).0
        &&& forall|k: int|
            0 <= k < self.pending@.len() ==> self.recorded@.contains_key(
                (#[trigger] self.pending@[k]).0,
            ) && self.recorded@[self.pending@[k].0] == self.pending@[k].1
        &&& forall|p: u16| #[trigger] self.recorded@.contains_key(p) ==> self.start <= p <= self.end
        &&& forall|p: u16|
            #[trigger] self.recorded@.contains_key(p) && self.next <= p ==> self.pending_has(p)
        &&& forall|p: u16| self.start <= p < self.next ==> self.recorded@.contains_key(p)
    }

    /// The sink's invariant between calls: on top of [`Sink::base_inv`],
    /// every buffered entry lies strictly beyond the cursor, so the next
    /// expected result is genuinely still outstanding.
    pub open spec fn wf(self) -> bool {
        &&& self.base_inv()
        &&& self.pending@.len() > 0 ==> self.pending@[0].0 > self.next
    }

    /// A fresh sink for one scan over `range`: cursor at the range's
    /// start, nothing buffered, nothing received, nothing emitted.
    pub fn new(range: &PortRange) -> (s: Sink)
        requires
            range.wf(),
        ensures
            s.wf(),
            s.start == range.start,
            s.end == range.end,
            s.next == range.start,
            s.history@ == Seq::<ProbeResult>::empty(),
            s.recorded@ == Map::<u16, Status>::empty(),
    {
        Sink {
            start: range.start,
            end: range.end,
            next: range.start as u32,
            pending: Vec::new(),
            history: Ghost(Seq::empty()),
            recorded: Ghost(Map::empty()),
        }
    }

    /// Accepts one result and returns everything that becomes emittable
    /// because of it, in ascending port order: empty if the result arrived
    /// ahead of the cursor (it is buffered), otherwise the result itself
    /// followed by the buffered results of every consecutive successor.
    ///
    /// A result for a port outside the range, or for a port already seen,
    /// is a programming error upstream and is ruled out by the
    /// precondition rather than recovered from.
    pub fn offer(&mut self, r: ProbeResult) -> (out: Vec<ProbeResult>)
        requires
            old(self).wf(),
            old(self).start <= r.port <= old(self).end,
            !old(self).recorded@.contains_key(r.port),
        ensures
            final(self).wf(),
            final(self).start == old(self).start,
            final(self).end == old(self).end,
            old(self).next <= final(self).next,
            final(self).recorded@ == old(self).recorded@.insert(r.port, r.status),
            final(self).history@ == old(self).history@ + out@,
            out@.len() == final(self).next - old(self).next,
            forall|k: int|
                0 <= k < out@.len() ==> (#[trigger] out@[k]).port == old(self).next + k
                    && out@[k].status == final(self).recorded@[out@[k].port],
    {
        let port = r.port;
        let ghost g_status = r.status;
        self.recorded = Ghost(self.recorded@.insert(port, g_status));
        if port as u32 == self.next {
            let mut out: Vec<ProbeResult> = Vec::new();
            out.push(r);
            self.next = self.next + 1;
            self.history = Ghost(self.history@.push(ProbeResult { port, status: g_status }));
            proof {
                assert(self.history@ =~= old(self).history@ + out@);
                assert forall|q: u16|
                    #[trigger] self.recorded@.contains_key(q) && self.next <= q implies self
                    .pending_has(q) by {
                    assert(old(self).recorded@.contains_key(q) && old(self).next <= q);
                    assert(old(self).pending_has(q));
                    let k = choose|k: int|
                        0 <= k < old(self).pending@.len() && (#[trigger] old(self).pending@[k]).0
                            == q;
                    assert(self.pending@[k].0 == q);
                }
            }
            while self.pending.len() > 0 && self.pending[0].0 as u32 == self.next
                invariant
                    self.start == old(self).start,
                    self.end == old(self).end,
                    self.base_inv(),
                    old(self).next < self.next,
                    self.recorded@ == old(self).recorded@.insert(r.port, r.status),
                    self.history@ == old(self).history@ + out@,
                    out@.len() == self.next - old(self).next,
                decreases self.pending@.len(),
            {
                let ghost pre = *self;
                let head = self.pending.remove(0);
                let (p, st) = head;
                let ghost g_st = st;
                out.push(ProbeResult { port: p, status: st });
                self.next = self.next + 1;
                self.history = Ghost(self.history@.push(ProbeResult { port: p, status: g_st }));
                proof {
                    assert(self.history@ =~= old(self).history@ + out@);
                    assert forall|q: u16|
                        #[trigger] self.recorded@.contains_key(q) && self.next <= q implies self
                        .pending_has(q) by {
                        assert(pre.recorded@.contains_key(q) && pre.next <= q);
                        assert(pre.pending_has(q));
                        let k = choose|k: int|
                            0 <= k < pre.pending@.len() && (#[trigger] pre.pending@[k]).0 == q;
                        assert(k != 0);
                        assert(self.pending@[k - 1].0 == q);
                    }
                }
            }
            proof {
                assert forall|q: u16|
                    #[trigger] self.recorded@.contains_key(q) && self.next <= q implies self
                    .pending_has(q) by {
                    if q == r.port {
                        assert(r.port < self.next);
                    } else {
                        assert(old(self).recorded@.contains_key(q));
                        assert(old(self).pending_has(q));
                        let k = choose|k: int|
                            0 <= k < old(self).pending@.len() && (#[trigger] old(
                                self,
                            ).pending@[k]).0 == q;
                        // entries are only ever removed from the front, so q
                        // is still buffered: its port is beyond the cursor
                        assert(self.pending_has(q));
                    }
                }
                assert forall|k: int|
                    0 <= k < out@.len() implies (#[trigger] out@[k]).port == old(self).next + k
                    && out@[k].status == self.recorded@[out@[k].port] by {
                    assert(self.history@[old(self).history@.len() + k] == out@[k]);
                }
            }
            out
        } else {
            let ghost pre = *self;
            let mut i: usize = 0;
            while i < self.pending.len() && self.pending[i].0 < port
                invariant
                    *self == pre,
                    0 <= i <= self.pending@.len(),
                    forall|k: int| 0 <= k < i ==> (#[trigger] self.pending@[k]).0 < port,
                decreases self.pending@.len() - i,
            {
                i = i + 1;
            }
            proof {
                assert forall|k: int| 0 <= k < self.pending@.len() implies (
                #[trigger] self.pending@[k]).0 != port by {
                    assert(old(self).recorded@.contains_key(self.pending@[k].0));
                }
            }
            let ProbeResult { port: p2, status } = r;
            self.pending.insert(i, (p2, status));
            proof {
                let newseq = self.pending@;
                let oldseq = pre.pending@;
                assert(newseq == oldseq.insert(i as int, (r.port, g_status)));
                assert forall|q: u16|
                    #[trigger] self.recorded@.contains_key(q) && self.next <= q implies self
                    .pending_has(q) by {
                    if q == r.port {
                        assert(newseq[i as int].0 == q);
                    } else {
                        assert(pre.recorded@.contains_key(q));
                        assert(pre.pending_has(q));
                        let k = choose|k: int|
                            0 <= k < oldseq.len() && (#[trigger] oldseq[k]).0 == q;
                        if k < i {
                            assert(newseq[k].0 == q);
                        } else {
                            assert(newseq[k + 1].0 == q);
                        }
                    }
                }
                assert(self.history@ =~= old(self).history@ + Seq::<ProbeResult>::empty());
            }
            Vec::new()
        }
    }

    /// Whether a result for `port` has been received already (emitted or
    /// still buffered). An upstream that cannot rule out duplicates checks
    /// here before calling [`Sink::offer`].
    pub fn is_received(&self, port: u16) -> (r: bool)
        requires
            self.wf(),
        ensures
            r == self.recorded@.contains_key(port),
    {
        if port < self.start || port > self.end {
            return false;
        }
        if (port as u32) < self.next {
            proof {
                assert(self.recorded@.contains_key(port));
            }
            return true;
        }
        let mut i: usize = 0;
        while i < self.pending.len()
            invariant
                self.wf(),
                0 <= i <= self.pending@.len(),
                forall|k: int| 0 <= k < i ==> (#[trigger] self.pending@[k]).0 != port,
            decreases self.pending@.len() - i,
        {
            if self.pending[i].0 == port {
                proof {
                    assert(self.recorded@.contains_key(self.pending@[i as int].0));
                }
                return true;
            }
            i = i + 1;
        }
        proof {
            assert(!self.pending_has(port));
        }
        false
    }

    /// Shuts the sink down, handing back whatever is still buffered, in
    /// ascending port order. When every port of the range was offered this
    /// is empty ([`Sink::lemma_full_coverage`]); it exists so that no
    /// received result can be lost even if coverage was violated upstream.
    pub fn finish(self) -> (out: Vec<ProbeResult>)
        ensures
            out@.len() == self.pending@.len(),
            forall|k: int|
                0 <= k < out@.len() ==> (#[trigger] out@[k]).port == self.pending@[k].0
                    && out@[k].status == self.pending@[k].1,
    {
        let Sink { pending, .. } = self;
        let mut rest = pending;
        let ghost all = rest@;
        let mut out: Vec<ProbeResult> = Vec::new();
        while rest.len() > 0
            invariant
                out@.len() + rest@.len() == all.len(),
                rest@ == all.skip(out@.len() as int),
                forall|k: int|
                    0 <= k < out@.len() ==> (#[trigger] out@[k]).port == all[k].0
                        && out@[k].status == all[k].1,
            decreases rest@.len(),
        {
            let head = rest.remove(0);
            let (p, st) = head;
            out.push(ProbeResult { port: p, status: st });
            proof {
                assert(rest@ =~= all.skip(out@.len() as int));
            }
        }
        out
    }

    /// The emitted sequence is strictly increasing by port: no out-of-order
    /// pair, no repeats, whatever order results were offered in.
    pub proof fn lemma_emitted_strictly_increasing(self)
        requires
            self.wf(),
        ensures
            forall|i: int, j: int|
                0 <= i < j < self.history@.len() ==> self.history@[i].port < self.history@[j].port,
    {
    }

    /// Once every port of the range has been received, the cursor stands
    /// past the range's end, the buffer is empty, and the emitted history
    /// covers every port exactly once, in ascending order, each with the
    /// status that was received for it.
    pub proof fn lemma_full_coverage(self)
        requires
            self.wf(),
            forall|p: u16|
                self.start <= p <= self.end ==> #[trigger] self.recorded@.contains_key(p),
        ensures
            self.next == self.end + 1,
            self.pending@.len() == 0,
            self.history@.len() == self.end - self.start + 1,
            forall|j: int|
                0 <= j < self.history@.len() ==> (#[trigger] self.history@[j]).port == self.start
                    + j && self.history@[j].status == self.recorded@[self.history@[j].port],
    {
        if self.next <= self.end {
            let p = self.next as u16;
            assert(self.recorded@.contains_key(p));
            assert(self.pending_has(p));
            let k = choose|k: int|
                0 <= k < self.pending@.len() && (#[trigger] self.pending@[k]).0 == p;
            if k > 0 {
                assert(self.pending@[0].0 < self.pending@[k].0);
            }
            assert(false);
        }
        if self.pending@.len() > 0 {
            assert(self.pending@[0].0 <= self.end);
            assert(false);
        }
    }
}

} // verus!
