//! The inclusive port range of one scan.

use vstd::prelude::*;

verus! {

/// An inclusive range of ports, `start..=end`, with `start <= end`.
/// Immutable once constructed.
pub struct PortRange {
    pub start: u16,
    pub end: u16,
}

impl PortRange {
    /// The range's invariant: a non-empty inclusive range.
    pub open spec fn wf(self) -> bool {
        self.start <= self.end
    }

    /// The number of ports in the range.
    pub open spec fn spec_len(self) -> int {
        self.end - self.start + 1
    }

    /// Whether a port lies in the range.
    pub open spec fn spec_contains(self, port: u16) -> bool {
        self.start <= port <= self.end
    }

    /// Builds the range, rejecting an inverted one: `Some` if and only if
    /// `start <= end`.
    pub fn new(start: u16, end: u16) -> (r: Option<PortRange>)
        ensures
            match r {
                Some(pr) => pr.wf() && pr.start == start && pr.end == end,
                None => start > end,
            },
    {
        if start <= end {
            Some(PortRange { start, end })
        } else {
            None
        }
    }

    /// The number of ports in the range; never 0 and at most 65536.
    pub fn len(&self) -> (r: usize)
        requires
            self.wf(),
        ensures
            r == self.spec_len(),
    {
        (self.end - self.start) as usize + 1
    }

    pub fn contains(&self, port: u16) -> (r: bool)
        ensures
            r == self.spec_contains(port),
    {
        self.start <= port && port <= self.end
    }

    /// The ports of the range in ascending order.
    pub fn ports(&self) -> (r: Vec<u16>)
        requires
            self.wf(),
        ensures
            r@.len() == self.spec_len(),
            forall|i: int| 0 <= i < r@.len() ==> r@[i] == self.start + i,
    {
        let mut out: Vec<u16> = Vec::new();
        let mut p: u32 = self.start as u32;
        while p <= self.end as u32
            invariant
                self.start as u32 <= p <= self.end as u32 + 1,
                out@.len() == p - self.start,
                forall|i: int| 0 <= i < out@.len() ==> out@[i] == self.start + i,
            decreases self.end as u32 + 1 - p,
        {
            out.push(p as u16);
            p = p + 1;
        }
        out
    }
}

} // verus!
