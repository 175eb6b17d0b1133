//! The parse buffer: a fixed-capacity byte store that accumulates wire
//! bytes across many non-blocking polls until they form a complete reply.

use vstd::prelude::*;

use crate::parser::{scan, spec_scan, lemma_scan_bounds, ScanStep, SpecStep};
use crate::protocol::Response;

verus! {

/// Capacity of the parse buffer, in bytes.
pub const BUFFER_CAPACITY: usize = 256;

/// Error from `write`: the buffer is at capacity.
#[derive(Debug, Clone, Copy, PartialEq, Eq, Structural)]
pub struct Overflow;

/// Error from `parse`: the accumulated bytes do not yet hold a complete
/// reply. This is not a failure; it is "not enough data yet".
#[derive(Debug, Clone, Copy, PartialEq, Eq, Structural)]
pub struct NoMatch;

/// Fixed-capacity byte store with a write cursor. Wire bytes accumulate
/// here, one non-blocking read at a time, until they form a complete reply.
pub struct Buffer {
    data: Vec<u8>,
}

impl View for Buffer {
    type V = Seq<u8>;

    closed spec fn view(&self) -> Seq<u8> {
        self.data@
    }
}

impl Buffer {
    /// The buffer never holds more than its capacity.
    pub open spec fn wf(&self) -> bool {
        self@.len() <= BUFFER_CAPACITY
    }

    /// An empty buffer.
    pub fn new() -> (r: Buffer)
        ensures
            r.wf(),
            r@ == Seq::<u8>::empty(),
    {
        Buffer { data: Vec::new() }
    }

    /// Number of bytes accumulated.
    pub fn len(&self) -> (r: usize)
        ensures
            r == self@.len(),
    {
        self.data.len()
    }

    /// Append one byte; fails exactly when the buffer is full, and a failed
    /// write changes nothing.
    pub fn write(&mut self, b: u8) -> (r: Result<(), Overflow>)
        requires
            old(self).wf(),
        ensures
            final(self).wf(),
            old(self)@.len() < BUFFER_CAPACITY ==> r is Ok && final(self)@ == old(self)@.push(b),
            old(self)@.len() >= BUFFER_CAPACITY ==> r is Err && final(self)@ == old(self)@,
    {
        if self.data.len() < BUFFER_CAPACITY {
            self.data.push(b);
            Ok(())
        } else {
            Err(Overflow)
        }
    }

    /// Match the accumulated bytes against the reply grammar without
    /// consuming anything.
    pub fn scan_reply(&self) -> (r: ScanStep)
        ensures
            crate::parser::step_corresponds(r, spec_scan(self@)),
    {
        scan(&self.data)
    }

    /// Drop the first `n` bytes, keeping any residual bytes that belong to
    /// a following message.
    pub fn consume(&mut self, n: usize)
        requires
            n <= old(self)@.len(),
        ensures
            final(self)@ == old(self)@.skip(n as int),
            old(self).wf() ==> final(self).wf(),
    {
        let len = self.data.len();
        let mut rest: Vec<u8> = Vec::new();
        let mut k: usize = n;
        while k < len
            invariant
                n <= k <= len,
                len == self.data@.len(),
                rest@ == self.data@.subrange(n as int, k as int),
            decreases len - k,
        {
            rest.push(self.data[k]);
            k = k + 1;
            proof {
                assert(rest@ =~= self.data@.subrange(n as int, k as int));
            }
        }
        proof {
            assert(rest@ =~= self.data@.skip(n as int));
        }
        self.data = rest;
    }

    /// Try to decode one reply from the front of the accumulated bytes.
    /// On a match the consumed prefix is removed, so residual bytes of a
    /// following message remain for the next call; on no-match the buffer
    /// is left untouched so that further bytes can extend the candidate.
    pub fn parse(&mut self) -> (r: Result<Response, NoMatch>)
        requires
            old(self).wf(),
        ensures
            final(self).wf(),
            (spec_scan(old(self)@) matches SpecStep::Got(m, n) ==> r matches Ok(resp) && resp@ == m
                && final(self)@ == old(self)@.skip(n)),
            !(spec_scan(old(self)@) is Got) ==> r is Err && final(self)@ == old(self)@,
    {
        proof {
            lemma_scan_bounds(self@);
        }
        match self.scan_reply() {
            ScanStep::Found(resp, n) => {
                self.consume(n);
                Ok(resp)
            },
            ScanStep::Mismatch => Err(NoMatch),
            ScanStep::Incomplete => Err(NoMatch),
        }
    }
}

} // verus!
