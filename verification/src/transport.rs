//! The transport capabilities the driver consumes: a non-blocking byte
//! source and sink for the serial link, and a digital reset line.

use vstd::prelude::*;

verus! {

/// Outcome of one non-blocking read: a byte, nothing ready yet, or a
/// transport failure. Would-block is routine control flow, not an error.
#[derive(Debug, Clone, Copy, PartialEq, Eq, Structural)]
pub enum ReadPoll {
    Ready(u8),
    Pending,
    Failed,
}

/// Outcome of one non-blocking write or flush: done, not now, or a
/// transport failure.
#[derive(Debug, Clone, Copy, PartialEq, Eq, Structural)]
pub enum WritePoll {
    Done,
    Pending,
    Failed,
}

/// The byte source half of the serial link, as the driver consumes it.
///
/// The model `incoming()` is the stream of bytes the link will deliver,
/// front first: a successful read hands out the head and keeps the rest,
/// while an unready or failed read delivers nothing. What the driver
/// proves therefore holds for every implementation that reads from its
/// stream in order, whatever its timing.
pub trait SerialRead {
    /// The bytes this source will deliver, in order. An implementation
    /// outside the verified world leaves this at its default; the
    /// contracts below are then its obligations, not proved facts.
    open spec fn incoming(&self) -> Seq<u8> {
        Seq::empty()
    }

    /// Read one byte without blocking.
    fn read_byte(&mut self) -> (r: ReadPoll)
        ensures
            (match r {
                ReadPoll::Ready(b) => old(self).incoming().len() > 0 && b == old(
                    self,
                ).incoming()[0] && final(self).incoming() == old(self).incoming().drop_first(),
                ReadPoll::Pending => final(self).incoming() == old(self).incoming(),
                ReadPoll::Failed => final(self).incoming() == old(self).incoming(),
            }),
    ;
}

/// The byte sink half of the serial link, as the driver consumes it.
///
/// The model `sent()` is the sequence of bytes accepted for transmission
/// so far: a successful write appends exactly its byte, anything else
/// appends nothing, and a flush changes nothing.
pub trait SerialWrite {
    /// The bytes accepted for transmission so far, in order. An
    /// implementation outside the verified world leaves this at its
    /// default; the contracts below are then its obligations, not proved
    /// facts.
    open spec fn sent(&self) -> Seq<u8> {
        Seq::empty()
    }

    /// Write one byte without blocking.
    fn write_byte(&mut self, b: u8) -> (r: WritePoll)
        ensures
            (match r {
                WritePoll::Done => final(self).sent() == old(self).sent().push(b),
                WritePoll::Pending => final(self).sent() == old(self).sent(),
                WritePoll::Failed => final(self).sent() == old(self).sent(),
            }),
    ;

    /// Push pending output toward the wire.
    fn flush(&mut self) -> (r: WritePoll)
        ensures
            final(self).sent() == old(self).sent(),
    ;
}

/// The reset line: a digital output driving the module's reset pin.
pub trait ResetLine {
    fn set_high(&mut self);

    fn set_low(&mut self);
}

} // verus!
