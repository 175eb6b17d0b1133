//! Scripted transport stand-ins for driving the engine without hardware.

use vstd::prelude::*;

use crate::transport::{ReadPoll, ResetLine, SerialRead, SerialWrite, WritePoll};

verus! {

/// A scripted byte source for driving the engine without hardware: it
/// delivers a fixed byte sequence, optionally reporting "not ready" on
/// every other call to exercise the non-blocking paths.
pub struct ScriptedReader {
    data: Vec<u8>,
    pos: usize,
    stutter: bool,
    hold: bool,
}

impl ScriptedReader {
    /// A source that delivers `script` as fast as it is polled.
    pub fn new(script: Vec<u8>) -> (r: ScriptedReader)
        ensures
            r.incoming() == script@,
    {
        let r = ScriptedReader { data: script, pos: 0, stutter: false, hold: false };
        proof {
            assert(r.incoming() =~= r.data@);
        }
        r
    }

    /// A source that delivers `script` but reports "not ready" on every
    /// other poll.
    pub fn new_stuttering(script: Vec<u8>) -> (r: ScriptedReader)
        ensures
            r.incoming() == script@,
    {
        let r = ScriptedReader { data: script, pos: 0, stutter: true, hold: true };
        proof {
            assert(r.incoming() =~= r.data@);
        }
        r
    }
}

impl SerialRead for ScriptedReader {
    closed spec fn incoming(&self) -> Seq<u8> {
        self.data@.skip(self.pos as int)
    }

    fn read_byte(&mut self) -> (r: ReadPoll) {
        if self.stutter && self.hold {
            self.hold = false;
            return ReadPoll::Pending;
        }
        self.hold = true;
        if self.pos < self.data.len() {
            let b = self.data[self.pos];
            self.pos = self.pos + 1;
            proof {
                assert(self.incoming() =~= old(self).incoming().drop_first());
            }
            ReadPoll::Ready(b)
        } else {
            ReadPoll::Pending
        }
    }
}

/// A byte sink that records everything accepted, for inspecting what the
/// driver put on the wire.
pub struct RecordingWriter {
    accepted: Vec<u8>,
}

impl RecordingWriter {
    /// A sink that has accepted nothing yet.
    pub fn new() -> (r: RecordingWriter)
        ensures
            r.sent() == Seq::<u8>::empty(),
    {
        RecordingWriter { accepted: Vec::new() }
    }

    /// The bytes accepted so far.
    pub fn bytes(&self) -> (r: &Vec<u8>)
        ensures
            r@ == self.sent(),
    {
        &self.accepted
    }
}

impl SerialWrite for RecordingWriter {
    closed spec fn sent(&self) -> Seq<u8> {
        self.accepted@
    }

    fn write_byte(&mut self, b: u8) -> (r: WritePoll) {
        self.accepted.push(b);
        WritePoll::Done
    }

    fn flush(&mut self) -> (r: WritePoll) {
        WritePoll::Done
    }
}

/// A byte sink whose writes always fail, for exercising the error paths.
pub struct FailingWriter;

impl SerialWrite for FailingWriter {
    closed spec fn sent(&self) -> Seq<u8> {
        Seq::empty()
    }

    fn write_byte(&mut self, _b: u8) -> (r: WritePoll) {
        WritePoll::Failed
    }

    fn flush(&mut self) -> (r: WritePoll) {
        WritePoll::Failed
    }
}

/// A reset line wired to nothing.
pub struct NoopReset;

impl ResetLine for NoopReset {
    fn set_high(&mut self) {
    }

    fn set_low(&mut self) {
    }
}

} // verus!
