//! A network driver for a RAK811 LoRa radio module attached via a serial
//! link, speaking the textual AT-command protocol of the 2.x firmware.
//!
//! The driver owns a non-blocking protocol engine: an incremental parse
//! buffer, the reply grammar, a bounded response queue, a command encoder,
//! and the orchestration that correlates an outgoing command with its
//! (possibly delayed, possibly asynchronous) reply. The serial link and the
//! reset pin are consumed through the capability traits in [`transport`];
//! scripted stand-ins for them live in [`mock`].

use vstd::prelude::*;

pub mod buffer;
pub mod error;
pub mod mock;
pub mod parser;
pub mod protocol;
pub mod queue;
pub mod transport;

pub use crate::buffer::Buffer;
pub use crate::error::DriverError;
use crate::parser::{lemma_scan_bounds, lemma_scan_ext, spec_scan, ScanStep, SpecStep};
pub use crate::protocol::{
    reply_wf, spec_encode_command, tok_crlf, AppKey, AppsKey, Command, CommandBuffer, ConfigKey,
    ConfigOption, ConnectMode, DevAddr, EventCode, FirmwareInfo, LoraMode, LoraRegion, NwksKey,
    Port, QoS, ReplyModel, ResetMode, Response, CMD_CAPACITY, EUI,
};
pub use crate::queue::{ResponseQueue, QUEUE_CAPACITY};
pub use crate::transport::{ReadPoll, ResetLine, SerialRead, SerialWrite, WritePoll};

verus! {

/// How many write attempts of one byte, or flush attempts, are made before
/// the would-block path counts as exhausted.
pub const WRITE_RETRIES: usize = 1000;

/// How many times `process` is run per wait cycle before a decode attempt.
pub const PROCESS_ROUNDS: usize = 1000;

/// The budget of fruitless wait cycles in the blocking receive. It exists
/// only because every loop carries a termination measure; it is set beyond
/// reach (close to 2^64 cycles of a thousand polls each), so within any
/// feasible execution the blocking receive never returns without a reply.
pub const RECV_RETRIES: usize = usize::MAX;

/// All replies ahead in a byte stream, in order: one reply is matched from
/// the front, then the rest of the stream is read the same way. Bytes that
/// do not (yet) form a complete reply end the sequence.
#[verifier::opaque]
pub open spec fn replies(bytes: Seq<u8>) -> Seq<ReplyModel>
    decreases bytes.len(),
{
    match spec_scan(bytes) {
        SpecStep::Got(r, n) => if 1 <= n <= bytes.len() {
            (if r is NONE {
                Seq::<ReplyModel>::empty()
            } else {
                seq![r]
            }) + replies(bytes.skip(n))
        } else {
            Seq::empty()
        },
        SpecStep::Mismatch => Seq::empty(),
        SpecStep::Incomplete => Seq::empty(),
    }
}

/// Law: a reply matched from the buffered bytes alone is the first reply of
/// the whole stream, and consuming its bytes drops exactly it.
pub proof fn lemma_replies_step(buf: Seq<u8>, rest: Seq<u8>)
    ensures
        spec_scan(buf) matches SpecStep::Got(r, n) ==> spec_scan(buf + rest) == SpecStep::Got(r, n)
            && replies(buf + rest) == (if r is NONE {
            Seq::<ReplyModel>::empty()
        } else {
            seq![r]
        }) + replies(buf.skip(n) + rest),
{
    reveal(replies);
    if let SpecStep::Got(r, n) = spec_scan(buf) {
        lemma_scan_ext(buf, rest);
        lemma_scan_bounds(buf);
        assert((buf + rest).skip(n) =~= buf.skip(n) + rest);
    }
}

/// Cancelling a shared prefix of two equal concatenations.
proof fn lemma_concat_cancel_left(s: Seq<u8>, a: Seq<u8>, b: Seq<u8>)
    requires
        s + a == s + b,
    ensures
        a == b,
{
    assert(a.len() == b.len()) by {
        assert((s + a).len() == s.len() + a.len());
        assert((s + b).len() == s.len() + b.len());
    };
    assert(a =~= b) by {
        assert forall|k: int| 0 <= k < a.len() implies a[k] == b[k] by {
            assert((s + a)[s.len() + k] == a[k]);
            assert((s + b)[s.len() + k] == b[k]);
        };
    };
}

/// The effect of one digest step on the buffered bytes and the queue: no
/// complete reply changes nothing; a matched sentinel is dropped; a matched
/// reply moves from the front of the buffer to the back of the queue,
/// unless the queue is full, in which case nothing changes and the step
/// reports back-pressure (`None`).
pub open spec fn spec_digest(buf: Seq<u8>, q: Seq<ReplyModel>) -> Option<
    (Seq<u8>, Seq<ReplyModel>),
> {
    match spec_scan(buf) {
        SpecStep::Got(r, n) => if r is NONE {
            Some((buf.skip(n), q))
        } else if q.len() >= QUEUE_CAPACITY {
            None
        } else {
            Some((buf.skip(n), q.push(r)))
        },
        SpecStep::Mismatch => Some((buf, q)),
        SpecStep::Incomplete => Some((buf, q)),
    }
}


/// Outcome of scanning the queue for inbound data, at the model level.
pub enum RecvOutcome {
    NoData,
    Data(Seq<u8>),
    TooBig,
}

/// The effect of scanning up to `tries` queued replies for a data event on
/// `port` into a caller buffer of `cap` bytes: a matching event whose
/// payload fits is removed and its payload handed out; one too large is
/// put back at the back and reported; every other examined reply is
/// re-enqueued at the back, which keeps the order among skipped replies
/// but moves them behind a removed match.
pub open spec fn spec_try_recv(q: Seq<ReplyModel>, port: Port, cap: nat, tries: nat) -> (Seq<
    ReplyModel,
>, RecvOutcome)
    decreases tries,
{
    if tries == 0 || q.len() == 0 {
        (q, RecvOutcome::NoData)
    } else {
        match q[0] {
            ReplyModel::Recv(code, p, len, data) => {
                if code == EventCode::RecvData && p == port && data is Some {
                    if len > cap {
                        (q.drop_first().push(q[0]), RecvOutcome::TooBig)
                    } else {
                        (q.drop_first(), RecvOutcome::Data(data.unwrap()))
                    }
                } else {
                    spec_try_recv(q.drop_first().push(q[0]), port, cap, (tries - 1) as nat)
                }
            },
            _ => spec_try_recv(q.drop_first().push(q[0]), port, cap, (tries - 1) as nat),
        }
    }
}

/// Law: scanning a queue that holds a data event for the requested port
/// followed by a data event for another port hands out the first payload
/// and leaves exactly the other event, whatever the ports, payloads and
/// lengths. Together with `try_recv`'s contract, which is exact over
/// `spec_try_recv`, this pins the behaviour of a poll against such a
/// queue.
pub proof fn lemma_try_recv_two_events(
    p: Port,
    q: Port,
    d: Seq<u8>,
    lq: nat,
    dq: Seq<u8>,
    cap: nat,
)
    requires
        p != q,
        d.len() <= cap,
    ensures
        spec_try_recv(
            seq![
                ReplyModel::Recv(EventCode::RecvData, p, d.len(), Some(d)),
                ReplyModel::Recv(EventCode::RecvData, q, lq, Some(dq)),
            ],
            p,
            cap,
            2,
        ) == (
            seq![ReplyModel::Recv(EventCode::RecvData, q, lq, Some(dq))],
            RecvOutcome::Data(d),
        ),
{
    let both = seq![
        ReplyModel::Recv(EventCode::RecvData, p, d.len(), Some(d)),
        ReplyModel::Recv(EventCode::RecvData, q, lq, Some(dq)),
    ];
    assert(both.drop_first() =~= seq![ReplyModel::Recv(EventCode::RecvData, q, lq, Some(dq))]);
}

/// The driver: owns the protocol engine state and the transport
/// capabilities, and exposes the typed operation surface.
pub struct Rak811Driver<W: SerialWrite, R: SerialRead, RST: ResetLine> {
    tx: W,
    rx: R,
    rst: RST,
    parse_buffer: Buffer,
    rxq: ResponseQueue,
    connect_mode: ConnectMode,
    lora_mode: LoraMode,
    lora_band: LoraRegion,
}

impl<W: SerialWrite, R: SerialRead, RST: ResetLine> Rak811Driver<W, R, RST> {
    /// The replies already decoded and queued, front first.
    pub closed spec fn queued(&self) -> Seq<ReplyModel> {
        self.rxq@
    }

    /// The raw bytes accumulated and not yet consumed by a decode.
    pub closed spec fn buffered(&self) -> Seq<u8> {
        self.parse_buffer@
    }

    /// The bytes the transport will still deliver.
    pub closed spec fn inbound(&self) -> Seq<u8> {
        self.rx.incoming()
    }

    /// The bytes handed to the transport so far.
    pub closed spec fn outbound(&self) -> Seq<u8> {
        self.tx.sent()
    }

    /// The configured join procedure.
    pub closed spec fn spec_connect_mode(&self) -> ConnectMode {
        self.connect_mode
    }

    /// The configured mode of operation.
    pub closed spec fn spec_lora_mode(&self) -> LoraMode {
        self.lora_mode
    }

    /// The configured region.
    pub closed spec fn spec_lora_band(&self) -> LoraRegion {
        self.lora_band
    }

    /// Every reply the engine still owes its caller, in order: those
    /// already queued, then those decodable from the buffered bytes
    /// followed by whatever the transport will deliver. Moving bytes from
    /// the wire into the buffer and decoded replies from the buffer into
    /// the queue both leave this sequence unchanged.
    pub open spec fn pending(&self) -> Seq<ReplyModel> {
        self.queued() + replies(self.buffered() + self.inbound())
    }

    /// The engine's internal invariant: buffer and queue within capacity,
    /// and every queued reply well formed and never the sentinel.
    pub closed spec fn wf(&self) -> bool {
        &&& self.parse_buffer.wf()
        &&& self.rxq.wf()
        &&& forall|k: int|
            0 <= k < self.rxq@.len() ==> reply_wf(#[trigger] self.rxq@[k]) && !(self.rxq@[k]
                is NONE)
    }

    /// Read every byte the transport has ready into the parse buffer,
    /// without blocking: returns as soon as the transport reports no data.
    /// Succeeding, it only moves bytes from the wire into the buffer, so
    /// the replies owed are unchanged. Fails with a read error on a
    /// transport failure or on buffer overflow.
    #[verifier::loop_isolation(false)]
    pub fn process(&mut self) -> (r: Result<(), DriverError>)
        requires
            old(self).wf(),
        ensures
            final(self).wf(),
            final(self).queued() == old(self).queued(),
            final(self).outbound() == old(self).outbound(),
            final(self).spec_connect_mode() == old(self).spec_connect_mode(),
            final(self).spec_lora_mode() == old(self).spec_lora_mode(),
            final(self).spec_lora_band() == old(self).spec_lora_band(),
            r is Ok ==> final(self).buffered() + final(self).inbound() == old(self).buffered()
                + old(self).inbound(),
            r is Ok ==> old(self).buffered().is_prefix_of(final(self).buffered()),
            r is Ok ==> final(self).pending() == old(self).pending(),
            r is Err ==> old(self).buffered().is_prefix_of(final(self).buffered()),
            r matches Err(e) ==> e == DriverError::ReadError,
    {
        let ghost q0 = self.queued();
        let ghost ob0 = self.outbound();
        let ghost cm0 = self.spec_connect_mode();
        let ghost lm0 = self.spec_lora_mode();
        let ghost lb0 = self.spec_lora_band();
        let ghost buf0 = self.buffered();
        let ghost inb0 = self.inbound();
        loop
            invariant
                self.wf(),
                self.queued() == q0,
                self.outbound() == ob0,
                self.spec_connect_mode() == cm0,
                self.spec_lora_mode() == lm0,
                self.spec_lora_band() == lb0,
                self.buffered() + self.inbound() == buf0 + inb0,
                buf0.is_prefix_of(self.buffered()),
            decreases self.inbound().len(),
        {
            let ghost buf_pre = self.buffered();
            let ghost inb_pre = self.inbound();
            match self.rx.read_byte() {
                ReadPoll::Pending => {
                    return Ok(());
                },
                ReadPoll::Failed => {
                    return Err(DriverError::ReadError);
                },
                ReadPoll::Ready(b) => {
                    match self.parse_buffer.write(b) {
                        Ok(()) => {
                            proof {
                                assert(self.buffered() =~= buf_pre.push(b));
                                assert(self.buffered() + self.inbound() =~= buf_pre + inb_pre);
                                assert(buf0.is_prefix_of(self.buffered()));
                            }
                        },
                        Err(_) => {
                            return Err(DriverError::ReadError);
                        },
                    }
                },
            }
        }
    }

    /// Attempt to decode one reply from the parse buffer and queue it.
    /// A decoded reply that is not the sentinel moves from the front of
    /// the buffered bytes to the back of the queue, so the replies owed
    /// are unchanged; a full queue rejects the reply with a read error and
    /// keeps the bytes buffered, so the caller can retry after draining.
    #[verifier::rlimit(100)]
    pub fn digest(&mut self) -> (r: Result<(), DriverError>)
        requires
            old(self).wf(),
        ensures
            final(self).wf(),
            final(self).outbound() == old(self).outbound(),
            final(self).inbound() == old(self).inbound(),
            final(self).spec_connect_mode() == old(self).spec_connect_mode(),
            final(self).spec_lora_mode() == old(self).spec_lora_mode(),
            final(self).spec_lora_band() == old(self).spec_lora_band(),
            (match spec_digest(old(self).buffered(), old(self).queued()) {
                Some((b2, q2)) => r is Ok && final(self).buffered() == b2 && final(self).queued()
                    == q2,
                None => r matches Err(e) && e == DriverError::ReadError && final(self).buffered()
                    == old(self).buffered() && final(self).queued() == old(self).queued(),
            }),
            final(self).pending() == old(self).pending(),
    {
        let ghost buf0 = self.buffered();
        let ghost q0 = self.queued();
        let ghost inb0 = self.inbound();
        proof {
            lemma_scan_bounds(buf0);
            lemma_replies_step(buf0, inb0);
        }
        match self.parse_buffer.scan_reply() {
            ScanStep::Found(resp, n) => {
                if matches!(resp, Response::NONE) {
                    self.parse_buffer.consume(n);
                    proof {
                        assert(self.buffered() + self.inbound() =~= buf0.skip(n as int) + inb0);
                        assert(self.pending() =~= q0 + replies(buf0 + inb0));
                    }
                    Ok(())
                } else {
                    if self.rxq.len() >= QUEUE_CAPACITY {
                        return Err(DriverError::ReadError);
                    }
                    self.parse_buffer.consume(n);
                    let enq = self.rxq.enqueue(resp);
                    proof {
                        assert(enq is Ok);
                        assert(self.buffered() + self.inbound() =~= buf0.skip(n as int) + inb0);
                        assert(q0.push(resp@) + replies(buf0.skip(n as int) + inb0) =~= q0 + (
                        seq![resp@] + replies(buf0.skip(n as int) + inb0)));
                        assert(self.pending() =~= q0 + replies(buf0 + inb0));
                    }
                    Ok(())
                }
            },
            ScanStep::Mismatch => Ok(()),
            ScanStep::Incomplete => Ok(()),
        }
    }

    /// Push pending output toward the wire, retrying a bounded number of
    /// times while the transport reports would-block.
    #[verifier::loop_isolation(false)]
    fn flush_blocking(&mut self) -> (r: Result<(), DriverError>)
        requires
            old(self).wf(),
        ensures
            final(self).wf(),
            final(self).queued() == old(self).queued(),
            final(self).buffered() == old(self).buffered(),
            final(self).inbound() == old(self).inbound(),
            final(self).outbound() == old(self).outbound(),
            final(self).spec_connect_mode() == old(self).spec_connect_mode(),
            final(self).spec_lora_mode() == old(self).spec_lora_mode(),
            final(self).spec_lora_band() == old(self).spec_lora_band(),
            r matches Err(e) ==> e == DriverError::WriteError,
    {
        let mut tries: usize = 0;
        while tries < WRITE_RETRIES
            invariant
                self.wf(),
                self.queued() == old(self).queued(),
                self.buffered() == old(self).buffered(),
                self.inbound() == old(self).inbound(),
                self.outbound() == old(self).outbound(),
                self.spec_connect_mode() == old(self).spec_connect_mode(),
                self.spec_lora_mode() == old(self).spec_lora_mode(),
                self.spec_lora_band() == old(self).spec_lora_band(),
            decreases WRITE_RETRIES - tries,
        {
            match self.tx.flush() {
                WritePoll::Done => {
                    return Ok(());
                },
                WritePoll::Failed => {
                    return Err(DriverError::WriteError);
                },
                WritePoll::Pending => {
                    tries = tries + 1;
                },
            }
        }
        Err(DriverError::WriteError)
    }

    /// Write one byte, tolerating would-block by flushing pending output
    /// and retrying, a bounded number of times. A failed write leaves the
    /// accepted output exactly as it was.
    #[verifier::loop_isolation(false)]
    fn write_byte_blocking(&mut self, b: u8) -> (r: Result<(), DriverError>)
        requires
            old(self).wf(),
        ensures
            final(self).wf(),
            final(self).queued() == old(self).queued(),
            final(self).buffered() == old(self).buffered(),
            final(self).inbound() == old(self).inbound(),
            final(self).spec_connect_mode() == old(self).spec_connect_mode(),
            final(self).spec_lora_mode() == old(self).spec_lora_mode(),
            final(self).spec_lora_band() == old(self).spec_lora_band(),
            r is Ok ==> final(self).outbound() == old(self).outbound().push(b),
            r matches Err(e) ==> e == DriverError::WriteError && final(self).outbound() == old(self).outbound(),
    {
        let mut tries: usize = 0;
        while tries < WRITE_RETRIES
            invariant
                self.wf(),
                self.queued() == old(self).queued(),
                self.buffered() == old(self).buffered(),
                self.inbound() == old(self).inbound(),
                self.outbound() == old(self).outbound(),
                self.spec_connect_mode() == old(self).spec_connect_mode(),
                self.spec_lora_mode() == old(self).spec_lora_mode(),
                self.spec_lora_band() == old(self).spec_lora_band(),
            decreases WRITE_RETRIES - tries,
        {
            match self.tx.write_byte(b) {
                WritePoll::Done => {
                    return Ok(());
                },
                WritePoll::Failed => {
                    return Err(DriverError::WriteError);
                },
                WritePoll::Pending => {
                    match self.flush_blocking() {
                        Ok(()) => {},
                        Err(e) => {
                            return Err(e);
                        },
                    }
                    tries = tries + 1;
                },
            }
        }
        Err(DriverError::WriteError)
    }

    /// Write all bytes, then flush. On success the accepted output is
    /// extended by exactly these bytes; on failure by some prefix of them.
    #[verifier::loop_isolation(false)]
    fn do_write(&mut self, buf: &[u8]) -> (r: Result<(), DriverError>)
        requires
            old(self).wf(),
        ensures
            final(self).wf(),
            final(self).queued() == old(self).queued(),
            final(self).buffered() == old(self).buffered(),
            final(self).inbound() == old(self).inbound(),
            final(self).spec_connect_mode() == old(self).spec_connect_mode(),
            final(self).spec_lora_mode() == old(self).spec_lora_mode(),
            final(self).spec_lora_band() == old(self).spec_lora_band(),
            r is Ok ==> final(self).outbound() == old(self).outbound() + buf@,
            r matches Err(e) ==> e == DriverError::WriteError && exists|k: int|
                0 <= k <= buf@.len() && final(self).outbound() == old(self).outbound()
                    + buf@.take(k),
    {
        let n = buf.len();
        let mut i: usize = 0;
        while i < n
            invariant
                i <= n,
                n == buf@.len(),
                self.wf(),
                self.queued() == old(self).queued(),
                self.buffered() == old(self).buffered(),
                self.inbound() == old(self).inbound(),
                self.spec_connect_mode() == old(self).spec_connect_mode(),
                self.spec_lora_mode() == old(self).spec_lora_mode(),
                self.spec_lora_band() == old(self).spec_lora_band(),
                self.outbound() == old(self).outbound() + buf@.take(i as int),
            decreases n - i,
        {
            match self.write_byte_blocking(buf[i]) {
                Ok(()) => {
                    i = i + 1;
                    proof {
                        assert(self.outbound() =~= old(self).outbound() + buf@.take(i as int));
                    }
                },
                Err(e) => {
                    proof {
                        assert(0 <= i as int <= buf@.len() && self.outbound() == old(self).outbound() + buf@.take(i as int));
                    }
                    return Err(e);
                },
            }
        }
        proof {
            assert(buf@.take(n as int) =~= buf@);
        }
        match self.flush_blocking() {
            Ok(()) => Ok(()),
            Err(e) => {
                proof {
                    assert(0 <= n as int <= buf@.len() && self.outbound() == old(self).outbound()
                        + buf@.take(n as int));
                }
                Err(e)
            },
        }
    }

    /// Block until a reply is dequeued, repeatedly polling the transport,
    /// digesting, and trying the queue. The reply handed out is the first
    /// one owed, and afterwards exactly it has been discharged. The wait
    /// ends early with a read error if the transport fails or a buffer or
    /// queue fills; with no reply it busy-polls indefinitely, so a caller
    /// needing bounded latency must add an external timeout. (Formally the
    /// wait carries a termination measure, as every loop here must; its
    /// budget of `RECV_RETRIES` fruitless cycles is set beyond reach, and
    /// only its exhaustion could produce `OtherError`.)
    #[verifier::loop_isolation(false)]
    fn recv_response(&mut self) -> (r: Result<Response, DriverError>)
        requires
            old(self).wf(),
        ensures
            final(self).wf(),
            final(self).outbound() == old(self).outbound(),
            final(self).spec_connect_mode() == old(self).spec_connect_mode(),
            final(self).spec_lora_mode() == old(self).spec_lora_mode(),
            final(self).spec_lora_band() == old(self).spec_lora_band(),
            r matches Ok(resp) ==> old(self).pending().len() >= 1 && resp@ == old(self).pending()[0] && final(self).pending() == old(self).pending().drop_first()
                && reply_wf(resp@) && !(resp@ is NONE),
            r matches Err(e) ==> e == DriverError::ReadError || e == DriverError::OtherError,
    {
        let ghost p0 = self.pending();
        let mut patience: usize = RECV_RETRIES;
        loop
            invariant
                self.wf(),
                self.outbound() == old(self).outbound(),
                self.spec_connect_mode() == old(self).spec_connect_mode(),
                self.spec_lora_mode() == old(self).spec_lora_mode(),
                self.spec_lora_band() == old(self).spec_lora_band(),
                self.pending() == p0,
            decreases self.inbound().len(), self.buffered().len(), patience,
        {
            let ghost bufc = self.buffered();
            let ghost inbc = self.inbound();
            let before_len = self.parse_buffer.len();
            let mut k: usize = 0;
            while k < PROCESS_ROUNDS
                invariant
                    k <= PROCESS_ROUNDS,
                    self.wf(),
                    self.outbound() == old(self).outbound(),
                    self.spec_connect_mode() == old(self).spec_connect_mode(),
                    self.spec_lora_mode() == old(self).spec_lora_mode(),
                    self.spec_lora_band() == old(self).spec_lora_band(),
                    self.pending() == p0,
                    self.buffered() + self.inbound() == bufc + inbc,
                    bufc.is_prefix_of(self.buffered()),
                decreases PROCESS_ROUNDS - k,
            {
                let ghost buf_pre = self.buffered();
                match self.process() {
                    Ok(()) => {},
                    Err(e) => {
                        return Err(e);
                    },
                }
                proof {
                    lemma_prefix_trans(bufc, buf_pre, self.buffered());
                }
                k = k + 1;
            }
            let after_len = self.parse_buffer.len();
            let ghost buf_mid = self.buffered();
            let ghost inb_mid = self.inbound();
            proof {
                lemma_scan_bounds(buf_mid);
            }
            match self.digest() {
                Ok(()) => {},
                Err(e) => {
                    return Err(e);
                },
            }
            let after_digest_len = self.parse_buffer.len();
            let ghost q_pre = self.queued();
            let ghost rem = replies(self.buffered() + self.inbound());
            match self.rxq.dequeue() {
                Some(resp) => {
                    proof {
                        assert(q_pre.len() > 0);
                        assert(p0 == q_pre + rem);
                        assert(p0[0] == q_pre[0]);
                        assert(resp@ == q_pre[0]);
                        assert(self.pending() =~= (q_pre + rem).drop_first());
                        assert(reply_wf(q_pre[0]) && !(q_pre[0] is NONE));
                    }
                    return Ok(resp);
                },
                None => {},
            }
            if after_len > before_len || after_digest_len < after_len {
                patience = RECV_RETRIES;
                proof {
                    assert(inb_mid == self.inbound());
                    assert((buf_mid + inb_mid).len() == (bufc + inbc).len());
                    if after_len > before_len {
                        assert(self.inbound().len() < inbc.len());
                    } else {
                        assert(buf_mid.len() == bufc.len());
                        assert(buf_mid =~= bufc);
                        lemma_concat_cancel_left(bufc, inb_mid, inbc);
                        assert(self.inbound().len() == inbc.len());
                        assert(self.buffered().len() < bufc.len());
                    }
                }
            } else {
                if patience == 0 {
                    return Err(DriverError::OtherError);
                }
                patience = patience - 1;
                proof {
                    assert(buf_mid.len() == bufc.len());
                    assert(buf_mid =~= bufc);
                    lemma_concat_cancel_left(bufc, inb_mid, inbc);
                    assert(self.inbound() == inbc);
                    assert(self.buffered() == buf_mid);
                }
            }
        }
    }

    /// Encode a command, write its bytes and the line terminator to the
    /// transport, and await the next reply.
    pub fn send_command(&mut self, command: Command) -> (r: Result<Response, DriverError>)
        requires
            old(self).wf(),
            spec_encode_command(command).len() <= CMD_CAPACITY,
        ensures
            final(self).wf(),
            final(self).spec_connect_mode() == old(self).spec_connect_mode(),
            final(self).spec_lora_mode() == old(self).spec_lora_mode(),
            final(self).spec_lora_band() == old(self).spec_lora_band(),
            r matches Ok(resp) ==> final(self).outbound() == old(self).outbound()
                + spec_encode_command(command) + tok_crlf() && old(self).pending().len() >= 1
                && resp@ == old(self).pending()[0] && final(self).pending() == old(self).pending().drop_first() && reply_wf(resp@) && !(resp@ is NONE),
            r matches Err(e) ==> (e == DriverError::WriteError || e == DriverError::ReadError || e
                == DriverError::OtherError),
            r == Err::<Response, DriverError>(DriverError::WriteError) ==> final(self).pending()
                == old(self).pending(),
    {
        let mut s = Command::buffer();
        command.encode(&mut s);
        match self.do_write(s.as_bytes()) {
            Ok(()) => {},
            Err(e) => {
                return Err(e);
            },
        }
        let crlf: [u8; 2] = [13, 10];
        proof {
            assert(crlf@ =~= tok_crlf());
        }
        match self.do_write(&crlf) {
            Ok(()) => {},
            Err(e) => {
                return Err(e);
            },
        }
        proof {
            assert(self.outbound() =~= old(self).outbound() + spec_encode_command(command)
                + tok_crlf());
        }
        match self.recv_response() {
            Ok(resp) => Ok(resp),
            Err(e) => Err(e),
        }
    }

    /// Initialize the driver: pulse the reset line, then await the
    /// module's post-reset announcement and seed the region from it. Any
    /// other first reply means the module did not come up.
    pub fn initialize(&mut self) -> (r: Result<(), DriverError>)
        requires
            old(self).wf(),
        ensures
            final(self).wf(),
            final(self).outbound() == old(self).outbound(),
            final(self).spec_connect_mode() == old(self).spec_connect_mode(),
            final(self).spec_lora_mode() == old(self).spec_lora_mode(),
            r is Ok ==> old(self).pending().len() >= 1 && (old(self).pending()[0] matches
                ReplyModel::Initialized(band) && final(self).spec_lora_band() == band) && final(self).pending() == old(self).pending().drop_first(),
            r matches Err(e) ==> (e == DriverError::NotInitialized || e == DriverError::ReadError
                || e == DriverError::OtherError),
            r is Err ==> final(self).spec_lora_band() == old(self).spec_lora_band(),
            r == Err::<(), DriverError>(DriverError::NotInitialized) ==> old(self).pending().len() >= 1 && !(old(self).pending()[0] is Initialized) && final(self).pending() == old(self).pending().drop_first(),
    {
        self.rst.set_high();
        self.rst.set_low();
        match self.recv_response() {
            Ok(response) => match response {
                Response::Initialized(band) => {
                    self.lora_band = band;
                    Ok(())
                },
                _ => Err(DriverError::NotInitialized),
            },
            Err(e) => Err(e),
        }
    }

    /// Send a reset command to the module. It acknowledges, restarts or
    /// reloads its configuration, and announces itself again; the region
    /// is re-seeded from the announcement.
    #[verifier::rlimit(100)]
    pub fn reset(&mut self, mode: ResetMode) -> (r: Result<(), DriverError>)
        requires
            old(self).wf(),
        ensures
            final(self).wf(),
            final(self).spec_connect_mode() == old(self).spec_connect_mode(),
            final(self).spec_lora_mode() == old(self).spec_lora_mode(),
            r is Ok ==> old(self).pending().len() >= 2 && old(self).pending()[0] is OK && (old(self).pending()[1] matches ReplyModel::Initialized(band) && final(self).spec_lora_band()
                == band) && final(self).pending() == old(self).pending().skip(2) && final(self).outbound() == old(self).outbound() + spec_encode_command(Command::Reset(mode))
                + tok_crlf(),
            r matches Err(e) ==> (e == DriverError::WriteError || e == DriverError::ReadError || e
                == DriverError::OtherError || e == DriverError::NotInitialized || e matches
                DriverError::UnexpectedResponse(_)),
            r is Err ==> final(self).spec_lora_band() == old(self).spec_lora_band(),
            (match r {
                Err(DriverError::UnexpectedResponse(got)) => old(self).pending().len() >= 1
                    && got@ == old(self).pending()[0] && !(old(self).pending()[0] is OK) && final(self).pending() == old(self).pending().drop_first(),
                _ => true,
            }),
            r == Err::<(), DriverError>(DriverError::NotInitialized) ==> old(self).pending().len() >= 2 && old(self).pending()[0] is OK && !(old(self).pending()[1]
                is Initialized) && final(self).pending() == old(self).pending().skip(2),
    {
        match self.send_command(Command::Reset(mode)) {
            Ok(response) => match response {
                Response::OK => match self.recv_response() {
                    Ok(second) => {
                        proof {
                            assert(old(self).pending().skip(1).drop_first() =~= old(self).pending().skip(2));
                        }
                        match second {
                            Response::Initialized(band) => {
                                self.lora_band = band;
                                Ok(())
                            },
                            _ => Err(DriverError::NotInitialized),
                        }
                    },
                    Err(e) => Err(e),
                },
                other => unexpected(other),
            },
            Err(e) => Err(e),
        }
    }

    /// Join a LoRa network using the given mode. The module acknowledges,
    /// then reports the asynchronous join outcome; only a joined event
    /// counts as success. The configured mode is recorded once the module
    /// has acknowledged the request.
    #[verifier::rlimit(100)]
    pub fn join(&mut self, mode: ConnectMode) -> (r: Result<(), DriverError>)
        requires
            old(self).wf(),
        ensures
            final(self).wf(),
            final(self).spec_connect_mode() == mode || final(self).spec_connect_mode() == old(self).spec_connect_mode(),
            r is Ok ==> final(self).spec_connect_mode() == mode,
            final(self).spec_lora_mode() == old(self).spec_lora_mode(),
            final(self).spec_lora_band() == old(self).spec_lora_band(),
            r is Ok ==> old(self).pending().len() >= 2 && old(self).pending()[0] is OK && is_event(
                old(self).pending()[1],
                EventCode::JoinedSuccess,
            ) && final(self).pending() == old(self).pending().skip(2) && final(self).outbound()
                == old(self).outbound() + spec_encode_command(Command::Join(mode)) + tok_crlf(),
            r matches Err(e) ==> (e == DriverError::WriteError || e == DriverError::ReadError || e
                == DriverError::OtherError || e matches DriverError::UnexpectedResponse(_)),
            r == Err::<(), DriverError>(DriverError::WriteError) ==> final(self).spec_connect_mode() == old(self).spec_connect_mode(),
            (match r {
                Err(DriverError::UnexpectedResponse(got)) => (old(self).pending().len() >= 1
                    && got@ == old(self).pending()[0] && !(old(self).pending()[0] is OK) && final(self).spec_connect_mode() == old(self).spec_connect_mode() && final(self).pending()
                    == old(self).pending().drop_first()) || (old(self).pending().len() >= 2 && old(self).pending()[0] is OK && got@ == old(self).pending()[1] && !is_event(
                    old(self).pending()[1],
                    EventCode::JoinedSuccess,
                ) && final(self).spec_connect_mode() == mode && final(self).pending() == old(self).pending().skip(2)),
                _ => true,
            }),
    {
        match self.command_expect_ok(Command::Join(mode)) {
            Ok(()) => {
                self.connect_mode = mode;
                let res = self.await_join_event();
                proof {
                    if res is Ok || res matches Err(DriverError::UnexpectedResponse(_)) {
                        let p = old(self).pending();
                        assert(p.len() >= 2);
                        assert(p.drop_first().drop_first() =~= p.skip(2));
                    }
                }
                res
            },
            Err(e) => Err(e),
        }
    }

    /// Send a command whose only correct reply is the acknowledgement.
    fn command_expect_ok(&mut self, command: Command) -> (r: Result<(), DriverError>)
        requires
            old(self).wf(),
            spec_encode_command(command).len() <= CMD_CAPACITY,
        ensures
            final(self).wf(),
            final(self).spec_connect_mode() == old(self).spec_connect_mode(),
            final(self).spec_lora_mode() == old(self).spec_lora_mode(),
            final(self).spec_lora_band() == old(self).spec_lora_band(),
            r is Ok ==> old(self).pending().len() >= 1 && old(self).pending()[0] is OK && final(self).pending() == old(self).pending().drop_first() && final(self).outbound() == old(self).outbound() + spec_encode_command(command) + tok_crlf(),
            r matches Err(e) ==> (e == DriverError::WriteError || e == DriverError::ReadError || e
                == DriverError::OtherError || e matches DriverError::UnexpectedResponse(_)),
            (match r {
                Err(DriverError::UnexpectedResponse(got)) => old(self).pending().len() >= 1
                    && got@ == old(self).pending()[0] && !(old(self).pending()[0] is OK) && final(self).pending() == old(self).pending().drop_first(),
                _ => true,
            }),
    {
        match self.send_command(command) {
            Ok(response) => match response {
                Response::OK => Ok(()),
                other => unexpected(other),
            },
            Err(e) => Err(e),
        }
    }

    /// Configure the device address.
    #[verifier::rlimit(100)]
    pub fn set_device_address(&mut self, addr: &DevAddr) -> (r: Result<(), DriverError>)
        requires
            old(self).wf(),
        ensures
            final(self).wf(),
            final(self).spec_connect_mode() == old(self).spec_connect_mode(),
            final(self).spec_lora_mode() == old(self).spec_lora_mode(),
            final(self).spec_lora_band() == old(self).spec_lora_band(),
            r is Ok ==> old(self).pending().len() >= 1 && old(self).pending()[0] is OK && final(self).pending() == old(self).pending().drop_first() && final(self).outbound() == old(self).outbound() + spec_encode_command(
                Command::SetConfig(ConfigOption::DevAddr(addr)),
            ) + tok_crlf(),
            r matches Err(e) ==> (e == DriverError::WriteError || e == DriverError::ReadError || e
                == DriverError::OtherError || e matches DriverError::UnexpectedResponse(_)),
            (match r {
                Err(DriverError::UnexpectedResponse(got)) => old(self).pending().len() >= 1
                    && got@ == old(self).pending()[0] && !(old(self).pending()[0] is OK) && final(self).pending() == old(self).pending().drop_first(),
                _ => true,
            }),
    {
        proof {
            crate::protocol::lemma_hex_bytes_len(addr@);
        }
        self.command_expect_ok(Command::SetConfig(ConfigOption::DevAddr(addr)))
    }

    /// Configure the device identifier.
    #[verifier::rlimit(100)]
    pub fn set_device_eui(&mut self, eui: &EUI) -> (r: Result<(), DriverError>)
        requires
            old(self).wf(),
        ensures
            final(self).wf(),
            final(self).spec_connect_mode() == old(self).spec_connect_mode(),
            final(self).spec_lora_mode() == old(self).spec_lora_mode(),
            final(self).spec_lora_band() == old(self).spec_lora_band(),
            r is Ok ==> old(self).pending().len() >= 1 && old(self).pending()[0] is OK && final(self).pending() == old(self).pending().drop_first() && final(self).outbound() == old(self).outbound() + spec_encode_command(
                Command::SetConfig(ConfigOption::DevEui(eui)),
            ) + tok_crlf(),
            r matches Err(e) ==> (e == DriverError::WriteError || e == DriverError::ReadError || e
                == DriverError::OtherError || e matches DriverError::UnexpectedResponse(_)),
            (match r {
                Err(DriverError::UnexpectedResponse(got)) => old(self).pending().len() >= 1
                    && got@ == old(self).pending()[0] && !(old(self).pending()[0] is OK) && final(self).pending() == old(self).pending().drop_first(),
                _ => true,
            }),
    {
        proof {
            crate::protocol::lemma_hex_bytes_len(eui@);
        }
        self.command_expect_ok(Command::SetConfig(ConfigOption::DevEui(eui)))
    }

    /// Configure the application identifier.
    #[verifier::rlimit(100)]
    pub fn set_app_eui(&mut self, eui: &EUI) -> (r: Result<(), DriverError>)
        requires
            old(self).wf(),
        ensures
            final(self).wf(),
            final(self).spec_connect_mode() == old(self).spec_connect_mode(),
            final(self).spec_lora_mode() == old(self).spec_lora_mode(),
            final(self).spec_lora_band() == old(self).spec_lora_band(),
            r is Ok ==> old(self).pending().len() >= 1 && old(self).pending()[0] is OK && final(self).pending() == old(self).pending().drop_first() && final(self).outbound() == old(self).outbound() + spec_encode_command(
                Command::SetConfig(ConfigOption::AppEui(eui)),
            ) + tok_crlf(),
            r matches Err(e) ==> (e == DriverError::WriteError || e == DriverError::ReadError || e
                == DriverError::OtherError || e matches DriverError::UnexpectedResponse(_)),
            (match r {
                Err(DriverError::UnexpectedResponse(got)) => old(self).pending().len() >= 1
                    && got@ == old(self).pending()[0] && !(old(self).pending()[0] is OK) && final(self).pending() == old(self).pending().drop_first(),
                _ => true,
            }),
    {
        proof {
            crate::protocol::lemma_hex_bytes_len(eui@);
        }
        self.command_expect_ok(Command::SetConfig(ConfigOption::AppEui(eui)))
    }

    /// Configure the application key.
    #[verifier::rlimit(100)]
    pub fn set_app_key(&mut self, key: &AppKey) -> (r: Result<(), DriverError>)
        requires
            old(self).wf(),
        ensures
            final(self).wf(),
            final(self).spec_connect_mode() == old(self).spec_connect_mode(),
            final(self).spec_lora_mode() == old(self).spec_lora_mode(),
            final(self).spec_lora_band() == old(self).spec_lora_band(),
            r is Ok ==> old(self).pending().len() >= 1 && old(self).pending()[0] is OK && final(self).pending() == old(self).pending().drop_first() && final(self).outbound() == old(self).outbound() + spec_encode_command(
                Command::SetConfig(ConfigOption::AppKey(key)),
            ) + tok_crlf(),
            r matches Err(e) ==> (e == DriverError::WriteError || e == DriverError::ReadError || e
                == DriverError::OtherError || e matches DriverError::UnexpectedResponse(_)),
            (match r {
                Err(DriverError::UnexpectedResponse(got)) => old(self).pending().len() >= 1
                    && got@ == old(self).pending()[0] && !(old(self).pending()[0] is OK) && final(self).pending() == old(self).pending().drop_first(),
                _ => true,
            }),
    {
        proof {
            crate::protocol::lemma_hex_bytes_len(key@);
        }
        self.command_expect_ok(Command::SetConfig(ConfigOption::AppKey(key)))
    }

    /// Transmit data with the given confirmation mode on the given port.
    /// The module acknowledges, then reports the matching transmit event
    /// on port zero. The encoded command must fit the bounded command
    /// string, which caps one transmission at 57 payload bytes.
    #[verifier::rlimit(100)]
    pub fn send(&mut self, qos: QoS, port: Port, data: &[u8]) -> (r: Result<(), DriverError>)
        requires
            old(self).wf(),
            data@.len() <= 57,
        ensures
            final(self).wf(),
            final(self).spec_connect_mode() == old(self).spec_connect_mode(),
            final(self).spec_lora_mode() == old(self).spec_lora_mode(),
            final(self).spec_lora_band() == old(self).spec_lora_band(),
            r is Ok ==> old(self).pending().len() >= 2 && old(self).pending()[0] is OK
                && is_tx_event(old(self).pending()[1], qos) && final(self).pending() == old(self).pending().skip(2) && final(self).outbound() == old(self).outbound()
                + spec_encode_command(Command::Send(qos, port, data)) + tok_crlf(),
            r matches Err(e) ==> (e == DriverError::WriteError || e == DriverError::ReadError || e
                == DriverError::OtherError || e matches DriverError::UnexpectedResponse(_)),
            (match r {
                Err(DriverError::UnexpectedResponse(got)) => (old(self).pending().len() >= 1
                    && got@ == old(self).pending()[0] && !(old(self).pending()[0] is OK) && final(self).pending() == old(self).pending().drop_first()) || (old(self).pending().len() >= 2 && old(self).pending()[0] is OK && got@ == old(self).pending()[1] && !is_tx_event(old(self).pending()[1], qos) && final(self).pending() == old(self).pending().skip(2)),
                _ => true,
            }),
    {
        proof {
            crate::protocol::lemma_hex_bytes_len(data@);
        }
        match self.send_command(Command::Send(qos, port, data)) {
            Ok(response) => match response {
                Response::OK => {
                    let res = self.await_tx_event(qos);
                    proof {
                        if res is Ok || res matches Err(DriverError::UnexpectedResponse(_)) {
                            let p = old(self).pending();
                            assert(p.len() >= 2);
                            assert(p.drop_first().drop_first() =~= p.skip(2));
                        }
                    }
                    res
                },
                other => unexpected(other),
            },
            Err(e) => Err(e),
        }
    }

    /// Await the asynchronous transmit confirmation that follows the
    /// acknowledgement; only the event matching the requested quality of
    /// service, on port zero, counts as success.
    fn await_tx_event(&mut self, qos: QoS) -> (r: Result<(), DriverError>)
        requires
            old(self).wf(),
        ensures
            final(self).wf(),
            final(self).outbound() == old(self).outbound(),
            final(self).spec_connect_mode() == old(self).spec_connect_mode(),
            final(self).spec_lora_mode() == old(self).spec_lora_mode(),
            final(self).spec_lora_band() == old(self).spec_lora_band(),
            r is Ok ==> old(self).pending().len() >= 1 && is_tx_event(old(self).pending()[0], qos)
                && final(self).pending() == old(self).pending().drop_first(),
            r matches Err(e) ==> (e == DriverError::ReadError || e == DriverError::OtherError || e
                matches DriverError::UnexpectedResponse(_)),
            (match r {
                Err(DriverError::UnexpectedResponse(got)) => old(self).pending().len() >= 1
                    && got@ == old(self).pending()[0] && !is_tx_event(old(self).pending()[0], qos)
                    && final(self).pending() == old(self).pending().drop_first(),
                _ => true,
            }),
    {
        let expected = match qos {
            QoS::Unconfirmed => EventCode::TxUnconfirmed,
            QoS::Confirmed => EventCode::TxConfirmed,
        };
        match self.recv_response() {
            Ok(second) => match &second {
                Response::Recv(code, p, _len, _data) => {
                    if *code == expected && *p == 0 {
                        Ok(())
                    } else {
                        unexpected(second)
                    }
                },
                _ => unexpected(second),
            },
            Err(e) => Err(e),
        }
    }

    /// Create a driver that owns the transport capabilities, trigger a
    /// reset of the module, and await the announcement from the firmware.
    pub fn new(tx: W, rx: R, rst: RST) -> (r: Result<Rak811Driver<W, R, RST>, DriverError>)
        ensures
            r matches Ok(d) ==> {
                &&& d.wf()
                &&& d.outbound() == tx.sent()
                &&& replies(rx.incoming()).len() >= 1
                &&& (replies(rx.incoming())[0] matches ReplyModel::Initialized(band)
                    && d.spec_lora_band() == band)
                &&& d.pending() == replies(rx.incoming()).drop_first()
                &&& d.spec_connect_mode() == ConnectMode::OTAA
                &&& d.spec_lora_mode() == LoraMode::WAN
            },
            r matches Err(e) ==> (e == DriverError::NotInitialized || e == DriverError::ReadError
                || e == DriverError::OtherError),
            (match r {
                Err(DriverError::NotInitialized) => replies(rx.incoming()).len() >= 1 && !(replies(
                    rx.incoming(),
                )[0] is Initialized),
                _ => true,
            }),
    {
        let mut driver = Rak811Driver {
            tx,
            rx,
            rst,
            parse_buffer: Buffer::new(),
            rxq: ResponseQueue::new(),
            connect_mode: ConnectMode::OTAA,
            lora_mode: LoraMode::WAN,
            lora_band: LoraRegion::EU868,
        };
        proof {
            assert(driver.buffered() + driver.inbound() == rx.incoming());
            assert(driver.pending() =~= replies(rx.incoming()));
        }
        match driver.initialize() {
            Ok(()) => Ok(driver),
            Err(e) => Err(e),
        }
    }


    /// Poll for previously received application data on the given port:
    /// one decode attempt, then one pass over the currently queued
    /// replies. A matching data event is copied into the front of
    /// `rx_buf` and its length returned; zero means no data was waiting.
    /// A payload larger than `rx_buf` is put back on the queue and
    /// reported as a read error, so large payloads are never silently
    /// clipped. Replies examined and skipped are re-enqueued at the back:
    /// their relative order is kept, but a removed match changes their
    /// position in the queue.
    #[verifier::loop_isolation(false)]
    #[verifier::rlimit(100)]
    pub fn try_recv(&mut self, port: Port, rx_buf: &mut Vec<u8>) -> (r: Result<
        usize,
        DriverError,
    >)
        requires
            old(self).wf(),
        ensures
            final(self).wf(),
            final(self).outbound() == old(self).outbound(),
            final(self).inbound() == old(self).inbound(),
            final(self).spec_connect_mode() == old(self).spec_connect_mode(),
            final(self).spec_lora_mode() == old(self).spec_lora_mode(),
            final(self).spec_lora_band() == old(self).spec_lora_band(),
            (match spec_digest(old(self).buffered(), old(self).queued()) {
                None => r matches Err(e) && e == DriverError::ReadError && final(self).queued()
                    == old(self).queued() && final(self).buffered() == old(self).buffered()
                    && final(rx_buf)@ == old(rx_buf)@,
                Some((b2, q2)) => final(self).buffered() == b2 && (match spec_try_recv(
                    q2,
                    port,
                    old(rx_buf)@.len() as nat,
                    q2.len(),
                ) {
                    (q3, RecvOutcome::NoData) => r matches Ok(n) && n == 0 && final(self).queued()
                        == q3 && final(rx_buf)@ == old(rx_buf)@,
                    (q3, RecvOutcome::Data(data)) => r matches Ok(n) && n == data.len() && final(self).queued() == q3 && final(rx_buf)@ == data + old(rx_buf)@.skip(
                        data.len() as int,
                    ),
                    (q3, RecvOutcome::TooBig) => r matches Err(e) && e == DriverError::ReadError
                        && final(self).queued() == q3 && final(rx_buf)@ == old(rx_buf)@,
                }),
            }),
    {
        match self.digest() {
            Ok(()) => {},
            Err(e) => {
                return Err(e);
            },
        }
        let ghost q2 = self.queued();
        let ghost bufd = self.buffered();
        let ghost cap = old(rx_buf)@.len() as nat;
        let total = self.rxq.len();
        let mut tries: usize = total;
        while tries > 0
            invariant
                self.wf(),
                self.outbound() == old(self).outbound(),
                self.inbound() == old(self).inbound(),
                self.buffered() == bufd,
                self.spec_connect_mode() == old(self).spec_connect_mode(),
                self.spec_lora_mode() == old(self).spec_lora_mode(),
                self.spec_lora_band() == old(self).spec_lora_band(),
                tries <= self.queued().len(),
                rx_buf@ == old(rx_buf)@,
                spec_try_recv(q2, port, cap, total as nat) == spec_try_recv(
                    self.queued(),
                    port,
                    cap,
                    tries as nat,
                ),
            decreases tries,
        {
            let ghost qcur = self.queued();
            match self.rxq.dequeue() {
                None => {
                    return Ok(0);
                },
                Some(resp) => {
                    match resp {
                        Response::Recv(EventCode::RecvData, p, len, Some(data)) if p == port => {
                            proof {
                                assert(reply_wf(qcur[0]));
                                assert(data@.len() == len);
                            }
                            if len > rx_buf.len() {
                                let back = Response::Recv(
                                    EventCode::RecvData,
                                    p,
                                    len,
                                    Some(data),
                                );
                                proof {
                                    assert(back@ == qcur[0]);
                                }
                                let enq = self.rxq.enqueue(back);
                                proof {
                                    assert(enq is Ok);
                                    assert(spec_try_recv(qcur, port, cap, tries as nat) == (
                                    qcur.drop_first().push(qcur[0]), RecvOutcome::TooBig));
                                }
                                return Err(DriverError::ReadError);
                            }
                            let n = len;
                            let mut k: usize = 0;
                            while k < n
                                invariant
                                    k <= n,
                                    n == data@.len(),
                                    n <= rx_buf@.len(),
                                    rx_buf@.len() == old(rx_buf)@.len(),
                                    forall|j: int| 0 <= j < k ==> rx_buf@[j] == data@[j],
                                    forall|j: int|
                                        k <= j < rx_buf@.len() ==> rx_buf@[j] == old(rx_buf)@[j],
                                decreases n - k,
                            {
                                let b = data[k];
                                rx_buf.set(k, b);
                                k = k + 1;
                            }
                            proof {
                                assert(rx_buf@ =~= data@ + old(rx_buf)@.skip(n as int));
                                assert(spec_try_recv(qcur, port, cap, tries as nat) == (
                                qcur.drop_first(), RecvOutcome::Data(data@)));
                            }
                            return Ok(n);
                        },
                        other => {
                            proof {
                                assert(other@ == qcur[0]);
                            }
                            let enq = self.rxq.enqueue(other);
                            proof {
                                assert(enq is Ok);
                                assert(spec_try_recv(qcur, port, cap, tries as nat)
                                    == spec_try_recv(
                                    qcur.drop_first().push(qcur[0]),
                                    port,
                                    cap,
                                    (tries - 1) as nat,
                                ));
                            }
                            tries = tries - 1;
                        },
                    }
                },
            }
        }
        proof {
            assert(spec_try_recv(self.queued(), port, cap, 0) == (
            self.queued(), RecvOutcome::NoData));
        }
        Ok(0)
    }

    /// Await the asynchronous join outcome that follows the
    /// acknowledgement; only a joined event counts as success.
    fn await_join_event(&mut self) -> (r: Result<(), DriverError>)
        requires
            old(self).wf(),
        ensures
            final(self).wf(),
            final(self).outbound() == old(self).outbound(),
            final(self).spec_connect_mode() == old(self).spec_connect_mode(),
            final(self).spec_lora_mode() == old(self).spec_lora_mode(),
            final(self).spec_lora_band() == old(self).spec_lora_band(),
            r is Ok ==> old(self).pending().len() >= 1 && is_event(
                old(self).pending()[0],
                EventCode::JoinedSuccess,
            ) && final(self).pending() == old(self).pending().drop_first(),
            r matches Err(e) ==> (e == DriverError::ReadError || e == DriverError::OtherError || e
                matches DriverError::UnexpectedResponse(_)),
            (match r {
                Err(DriverError::UnexpectedResponse(got)) => old(self).pending().len() >= 1
                    && got@ == old(self).pending()[0] && !is_event(
                    old(self).pending()[0],
                    EventCode::JoinedSuccess,
                ) && final(self).pending() == old(self).pending().drop_first(),
                _ => true,
            }),
    {
        match self.recv_response() {
            Ok(second) => match &second {
                Response::Recv(code, _port, _len, _data) => {
                    if matches!(code, EventCode::JoinedSuccess) {
                        Ok(())
                    } else {
                        unexpected(second)
                    }
                },
                _ => unexpected(second),
            },
            Err(e) => Err(e),
        }
    }

    /// Set the frequency band for the given region. A band equal to the
    /// one already configured is not sent to the module at all; a changed
    /// band is recorded once the module has acknowledged it.
    pub fn set_band(&mut self, band: LoraRegion) -> (r: Result<(), DriverError>)
        requires
            old(self).wf(),
        ensures
            final(self).wf(),
            final(self).spec_connect_mode() == old(self).spec_connect_mode(),
            final(self).spec_lora_mode() == old(self).spec_lora_mode(),
            r is Ok ==> final(self).spec_lora_band() == band,
            r is Err ==> final(self).spec_lora_band() == old(self).spec_lora_band(),
            old(self).spec_lora_band() == band ==> r is Ok && final(self).outbound() == old(self).outbound() && final(self).pending() == old(self).pending(),
            old(self).spec_lora_band() != band && r is Ok ==> old(self).pending().len() >= 1
                && old(self).pending()[0] is OK && final(self).pending() == old(self).pending().drop_first() && final(self).outbound() == old(self).outbound()
                + spec_encode_command(Command::SetBand(band)) + tok_crlf(),
            r matches Err(e) ==> (e == DriverError::WriteError || e == DriverError::ReadError || e
                == DriverError::OtherError || e matches DriverError::UnexpectedResponse(_)),
            (match r {
                Err(DriverError::UnexpectedResponse(got)) => old(self).pending().len() >= 1
                    && got@ == old(self).pending()[0] && !(old(self).pending()[0] is OK) && final(self).pending() == old(self).pending().drop_first(),
                _ => true,
            }),
    {
        if self.lora_band != band {
            match self.command_expect_ok(Command::SetBand(band)) {
                Ok(()) => {
                    self.lora_band = band;
                    Ok(())
                },
                Err(e) => Err(e),
            }
        } else {
            Ok(())
        }
    }

    /// Set the mode of operation, network mode or peer to peer. The
    /// configured mode is recorded once the module has acknowledged it.
    pub fn set_mode(&mut self, mode: LoraMode) -> (r: Result<(), DriverError>)
        requires
            old(self).wf(),
        ensures
            final(self).wf(),
            final(self).spec_connect_mode() == old(self).spec_connect_mode(),
            r is Ok ==> final(self).spec_lora_mode() == mode,
            r is Err ==> final(self).spec_lora_mode() == old(self).spec_lora_mode(),
            final(self).spec_lora_band() == old(self).spec_lora_band(),
            r is Ok ==> old(self).pending().len() >= 1 && old(self).pending()[0] is OK && final(self).pending() == old(self).pending().drop_first() && final(self).outbound() == old(self).outbound() + spec_encode_command(Command::SetMode(mode)) + tok_crlf(),
            r matches Err(e) ==> (e == DriverError::WriteError || e == DriverError::ReadError || e
                == DriverError::OtherError || e matches DriverError::UnexpectedResponse(_)),
            (match r {
                Err(DriverError::UnexpectedResponse(got)) => old(self).pending().len() >= 1
                    && got@ == old(self).pending()[0] && !(old(self).pending()[0] is OK) && final(self).pending() == old(self).pending().drop_first(),
                _ => true,
            }),
    {
        match self.command_expect_ok(Command::SetMode(mode)) {
            Ok(()) => {
                self.lora_mode = mode;
                Ok(())
            },
            Err(e) => Err(e),
        }
    }
}

/// Whether a reply is the asynchronous event with the given code.
pub open spec fn is_event(r: ReplyModel, code: EventCode) -> bool {
    r matches ReplyModel::Recv(c, _port, _len, _data) && c == code
}

/// The event code confirming one transmission of the given quality of
/// service.
pub open spec fn spec_expected_tx(qos: QoS) -> EventCode {
    match qos {
        QoS::Unconfirmed => EventCode::TxUnconfirmed,
        QoS::Confirmed => EventCode::TxConfirmed,
    }
}

/// Whether a reply confirms one transmission of the given quality of
/// service: the matching event, on port zero.
pub open spec fn is_tx_event(r: ReplyModel, qos: QoS) -> bool {
    r matches ReplyModel::Recv(c, p, _len, _data) && c == spec_expected_tx(qos) && p == 0
}

/// The reply that marks an operation's reply as not the expected shape.
fn unexpected(r: Response) -> (res: Result<(), DriverError>)
    ensures
        res matches Err(e) && e == DriverError::UnexpectedResponse(r),
{
    Err(DriverError::UnexpectedResponse(r))
}

/// One prefix of a prefix is a prefix.
proof fn lemma_prefix_trans(a: Seq<u8>, b: Seq<u8>, c: Seq<u8>)
    requires
        a.is_prefix_of(b),
        b.is_prefix_of(c),
    ensures
        a.is_prefix_of(c),
{
    assert(a =~= c.subrange(0, a.len() as int)) by {
        assert forall|k: int| 0 <= k < a.len() implies a[k] == #[trigger] c.subrange(
            0,
            a.len() as int,
        )[k] by {
            assert(a[k] == b.subrange(0, a.len() as int)[k]);
            assert(b[k] == c.subrange(0, b.len() as int)[k]);
        };
    };
}

} // verus!
