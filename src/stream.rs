use vstd::prelude::*;

use crate::error::{TransportError, Violation};

verus! {

/// Lifecycle of a stream as seen from one end.
#[derive(Clone, Copy, Debug, PartialEq, Eq, Structural)]
pub enum StreamState {
    Open,
    HalfClosedLocal,
    HalfClosedRemote,
    Closed,
    Reset,
}

/// State after this side finishes; finishing twice changes nothing.
pub open spec fn after_local_finish(s: StreamState) -> StreamState {
    match s {
        StreamState::Open => StreamState::HalfClosedLocal,
        StreamState::HalfClosedRemote => StreamState::Closed,
        _ => s,
    }
}

/// State after the peer's finish arrives.
pub open spec fn after_remote_finish(s: StreamState) -> StreamState {
    match s {
        StreamState::Open => StreamState::HalfClosedRemote,
        StreamState::HalfClosedLocal => StreamState::Closed,
        _ => s,
    }
}

/// State after a reset from either side; a closed stream stays closed.
pub open spec fn after_reset(s: StreamState) -> StreamState {
    match s {
        StreamState::Closed => StreamState::Closed,
        _ => StreamState::Reset,
    }
}

pub fn local_finish(s: StreamState) -> (r: StreamState)
    ensures
        r == after_local_finish(s),
{
    match s {
        StreamState::Open => StreamState::HalfClosedLocal,
        StreamState::HalfClosedRemote => StreamState::Closed,
        _ => s,
    }
}

pub fn remote_finish(s: StreamState) -> (r: StreamState)
    ensures
        r == after_remote_finish(s),
{
    match s {
        StreamState::Open => StreamState::HalfClosedRemote,
        StreamState::HalfClosedLocal => StreamState::Closed,
        _ => s,
    }
}

pub fn reset_state(s: StreamState) -> (r: StreamState)
    ensures
        r == after_reset(s),
{
    match s {
        StreamState::Closed => StreamState::Closed,
        _ => StreamState::Reset,
    }
}

/// Copies `v[from..to]` into a new vector.
pub fn copy_range(v: &Vec<u8>, from: usize, to: usize) -> (r: Vec<u8>)
    requires
        from <= to <= v.len(),
    ensures
        r@ == v@.subrange(from as int, to as int),
{
    let mut r: Vec<u8> = Vec::new();
    let mut i: usize = from;
    while i < to
        invariant
            from <= i <= to <= v.len(),
            r@ == v@.subrange(from as int, i as int),
        decreases to - i,
    {
        r.push(v[i]);
        i = i + 1;
    }
    r
}

/// Bytes written on a stream and not yet handed to the connection.
pub struct SendBuffer {
    pub pending: Vec<u8>,
    /// Offset of the first pending byte: the number of bytes already sent.
    pub sent: u64,
    /// Set once the writer has finished the stream.
    pub finishing: bool,
    /// Set once the finish itself has been handed to the connection.
    pub fin_sent: bool,
    /// Every byte ever written, in call order.
    pub written: Ghost<Seq<u8>>,
}

impl SendBuffer {
    pub open spec fn wf(&self) -> bool {
        &&& self.written@.len() == self.sent + self.pending@.len()
        &&& self.written@.len() <= u64::MAX
        &&& self.pending@ == self.written@.subrange(self.sent as int, self.written@.len() as int)
        &&& self.fin_sent ==> self.finishing && self.pending@.len() == 0
    }

    /// Size of the chunk that `next_chunk(max)` hands out.
    pub open spec fn chunk_len(&self, max: u64) -> int {
        crate::flow::min(max as int, self.pending@.len() as int)
    }

    pub fn new() -> (r: SendBuffer)
        ensures
            r.wf(),
            r.written@ == Seq::<u8>::empty(),
            r.sent == 0,
            !r.finishing,
            !r.fin_sent,
    {
        let r = SendBuffer {
            pending: Vec::new(),
            sent: 0,
            finishing: false,
            fin_sent: false,
            written: Ghost(Seq::empty()),
        };
        assert(r.pending@ =~= r.written@.subrange(0, 0));
        r
    }

    pub fn pending_len(&self) -> (r: usize)
        ensures
            r == self.pending@.len(),
    {
        self.pending.len()
    }

    /// Appends `bytes` after everything written so far; fails once finished.
    pub fn write(&mut self, bytes: &[u8]) -> (r: Result<(), TransportError>)
        requires
            old(self).wf(),
            old(self).written@.len() + bytes@.len() <= u64::MAX,
        ensures
            final(self).wf(),
            !old(self).finishing ==> r is Ok && final(self).written@ == old(self).written@ + bytes@
                && final(self).sent == old(self).sent && final(self).finishing == old(self).finishing
                && final(self).fin_sent == old(self).fin_sent,
            old(self).finishing ==> r == Err::<(), TransportError>(TransportError::StreamFinished)
                && *final(self) == *old(self),
    {
        if self.finishing {
            return Err(TransportError::StreamFinished);
        }
        let mut i: usize = 0;
        let ghost start = self.written@;
        let ghost pend = self.pending@;
        while i < bytes.len()
            invariant
                i <= bytes@.len(),
                self.pending@ == pend + bytes@.subrange(0, i as int),
                self.sent == old(self).sent,
                self.finishing == old(self).finishing,
                self.fin_sent == old(self).fin_sent,
                self.written@ == start,
            decreases bytes@.len() - i,
        {
            self.pending.push(bytes[i]);
            i = i + 1;
        }
        self.written = Ghost(start + bytes@);
        assert(self.pending@ =~= self.written@.subrange(self.sent as int, self.written@.len() as int));
        Ok(())
    }

    /// Marks the stream finished; a second call changes nothing.
    pub fn finish(&mut self)
        requires
            old(self).wf(),
        ensures
            final(self).wf(),
            final(self).finishing,
            final(self).written@ == old(self).written@,
            final(self).sent == old(self).sent,
            final(self).pending@ == old(self).pending@,
            final(self).fin_sent == old(self).fin_sent,
    {
        self.finishing = true;
    }

    /// Takes the next `min(max, pending)` bytes; returns their offset and them.
    pub fn next_chunk(&mut self, max: u64) -> (r: (u64, Vec<u8>))
        requires
            old(self).wf(),
        ensures
            final(self).wf(),
            r.0 == old(self).sent,
            r.1@.len() == old(self).chunk_len(max),
            r.1@ == old(self).written@.subrange(old(self).sent as int, old(self).sent + r.1@.len()),
            final(self).sent == old(self).sent + r.1@.len(),
            final(self).written@ == old(self).written@,
            final(self).finishing == old(self).finishing,
            final(self).fin_sent == old(self).fin_sent,
    {
        let len = self.pending.len();
        let n: usize = if (max as u128) < (len as u128) { max as usize } else { len };
        let head = copy_range(&self.pending, 0, n);
        let tail = copy_range(&self.pending, n, len);
        let offset = self.sent;
        self.pending = tail;
        self.sent = self.sent + n as u64;
        assert(self.pending@ =~= self.written@.subrange(self.sent as int, self.written@.len() as int));
        assert(head@ =~= old(self).written@.subrange(offset as int, offset + n));
        (offset, head)
    }

    /// Whether the finish is due: finished, everything sent, finish not yet sent.
    pub open spec fn fin_due(&self) -> bool {
        self.finishing && !self.fin_sent && self.pending@.len() == 0
    }

    /// Hands out the finish once every byte before it went out; returns the
    /// stream's final size.
    pub fn take_fin(&mut self) -> (r: Option<u64>)
        requires
            old(self).wf(),
        ensures
            final(self).wf(),
            old(self).fin_due() ==> r == Some(old(self).sent) && final(self).fin_sent,
            !old(self).fin_due() ==> r is None && final(self).fin_sent == old(self).fin_sent,
            final(self).written@ == old(self).written@,
            final(self).sent == old(self).sent,
            final(self).pending@ == old(self).pending@,
            final(self).finishing == old(self).finishing,
    {
        if self.finishing && !self.fin_sent && self.pending.len() == 0 {
            self.fin_sent = true;
            Some(self.sent)
        } else {
            None
        }
    }
}

/// What a read on a stream gives.
#[derive(Debug, PartialEq, Eq)]
pub enum ReadOutcome {
    /// The next bytes of the stream, never empty.
    Data(Vec<u8>),
    /// Nothing buffered and the peer has not finished: wait.
    Pending,
    /// The peer finished and every byte was read.
    End,
}

/// Bytes that arrived on a stream and were not yet read.
pub struct RecvBuffer {
    pub buffered: Vec<u8>,
    /// Bytes received so far: the offset the next data must carry.
    pub received: u64,
    /// The size the peer's finish fixed.
    pub final_size: Option<u64>,
    /// Every byte received, in stream order.
    pub delivered: Ghost<Seq<u8>>,
    /// Every byte read by the application, in stream order.
    pub taken: Ghost<Seq<u8>>,
}

impl RecvBuffer {
    pub open spec fn wf(&self) -> bool {
        &&& self.delivered@.len() == self.received
        &&& self.taken@ + self.buffered@ == self.delivered@
        &&& self.final_size matches Some(f) ==> f == self.received
    }

    pub open spec fn finished(&self) -> bool {
        self.final_size is Some
    }

    pub fn new() -> (r: RecvBuffer)
        ensures
            r.wf(),
            r.delivered@ == Seq::<u8>::empty(),
            r.taken@ == Seq::<u8>::empty(),
            !r.finished(),
    {
        RecvBuffer {
            buffered: Vec::new(),
            received: 0,
            final_size: None,
            delivered: Ghost(Seq::empty()),
            taken: Ghost(Seq::empty()),
        }
    }

    pub fn buffered_len(&self) -> (r: usize)
        ensures
            r == self.buffered@.len(),
    {
        self.buffered.len()
    }

    /// Accepts `data` at `offset`: after a finish it is a violation, and so is
    /// any offset but the next expected one.
    pub fn on_data(&mut self, offset: u64, data: &Vec<u8>) -> (r: Result<(), TransportError>)
        requires
            old(self).wf(),
        ensures
            final(self).wf(),
            final(self).taken@ == old(self).taken@,
            final(self).final_size == old(self).final_size,
            r is Ok <==> !old(self).finished() && offset == old(self).received
                && old(self).received + data@.len() <= u64::MAX,
            r is Ok ==> final(self).delivered@ == old(self).delivered@ + data@,
            r is Err ==> *final(self) == *old(self),
            old(self).finished() ==> r == Err::<(), TransportError>(
                TransportError::ProtocolViolation { detail: Violation::DataAfterFinish },
            ),
            !old(self).finished() && offset != old(self).received ==> r == Err::<(), TransportError>(
                TransportError::ProtocolViolation { detail: Violation::OffsetMismatch },
            ),
    {
        if self.final_size.is_some() {
            return Err(TransportError::ProtocolViolation { detail: Violation::DataAfterFinish });
        }
        if offset != self.received {
            return Err(TransportError::ProtocolViolation { detail: Violation::OffsetMismatch });
        }
        if data.len() as u128 > (u64::MAX - self.received) as u128 {
            return Err(TransportError::ProtocolViolation { detail: Violation::WindowOverflow });
        }
        let ghost buf0 = self.buffered@;
        let mut i: usize = 0;
        while i < data.len()
            invariant
                i <= data@.len(),
                self.buffered@ == buf0 + data@.subrange(0, i as int),
                self.received == old(self).received,
                self.final_size == old(self).final_size,
                self.delivered == old(self).delivered,
                self.taken == old(self).taken,
            decreases data@.len() - i,
        {
            self.buffered.push(data[i]);
            i = i + 1;
        }
        self.received = self.received + data.len() as u64;
        self.delivered = Ghost(self.delivered@ + data@);
        assert(self.taken@ + self.buffered@ =~= self.delivered@);
        Ok(())
    }

    /// Accepts the peer's finish, which must come once and name the number
    /// of bytes received.
    pub fn on_finish(&mut self, final_size: u64) -> (r: Result<(), TransportError>)
        requires
            old(self).wf(),
        ensures
            final(self).wf(),
            final(self).delivered@ == old(self).delivered@,
            final(self).taken@ == old(self).taken@,
            final(self).buffered@ == old(self).buffered@,
            old(self).finished() ==> r == Err::<(), TransportError>(
                TransportError::ProtocolViolation { detail: Violation::DataAfterFinish },
            ) && *final(self) == *old(self),
            !old(self).finished() && final_size != old(self).received ==> r == Err::<(), TransportError>(
                TransportError::ProtocolViolation { detail: Violation::OffsetMismatch },
            ) && *final(self) == *old(self),
            !old(self).finished() && final_size == old(self).received ==> r is Ok
                && final(self).final_size == Some(final_size),
    {
        if self.final_size.is_some() {
            return Err(TransportError::ProtocolViolation { detail: Violation::DataAfterFinish });
        }
        if final_size != self.received {
            return Err(TransportError::ProtocolViolation { detail: Violation::OffsetMismatch });
        }
        self.final_size = Some(final_size);
        Ok(())
    }

    /// Gives up to `max` buffered bytes in stream order, or says why none.
    pub fn read(&mut self, max: usize) -> (r: ReadOutcome)
        requires
            old(self).wf(),
            max > 0,
        ensures
            final(self).wf(),
            final(self).delivered@ == old(self).delivered@,
            final(self).final_size == old(self).final_size,
            final(self).received == old(self).received,
            old(self).buffered@.len() > 0 ==> (r matches ReadOutcome::Data(d) && d@ == old(
                self,
            ).buffered@.take(crate::flow::min(max as int, old(self).buffered@.len() as int))
                && final(self).taken@ == old(self).taken@ + d@),
            old(self).buffered@.len() == 0 && old(self).finished() ==> r == ReadOutcome::End
                && *final(self) == *old(self),
            old(self).buffered@.len() == 0 && !old(self).finished() ==> r == ReadOutcome::Pending
                && *final(self) == *old(self),
    {
        let len = self.buffered.len();
        if len == 0 {
            if self.final_size.is_some() {
                return ReadOutcome::End;
            }
            return ReadOutcome::Pending;
        }
        let n: usize = if max < len { max } else { len };
        let head = copy_range(&self.buffered, 0, n);
        let tail = copy_range(&self.buffered, n, len);
        self.buffered = tail;
        self.taken = Ghost(self.taken@ + head@);
        assert(head@ =~= old(self).buffered@.take(n as int));
        assert(self.taken@ + self.buffered@ =~= self.delivered@) by {
            assert(old(self).buffered@ =~= head@ + tail@);
        }
        ReadOutcome::Data(head)
    }
}

/// Relaying the sender's next chunk to a receiver holding exactly what was
/// sent keeps the receiver equal to the sent prefix of the written bytes.
pub proof fn lemma_relay_in_order(written: Seq<u8>, sent: nat, delivered: Seq<u8>, chunk: Seq<u8>)
    requires
        sent + chunk.len() <= written.len(),
        delivered == written.take(sent as int),
        chunk == written.subrange(sent as int, (sent + chunk.len()) as int),
    ensures
        delivered + chunk == written.take((sent + chunk.len()) as int),
{
    assert(delivered + chunk =~= written.take((sent + chunk.len()) as int));
}

/// Once all written bytes arrived and the buffer is drained, the reader has
/// seen exactly the written bytes, in order.
pub proof fn lemma_drain_yields_written(r: RecvBuffer, written: Seq<u8>)
    requires
        r.wf(),
        r.delivered@ == written,
        r.buffered@.len() == 0,
    ensures
        r.taken@ == written,
{
    assert(r.taken@ =~= r.taken@ + r.buffered@);
}

/// The chunks of a stream, one after another.
pub open spec fn concat(chunks: Seq<Seq<u8>>) -> Seq<u8>
    decreases chunks.len(),
{
    if chunks.len() == 0 {
        Seq::empty()
    } else {
        concat(chunks.drop_last()) + chunks.last()
    }
}

/// Data leaves a stream in the order written: if every chunk sent holds the
/// written bytes at its offset, and each offset is the total length of the
/// chunks before it, then all chunks together are exactly the written bytes
/// up to the end of the last one, with nothing lost, repeated or reordered.
pub proof fn lemma_chunks_concatenate(written: Seq<u8>, chunks: Seq<Seq<u8>>)
    requires
        concat(chunks).len() <= written.len(),
        forall|k: int|
            0 <= k < chunks.len() ==> #[trigger] chunks[k] == written.subrange(
                concat(chunks.take(k)).len() as int,
                (concat(chunks.take(k)).len() + chunks[k].len()) as int,
            ),
    ensures
        concat(chunks) == written.take(concat(chunks).len() as int),
    decreases chunks.len(),
{
    if chunks.len() > 0 {
        let dl = chunks.drop_last();
        let m = chunks.len() - 1;
        assert(chunks.take(m) =~= dl);
        assert forall|k: int| 0 <= k < dl.len() implies #[trigger] dl[k] == written.subrange(
            concat(dl.take(k)).len() as int,
            (concat(dl.take(k)).len() + dl[k].len()) as int,
        ) by {
            assert(dl.take(k) =~= chunks.take(k));
            assert(dl[k] == chunks[k]);
        }
        lemma_chunks_concatenate(written, dl);
        assert(chunks[m] == chunks.last());
        lemma_relay_in_order(written, concat(dl).len(), concat(dl), chunks.last());
    }
}

} // verus!
