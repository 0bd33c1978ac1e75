use vstd::prelude::*;

use crate::error::{TransportError, Violation};
use crate::flow::{min, FlowWindow};
use crate::frame::Frame;
use crate::schedule::{next_pick, pick};
use crate::stream::{
    lemma_relay_in_order, after_local_finish, after_remote_finish, after_reset, local_finish, remote_finish,
    reset_state, ReadOutcome, RecvBuffer, SendBuffer, StreamState,
};

verus! {

/// Close code used when the peer broke the protocol.
pub const VIOLATION_CODE: u64 = 1;

/// What an incoming frame finds of its stream: the registered stream's
/// state, or that of the fresh stream it opens.
pub struct Peek {
    pub reset_reason: Option<u64>,
    pub finished: bool,
    pub received: u64,
    pub recv_window: FlowWindow,
    pub delivered: Seq<u8>,
    pub taken: Seq<u8>,
    pub send_window: FlowWindow,
    pub state: StreamState,
}

/// Which end of the connection this is; it fixes the ids this end allocates.
#[derive(Clone, Copy, Debug, PartialEq, Eq, Structural)]
pub enum Side {
    Client,
    Server,
}

/// The low bit of the ids that `side` allocates.
pub open spec fn side_bit(side: Side) -> u64 {
    match side {
        Side::Client => 0,
        Side::Server => 1,
    }
}

/// Id of the `index`-th bidirectional stream opened by `side`: client ids
/// are `0, 4, 8, ...`, server ids `1, 5, 9, ...`.
pub open spec fn stream_id_of(side: Side, index: u64) -> int {
    4 * index + side_bit(side)
}

/// Window sizes that one end grants to its peer, and the largest data frame
/// it sends.
#[derive(Clone, Copy, Debug, PartialEq, Eq, Structural)]
pub struct TransportConfig {
    pub stream_receive_window: u64,
    pub receive_window: u64,
    pub max_chunk: u64,
}

/// One stream of a connection, with its buffers and its two windows.
pub struct Stream {
    pub id: u64,
    pub state: StreamState,
    pub send: SendBuffer,
    pub recv: RecvBuffer,
    pub send_window: FlowWindow,
    pub recv_window: FlowWindow,
    pub reset_reason: Option<u64>,
}

impl Stream {
    pub open spec fn wf(&self) -> bool {
        &&& self.send.wf()
        &&& self.recv.wf()
        &&& self.send_window.wf()
        &&& self.recv_window.wf()
        &&& self.send_window.consumed == self.send.sent
        &&& self.recv_window.consumed == self.recv.received
        &&& (self.state == StreamState::Reset <==> self.reset_reason is Some)
        &&& self.recv_window.granted == self.recv_window.capacity + self.recv.taken@.len()
        &&& self.recv_window.capacity + self.recv.received <= u64::MAX
        &&& (self.state == StreamState::HalfClosedRemote || self.state == StreamState::Closed)
            ==> self.recv.finished()
        &&& (self.state == StreamState::HalfClosedLocal || self.state == StreamState::Closed)
            ==> self.send.finishing
    }

    /// A fresh open stream whose windows start at the given sizes.
    pub open spec fn fresh(&self, id: u64, send_cap: u64, recv_cap: u64) -> bool {
        &&& self.id == id
        &&& self.state == StreamState::Open
        &&& self.send.written@ == Seq::<u8>::empty() && self.send.sent == 0
        &&& !self.send.finishing && !self.send.fin_sent
        &&& self.recv.delivered@ == Seq::<u8>::empty() && self.recv.taken@ == Seq::<u8>::empty()
        &&& !self.recv.finished()
        &&& self.send_window == FlowWindow::new_spec(send_cap)
        &&& self.recv_window == FlowWindow::new_spec(recv_cap)
        &&& self.reset_reason is None
    }

    fn new(id: u64, send_cap: u64, recv_cap: u64) -> (r: Stream)
        ensures
            r.wf(),
            r.fresh(id, send_cap, recv_cap),
    {
        Stream {
            id,
            state: StreamState::Open,
            send: SendBuffer::new(),
            recv: RecvBuffer::new(),
            send_window: FlowWindow::new(send_cap),
            recv_window: FlowWindow::new(recv_cap),
            reset_reason: None,
        }
    }
}

/// Bytes sent over all streams in `s`.
pub open spec fn sent_total(s: Seq<Stream>) -> int
    decreases s.len(),
{
    if s.len() == 0 {
        0
    } else {
        sent_total(s.drop_last()) + s.last().send.sent
    }
}

/// Bytes received over all streams in `s`.
pub open spec fn received_total(s: Seq<Stream>) -> int
    decreases s.len(),
{
    if s.len() == 0 {
        0
    } else {
        received_total(s.drop_last()) + s.last().recv.received
    }
}

/// Bytes read by the application over all streams in `s`.
pub open spec fn taken_total(s: Seq<Stream>) -> int
    decreases s.len(),
{
    if s.len() == 0 {
        0
    } else {
        taken_total(s.drop_last()) + s.last().recv.taken@.len()
    }
}

/// Bytes received and not yet read on stream `i` are part of those over
/// all streams.
proof fn lemma_backlog(a: Seq<Stream>, i: int)
    requires
        0 <= i < a.len(),
        forall|j: int| 0 <= j < a.len() ==> (#[trigger] a[j]).recv.taken@.len() <= a[j].recv.received,
    ensures
        received_total(a) - taken_total(a) >= a[i].recv.received - a[i].recv.taken@.len(),
    decreases a.len(),
{
    let b = a.drop_last();
    if i < a.len() - 1 {
        assert forall|j: int| 0 <= j < b.len() implies (#[trigger] b[j]).recv.taken@.len()
            <= b[j].recv.received by {
            assert(b[j] == a[j]);
        }
        lemma_backlog(b, i);
        assert(a.last() == a[a.len() - 1]);
    } else {
        lemma_backlog_all(b);
    }
}

proof fn lemma_backlog_all(a: Seq<Stream>)
    requires
        forall|j: int| 0 <= j < a.len() ==> (#[trigger] a[j]).recv.taken@.len() <= a[j].recv.received,
    ensures
        received_total(a) >= taken_total(a),
    decreases a.len(),
{
    if a.len() > 0 {
        let b = a.drop_last();
        assert forall|j: int| 0 <= j < b.len() implies (#[trigger] b[j]).recv.taken@.len()
            <= b[j].recv.received by {
            assert(b[j] == a[j]);
        }
        lemma_backlog_all(b);
        assert(a.last() == a[a.len() - 1]);
    }
}

/// Changing one stream changes the totals by what it changed.
proof fn lemma_totals_update(a: Seq<Stream>, b: Seq<Stream>, i: int)
    requires
        a.len() == b.len(),
        0 <= i < a.len(),
        forall|j: int| 0 <= j < a.len() && j != i ==> a[j] == b[j],
    ensures
        sent_total(b) - sent_total(a) == b[i].send.sent - a[i].send.sent,
        received_total(b) - received_total(a) == b[i].recv.received - a[i].recv.received,
        taken_total(b) - taken_total(a) == b[i].recv.taken@.len() - a[i].recv.taken@.len(),
    decreases a.len(),
{
    if i == a.len() - 1 {
        assert(a.drop_last() =~= b.drop_last());
    } else {
        lemma_totals_update(a.drop_last(), b.drop_last(), i);
    }
}

/// Appending a stream adds what it sent and received to the totals.
proof fn lemma_totals_push(a: Seq<Stream>, x: Stream)
    ensures
        sent_total(a.push(x)) == sent_total(a) + x.send.sent,
        received_total(a.push(x)) == received_total(a) + x.recv.received,
        taken_total(a.push(x)) == taken_total(a) + x.recv.taken@.len(),
{
    assert(a.push(x).drop_last() =~= a);
}

/// One end of a connection: the stream registry, the connection-level
/// windows, the frames waiting to go out, and whether it was closed.
pub struct Connection {
    pub side: Side,
    pub local: TransportConfig,
    pub peer: TransportConfig,
    pub streams: Vec<Stream>,
    /// Index of the next stream this end opens.
    pub next_local: u64,
    /// Ids of peer-opened streams, in the order their first frame arrived.
    pub arrivals: Vec<u64>,
    /// How many of `arrivals` were handed out by `accept_stream`.
    pub accepted: usize,
    pub send_window: FlowWindow,
    pub recv_window: FlowWindow,
    /// Where the next round-robin scan starts.
    pub cursor: usize,
    /// Control frames waiting to go out.
    pub control: Vec<Frame>,
    /// The reason the connection was closed with, once it is.
    pub closed: Option<u64>,
}

impl Connection {
    pub open spec fn wf(&self) -> bool {
        &&& forall|j: int| 0 <= j < self.streams@.len() ==> (#[trigger] self.streams@[j]).wf()
        &&& forall|j: int, k: int|
            0 <= j < self.streams@.len() && 0 <= k < self.streams@.len() && j != k
                ==> (#[trigger] self.streams@[j]).id != (#[trigger] self.streams@[k]).id
        &&& forall|j: int|
            0 <= j < self.streams@.len() && (#[trigger] self.streams@[j]).id % 4 == side_bit(
                self.side,
            ) ==> self.streams@[j].id / 4 < self.next_local
        &&& self.send_window.wf()
        &&& self.recv_window.wf()
        &&& self.send_window.consumed == sent_total(self.streams@)
        &&& self.recv_window.consumed == received_total(self.streams@)
        &&& self.recv_window.granted == self.recv_window.capacity + taken_total(self.streams@)
        &&& self.recv_window.capacity + self.recv_window.consumed <= u64::MAX
        &&& self.arrivals_wf()
        &&& self.accepted <= self.arrivals@.len()
        &&& self.cursor <= self.streams@.len()
        &&& self.local.max_chunk > 0
    }

    /// Arrivals are distinct ids of registered streams that the peer opened.
    pub open spec fn arrivals_wf(&self) -> bool {
        &&& forall|a: int| 0 <= a < self.arrivals@.len() ==> self.peer_may_open(
            #[trigger] self.arrivals@[a],
        ) && exists|j: int| 0 <= j < self.streams@.len() && self.streams@[j].id == self.arrivals@[a]
        &&& forall|a: int, b: int|
            0 <= a < self.arrivals@.len() && 0 <= b < self.arrivals@.len() && a != b
                ==> #[trigger] self.arrivals@[a] != #[trigger] self.arrivals@[b]
    }

    /// Same side and configuration as `other`.
    pub open spec fn same_setup(&self, other: Connection) -> bool {
        &&& self.side == other.side
        &&& self.local == other.local
        &&& self.peer == other.peer
    }

    /// Same record of opened and accepted streams as `other`.
    pub open spec fn same_books(&self, other: Connection) -> bool {
        &&& self.arrivals == other.arrivals
        &&& self.accepted == other.accepted
        &&& self.next_local == other.next_local
    }

    /// Index of the stream with id `id`, if it is registered.
    pub open spec fn index_of(&self, id: u64) -> Option<int> {
        if exists|j: int| 0 <= j < self.streams@.len() && self.streams@[j].id == id {
            Some(choose|j: int| 0 <= j < self.streams@.len() && self.streams@[j].id == id)
        } else {
            None
        }
    }

    /// A connection on `side` with no streams; its send windows are the
    /// peer's receive windows and its receive windows its own.
    pub fn new(side: Side, local: TransportConfig, peer: TransportConfig) -> (r: Connection)
        requires
            local.max_chunk > 0,
        ensures
            r.wf(),
            r.side == side,
            r.local == local,
            r.peer == peer,
            r.streams@.len() == 0,
            r.next_local == 0,
            r.arrivals@.len() == 0,
            r.control@.len() == 0,
            r.cursor == 0,
            r.accepted == 0,
            (r.closed is None),
            r.send_window == FlowWindow::new_spec(peer.receive_window),
            r.recv_window == FlowWindow::new_spec(local.receive_window),
    {
        let streams: Vec<Stream> = Vec::new();
        assert(sent_total(streams@) == 0 && received_total(streams@) == 0);
        Connection {
            side,
            local,
            peer,
            streams,
            next_local: 0,
            arrivals: Vec::new(),
            accepted: 0,
            send_window: FlowWindow::new(peer.receive_window),
            recv_window: FlowWindow::new(local.receive_window),
            cursor: 0,
            control: Vec::new(),
            closed: None,
        }
    }

    /// Looks up the registry position of stream `id`.
    pub fn find(&self, id: u64) -> (r: Option<usize>)
        ensures
            match r {
                Some(i) => i < self.streams@.len() && self.streams@[i as int].id == id,
                None => forall|j: int| 0 <= j < self.streams@.len() ==> self.streams@[j].id != id,
            },
    {
        let mut i: usize = 0;
        while i < self.streams.len()
            invariant
                i <= self.streams@.len(),
                forall|j: int| 0 <= j < i ==> self.streams@[j].id != id,
            decreases self.streams@.len() - i,
        {
            if self.streams[i].id == id {
                return Some(i);
            }
            i = i + 1;
        }
        None
    }

    /// Opens the next bidirectional stream of this end and returns its id.
    pub fn open_stream(&mut self) -> (r: Result<u64, TransportError>)
        requires
            old(self).wf(),
            old(self).next_local < 0x3fff_ffff_ffff_ffff,
        ensures
            final(self).wf(),
            final(self).same_setup(*old(self)),
            final(self).control == old(self).control,
            final(self).cursor == old(self).cursor,
            final(self).accepted == old(self).accepted,
            old(self).closed is Some ==> r == Err::<u64, TransportError>(
                TransportError::ConnectionClosed { reason: old(self).closed->0 },
            ) && *final(self) == *old(self),
            old(self).closed is None ==> ({
                &&& r == Ok::<u64, TransportError>(
                    stream_id_of(old(self).side, old(self).next_local) as u64,
                )
                &&& final(self).streams@.len() == old(self).streams@.len() + 1
                &&& final(self).streams@.take(old(self).streams@.len() as int)
                    == old(self).streams@
                &&& final(self).streams@.last().fresh(
                    stream_id_of(old(self).side, old(self).next_local) as u64,
                    old(self).peer.stream_receive_window,
                    old(self).local.stream_receive_window,
                )
                &&& final(self).next_local == old(self).next_local + 1
                &&& final(self).arrivals == old(self).arrivals
                &&& final(self).send_window == old(self).send_window
                &&& final(self).recv_window == old(self).recv_window
                &&& final(self).closed is None
            }),
    {
        if let Some(reason) = self.closed {
            return Err(TransportError::ConnectionClosed { reason });
        }
        let bit: u64 = match self.side {
            Side::Client => 0,
            Side::Server => 1,
        };
        let id = 4 * self.next_local + bit;
        let s = Stream::new(id, self.peer.stream_receive_window, self.local.stream_receive_window);
        let ghost before = self.streams@;
        self.streams.push(s);
        self.next_local = self.next_local + 1;
        proof {
            lemma_totals_push(before, self.streams@.last());
            assert(self.streams@ =~= before.push(self.streams@.last()));
        }
        assert(self.streams@.take(before.len() as int) =~= before);
        assert forall|j: int|
            0 <= j < self.streams@.len() && (#[trigger] self.streams@[j]).id % 4 == side_bit(
                self.side,
            ) implies self.streams@[j].id / 4 < self.next_local by {
            if j < before.len() {
                assert(self.streams@[j] == before[j]);
            }
        }
        assert forall|j: int, k: int|
            0 <= j < self.streams@.len() && 0 <= k < self.streams@.len() && j != k
                implies (#[trigger] self.streams@[j]).id != (#[trigger] self.streams@[k]).id by {
            if j < before.len() && k < before.len() {
                assert(self.streams@[j] == before[j]);
                assert(self.streams@[k] == before[k]);
            } else if j < before.len() {
                assert(self.streams@[j] == before[j]);
                assert(before[j].id % 4 == bit ==> before[j].id / 4 < old(self).next_local);
            } else {
                assert(self.streams@[k] == before[k]);
                assert(before[k].id % 4 == bit ==> before[k].id / 4 < old(self).next_local);
            }
        }
        Ok(id)
    }

    /// The error a call naming stream `id` gets before any work: the
    /// connection is closed, no such stream, or the stream was reset.
    pub open spec fn gate(&self, id: u64) -> Option<TransportError> {
        if self.closed is Some {
            Some(TransportError::ConnectionClosed { reason: self.closed->0 })
        } else {
            match self.index_of(id) {
                None => Some(TransportError::NoSuchStream),
                Some(i) => match self.streams@[i].reset_reason {
                    Some(reason) => Some(TransportError::StreamReset { reason }),
                    None => None,
                },
            }
        }
    }

    /// Looks up stream `id` and returns its position, or the error `gate` names.
    fn lookup(&self, id: u64) -> (r: Result<usize, TransportError>)
        requires
            self.wf(),
        ensures
            match self.gate(id) {
                Some(e) => r == Err::<usize, TransportError>(e),
                None => r matches Ok(i) && self.index_of(id) == Some(i as int),
            },
    {
        if let Some(reason) = self.closed {
            return Err(TransportError::ConnectionClosed { reason });
        }
        match self.find(id) {
            None => Err(TransportError::NoSuchStream),
            Some(i) => {
                assert(self.index_of(id) == Some(i as int));
                match self.streams[i].reset_reason {
                    Some(reason) => Err(TransportError::StreamReset { reason }),
                    None => Ok(i),
                }
            },
        }
    }

    /// Appends `bytes` to the send buffer of stream `id`.
    pub fn write(&mut self, id: u64, bytes: &[u8]) -> (r: Result<(), TransportError>)
        requires
            old(self).wf(),
            forall|j: int|
                0 <= j < old(self).streams@.len() && old(self).streams@[j].id == id
                    ==> old(self).streams@[j].send.written@.len() + bytes@.len() <= u64::MAX,
        ensures
            final(self).wf(),
            final(self).same_setup(*old(self)),
            final(self).same_books(*old(self)),
            final(self).control == old(self).control,
            final(self).cursor == old(self).cursor,
            final(self).accepted == old(self).accepted,
            old(self).gate(id) matches Some(e) ==> r == Err::<(), TransportError>(e)
                && *final(self) == *old(self),
            old(self).gate(id) is None ==> ({
                let i = old(self).index_of(id)->0;
                let s = old(self).streams@[i];
                let t = final(self).streams@[i];
                &&& final(self).streams@.len() == old(self).streams@.len()
                &&& forall|j: int| 0 <= j < old(self).streams@.len() && j != i
                    ==> final(self).streams@[j] == old(self).streams@[j]
                &&& s.send.finishing ==> r == Err::<(), TransportError>(
                    TransportError::StreamFinished,
                ) && t == s
                &&& !s.send.finishing ==> r is Ok && t.send.written@ == s.send.written@ + bytes@
                    && t.send.sent == s.send.sent && t.state == s.state && t.id == s.id
                    && t.send_window == s.send_window && t.recv_window == s.recv_window
                    && t.recv == s.recv && t.send.finishing == s.send.finishing
                    && t.reset_reason == s.reset_reason
                &&& final(self).side == old(self).side
                &&& final(self).next_local == old(self).next_local
                &&& final(self).send_window == old(self).send_window
                &&& final(self).recv_window == old(self).recv_window
                &&& final(self).closed == old(self).closed
            }),
    {
        let i = match self.lookup(id) {
            Ok(i) => i,
            Err(e) => return Err(e),
        };
        let r = self.streams[i].send.write(bytes);
        proof {
            self.lemma_same_ids(*old(self), i as int);
        }
        r
    }

    /// Replacing stream `i` by one of the same id, well formed, keeps `wf`.
    proof fn lemma_same_ids(&self, prev: Connection, i: int)
        requires
            prev.wf(),
            0 <= i < prev.streams@.len(),
            self.streams@.len() == prev.streams@.len(),
            forall|j: int| 0 <= j < prev.streams@.len() && j != i ==> self.streams@[j]
                == prev.streams@[j],
            self.streams@[i].id == prev.streams@[i].id,
            self.streams@[i].wf(),
            self.side == prev.side,
            self.next_local == prev.next_local,
            self.send_window.wf(),
            self.recv_window.wf(),
            self.send_window.consumed - prev.send_window.consumed == self.streams@[i].send.sent
                - prev.streams@[i].send.sent,
            self.recv_window.consumed - prev.recv_window.consumed == self.streams@[i].recv.received
                - prev.streams@[i].recv.received,
            self.recv_window.granted - prev.recv_window.granted == self.streams@[i].recv.taken@.len()
                - prev.streams@[i].recv.taken@.len(),
            self.recv_window.capacity == prev.recv_window.capacity,
            self.recv_window.capacity + self.recv_window.consumed <= u64::MAX,
            self.arrivals == prev.arrivals,
            self.accepted <= self.arrivals@.len(),
            self.cursor <= self.streams@.len(),
            self.local.max_chunk > 0,
        ensures
            self.wf(),
    {
        lemma_totals_update(prev.streams@, self.streams@, i);
        assert forall|a: int| 0 <= a < self.arrivals@.len() implies self.peer_may_open(
            #[trigger] self.arrivals@[a],
        ) && exists|j: int| 0 <= j < self.streams@.len() && self.streams@[j].id == self.arrivals@[a] by {
            assert(prev.peer_may_open(prev.arrivals@[a]));
            let j = choose|j: int| 0 <= j < prev.streams@.len() && prev.streams@[j].id == prev.arrivals@[a];
            assert(self.streams@[j].id == prev.streams@[j].id);
        }
        assert forall|j: int| 0 <= j < self.streams@.len() implies (#[trigger] self.streams@[j]).wf() by {
            if j != i {
                assert(self.streams@[j] == prev.streams@[j]);
            }
        }
        assert forall|j: int, k: int|
            0 <= j < self.streams@.len() && 0 <= k < self.streams@.len() && j != k
                implies (#[trigger] self.streams@[j]).id != (#[trigger] self.streams@[k]).id by {
            assert(prev.streams@[j].id != prev.streams@[k].id);
        }
        assert forall|j: int|
            0 <= j < self.streams@.len() && (#[trigger] self.streams@[j]).id % 4 == side_bit(
                self.side,
            ) implies self.streams@[j].id / 4 < self.next_local by {
            assert(prev.streams@[j].id == self.streams@[j].id);
        }
    }

    /// Whether stream `s` has something that may go out now: its finish, or
    /// data with credit left on both the stream and the connection.
    pub open spec fn sendable(&self, s: Stream) -> bool {
        &&& s.state != StreamState::Reset
        &&& s.send.fin_due() || (s.send.pending@.len() > 0 && s.send_window.budget() > 0
            && self.send_window.budget() > 0)
    }

    /// For each registered stream, whether it is `sendable`.
    pub open spec fn eligibility(&self) -> Seq<bool> {
        Seq::new(self.streams@.len(), |k: int| self.sendable(self.streams@[k]))
    }

    /// Size of the next data frame of stream `s`.
    pub open spec fn data_len(&self, s: Stream) -> int {
        min(
            min(self.local.max_chunk as int, s.send_window.budget()),
            min(self.send_window.budget(), s.send.pending@.len() as int),
        )
    }

    /// Marks stream `id` finished; finishing again changes nothing.
    pub fn finish(&mut self, id: u64) -> (r: Result<(), TransportError>)
        requires
            old(self).wf(),
        ensures
            final(self).wf(),
            final(self).same_setup(*old(self)),
            final(self).same_books(*old(self)),
            final(self).control == old(self).control,
            final(self).cursor == old(self).cursor,
            final(self).accepted == old(self).accepted,
            old(self).gate(id) matches Some(e) ==> r == Err::<(), TransportError>(e)
                && *final(self) == *old(self),
            old(self).gate(id) is None ==> ({
                let i = old(self).index_of(id)->0;
                let s = old(self).streams@[i];
                let t = final(self).streams@[i];
                &&& r is Ok
                &&& final(self).streams@.len() == old(self).streams@.len()
                &&& forall|j: int| 0 <= j < old(self).streams@.len() && j != i
                    ==> final(self).streams@[j] == old(self).streams@[j]
                &&& t.send.finishing && t.state == after_local_finish(s.state)
                &&& t.send.written@ == s.send.written@ && t.send.sent == s.send.sent
                &&& t.send.fin_sent == s.send.fin_sent && t.recv == s.recv
                &&& t.send_window == s.send_window && t.recv_window == s.recv_window
                &&& t.id == s.id && t.reset_reason == s.reset_reason
                &&& final(self).send_window == old(self).send_window
                &&& final(self).recv_window == old(self).recv_window
                &&& final(self).closed == old(self).closed
            }),
    {
        let i = match self.lookup(id) {
            Ok(i) => i,
            Err(e) => return Err(e),
        };
        self.streams[i].send.finish();
        let st = local_finish(self.streams[i].state);
        self.streams[i].state = st;
        proof {
            self.lemma_same_ids(*old(self), i as int);
        }
        Ok(())
    }

    /// Abandons stream `id` for `reason` and tells the peer; a reset or closed
    /// stream stays as it is. The stream stays registered, so later calls on
    /// it fail with `StreamReset { reason }`; what is buffered on it is
    /// abandoned: a reset stream is never `sendable` and never read.
    pub fn reset(&mut self, id: u64, reason: u64) -> (r: Result<(), TransportError>)
        requires
            old(self).wf(),
        ensures
            final(self).wf(),
            final(self).same_setup(*old(self)),
            final(self).same_books(*old(self)),
            old(self).gate(id) matches Some(e) ==> r == Err::<(), TransportError>(e)
                && *final(self) == *old(self),
            old(self).gate(id) is None ==> ({
                let i = old(self).index_of(id)->0;
                let s = old(self).streams@[i];
                let t = final(self).streams@[i];
                &&& r is Ok
                &&& final(self).streams@.len() == old(self).streams@.len()
                &&& forall|j: int| 0 <= j < old(self).streams@.len() && j != i
                    ==> final(self).streams@[j] == old(self).streams@[j]
                &&& t.state == after_reset(s.state)
                &&& t.id == s.id && t.send == s.send && t.recv == s.recv
                &&& t.send_window == s.send_window && t.recv_window == s.recv_window
                &&& final(self).cursor == old(self).cursor
                &&& s.state != StreamState::Closed ==> t.reset_reason == Some(reason)
                    && final(self).control@ == old(self).control@.push(
                    Frame::Reset { stream_id: id, reason },
                )
                &&& s.state == StreamState::Closed ==> t == s && final(self).control@ == old(
                    self,
                ).control@
                &&& final(self).send_window == old(self).send_window
                &&& final(self).recv_window == old(self).recv_window
                &&& final(self).closed == old(self).closed
            }),
    {
        let i = match self.lookup(id) {
            Ok(i) => i,
            Err(e) => return Err(e),
        };
        if self.streams[i].state == StreamState::Closed {
            return Ok(());
        }
        let st = reset_state(self.streams[i].state);
        self.streams[i].state = st;
        self.streams[i].reset_reason = Some(reason);
        self.control.push(Frame::Reset { stream_id: id, reason });
        proof {
            self.lemma_same_ids(*old(self), i as int);
        }
        Ok(())
    }

    /// Computes `eligibility` into a vector.
    fn eligible_streams(&self) -> (r: Vec<bool>)
        requires
            self.wf(),
        ensures
            r@ == self.eligibility(),
    {
        let mut r: Vec<bool> = Vec::new();
        let conn_budget = self.send_window.available();
        let mut k: usize = 0;
        while k < self.streams.len()
            invariant
                self.wf(),
                conn_budget == self.send_window.budget(),
                k <= self.streams@.len(),
                r@ == self.eligibility().take(k as int),
            decreases self.streams@.len() - k,
        {
            let s = &self.streams[k];
            assert(s.wf());
            let fin_due = s.send.finishing && !s.send.fin_sent && s.send.pending_len() == 0;
            let data = s.send.pending_len() > 0 && s.send_window.available() > 0 && conn_budget > 0;
            r.push(s.state != StreamState::Reset && (fin_due || data));
            k = k + 1;
            assert(r@ =~= self.eligibility().take(k as int));
        }
        assert(r@ =~= self.eligibility());
        r
    }

    /// What `poll_transmit` promises, from state `self` to state `after`.
    pub open spec fn transmit_outcome(&self, after: Connection, r: Option<Frame>) -> bool {
        &&& after.wf()
        &&& after.same_setup(*self)
        &&& after.same_books(*self)
        &&& self.closed is Some ==> r is None && after == *self
        &&& self.closed is None && self.control@.len() > 0 ==> r == Some(self.control@.last())
            && after.control@ == self.control@.drop_last() && after.streams == self.streams
            && after.send_window == self.send_window && after.recv_window == self.recv_window
            && after.cursor == self.cursor && after.closed == self.closed
        &&& self.closed is None && self.control@.len() == 0 ==> match next_pick(
            self.eligibility(),
            self.cursor as int,
        ) {
            None => r is None && after == *self,
            Some(p) => {
                let s = self.streams@[p];
                let t = after.streams@[p];
                &&& after.cursor == p + 1
                &&& after.control == self.control
                &&& after.recv_window == self.recv_window
                &&& after.streams@.len() == self.streams@.len()
                &&& forall|j: int| 0 <= j < self.streams@.len() && j != p
                    ==> after.streams@[j] == self.streams@[j]
                &&& s.send.fin_due() ==> r == Some(
                    Frame::Finish { stream_id: s.id, final_size: s.send.sent },
                ) && t.send.fin_sent && t.send.sent == s.send.sent
                    && after.send_window == self.send_window
                &&& !s.send.fin_due() ==> {
                    let n = self.data_len(s);
                    &&& n > 0
                    &&& r matches Some(Frame::Data { stream_id, offset, payload })
                    &&& stream_id == s.id && offset == s.send.sent
                    &&& payload@ == s.send.written@.subrange(s.send.sent as int, s.send.sent + n)
                    &&& t.send.sent == s.send.sent + n
                    &&& t.send.fin_sent == s.send.fin_sent
                    &&& t.send_window == s.send_window.taken(n as u64)
                    &&& after.send_window == self.send_window.taken(n as u64)
                }
                &&& t.send.written@ == s.send.written@
                &&& t.id == s.id && t.state == s.state && t.recv == s.recv
                &&& t.recv_window == s.recv_window && t.reset_reason == s.reset_reason
                &&& t.send.finishing == s.send.finishing
                &&& after.closed is None
            },
        }
    }

    /// The next frame for the channel: a queued control frame first; else,
    /// round-robin from the cursor, the first stream that can send gives a
    /// data frame of at most `max_chunk` bytes within both windows, or its
    /// finish once all its bytes went out. `None` when nothing can go.
    pub fn poll_transmit(&mut self) -> (r: Option<Frame>)
        requires
            old(self).wf(),
        ensures
            old(self).transmit_outcome(*final(self), r),
    {
        if self.closed.is_some() {
            return None;
        }
        if self.control.len() > 0 {
            return self.control.pop();
        }
        let elig = self.eligible_streams();
        let p = match pick(&elig, self.cursor) {
            None => return None,
            Some(p) => p,
        };
        assert(elig@.len() == self.streams@.len());
        assert(p < self.streams.len());
        assert(elig@[p as int]);
        assert(self.sendable(self.streams@[p as int]));
        assert(self.streams@[p as int].wf());
        let id = self.streams[p].id;
        let frame;
        if self.streams[p].send.finishing && !self.streams[p].send.fin_sent
            && self.streams[p].send.pending_len() == 0 {
            let _ = self.streams[p].send.take_fin();
            frame = Frame::Finish { stream_id: id, final_size: self.streams[p].send.sent };
        } else {
            let conn_budget = self.send_window.available();
            let stream_budget = self.streams[p].send_window.available();
            let mut max = self.local.max_chunk;
            if stream_budget < max {
                max = stream_budget;
            }
            if conn_budget < max {
                max = conn_budget;
            }
            let (offset, payload) = self.streams[p].send.next_chunk(max);
            let n = payload.len() as u64;
            let _ = self.streams[p].send_window.reserve(n);
            let _ = self.send_window.reserve(n);
            frame = Frame::Data { stream_id: id, offset, payload };
        }
        self.cursor = p + 1;
        proof {
            self.lemma_same_ids(*old(self), p as int);
        }
        Some(frame)
    }

    /// What an incoming frame finds of stream `s`.
    pub open spec fn peek(s: Stream) -> Peek {
        Peek {
            reset_reason: s.reset_reason,
            finished: s.recv.finished(),
            received: s.recv.received,
            recv_window: s.recv_window,
            delivered: s.recv.delivered@,
            taken: s.recv.taken@,
            send_window: s.send_window,
            state: s.state,
        }
    }

    /// Whether `id` names a bidirectional stream the peer allocates.
    pub open spec fn peer_may_open(&self, id: u64) -> bool {
        id % 4 == 1 - side_bit(self.side)
    }

    /// The stream an incoming frame on `id` reaches: a registered one, a
    /// fresh one the peer opens with it, or none (a violation).
    pub open spec fn incoming(&self, id: u64) -> Option<Peek> {
        match self.index_of(id) {
            Some(i) => Some(Self::peek(self.streams@[i])),
            None => if self.peer_may_open(id) {
                Some(
                    Peek {
                        reset_reason: None,
                        finished: false,
                        received: 0,
                        recv_window: FlowWindow::new_spec(self.local.stream_receive_window),
                        delivered: Seq::empty(),
                        taken: Seq::empty(),
                        send_window: FlowWindow::new_spec(self.peer.stream_receive_window),
                        state: StreamState::Open,
                    },
                )
            } else {
                None
            },
        }
    }

    /// The violation that data of `len` bytes at `offset` is, if any.
    pub open spec fn data_error(&self, p: Peek, offset: u64, len: int) -> Option<Violation> {
        if p.finished {
            Some(Violation::DataAfterFinish)
        } else if offset != p.received {
            Some(Violation::OffsetMismatch)
        } else if len > p.recv_window.budget() || len > self.recv_window.budget()
            || p.recv_window.capacity + p.received + len > u64::MAX
            || self.recv_window.capacity + self.recv_window.consumed + len > u64::MAX {
            Some(Violation::WindowOverflow)
        } else {
            None
        }
    }

    /// The violation that a finish at `size` is, if any.
    pub open spec fn finish_error(p: Peek, size: u64) -> Option<Violation> {
        if p.finished {
            Some(Violation::DataAfterFinish)
        } else if size != p.received {
            Some(Violation::OffsetMismatch)
        } else {
            None
        }
    }

    /// Stream `id` after an incoming frame, seen as `incoming` sees it.
    pub open spec fn peek_after(&self, id: u64) -> Peek {
        Self::peek(self.streams@[self.index_of(id)->0])
    }

    /// Streams other than `id`, and the registry positions, are as in `prev`.
    pub open spec fn others_kept(&self, prev: Connection, id: u64) -> bool {
        &&& self.streams@.len() >= prev.streams@.len()
        &&& forall|j: int| 0 <= j < prev.streams@.len() && prev.streams@[j].id != id
            ==> self.streams@[j] == prev.streams@[j]
    }

    /// Closes the connection with `reason`: every stream not yet closed is
    /// reset with it, and every later call fails with `ConnectionClosed`
    /// carrying `reason`.
    pub fn close(&mut self, reason: u64)
        requires
            old(self).wf(),
        ensures
            final(self).wf(),
            final(self).same_setup(*old(self)),
            final(self).closed == Some(reason),
            final(self).streams@.len() == old(self).streams@.len(),
            forall|j: int| 0 <= j < old(self).streams@.len() ==> {
                let s = old(self).streams@[j];
                let t = #[trigger] final(self).streams@[j];
                &&& t.state == after_reset(s.state)
                &&& t.id == s.id
                &&& t.send.written@ == s.send.written@
                &&& t.recv.delivered@ == s.recv.delivered@
            },
            final(self).arrivals == old(self).arrivals,
            final(self).side == old(self).side,
            final(self).local == old(self).local,
            final(self).peer == old(self).peer,
            final(self).accepted == old(self).accepted,
            final(self).next_local == old(self).next_local,
    {
        let mut k: usize = 0;
        while k < self.streams.len()
            invariant
                self.wf(),
                k <= self.streams@.len(),
                self.streams@.len() == old(self).streams@.len(),
                self.side == old(self).side,
                self.local == old(self).local,
                self.peer == old(self).peer,
                self.accepted == old(self).accepted,
                self.next_local == old(self).next_local,
                self.arrivals == old(self).arrivals,
                forall|j: int| k <= j < old(self).streams@.len() ==> #[trigger] self.streams@[j]
                    == old(self).streams@[j],
                forall|j: int| 0 <= j < k ==> {
                    let s = old(self).streams@[j];
                    let t = #[trigger] self.streams@[j];
                    &&& t.state == after_reset(s.state)
                    &&& t.id == s.id
                    &&& t.send.written@ == s.send.written@
                    &&& t.recv.delivered@ == s.recv.delivered@
                },
            decreases self.streams@.len() - k,
        {
            let ghost prev = *self;
            let st = self.streams[k].state;
            if st != StreamState::Closed && st != StreamState::Reset {
                self.streams[k].state = StreamState::Reset;
                self.streams[k].reset_reason = Some(reason);
            }
            proof {
                self.lemma_same_ids(prev, k as int);
            }
            k = k + 1;
        }
        self.closed = Some(reason);
    }

    /// Closes the connection for violation `v` and reports it.
    fn violate(&mut self, v: Violation) -> (r: Result<(), TransportError>)
        requires
            old(self).wf(),
        ensures
            final(self).wf(),
            final(self).same_setup(*old(self)),
            final(self).closed == Some(VIOLATION_CODE),
            final(self).accepted == old(self).accepted,
            final(self).next_local == old(self).next_local,
            r == Err::<(), TransportError>(TransportError::ProtocolViolation { detail: v }),
    {
        self.close(VIOLATION_CODE);
        Err(TransportError::ProtocolViolation { detail: v })
    }

    /// The registry position an incoming frame on `id` reaches, registering
    /// the stream when the peer opens it with this frame.
    fn target(&mut self, id: u64) -> (r: Option<usize>)
        requires
            old(self).wf(),
        ensures
            final(self).wf(),
            final(self).same_setup(*old(self)),
            final(self).others_kept(*old(self), id),
            final(self).recv_window == old(self).recv_window,
            final(self).send_window == old(self).send_window,
            final(self).closed == old(self).closed,
            final(self).side == old(self).side,
            final(self).local == old(self).local,
            old(self).incoming(id) is None ==> r is None && *final(self) == *old(self),
            old(self).incoming(id) matches Some(p) ==> r matches Some(i) && i
                < final(self).streams@.len() && final(self).index_of(id) == Some(i as int)
                && Self::peek(final(self).streams@[i as int]) == p && final(self).streams@[i as int].wf(),
            final(self).accepted == old(self).accepted,
            final(self).next_local == old(self).next_local,
            old(self).index_of(id) is Some ==> final(self).arrivals == old(self).arrivals
                && final(self).streams@.len() == old(self).streams@.len()
                && r == Some(old(self).index_of(id)->0 as usize),
            old(self).index_of(id) is None && old(self).incoming(id) is Some
                ==> final(self).streams@.len() == old(self).streams@.len() + 1
                && r == Some(old(self).streams@.len() as usize),
            old(self).index_of(id) is None && old(self).incoming(id) is Some
                ==> final(self).arrivals@ == old(self).arrivals@.push(id),
    {
        match self.find(id) {
            Some(i) => {
                assert(self.index_of(id) == Some(i as int));
                Some(i)
            },
            None => {
                let bit: u64 = match self.side {
                    Side::Client => 0,
                    Side::Server => 1,
                };
                if id % 4 != 1 - bit {
                    return None;
                }
                let s = Stream::new(
                    id,
                    self.peer.stream_receive_window,
                    self.local.stream_receive_window,
                );
                let ghost before = self.streams@;
                let ghost arr0 = self.arrivals@;
                self.streams.push(s);
                self.arrivals.push(id);
                proof {
                    lemma_totals_push(before, self.streams@.last());
                    assert(self.streams@ =~= before.push(self.streams@.last()));
                }
                let i = self.streams.len() - 1;
                assert forall|j: int|
                    0 <= j < self.streams@.len() && (#[trigger] self.streams@[j]).id % 4
                        == side_bit(self.side) implies self.streams@[j].id / 4
                    < self.next_local by {
                    if j < before.len() {
                        assert(self.streams@[j] == before[j]);
                    }
                }
                assert forall|j: int, k: int|
                    0 <= j < self.streams@.len() && 0 <= k < self.streams@.len() && j != k
                        implies (#[trigger] self.streams@[j]).id != (
                    #[trigger] self.streams@[k]).id by {
                    if j < before.len() {
                        assert(self.streams@[j] == before[j]);
                    }
                    if k < before.len() {
                        assert(self.streams@[k] == before[k]);
                    }
                }
                assert forall|a: int| 0 <= a < self.arrivals@.len() implies self.peer_may_open(
                    #[trigger] self.arrivals@[a],
                ) && exists|j: int|
                    0 <= j < self.streams@.len() && self.streams@[j].id == self.arrivals@[a] by {
                    if a < arr0.len() {
                        assert(self.arrivals@[a] == arr0[a]);
                        assert(old(self).peer_may_open(arr0[a]));
                        let j = choose|j: int| 0 <= j < before.len() && before[j].id == arr0[a];
                        assert(self.streams@[j] == before[j]);
                    } else {
                        assert(self.streams@[i as int].id == id);
                    }
                }
                assert forall|a: int, b: int|
                    0 <= a < self.arrivals@.len() && 0 <= b < self.arrivals@.len() && a != b
                        implies #[trigger] self.arrivals@[a] != #[trigger] self.arrivals@[b] by {
                    if a < arr0.len() && b < arr0.len() {
                        assert(self.arrivals@[a] == arr0[a] && self.arrivals@[b] == arr0[b]);
                    } else if a < arr0.len() {
                        assert(self.arrivals@[a] == arr0[a]);
                        let j = choose|j: int| 0 <= j < before.len() && before[j].id == arr0[a];
                        assert(before[j].id != id);
                    } else {
                        assert(self.arrivals@[b] == arr0[b]);
                        let j = choose|j: int| 0 <= j < before.len() && before[j].id == arr0[b];
                        assert(before[j].id != id);
                    }
                }
                proof {
                    self.lemma_index_of(i as int, id);
                }
                Some(i)
            },
        }
    }

    /// Position `i` holds `id`, so `index_of` finds it there.
    proof fn lemma_index_of(&self, i: int, id: u64)
        requires
            self.wf(),
            0 <= i < self.streams@.len(),
            self.streams@[i].id == id,
        ensures
            self.index_of(id) == Some(i),
    {
        let j = choose|j: int| 0 <= j < self.streams@.len() && self.streams@[j].id == id;
        assert(self.streams@[j].id == self.streams@[i].id);
    }

    /// What `handle_frame` promises for data on `stream_id`.
    pub open spec fn data_outcome(
        &self,
        after: Connection,
        stream_id: u64,
        offset: u64,
        payload: Seq<u8>,
        r: Result<(), TransportError>,
    ) -> bool {
        match self.incoming(stream_id) {
            None => r == Err::<(), TransportError>(
                TransportError::ProtocolViolation { detail: Violation::UnknownStream },
            ),
            Some(p) => match self.data_error(p, offset, payload.len() as int) {
                Some(v) => r == Err::<(), TransportError>(
                    TransportError::ProtocolViolation { detail: v },
                ),
                None => r is Ok && after.peek_after(stream_id) == (Peek {
                    delivered: p.delivered + payload,
                    received: (p.received + payload.len()) as u64,
                    recv_window: p.recv_window.taken(payload.len() as u64),
                    ..p
                }) && after.recv_window == self.recv_window.taken(payload.len() as u64),
            },
        }
    }

    /// What `handle_frame` promises for a window update.
    pub open spec fn window_outcome(
        &self,
        after: Connection,
        stream: Option<u64>,
        credit: u64,
        r: Result<(), TransportError>,
    ) -> bool {
        let overflow = Err::<(), TransportError>(
            TransportError::ProtocolViolation { detail: Violation::WindowOverflow },
        );
        match stream {
            None => if self.send_window.can_extend(credit) {
                r is Ok && after.send_window == self.send_window.extended(credit)
            } else {
                r == overflow
            },
            Some(id) => match self.index_of(id) {
                None => r == Err::<(), TransportError>(
                    TransportError::ProtocolViolation { detail: Violation::UnknownStream },
                ),
                Some(i) => if self.streams@[i].send_window.can_extend(credit) {
                    r is Ok && after.peek_after(id) == (Peek {
                        send_window: self.streams@[i].send_window.extended(credit),
                        ..Self::peek(self.streams@[i])
                    })
                } else {
                    r == overflow
                },
            },
        }
    }

    /// What `handle_frame` promises for a finish on `stream_id`.
    pub open spec fn finish_outcome(
        &self,
        after: Connection,
        stream_id: u64,
        size: u64,
        r: Result<(), TransportError>,
    ) -> bool {
        match self.incoming(stream_id) {
            None => r == Err::<(), TransportError>(
                TransportError::ProtocolViolation { detail: Violation::UnknownStream },
            ),
            Some(p) => match Self::finish_error(p, size) {
                Some(v) => r == Err::<(), TransportError>(
                    TransportError::ProtocolViolation { detail: v },
                ),
                None => r is Ok && after.peek_after(stream_id) == (Peek {
                    finished: true,
                    state: after_remote_finish(p.state),
                    ..p
                }),
            },
        }
    }

    /// What `handle_frame` promises for a reset of `stream_id`.
    pub open spec fn reset_outcome(
        &self,
        after: Connection,
        stream_id: u64,
        reason: u64,
        r: Result<(), TransportError>,
    ) -> bool {
        match self.incoming(stream_id) {
            None => r == Err::<(), TransportError>(
                TransportError::ProtocolViolation { detail: Violation::UnknownStream },
            ),
            Some(p) => r is Ok && after.peek_after(stream_id) == (Peek {
                reset_reason: if p.state == StreamState::Closed || p.state == StreamState::Reset {
                    p.reset_reason
                } else {
                    Some(reason)
                },
                state: after_reset(p.state),
                ..p
            }),
        }
    }

    /// The general promise of `handle_frame` on an open connection.
    pub open spec fn frame_effect(&self, after: Connection, id: u64, r: Result<(), TransportError>) -> bool {
        &&& after.wf()
        &&& after.same_setup(*self)
        &&& r matches Err(e) ==> (e matches TransportError::ProtocolViolation { .. }
            && after.closed == Some(VIOLATION_CODE))
        &&& r is Ok ==> after.closed is None && after.others_kept(*self, id)
        &&& r is Ok && self.index_of(id) is Some ==> after.index_of(id) == self.index_of(id)
            && after.streams@.len() == self.streams@.len() && after.arrivals == self.arrivals
        &&& r is Ok && self.index_of(id) is None && self.incoming(id) is Some ==> after.index_of(id)
            == Some(self.streams@.len() as int) && after.streams@.len() == self.streams@.len() + 1
            && after.arrivals@ == self.arrivals@.push(id)
        &&& r is Ok && self.incoming(id) is None ==> after.streams@.len() == self.streams@.len()
            && after.arrivals == self.arrivals
        &&& after.accepted == self.accepted
        &&& after.next_local == self.next_local
    }

    fn on_data(&mut self, stream_id: u64, offset: u64, payload: Vec<u8>) -> (r: Result<(), TransportError>)
        requires
            old(self).wf(),
            old(self).closed is None,
        ensures
            old(self).frame_effect(*final(self), stream_id, r),
            old(self).data_outcome(*final(self), stream_id, offset, payload@, r),
    {
        let i = match self.target(stream_id) {
            None => return self.violate(Violation::UnknownStream),
            Some(i) => i,
        };
        let ghost mid = *self;
        if self.streams[i].recv.final_size.is_some() {
            return self.violate(Violation::DataAfterFinish);
        }
        if offset != self.streams[i].recv.received {
            return self.violate(Violation::OffsetMismatch);
        }
        let len = payload.len() as u64;
        if len > self.streams[i].recv_window.available() || len > self.recv_window.available() {
            return self.violate(Violation::WindowOverflow);
        }
        assert(self.streams@[i as int].wf());
        let s_cap = self.streams[i].recv_window.capacity;
        let s_recv = self.streams[i].recv.received;
        if s_cap > u64::MAX - s_recv || len > u64::MAX - s_recv - s_cap {
            return self.violate(Violation::WindowOverflow);
        }
        let c_cap = self.recv_window.capacity;
        let c_recv = self.recv_window.consumed;
        if c_cap > u64::MAX - c_recv || len > u64::MAX - c_recv - c_cap {
            return self.violate(Violation::WindowOverflow);
        }
        let _ = self.streams[i].recv_window.consume(len);
        let _ = self.recv_window.consume(len);
        let _ = self.streams[i].recv.on_data(offset, &payload);
        proof {
            self.lemma_same_ids(mid, i as int);
            self.lemma_index_of(i as int, stream_id);
        }
        Ok(())
    }

    fn on_window_update(&mut self, stream: Option<u64>, credit: u64) -> (r: Result<(), TransportError>)
        requires
            old(self).wf(),
            old(self).closed is None,
        ensures
            old(self).frame_effect(*final(self), (Frame::WindowUpdate { stream, credit }).stream_of(), r),
            old(self).window_outcome(*final(self), stream, credit, r),
    {
        match stream {
            None => match self.send_window.extend(credit) {
                Ok(()) => Ok(()),
                Err(_) => self.violate(Violation::WindowOverflow),
            },
            Some(id) => {
                let i = match self.find(id) {
                    None => return self.violate(Violation::UnknownStream),
                    Some(i) => i,
                };
                proof {
                    self.lemma_index_of(i as int, id);
                }
                let ghost mid = *self;
                let res = self.streams[i].send_window.extend(credit);
                proof {
                    self.lemma_same_ids(mid, i as int);
                    self.lemma_index_of(i as int, id);
                }
                match res {
                    Ok(()) => Ok(()),
                    Err(_) => self.violate(Violation::WindowOverflow),
                }
            },
        }
    }

    fn on_finish(&mut self, stream_id: u64, final_size: u64) -> (r: Result<(), TransportError>)
        requires
            old(self).wf(),
            old(self).closed is None,
        ensures
            old(self).frame_effect(*final(self), stream_id, r),
            old(self).finish_outcome(*final(self), stream_id, final_size, r),
    {
        let i = match self.target(stream_id) {
            None => return self.violate(Violation::UnknownStream),
            Some(i) => i,
        };
        let ghost mid = *self;
        if self.streams[i].recv.final_size.is_some() {
            return self.violate(Violation::DataAfterFinish);
        }
        if final_size != self.streams[i].recv.received {
            return self.violate(Violation::OffsetMismatch);
        }
        let _ = self.streams[i].recv.on_finish(final_size);
        let st = remote_finish(self.streams[i].state);
        self.streams[i].state = st;
        proof {
            self.lemma_same_ids(mid, i as int);
            self.lemma_index_of(i as int, stream_id);
        }
        Ok(())
    }

    fn on_reset(&mut self, stream_id: u64, reason: u64) -> (r: Result<(), TransportError>)
        requires
            old(self).wf(),
            old(self).closed is None,
        ensures
            old(self).frame_effect(*final(self), stream_id, r),
            old(self).reset_outcome(*final(self), stream_id, reason, r),
    {
        let i = match self.target(stream_id) {
            None => return self.violate(Violation::UnknownStream),
            Some(i) => i,
        };
        let ghost mid = *self;
        let st = self.streams[i].state;
        if st != StreamState::Closed && st != StreamState::Reset {
            self.streams[i].state = StreamState::Reset;
            self.streams[i].reset_reason = Some(reason);
        }
        proof {
            self.lemma_same_ids(mid, i as int);
            self.lemma_index_of(i as int, stream_id);
        }
        Ok(())
    }

    /// Takes one frame from the channel and applies it. A frame that breaks
    /// the protocol closes the connection with `VIOLATION_CODE`. Frames on a
    /// stream this end reset are dropped.
    pub fn handle_frame(&mut self, f: Frame) -> (r: Result<(), TransportError>)
        requires
            old(self).wf(),
        ensures
            final(self).wf(),
            final(self).same_setup(*old(self)),
            old(self).closed is Some ==> r == Err::<(), TransportError>(
                TransportError::ConnectionClosed { reason: old(self).closed->0 },
            ) && *final(self) == *old(self),
            old(self).closed is None ==> old(self).frame_effect(*final(self), f.stream_of(), r),
            old(self).closed is None ==> match f {
                Frame::Data { stream_id, offset, payload } => old(self).data_outcome(
                    *final(self),
                    stream_id,
                    offset,
                    payload@,
                    r,
                ),
                Frame::WindowUpdate { stream, credit } => old(self).window_outcome(
                    *final(self),
                    stream,
                    credit,
                    r,
                ),
                Frame::Finish { stream_id, final_size } => old(self).finish_outcome(
                    *final(self),
                    stream_id,
                    final_size,
                    r,
                ),
                Frame::Reset { stream_id, reason } => old(self).reset_outcome(
                    *final(self),
                    stream_id,
                    reason,
                    r,
                ),
            },
    {
        if let Some(reason) = self.closed {
            return Err(TransportError::ConnectionClosed { reason });
        }
        match f {
            Frame::Data { stream_id, offset, payload } => self.on_data(stream_id, offset, payload),
            Frame::WindowUpdate { stream, credit } => self.on_window_update(stream, credit),
            Frame::Finish { stream_id, final_size } => self.on_finish(stream_id, final_size),
            Frame::Reset { stream_id, reason } => self.on_reset(stream_id, reason),
        }
    }

    /// Window updates that a read of `n` bytes on stream `id` queues: one for
    /// the stream, then one for the connection.
    pub open spec fn credit_frames(id: u64, n: u64) -> Seq<Frame> {
        seq![
            Frame::WindowUpdate { stream: Some(id), credit: n },
            Frame::WindowUpdate { stream: None, credit: n },
        ]
    }

    /// Reads up to `max` bytes of stream `id` in order. Credit for what was
    /// read is granted back at once, on the stream and on the connection,
    /// and queued for the peer.
    pub fn read(&mut self, id: u64, max: usize) -> (r: Result<ReadOutcome, TransportError>)
        requires
            old(self).wf(),
            max > 0,
        ensures
            final(self).wf(),
            final(self).same_setup(*old(self)),
            final(self).same_books(*old(self)),
            old(self).gate(id) matches Some(e) ==> r == Err::<ReadOutcome, TransportError>(e)
                && *final(self) == *old(self),
            old(self).gate(id) is None ==> ({
                let i = old(self).index_of(id)->0;
                let s = old(self).streams@[i];
                let t = final(self).streams@[i];
                &&& final(self).streams@.len() == old(self).streams@.len()
                &&& forall|j: int| 0 <= j < old(self).streams@.len() && j != i
                    ==> final(self).streams@[j] == old(self).streams@[j]
                &&& t.id == s.id && t.state == s.state && t.send == s.send
                &&& t.send_window == s.send_window && t.reset_reason == s.reset_reason
                &&& t.recv.delivered@ == s.recv.delivered@
                &&& t.recv.final_size == s.recv.final_size
                &&& final(self).closed == old(self).closed
                &&& final(self).cursor == old(self).cursor
                &&& final(self).send_window == old(self).send_window
                &&& s.recv.buffered@.len() == 0 && s.recv.finished() ==> r == Ok::<
                    ReadOutcome,
                    TransportError,
                >(ReadOutcome::End) && *final(self) == *old(self)
                &&& s.recv.buffered@.len() == 0 && !s.recv.finished() ==> r == Ok::<
                    ReadOutcome,
                    TransportError,
                >(ReadOutcome::Pending) && *final(self) == *old(self)
                &&& s.recv.buffered@.len() > 0 ==> {
                    let n = min(max as int, s.recv.buffered@.len() as int) as u64;
                    &&& r matches Ok(ReadOutcome::Data(d))
                    &&& d@ == s.recv.buffered@.take(n as int)
                    &&& t.recv.taken@ == s.recv.taken@ + d@
                    &&& s.recv_window.can_extend(n)
                    &&& t.recv_window == s.recv_window.extended(n)
                    &&& old(self).recv_window.can_extend(n)
                    &&& final(self).recv_window == old(self).recv_window.extended(n)
                    &&& final(self).control@ == old(self).control@ + Self::credit_frames(id, n)
                }
            }),
    {
        let i = match self.lookup(id) {
            Ok(i) => i,
            Err(e) => return Err(e),
        };
        if self.streams[i].recv.buffered_len() == 0 {
            if self.streams[i].recv.final_size.is_some() {
                return Ok(ReadOutcome::End);
            }
            return Ok(ReadOutcome::Pending);
        }
        let ghost mid = *self;
        proof {
            assert forall|j: int| 0 <= j < mid.streams@.len() implies (#[trigger] mid.streams@[j]).recv.taken@.len()
                <= mid.streams@[j].recv.received by {
                assert(mid.streams@[j].wf());
                assert(mid.streams@[j].recv.taken@.len() + mid.streams@[j].recv.buffered@.len()
                    == mid.streams@[j].recv.delivered@.len());
            }
            lemma_backlog(mid.streams@, i as int);
            assert(mid.streams@[i as int].recv.taken@.len() + mid.streams@[i as int].recv.buffered@.len()
                == mid.streams@[i as int].recv.delivered@.len());
        }
        let out = self.streams[i].recv.read(max);
        if let ReadOutcome::Data(d) = &out {
            let n = d.len() as u64;
            let ghost before = self.control@;
            let _ = self.streams[i].recv_window.extend(n);
            self.control.push(Frame::WindowUpdate { stream: Some(id), credit: n });
            let _ = self.recv_window.extend(n);
            self.control.push(Frame::WindowUpdate { stream: None, credit: n });
            assert(self.control@ =~= before + Self::credit_frames(id, n));
        }
        proof {
            self.lemma_same_ids(mid, i as int);
        }
        Ok(out)
    }

    /// Hands out the next stream the peer opened, in the order their first
    /// frames arrived; `Ok(None)` while there is none. Once the connection is
    /// closed it fails with the close reason.
    pub fn accept_stream(&mut self) -> (r: Result<Option<u64>, TransportError>)
        requires
            old(self).wf(),
        ensures
            final(self).wf(),
            old(self).closed matches Some(reason) ==> r == Err::<Option<u64>, TransportError>(
                TransportError::ConnectionClosed { reason },
            ) && *final(self) == *old(self),
            old(self).closed is None && old(self).accepted < old(self).arrivals@.len() ==> r
                == Ok::<Option<u64>, TransportError>(
                Some(old(self).arrivals@[old(self).accepted as int]),
            ) && *final(self) == (Connection { accepted: (old(self).accepted + 1) as usize, ..*old(self) }),
            old(self).closed is None && old(self).accepted >= old(self).arrivals@.len() ==> r
                == Ok::<Option<u64>, TransportError>(None) && *final(self) == *old(self),
    {
        if let Some(reason) = self.closed {
            return Err(TransportError::ConnectionClosed { reason });
        }
        if self.accepted >= self.arrivals.len() {
            return Ok(None);
        }
        let id = self.arrivals[self.accepted];
        self.accepted = self.accepted + 1;
        Ok(Some(id))
    }

    /// The state of stream `id`, if registered.
    pub fn state_of(&self, id: u64) -> (r: Option<StreamState>)
        requires
            self.wf(),
        ensures
            match self.index_of(id) {
                Some(i) => r == Some(self.streams@[i].state),
                None => r is None,
            },
    {
        match self.find(id) {
            Some(i) => {
                proof {
                    self.lemma_index_of(i as int, id);
                }
                Some(self.streams[i].state)
            },
            None => None,
        }
    }

    /// Bytes written on stream `id` and not yet sent, if registered.
    pub fn unsent(&self, id: u64) -> (r: Option<usize>)
        requires
            self.wf(),
        ensures
            match self.index_of(id) {
                Some(i) => r == Some(self.streams@[i].send.pending@.len() as usize),
                None => r is None,
            },
    {
        match self.find(id) {
            Some(i) => {
                proof {
                    self.lemma_index_of(i as int, id);
                }
                Some(self.streams[i].send.pending_len())
            },
            None => None,
        }
    }

    pub fn is_closed(&self) -> (r: bool)
        ensures
            r == self.closed is Some,
    {
        self.closed.is_some()
    }
}

/// Bytes arrive in the order written: if the receiving end holds exactly the
/// bytes sent so far on stream `id`, and the sender's next frame is data on
/// `id` that the receiver accepts, the receiver again holds exactly the bytes
/// sent so far, which are the first bytes written, in call order.
pub proof fn lemma_transfer_in_order(
    sender: Connection,
    sender_after: Connection,
    receiver: Connection,
    receiver_after: Connection,
    f: Frame,
    r: Result<(), TransportError>,
    id: u64,
)
    requires
        sender.wf(),
        sender.closed is None,
        sender.control@.len() == 0,
        sender.transmit_outcome(sender_after, Some(f)),
        f matches Frame::Data { stream_id, .. } && stream_id == id,
        sender.index_of(id) is Some,
        receiver.incoming(id) matches Some(p) && p.delivered
            == sender.streams@[sender.index_of(id)->0].send.written@.take(
            sender.streams@[sender.index_of(id)->0].send.sent as int,
        ),
        f matches Frame::Data { stream_id, offset, payload } && receiver.data_outcome(
            receiver_after,
            stream_id,
            offset,
            payload@,
            r,
        ),
        r is Ok,
    ensures
        ({
            let i = sender.index_of(id)->0;
            let t = sender_after.streams@[i];
            &&& t.send.written@ == sender.streams@[i].send.written@
            &&& receiver_after.peek_after(id).delivered == t.send.written@.take(t.send.sent as int)
        }),
{
    let i = sender.index_of(id)->0;
    let q = next_pick(sender.eligibility(), sender.cursor as int)->0;
    let s = sender.streams@[q];
    sender.lemma_index_of(q, id);
    assert(q == i);
    if let Frame::Data { stream_id, offset, payload } = f {
        lemma_relay_in_order(
            s.send.written@,
            s.send.sent as nat,
            receiver.incoming(id)->0.delivered,
            payload@,
        );
    }
}

/// Finish comes after every byte: if the receiving end holds exactly the
/// bytes sent so far on stream `id` and has no finish yet, and the sender's
/// next frame is the finish of `id`, the receiver accepts it and then holds
/// exactly the bytes written, and nothing more can arrive on the stream.
pub proof fn lemma_finish_after_all_bytes(
    sender: Connection,
    sender_after: Connection,
    receiver: Connection,
    receiver_after: Connection,
    f: Frame,
    r: Result<(), TransportError>,
    id: u64,
)
    requires
        sender.wf(),
        receiver.wf(),
        sender.closed is None,
        sender.control@.len() == 0,
        sender.transmit_outcome(sender_after, Some(f)),
        f matches Frame::Finish { stream_id, .. } && stream_id == id,
        sender.index_of(id) is Some,
        receiver.incoming(id) matches Some(p) && !p.finished && p.delivered
            == sender.streams@[sender.index_of(id)->0].send.written@.take(
            sender.streams@[sender.index_of(id)->0].send.sent as int,
        ),
        f matches Frame::Finish { stream_id, final_size } && receiver.finish_outcome(
            receiver_after,
            stream_id,
            final_size,
            r,
        ),
    ensures
        r is Ok,
        receiver_after.peek_after(id).finished,
        receiver_after.peek_after(id).delivered == sender.streams@[sender.index_of(
            id,
        )->0].send.written@,
{
    let i = sender.index_of(id)->0;
    let q = next_pick(sender.eligibility(), sender.cursor as int)->0;
    let s = sender.streams@[q];
    sender.lemma_index_of(q, id);
    assert(q == i);
    assert(s.wf());
    assert(s.send.fin_due());
    assert(s.send.written@.take(s.send.sent as int) =~= s.send.written@);
    if let Some(j) = receiver.index_of(id) {
        assert(receiver.streams@[j].wf());
    }
}

/// The connection's send window is the shared ceiling: the bytes sent over
/// all streams together never exceed what the connection was granted, and
/// each stream stays within its own window as well.
pub proof fn lemma_connection_window_bounds_streams(c: Connection)
    requires
        c.wf(),
    ensures
        sent_total(c.streams@) <= c.send_window.granted,
        received_total(c.streams@) <= c.recv_window.granted,
        forall|j: int| 0 <= j < c.streams@.len() ==> (#[trigger] c.streams@[j]).send.sent
            <= c.streams@[j].send_window.granted,
{
    assert forall|j: int| 0 <= j < c.streams@.len() implies (#[trigger] c.streams@[j]).send.sent
        <= c.streams@[j].send_window.granted by {
        assert(c.streams@[j].wf());
    }
}

impl Frame {
    /// The stream a frame names; the connection's own window updates name
    /// none, written as `u64::MAX`, which is 3 modulo 4 and so never the id
    /// of a bidirectional stream.
    pub open spec fn stream_of(&self) -> u64 {
        match self {
            Frame::Data { stream_id, .. } => *stream_id,
            Frame::WindowUpdate { stream, .. } => match stream {
                Some(id) => *id,
                None => u64::MAX,
            },
            Frame::Finish { stream_id, .. } => *stream_id,
            Frame::Reset { stream_id, .. } => *stream_id,
        }
    }
}

} // verus!
