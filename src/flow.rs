use vstd::prelude::*;

use crate::error::{TransportError, Violation};

verus! {

/// Credit accounting for one flow-controlled entity and one direction.
///
/// On the sending side `consumed` counts the bytes sent and `granted` is the
/// limit the peer allows; on the receiving side `consumed` counts the bytes
/// received and `granted` is the limit announced to the peer.
#[derive(Clone, Copy, Debug, PartialEq, Eq, Structural)]
pub struct FlowWindow {
    pub capacity: u64,
    pub consumed: u64,
    pub granted: u64,
}

pub open spec fn min(a: int, b: int) -> int {
    if a <= b { a } else { b }
}

impl FlowWindow {
    /// `consumed <= granted <= consumed + capacity`.
    pub open spec fn wf(&self) -> bool {
        &&& self.consumed <= self.granted
        &&& self.granted <= self.consumed + self.capacity
    }

    /// Bytes that may still go out before more credit arrives.
    pub open spec fn budget(&self) -> int {
        self.granted - self.consumed
    }

    /// How much a request for `n` bytes is granted.
    pub open spec fn grant_for(&self, n: u64) -> u64 {
        min(n as int, self.budget()) as u64
    }

    /// The window after `n` bytes are taken out of its budget.
    pub open spec fn taken(&self, n: u64) -> FlowWindow {
        FlowWindow { consumed: (self.consumed + n) as u64, ..*self }
    }

    /// The window after its limit moves `n` bytes further.
    pub open spec fn extended(&self, n: u64) -> FlowWindow {
        FlowWindow { granted: (self.granted + n) as u64, ..*self }
    }

    /// Whether extending the limit by `n` stays within capacity and within `u64`.
    pub open spec fn can_extend(&self, n: u64) -> bool {
        &&& self.granted + n <= self.consumed + self.capacity
        &&& self.granted + n <= u64::MAX
    }

    /// A fresh window of `capacity` bytes, all of it granted.
    pub open spec fn new_spec(capacity: u64) -> FlowWindow {
        FlowWindow { capacity, consumed: 0, granted: capacity }
    }

    /// A fresh window whose whole capacity is granted.
    pub fn new(capacity: u64) -> (r: FlowWindow)
        ensures
            r.wf(),
            r == FlowWindow::new_spec(capacity),
    {
        FlowWindow { capacity, consumed: 0, granted: capacity }
    }

    /// Bytes that may still go out before more credit arrives.
    pub fn available(&self) -> (r: u64)
        requires
            self.wf(),
        ensures
            r == self.budget(),
    {
        self.granted - self.consumed
    }

    /// Asks to send `n` bytes; takes and returns as many as the budget allows,
    /// zero when it is exhausted (the caller then waits for credit).
    pub fn reserve(&mut self, n: u64) -> (r: u64)
        requires
            old(self).wf(),
        ensures
            r == old(self).grant_for(n),
            *final(self) == old(self).taken(r),
            final(self).wf(),
    {
        let budget = self.granted - self.consumed;
        let r = if n <= budget { n } else { budget };
        self.consumed = self.consumed + r;
        r
    }

    /// Records `n` bytes that arrived; more than the budget is a violation.
    pub fn consume(&mut self, n: u64) -> (r: Result<(), TransportError>)
        requires
            old(self).wf(),
        ensures
            final(self).wf(),
            n <= old(self).budget() ==> r is Ok && *final(self) == old(self).taken(n),
            n > old(self).budget() ==> r == Err::<(), TransportError>(
                TransportError::ProtocolViolation { detail: Violation::WindowOverflow },
            ) && *final(self) == *old(self),
    {
        if n <= self.granted - self.consumed {
            self.consumed = self.consumed + n;
            Ok(())
        } else {
            Err(TransportError::ProtocolViolation { detail: Violation::WindowOverflow })
        }
    }

    /// Moves the limit `n` bytes further; past the capacity, or past what a
    /// `u64` holds, it is a violation and nothing changes.
    pub fn extend(&mut self, n: u64) -> (r: Result<(), TransportError>)
        requires
            old(self).wf(),
        ensures
            final(self).wf(),
            old(self).can_extend(n) ==> r is Ok && *final(self) == old(self).extended(n),
            !old(self).can_extend(n) ==> r == Err::<(), TransportError>(
                TransportError::ProtocolViolation { detail: Violation::WindowOverflow },
            ) && *final(self) == *old(self),
    {
        let headroom = self.capacity - (self.granted - self.consumed);
        if n <= headroom && n <= u64::MAX - self.granted {
            self.granted = self.granted + n;
            Ok(())
        } else {
            Err(TransportError::ProtocolViolation { detail: Violation::WindowOverflow })
        }
    }
}

/// Every operation keeps `consumed <= granted <= consumed + capacity`.
pub proof fn lemma_operations_keep_window(w: FlowWindow, n: u64)
    requires
        w.wf(),
    ensures
        w.taken(w.grant_for(n)).wf(),
        n <= w.budget() ==> w.taken(n).wf(),
        w.can_extend(n) ==> w.extended(n).wf(),
{
}

/// From a fresh window, `capacity` bytes go out and the next request gets
/// nothing; credit of `k` then lets exactly `k` more bytes out.
pub proof fn lemma_capacity_boundary(capacity: u64, k: u64, more: u64)
    requires
        k <= capacity,
        k <= more,
        capacity + k <= u64::MAX,
    ensures
        ({
            let w0 = FlowWindow::new_spec(capacity);
            let w1 = w0.taken(w0.grant_for(capacity));
            let w2 = w1.extended(k);
            &&& w0.grant_for(capacity) == capacity
            &&& w1.grant_for(more) == 0
            &&& w1.can_extend(k)
            &&& w2.grant_for(more) == k
            &&& w2.taken(w2.grant_for(more)).grant_for(more) == 0
        }),
{
}

/// A sender whose budget is exhausted and that gets `k` bytes of credit can
/// send exactly `k` more of its `pending` bytes (when at least `k` wait),
/// and then waits again.
pub proof fn lemma_credit_unblocks_exactly(w: FlowWindow, k: u64, pending: u64)
    requires
        w.wf(),
        w.budget() == 0,
        w.can_extend(k),
        k <= pending,
    ensures
        w.extended(k).wf(),
        w.extended(k).granted == w.granted + k,
        w.extended(k).grant_for(pending) == k,
        w.extended(k).taken(k).consumed == w.consumed + k,
        w.extended(k).taken(k).grant_for(pending) == 0,
{
}

} // verus!
