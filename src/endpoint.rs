use vstd::prelude::*;

use crate::connection::{Connection, Side, TransportConfig};
use crate::error::TransportError;

verus! {

/// What the secure channel reports once a handshake with a peer ends.
#[derive(Clone, Copy, Debug, PartialEq, Eq, Structural)]
pub enum HandshakeOutcome {
    /// The channel is up; `peer` is the peer's configuration and `trusted`
    /// the trust decision on its identity.
    Completed { peer: TransportConfig, trusted: bool },
    Failed,
}

/// The object a caller holds: its side, the configuration it gives every
/// connection, and the connections it made or accepted.
pub struct Endpoint {
    pub side: Side,
    pub config: TransportConfig,
    pub connections: Vec<Connection>,
}

impl Endpoint {
    pub open spec fn wf(&self) -> bool {
        &&& self.config.max_chunk > 0
        &&& forall|k: int| 0 <= k < self.connections@.len() ==> {
            let c = #[trigger] self.connections@[k];
            c.wf() && c.side == self.side && c.local == self.config
        }
    }

    pub fn new(side: Side, config: TransportConfig) -> (r: Endpoint)
        requires
            config.max_chunk > 0,
        ensures
            r.wf(),
            r.side == side,
            r.config == config,
            r.connections@.len() == 0,
    {
        Endpoint { side, config, connections: Vec::new() }
    }

    /// Turns a handshake outcome into a connection and returns its handle:
    /// a failed handshake and an untrusted peer are errors and add nothing.
    pub fn establish(&mut self, outcome: HandshakeOutcome) -> (r: Result<usize, TransportError>)
        requires
            old(self).wf(),
        ensures
            final(self).wf(),
            final(self).side == old(self).side,
            final(self).config == old(self).config,
            match outcome {
                HandshakeOutcome::Failed => r == Err::<usize, TransportError>(
                    TransportError::HandshakeFailed,
                ) && final(self).connections == old(self).connections,
                HandshakeOutcome::Completed { peer, trusted } => if !trusted {
                    r == Err::<usize, TransportError>(TransportError::TrustRejected)
                        && final(self).connections == old(self).connections
                } else {
                    let c = final(self).connections@.last();
                    &&& r == Ok::<usize, TransportError>(old(self).connections@.len() as usize)
                    &&& final(self).connections@.len() == old(self).connections@.len() + 1
                    &&& final(self).connections@.take(old(self).connections@.len() as int) == old(
                        self,
                    ).connections@
                    &&& c.side == old(self).side && c.local == old(self).config && c.peer == peer
                    &&& c.streams@.len() == 0 && c.closed is None
                },
            },
    {
        match outcome {
            HandshakeOutcome::Failed => Err(TransportError::HandshakeFailed),
            HandshakeOutcome::Completed { peer, trusted } => {
                if !trusted {
                    return Err(TransportError::TrustRejected);
                }
                let c = Connection::new(self.side, self.config, peer);
                let h = self.connections.len();
                self.connections.push(c);
                assert(self.connections@.take(h as int) =~= old(self).connections@);
                assert forall|k: int| 0 <= k < self.connections@.len() implies {
                    let c = #[trigger] self.connections@[k];
                    c.wf() && c.side == self.side && c.local == self.config
                } by {
                    if k < h {
                        assert(self.connections@[k] == old(self).connections@[k]);
                    }
                }
                Ok(h)
            },
        }
    }

    /// Closes every connection with `reason`.
    pub fn shutdown(&mut self, reason: u64)
        requires
            old(self).wf(),
        ensures
            final(self).wf(),
            final(self).connections@.len() == old(self).connections@.len(),
            forall|k: int| 0 <= k < final(self).connections@.len()
                ==> (#[trigger] final(self).connections@[k]).closed == Some(reason),
    {
        let mut k: usize = 0;
        while k < self.connections.len()
            invariant
                self.wf(),
                self.side == old(self).side,
                self.config == old(self).config,
                k <= self.connections@.len(),
                self.connections@.len() == old(self).connections@.len(),
                forall|j: int| 0 <= j < k ==> (#[trigger] self.connections@[j]).closed == Some(reason),
            decreases self.connections@.len() - k,
        {
            let ghost before = self.connections@;
            assert(self.connections@[k as int].wf());
            self.connections[k].close(reason);
            assert forall|j: int| 0 <= j < self.connections@.len() implies {
                let c = #[trigger] self.connections@[j];
                c.wf() && c.side == self.side && c.local == self.config
            } by {
                if j != k {
                    assert(self.connections@[j] == before[j]);
                }
            }
            assert forall|j: int| 0 <= j < k + 1 implies (#[trigger] self.connections@[j]).closed
                == Some(reason) by {
                if j != k {
                    assert(self.connections@[j] == before[j]);
                }
            }
            k = k + 1;
        }
    }
}

} // verus!
