//! RPC gateway surface. The live per-peer gateways are transport code and
//! live outside the library; what is modelled here is the part the rest of
//! the core relies on: the typed surface, and the mock gateway used by
//! tests, whose bounded queues keep calls in FIFO order — each successful
//! call appends to the tail, so the queue order is exactly the call order.

use vstd::prelude::*;
use crate::types::{Ack, Heartbeat, HostAddr, RpcCode, RpcError};

verus! {

/// Seconds a live gateway waits for a connection unless overridden.
pub const DEFAULT_CONNECT_TIMEOUT: u64 = 3;

/// A successful RPC reply.
#[derive(Clone, Copy, Debug, PartialEq, Eq, Structural)]
pub struct Response {
    pub ok: bool,
}

impl Response {
    pub fn ok() -> (r: Response)
        ensures
            r.ok,
    {
        Response { ok: true }
    }
}

/// What every per-peer gateway offers: the peer it talks to.
pub trait RpcGateway {
    fn get_host_addr(&self) -> &HostAddr;
}

/// Test double: routes each RPC into a bounded in-memory queue of
/// configurable capacity instead of a transport.
pub struct MockRpcGateway {
    host_addr: HostAddr,
    ack_queue: Vec<Ack>,
    ack_capacity: usize,
    heartbeat_queue: Vec<Heartbeat>,
    heartbeat_capacity: usize,
    closed: bool,
}

impl MockRpcGateway {
    /// The acks received so far and not yet drained, oldest first.
    pub closed spec fn acks(self) -> Seq<Ack> {
        self.ack_queue@
    }

    /// The heartbeats received so far and not yet drained, oldest first.
    pub closed spec fn heartbeats(self) -> Seq<Heartbeat> {
        self.heartbeat_queue@
    }

    pub closed spec fn ack_capacity(self) -> usize {
        self.ack_capacity
    }

    pub closed spec fn heartbeat_capacity(self) -> usize {
        self.heartbeat_capacity
    }

    /// Whether the receiving side is gone; sends then surface data loss.
    pub closed spec fn is_closed(self) -> bool {
        self.closed
    }

    pub fn new(peer: HostAddr, ack_buf_size: usize, heartbeat_buf_size: usize) -> (r:
        MockRpcGateway)
        ensures
            r.acks() == Seq::<Ack>::empty(),
            r.heartbeats() == Seq::<Heartbeat>::empty(),
            r.ack_capacity() == ack_buf_size,
            r.heartbeat_capacity() == heartbeat_buf_size,
            !r.is_closed(),
    {
        let r = MockRpcGateway {
            host_addr: peer,
            ack_queue: Vec::new(),
            ack_capacity: ack_buf_size,
            heartbeat_queue: Vec::new(),
            heartbeat_capacity: heartbeat_buf_size,
            closed: false,
        };
        proof {
            assert(r.acks() =~= Seq::<Ack>::empty());
            assert(r.heartbeats() =~= Seq::<Heartbeat>::empty());
        }
        r
    }

    /// Accepts one ack: appended at the tail of the queue, so successful
    /// calls are observed in exactly the order they were made. A dropped
    /// receiver surfaces as data loss; a full queue as unavailability.
    pub fn receive_ack(&mut self, req: Ack) -> (r: Result<Response, RpcError>)
        ensures
            old(self).is_closed() ==> (r matches Err(e) && e.code == RpcCode::DataLoss && *final(self) == *old(self)),
            !old(self).is_closed() && old(self).acks().len() >= old(self).ack_capacity()
                ==> (r matches Err(e) && e.code == RpcCode::Unavailable && *final(self) == *old(self)),
            !old(self).is_closed() && old(self).acks().len() < old(self).ack_capacity() ==> (r
                is Ok && final(self).acks() == old(self).acks().push(req)),
            final(self).heartbeats() == old(self).heartbeats(),
            final(self).is_closed() == old(self).is_closed(),
            final(self).ack_capacity() == old(self).ack_capacity(),
            final(self).heartbeat_capacity() == old(self).heartbeat_capacity(),
    {
        if self.closed {
            return Err(
                RpcError { code: RpcCode::DataLoss, message: String::new() },
            );
        }
        if self.ack_queue.len() >= self.ack_capacity {
            return Err(
                RpcError { code: RpcCode::Unavailable, message: String::new() },
            );
        }
        self.ack_queue.push(req);
        Ok(Response::ok())
    }

    /// Accepts one heartbeat, with the same queue discipline as acks.
    pub fn receive_heartbeat(&mut self, req: Heartbeat) -> (r: Result<Response, RpcError>)
        ensures
            old(self).is_closed() ==> (r matches Err(e) && e.code == RpcCode::DataLoss && *final(self) == *old(self)),
            !old(self).is_closed() && old(self).heartbeats().len() >= old(self).heartbeat_capacity() ==> (r matches Err(e) && e.code == RpcCode::Unavailable && *final(self) == *old(self)),
            !old(self).is_closed() && old(self).heartbeats().len() < old(self).heartbeat_capacity()
                ==> (r is Ok && final(self).heartbeats() == old(self).heartbeats().push(req)),
            final(self).acks() == old(self).acks(),
            final(self).is_closed() == old(self).is_closed(),
            final(self).ack_capacity() == old(self).ack_capacity(),
            final(self).heartbeat_capacity() == old(self).heartbeat_capacity(),
    {
        if self.closed {
            return Err(
                RpcError { code: RpcCode::DataLoss, message: String::new() },
            );
        }
        if self.heartbeat_queue.len() >= self.heartbeat_capacity {
            return Err(
                RpcError { code: RpcCode::Unavailable, message: String::new() },
            );
        }
        self.heartbeat_queue.push(req);
        Ok(Response::ok())
    }

    /// Drains the oldest queued ack, in arrival order.
    pub fn pop_ack(&mut self) -> (r: Option<Ack>)
        ensures
            old(self).acks().len() == 0 ==> (r is None && final(self).acks() == old(self).acks()),
            old(self).acks().len() > 0 ==> (r matches Some(a) && a == old(self).acks()[0] && final(self).acks() == old(self).acks().drop_first()),
            final(self).heartbeats() == old(self).heartbeats(),
            final(self).is_closed() == old(self).is_closed(),
            final(self).ack_capacity() == old(self).ack_capacity(),
            final(self).heartbeat_capacity() == old(self).heartbeat_capacity(),
    {
        if self.ack_queue.len() == 0 {
            return None;
        }
        let a = self.ack_queue.remove(0);
        proof {
            assert(self.ack_queue@ =~= old(self).ack_queue@.drop_first());
        }
        Some(a)
    }

    /// Drains the oldest queued heartbeat, in arrival order.
    pub fn pop_heartbeat(&mut self) -> (r: Option<Heartbeat>)
        ensures
            old(self).heartbeats().len() == 0 ==> (r is None && final(self).heartbeats() == old(self).heartbeats()),
            old(self).heartbeats().len() > 0 ==> (r matches Some(h) && h == old(self).heartbeats()[0] && final(self).heartbeats() == old(self).heartbeats().drop_first()),
            final(self).acks() == old(self).acks(),
            final(self).is_closed() == old(self).is_closed(),
            final(self).ack_capacity() == old(self).ack_capacity(),
            final(self).heartbeat_capacity() == old(self).heartbeat_capacity(),
    {
        if self.heartbeat_queue.len() == 0 {
            return None;
        }
        let h = self.heartbeat_queue.remove(0);
        proof {
            assert(self.heartbeat_queue@ =~= old(self).heartbeat_queue@.drop_first());
        }
        Some(h)
    }

    /// Drops the receiving side: every later send loses its data.
    pub fn close(&mut self)
        ensures
            final(self).is_closed(),
            final(self).acks() == old(self).acks(),
            final(self).heartbeats() == old(self).heartbeats(),
            final(self).ack_capacity() == old(self).ack_capacity(),
            final(self).heartbeat_capacity() == old(self).heartbeat_capacity(),
    {
        self.closed = true;
    }
}

impl RpcGateway for MockRpcGateway {
    fn get_host_addr(&self) -> &HostAddr {
        &self.host_addr
    }
}

/// Model of a live gateway's call discipline: callers queue behind one
/// per-peer token that is held for a whole round trip. The token is
/// granted strictly in arrival order, so of two calls issued in order the
/// first completes or errors before the second begins its transport call.
pub struct FifoCallToken {
    waiting: Vec<u64>,
    holder: Option<u64>,
    granted: Vec<u64>,
}

impl FifoCallToken {
    /// Every caller that ever arrived, in arrival order: those already
    /// admitted to the transport, then those still waiting.
    pub closed spec fn arrived(self) -> Seq<u64> {
        self.granted@ + self.waiting@
    }

    /// The callers admitted to the transport so far, in admission order.
    pub closed spec fn admitted(self) -> Seq<u64> {
        self.granted@
    }

    /// The caller whose round trip is in flight, if any.
    pub closed spec fn in_flight(self) -> Option<u64> {
        self.holder
    }

    pub fn new() -> (r: FifoCallToken)
        ensures
            r.arrived() == Seq::<u64>::empty(),
            r.admitted() == Seq::<u64>::empty(),
            r.in_flight() is None,
    {
        let r = FifoCallToken { waiting: Vec::new(), holder: None, granted: Vec::new() };
        proof {
            assert(r.arrived() =~= Seq::<u64>::empty());
        }
        r
    }

    /// A caller queues for the token.
    pub fn enqueue(&mut self, caller: u64)
        ensures
            final(self).arrived() == old(self).arrived().push(caller),
            final(self).admitted() == old(self).admitted(),
            final(self).in_flight() == old(self).in_flight(),
    {
        self.waiting.push(caller);
        proof {
            assert(self.arrived() =~= old(self).arrived().push(caller));
        }
    }

    /// Hands the token to the longest-waiting caller, if it is free. The
    /// admission order therefore equals the arrival order.
    pub fn try_grant(&mut self) -> (r: Option<u64>)
        ensures
            final(self).arrived() == old(self).arrived(),
            old(self).in_flight() is Some || old(self).admitted().len() == old(
                self,
            ).arrived().len() ==> (r is None && *final(self) == *old(self)),
            old(self).in_flight() is None && old(self).admitted().len() < old(
                self,
            ).arrived().len() ==> (r matches Some(c) && c == old(self).arrived()[
                old(self).admitted().len() as int] && final(self).admitted() == old(
                self,
            ).admitted().push(c) && final(self).in_flight() == Some(c)),
    {
        if self.holder.is_some() {
            return None;
        }
        if self.waiting.len() == 0 {
            return None;
        }
        let caller = self.waiting.remove(0);
        self.holder = Some(caller);
        self.granted.push(caller);
        proof {
            assert(old(self).arrived()[old(self).granted@.len() as int] == caller);
            assert(self.arrived() =~= old(self).arrived());
        }
        Some(caller)
    }

    /// The holder finishes its round trip (successfully or not) and frees
    /// the token.
    pub fn release(&mut self)
        requires
            old(self).in_flight() is Some,
        ensures
            final(self).arrived() == old(self).arrived(),
            final(self).admitted() == old(self).admitted(),
            final(self).in_flight() is None,
    {
        self.holder = None;
    }
}

/// Law: the token admits callers to the transport in exactly their arrival
/// order — what is admitted is always a prefix of what arrived.
pub proof fn lemma_fifo_admission(t: FifoCallToken)
    ensures
        t.admitted() == t.arrived().take(t.admitted().len() as int),
{
    assert(t.admitted() =~= t.arrived().take(t.admitted().len() as int));
}

} // verus!
