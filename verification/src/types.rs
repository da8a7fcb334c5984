//! Identifiers and wire types: jobs, hosts, operators, dataflows,
//! heartbeats, acks, and the error kinds the core surfaces.

use vstd::prelude::*;

verus! {

/// Stable identifier of a submitted dataflow: a namespace plus a name.
#[derive(Clone, Debug, Hash, PartialEq, Eq)]
pub struct JobId {
    pub namespace: String,
    pub name: String,
}

/// Abstract value of a [`JobId`].
pub struct JobIdView {
    pub namespace: Seq<char>,
    pub name: Seq<char>,
}

impl View for JobId {
    type V = JobIdView;

    open spec fn view(&self) -> JobIdView {
        JobIdView { namespace: self.namespace@, name: self.name@ }
    }
}

impl JobId {
    /// Value equality, usable from verified code.
    pub fn key_eq(&self, other: &JobId) -> (r: bool)
        ensures
            r == (self@ == other@),
    {
        let same = self.namespace == other.namespace && self.name == other.name;
        proof {
            if same {
                assert(self@ == other@);
            }
        }
        same
    }
}

/// `(host, port)` identity of a peer.
#[derive(Clone, Debug, Hash, PartialEq, Eq)]
pub struct HostAddr {
    pub host: String,
    pub port: u16,
}

/// Abstract value of a [`HostAddr`].
pub struct HostAddrView {
    pub host: Seq<char>,
    pub port: u16,
}

impl View for HostAddr {
    type V = HostAddrView;

    open spec fn view(&self) -> HostAddrView {
        HostAddrView { host: self.host@, port: self.port }
    }
}

impl HostAddr {
    /// Value equality, usable from verified code.
    pub fn addr_eq(&self, other: &HostAddr) -> (r: bool)
        ensures
            r == (self@ == other@),
    {
        let same = self.host == other.host && self.port == other.port;
        proof {
            if same {
                assert(self@ == other@);
            }
        }
        same
    }
}

impl JobId {
    /// A copy with the same value; unlike the derived clone, the copy's
    /// relation to the original is part of the contract.
    pub fn duplicate(&self) -> (r: JobId)
        ensures
            r@ == self@,
    {
        JobId { namespace: self.namespace.clone(), name: self.name.clone() }
    }
}

impl HostAddr {
    /// A copy with the same value, with that fact in the contract.
    pub fn duplicate(&self) -> (r: HostAddr)
        ensures
            r@ == self@,
    {
        HostAddr { host: self.host.clone(), port: self.port }
    }
}

/// Identifier of one operator instance within a dataflow.
pub type ExecutorId = u32;

/// A directed edge between two operator instances, by executor id.
#[derive(Clone, Copy, Debug, PartialEq, Eq, Structural)]
pub struct Edge {
    pub from_id: ExecutorId,
    pub to_id: ExecutorId,
}

/// One operator of a dataflow: a stable executor id, an opaque behaviour
/// payload, and the placement target once assigned.
#[derive(Clone, Debug)]
pub struct OperatorSpec {
    pub executor_id: ExecutorId,
    pub payload: Vec<u8>,
    pub host_addr: Option<HostAddr>,
}

/// Abstract value of an [`OperatorSpec`].
pub struct OperatorSpecView {
    pub executor_id: ExecutorId,
    pub payload: Seq<u8>,
    pub host_addr: Option<HostAddrView>,
}

impl View for OperatorSpec {
    type V = OperatorSpecView;

    open spec fn view(&self) -> OperatorSpecView {
        OperatorSpecView {
            executor_id: self.executor_id,
            payload: self.payload@,
            host_addr: match self.host_addr {
                Option::Some(a) => Option::Some(a@),
                Option::None => Option::None,
            },
        }
    }
}

impl OperatorSpec {
    /// A copy with the same value, with that fact in the contract.
    pub fn duplicate(&self) -> (r: OperatorSpec)
        ensures
            r@ == self@,
    {
        let payload = self.payload.clone();
        proof {
            assert(payload@ =~= self.payload@);
        }
        let host_addr = match &self.host_addr {
            Option::Some(a) => Option::Some(a.duplicate()),
            Option::None => Option::None,
        };
        OperatorSpec { executor_id: self.executor_id, payload, host_addr }
    }
}

/// A dataflow: a DAG of operators submitted as one unit of work.
#[derive(Clone, Debug)]
pub struct Dataflow {
    pub job_id: Option<JobId>,
    pub nodes: Vec<OperatorSpec>,
    pub edges: Vec<Edge>,
}

/// Abstract value of a [`Dataflow`].
pub struct DataflowView {
    pub job_id: Option<JobIdView>,
    pub nodes: Seq<OperatorSpecView>,
    pub edges: Seq<Edge>,
}

impl View for Dataflow {
    type V = DataflowView;

    open spec fn view(&self) -> DataflowView {
        DataflowView {
            job_id: match self.job_id {
                Option::Some(j) => Option::Some(j@),
                Option::None => Option::None,
            },
            nodes: self.nodes@.map_values(|o: OperatorSpec| o@),
            edges: self.edges@,
        }
    }
}

impl Dataflow {
    /// A copy with the same value, with that fact in the contract.
    pub fn duplicate(&self) -> (r: Dataflow)
        ensures
            r@ == self@,
    {
        let job_id = match &self.job_id {
            Option::Some(j) => Option::Some(j.duplicate()),
            Option::None => Option::None,
        };
        let mut nodes: Vec<OperatorSpec> = Vec::new();
        let mut i: usize = 0;
        while i < self.nodes.len()
            invariant
                i <= self.nodes.len(),
                nodes@.len() == i,
                forall|j: int| 0 <= j < i ==> (#[trigger] nodes@[j])@ == self.nodes@[j]@,
            decreases self.nodes.len() - i,
        {
            nodes.push(self.nodes[i].duplicate());
            i += 1;
        }
        let edges = self.edges.clone();
        proof {
            assert(nodes@.map_values(|o: OperatorSpec| o@) =~= self.nodes@.map_values(
                |o: OperatorSpec| o@,
            ));
            assert(edges@ =~= self.edges@);
        }
        Dataflow { job_id, nodes, edges }
    }
}

/// Lifecycle status of a dataflow as reported by the coordinator.
#[derive(Clone, Copy, Debug, PartialEq, Eq, Structural)]
pub enum DataflowStatus {
    Initialized,
    Running,
    Closed,
}

/// Role of the peer that sent a heartbeat.
#[derive(Clone, Copy, Debug, PartialEq, Eq, Structural)]
pub enum NodeType {
    Coordinator,
    TaskWorker,
}

/// Periodic liveness signal: sender identity, role, logical timestamp.
#[derive(Clone, Debug)]
pub struct Heartbeat {
    pub sender: HostAddr,
    pub node_type: NodeType,
    pub timestamp: u64,
}

/// Per-event acknowledgement routed back to the emitting operator.
#[derive(Clone, Debug)]
pub struct Ack {
    pub sender: HostAddr,
    pub timestamp: u64,
    pub event_id: u64,
}

/// Error kinds surfaced by the coordination core.
#[derive(Clone, Copy, Debug, PartialEq, Eq, Structural)]
pub enum CoordErrorKind {
    InvalidDataflow,
    NoAvailableWorker,
    StorageSaveFailed,
    StorageGetFailed,
    StorageDeleteFailed,
    RpcUnavailable,
    RpcDeadlineExceeded,
    RpcDataLoss,
    PartialTerminate,
}

/// A typed error of the coordination core, with a human-readable message.
#[derive(Clone, Debug)]
pub struct CoordException {
    pub kind: CoordErrorKind,
    pub message: String,
}

impl CoordException {
    pub fn of_kind(kind: CoordErrorKind) -> (r: CoordException)
        ensures
            r.kind == kind,
    {
        CoordException { kind, message: String::new() }
    }
}

/// Transport-level status category of one RPC outcome.
#[derive(Clone, Copy, Debug, PartialEq, Eq, Structural)]
pub enum RpcCode {
    Unavailable,
    DeadlineExceeded,
    DataLoss,
    Internal,
    InvalidArgument,
}

/// A failed RPC, as surfaced by a gateway.
#[derive(Clone, Debug)]
pub struct RpcError {
    pub code: RpcCode,
    pub message: String,
}

/// Maps a transport status category to the core's error kind.
pub fn rpc_error_kind(code: RpcCode) -> (r: CoordErrorKind)
    ensures
        r == spec_rpc_error_kind(code),
{
    match code {
        RpcCode::Unavailable => CoordErrorKind::RpcUnavailable,
        RpcCode::DeadlineExceeded => CoordErrorKind::RpcDeadlineExceeded,
        RpcCode::DataLoss => CoordErrorKind::RpcDataLoss,
        RpcCode::Internal => CoordErrorKind::RpcUnavailable,
        RpcCode::InvalidArgument => CoordErrorKind::InvalidDataflow,
    }
}

/// Specification of [`rpc_error_kind`].
pub open spec fn spec_rpc_error_kind(code: RpcCode) -> CoordErrorKind {
    match code {
        RpcCode::Unavailable => CoordErrorKind::RpcUnavailable,
        RpcCode::DeadlineExceeded => CoordErrorKind::RpcDeadlineExceeded,
        RpcCode::DataLoss => CoordErrorKind::RpcDataLoss,
        RpcCode::Internal => CoordErrorKind::RpcUnavailable,
        RpcCode::InvalidArgument => CoordErrorKind::InvalidDataflow,
    }
}

} // verus!
