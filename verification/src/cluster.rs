//! Cluster model: the worker registry, liveness driven by heartbeats and
//! probes, deterministic round-robin placement of operators on the workers
//! that are not unreachable, and the per-worker deployment and termination
//! plans that the coordinator sends out.

use vstd::prelude::*;
use crate::types::{
    CoordErrorKind, CoordException, Dataflow, DataflowView, Edge, Heartbeat, HostAddr,
    HostAddrView, JobId, OperatorSpec, OperatorSpecView,
};

verus! {

/// Static configuration of one worker: where it listens.
#[derive(Clone, Debug)]
pub struct NodeConfig {
    pub host: String,
    pub port: u16,
}

impl View for NodeConfig {
    type V = HostAddrView;

    open spec fn view(&self) -> HostAddrView {
        HostAddrView { host: self.host@, port: self.port }
    }
}

/// Liveness status of one worker.
#[derive(Clone, Copy, Debug, PartialEq, Eq, Structural)]
pub enum WorkerStatus {
    Pending,
    Running,
    Unreachable,
}

/// One worker of the cluster: its address, its liveness status, and the
/// largest heartbeat timestamp seen from it.
#[derive(Clone, Debug)]
pub struct Worker {
    pub addr: HostAddr,
    pub status: WorkerStatus,
    pub last_heartbeat_at: u64,
}

/// Abstract value of a [`Worker`].
pub struct WorkerView {
    pub addr: HostAddrView,
    pub status: WorkerStatus,
    pub last_heartbeat_at: u64,
}

impl View for Worker {
    type V = WorkerView;

    open spec fn view(&self) -> WorkerView {
        WorkerView { addr: self.addr@, status: self.status, last_heartbeat_at: self.last_heartbeat_at }
    }
}

/// The worker registry, in configuration order.
pub struct Cluster {
    pub workers: Vec<Worker>,
}

impl View for Cluster {
    type V = Seq<WorkerView>;

    open spec fn view(&self) -> Seq<WorkerView> {
        self.workers@.map_values(|w: Worker| w@)
    }
}

/// The addresses of the workers that placement may use: those not
/// `Unreachable`, in registry order.
pub open spec fn avail_addrs(ws: Seq<WorkerView>) -> Seq<HostAddrView>
    decreases ws.len(),
{
    if ws.len() == 0 {
        Seq::empty()
    } else {
        let rest = avail_addrs(ws.drop_last());
        if ws.last().status != WorkerStatus::Unreachable {
            rest.push(ws.last().addr)
        } else {
            rest
        }
    }
}

/// Everything an available address came from: some non-unreachable worker.
proof fn lemma_avail_addrs_from_workers(ws: Seq<WorkerView>)
    ensures
        forall|i: int|
            0 <= i < avail_addrs(ws).len() ==> exists|j: int|
                0 <= j < ws.len() && (#[trigger] ws[j]).status != WorkerStatus::Unreachable
                    && ws[j].addr == #[trigger] avail_addrs(ws)[i],
    decreases ws.len(),
{
    if ws.len() > 0 {
        lemma_avail_addrs_from_workers(ws.drop_last());
        let a = avail_addrs(ws);
        let rest = avail_addrs(ws.drop_last());
        assert forall|i: int| #![trigger a[i]] 0 <= i < a.len() implies exists|j: int|
            0 <= j < ws.len() && (#[trigger] ws[j]).status != WorkerStatus::Unreachable && ws[j].addr
                == a[i] by {
            if i < rest.len() {
                assert(rest[i] == a[i]);
                let j = choose|j: int|
                    0 <= j < ws.drop_last().len() && (#[trigger] ws.drop_last()[j]).status
                        != WorkerStatus::Unreachable && ws.drop_last()[j].addr == rest[i];
                assert(ws[j].status != WorkerStatus::Unreachable && ws[j].addr == a[i]);
            } else {
                assert(ws[ws.len() - 1].status != WorkerStatus::Unreachable && ws[ws.len()
                    - 1].addr == a[i]);
            }
        }
    }
}

/// How `dataflow` after placement relates to what was submitted: the same
/// job, edges and operators, each operator assigned round-robin over the
/// available addresses.
pub open spec fn placement_of(
    d2: DataflowView,
    d1: DataflowView,
    avail: Seq<HostAddrView>,
) -> bool {
    &&& d2.job_id == d1.job_id
    &&& d2.edges == d1.edges
    &&& d2.nodes.len() == d1.nodes.len()
    &&& avail.len() > 0
    &&& forall|i: int|
        0 <= i < d1.nodes.len() ==> {
            &&& (#[trigger] d2.nodes[i]).executor_id == d1.nodes[i].executor_id
            &&& d2.nodes[i].payload == d1.nodes[i].payload
            &&& d2.nodes[i].host_addr == Option::Some(avail[i % avail.len() as int])
        }
}

/// Law: every operator of a placed dataflow is assigned an address of a
/// worker that was not unreachable.
pub proof fn lemma_placement_targets_available(
    d2: DataflowView,
    d1: DataflowView,
    ws: Seq<WorkerView>,
)
    requires
        placement_of(d2, d1, avail_addrs(ws)),
    ensures
        forall|i: int|
            0 <= i < d2.nodes.len() ==> (#[trigger] d2.nodes[i]).host_addr is Some && exists|j: int|
                0 <= j < ws.len() && (#[trigger] ws[j]).status != WorkerStatus::Unreachable
                    && ws[j].addr == d2.nodes[i].host_addr->Some_0,
{
    let avail = avail_addrs(ws);
    lemma_avail_addrs_from_workers(ws);
    assert forall|i: int| 0 <= i < d2.nodes.len() implies (#[trigger] d2.nodes[i]).host_addr
        is Some && exists|j: int|
        0 <= j < ws.len() && (#[trigger] ws[j]).status != WorkerStatus::Unreachable && ws[j].addr
            == d2.nodes[i].host_addr->Some_0 by {
        vstd::arithmetic::div_mod::lemma_mod_bound(i, avail.len() as int);
        assert(d2.nodes[i].host_addr == Option::Some(avail[i % avail.len() as int]));
    }
}

/// How one heartbeat with timestamp `ts` changes a worker: any status
/// becomes `Running`, and the largest timestamp seen is kept.
pub open spec fn hb_update(w: WorkerView, ts: u64) -> WorkerView {
    WorkerView {
        addr: w.addr,
        status: WorkerStatus::Running,
        last_heartbeat_at: if ts > w.last_heartbeat_at {
            ts
        } else {
            w.last_heartbeat_at
        },
    }
}

/// A worker after a whole sequence of heartbeat timestamps, in order.
pub open spec fn apply_heartbeats(w: WorkerView, ts: Seq<u64>) -> WorkerView
    decreases ts.len(),
{
    if ts.len() == 0 {
        w
    } else {
        apply_heartbeats(hb_update(w, ts[0]), ts.drop_first())
    }
}

proof fn lemma_apply_heartbeats_char(w: WorkerView, ts: Seq<u64>)
    ensures
        apply_heartbeats(w, ts).addr == w.addr,
        ts.len() == 0 ==> apply_heartbeats(w, ts) == w,
        ts.len() > 0 ==> apply_heartbeats(w, ts).status == WorkerStatus::Running,
        apply_heartbeats(w, ts).last_heartbeat_at >= w.last_heartbeat_at,
        forall|i: int|
            0 <= i < ts.len() ==> apply_heartbeats(w, ts).last_heartbeat_at >= #[trigger] ts[i],
        apply_heartbeats(w, ts).last_heartbeat_at == w.last_heartbeat_at || exists|i: int|
            0 <= i < ts.len() && #[trigger] ts[i] == apply_heartbeats(w, ts).last_heartbeat_at,
    decreases ts.len(),
{
    if ts.len() > 0 {
        let w1 = hb_update(w, ts[0]);
        let rest = ts.drop_first();
        lemma_apply_heartbeats_char(w1, rest);
        let r = apply_heartbeats(w, ts);
        assert forall|i: int| 0 <= i < ts.len() implies r.last_heartbeat_at >= #[trigger] ts[i] by {
            if i == 0 {
                assert(r.last_heartbeat_at >= w1.last_heartbeat_at >= ts[0]);
            } else {
                assert(rest[i - 1] == ts[i]);
            }
        }
        if r.last_heartbeat_at != w.last_heartbeat_at {
            if r.last_heartbeat_at == w1.last_heartbeat_at {
                assert(ts[0] == r.last_heartbeat_at);
            } else {
                let i = choose|i: int|
                    0 <= i < rest.len() && #[trigger] rest[i] == r.last_heartbeat_at;
                assert(ts[i + 1] == r.last_heartbeat_at);
            }
        }
    }
}

proof fn lemma_apply_heartbeats_le(w: WorkerView, tsa: Seq<u64>, tsb: Seq<u64>)
    requires
        tsa.to_multiset() == tsb.to_multiset(),
    ensures
        apply_heartbeats(w, tsa).last_heartbeat_at <= apply_heartbeats(w, tsb).last_heartbeat_at,
{
    broadcast use vstd::seq_lib::group_to_multiset_ensures;

    lemma_apply_heartbeats_char(w, tsa);
    lemma_apply_heartbeats_char(w, tsb);
    let la = apply_heartbeats(w, tsa).last_heartbeat_at;
    if la != w.last_heartbeat_at {
        let i = choose|i: int| 0 <= i < tsa.len() && #[trigger] tsa[i] == la;
        assert(tsa.contains(la));
        assert(tsa.to_multiset().count(la) > 0);
        assert(tsb.contains(la));
        let j = choose|j: int| 0 <= j < tsb.len() && #[trigger] tsb[j] == la;
        assert(apply_heartbeats(w, tsb).last_heartbeat_at >= tsb[j]);
    }
}

/// Law: for any worker and any set of heartbeat timestamps, the worker's
/// recorded last heartbeat and status do not depend on the order (or
/// duplication order) in which the heartbeats arrive.
pub proof fn lemma_heartbeats_order_immaterial(w: WorkerView, tsa: Seq<u64>, tsb: Seq<u64>)
    requires
        tsa.to_multiset() == tsb.to_multiset(),
    ensures
        apply_heartbeats(w, tsa) == apply_heartbeats(w, tsb),
{
    broadcast use vstd::seq_lib::group_to_multiset_ensures;

    lemma_apply_heartbeats_le(w, tsa, tsb);
    lemma_apply_heartbeats_le(w, tsb, tsa);
    lemma_apply_heartbeats_char(w, tsa);
    lemma_apply_heartbeats_char(w, tsb);
    vstd::seq_lib::to_multiset_len(tsa);
    vstd::seq_lib::to_multiset_len(tsb);
    assert(tsa.len() == tsb.len());
}

/// Law: one heartbeat makes its sender `Running`, whatever the status was,
/// so a heartbeat revives an unreachable worker.
pub proof fn lemma_heartbeat_revives(w: WorkerView, ts: u64)
    ensures
        hb_update(w, ts).status == WorkerStatus::Running,
        hb_update(w, ts).last_heartbeat_at >= w.last_heartbeat_at,
        hb_update(w, ts).last_heartbeat_at >= ts,
{
}

/// The operators of a placed dataflow assigned to `a`, in declared order.
pub open spec fn ops_assigned_to(
    nodes: Seq<OperatorSpecView>,
    a: HostAddrView,
) -> Seq<OperatorSpecView>
    decreases nodes.len(),
{
    if nodes.len() == 0 {
        Seq::empty()
    } else {
        let rest = ops_assigned_to(nodes.drop_last(), a);
        if nodes.last().host_addr == Option::Some(a) {
            rest.push(nodes.last())
        } else {
            rest
        }
    }
}

/// The distinct placement targets of a placed dataflow, in order of first
/// appearance.
pub open spec fn distinct_targets(nodes: Seq<OperatorSpecView>) -> Seq<HostAddrView>
    decreases nodes.len(),
{
    if nodes.len() == 0 {
        Seq::empty()
    } else {
        let rest = distinct_targets(nodes.drop_last());
        let a = nodes.last().host_addr->Some_0;
        if rest.contains(a) {
            rest
        } else {
            rest.push(a)
        }
    }
}

/// Law: a deployment plan is a true partition of the placed dataflow —
/// every operator's target is one of the planned requests' targets, and no
/// target is planned twice.
pub proof fn lemma_deployment_targets_cover_all(nodes: Seq<OperatorSpecView>)
    ensures
        forall|i: int|
            0 <= i < nodes.len() ==> distinct_targets(nodes).contains(
                (#[trigger] nodes[i]).host_addr->Some_0,
            ),
        forall|i: int, j: int|
            0 <= i < j < distinct_targets(nodes).len() ==> #[trigger] distinct_targets(nodes)[i]
                != #[trigger] distinct_targets(nodes)[j],
    decreases nodes.len(),
{
    if nodes.len() > 0 {
        let rest_nodes = nodes.drop_last();
        let rest = distinct_targets(rest_nodes);
        let dt = distinct_targets(nodes);
        let a = nodes.last().host_addr->Some_0;
        lemma_deployment_targets_cover_all(rest_nodes);
        assert forall|i: int| 0 <= i < nodes.len() implies dt.contains(
            (#[trigger] nodes[i]).host_addr->Some_0,
        ) by {
            if i < nodes.len() - 1 {
                assert(rest_nodes[i] == nodes[i]);
                let x = nodes[i].host_addr->Some_0;
                let w = choose|w: int| 0 <= w < rest.len() && rest[w] == x;
                assert(dt[w] == x);
            } else {
                if rest.contains(a) {
                } else {
                    assert(dt[dt.len() - 1] == a);
                }
            }
        }
        assert forall|i: int, j: int| 0 <= i < j < dt.len() implies #[trigger] dt[i]
            != #[trigger] dt[j] by {
            if j < rest.len() {
                assert(rest[i] != rest[j]);
            } else {
                assert(!rest.contains(a));
                assert(dt[i] == rest[i]);
            }
        }
    }
}

/// The values of a list of addresses.
pub open spec fn addr_views(s: Seq<HostAddr>) -> Seq<HostAddrView> {
    s.map_values(|a: HostAddr| a@)
}

/// The values of a list of operators.
pub open spec fn op_views(s: Seq<OperatorSpec>) -> Seq<OperatorSpecView> {
    s.map_values(|o: OperatorSpec| o@)
}

/// The sub-dataflow shipped to one worker: the job, that worker's
/// operators, and every edge of the full dataflow (sub-graphs refer to
/// peer executors by id).
#[derive(Debug)]
pub struct CreateSubDataflowRequest {
    pub job_id: JobId,
    pub target: HostAddr,
    pub operators: Vec<OperatorSpec>,
    pub edges: Vec<Edge>,
}

/// What a correct deployment plan for a placed dataflow looks like: one
/// request per distinct target, carrying exactly that target's operators
/// and all edges.
pub open spec fn deployment_plan_of(
    plan: Seq<CreateSubDataflowRequest>,
    d: DataflowView,
) -> bool {
    &&& plan.len() == distinct_targets(d.nodes).len()
    &&& forall|k: int|
        0 <= k < plan.len() ==> {
            &&& (#[trigger] plan[k]).job_id@ == d.job_id->Some_0
            &&& plan[k].target@ == distinct_targets(d.nodes)[k]
            &&& plan[k].edges@ == d.edges
            &&& op_views(plan[k].operators@) == ops_assigned_to(
                d.nodes,
                distinct_targets(d.nodes)[k],
            )
        }
}

/// Whether `a`'s value occurs among `v`.
fn addrs_contains(v: &Vec<HostAddr>, a: &HostAddr) -> (r: bool)
    ensures
        r == addr_views(v@).contains(a@),
{
    let mut i: usize = 0;
    while i < v.len()
        invariant
            i <= v@.len(),
            forall|j: int| 0 <= j < i ==> addr_views(v@)[j] != a@,
        decreases v@.len() - i,
    {
        proof {
            assert(addr_views(v@)[i as int] == v@[i as int]@);
        }
        if v[i].addr_eq(a) {
            proof {
                assert(addr_views(v@).contains(a@));
            }
            return true;
        }
        i += 1;
    }
    false
}

/// Groups a placed dataflow by assigned address: one request per distinct
/// target, in order of first appearance, each carrying that target's
/// operators in declared order and all of the dataflow's edges.
pub fn plan_deployment(dataflow: &Dataflow) -> (r: Vec<CreateSubDataflowRequest>)
    requires
        dataflow@.job_id is Some,
        forall|i: int|
            0 <= i < dataflow@.nodes.len() ==> (#[trigger] dataflow@.nodes[i]).host_addr is Some,
    ensures
        deployment_plan_of(r@, dataflow@),
{
    let job = dataflow.job_id.as_ref().unwrap();
    let n = dataflow.nodes.len();
    proof {
        assert(dataflow@.nodes.len() == n);
    }
    let mut targets: Vec<HostAddr> = Vec::new();
    let mut i: usize = 0;
    while i < n
        invariant
            i <= n,
            n == dataflow.nodes@.len(),
            n == dataflow@.nodes.len(),
            forall|j: int|
                0 <= j < dataflow@.nodes.len() ==> (#[trigger] dataflow@.nodes[j]).host_addr
                    is Some,
            addr_views(targets@) == distinct_targets(dataflow@.nodes.take(i as int)),
        decreases n - i,
    {
        let ghost pre = addr_views(targets@);
        proof {
            assert(dataflow@.nodes[i as int] == dataflow.nodes@[i as int]@);
            assert(dataflow@.nodes.take(i as int + 1).drop_last() =~= dataflow@.nodes.take(
                i as int,
            ));
            assert(dataflow@.nodes.take(i as int + 1).last() == dataflow@.nodes[i as int]);
        }
        let node = &dataflow.nodes[i];
        match &node.host_addr {
            Option::Some(a) => {
                if !addrs_contains(&targets, a) {
                    targets.push(a.duplicate());
                    proof {
                        assert(addr_views(targets@) =~= pre.push(a@));
                    }
                }
            },
            Option::None => {
                proof {
                    assert(false);
                }
            },
        }
        i += 1;
    }
    proof {
        assert(dataflow@.nodes.take(n as int) =~= dataflow@.nodes);
    }
    let mut out: Vec<CreateSubDataflowRequest> = Vec::new();
    let mut k: usize = 0;
    while k < targets.len()
        invariant
            k <= targets@.len(),
            n == dataflow.nodes@.len(),
            n == dataflow@.nodes.len(),
            dataflow@.job_id is Some,
            job@ == dataflow@.job_id->Some_0,
            forall|j: int|
                0 <= j < dataflow@.nodes.len() ==> (#[trigger] dataflow@.nodes[j]).host_addr
                    is Some,
            addr_views(targets@) == distinct_targets(dataflow@.nodes),
            out@.len() == k,
            forall|kk: int|
                0 <= kk < k ==> {
                    &&& (#[trigger] out@[kk]).job_id@ == dataflow@.job_id->Some_0
                    &&& out@[kk].target@ == distinct_targets(dataflow@.nodes)[kk]
                    &&& out@[kk].edges@ == dataflow@.edges
                    &&& op_views(out@[kk].operators@) == ops_assigned_to(
                        dataflow@.nodes,
                        distinct_targets(dataflow@.nodes)[kk],
                    )
                },
        decreases targets@.len() - k,
    {
        let target = &targets[k];
        proof {
            assert(addr_views(targets@)[k as int] == targets@[k as int]@);
        }
        let mut ops: Vec<OperatorSpec> = Vec::new();
        let mut i2: usize = 0;
        while i2 < n
            invariant
                i2 <= n,
                n == dataflow.nodes@.len(),
                n == dataflow@.nodes.len(),
                forall|j: int|
                    0 <= j < dataflow@.nodes.len() ==> (#[trigger] dataflow@.nodes[j]).host_addr
                        is Some,
                op_views(ops@) == ops_assigned_to(dataflow@.nodes.take(i2 as int), target@),
            decreases n - i2,
        {
            let ghost pre_ops = op_views(ops@);
            proof {
                assert(dataflow@.nodes[i2 as int] == dataflow.nodes@[i2 as int]@);
                assert(dataflow@.nodes.take(i2 as int + 1).drop_last() =~= dataflow@.nodes.take(
                    i2 as int,
                ));
                assert(dataflow@.nodes.take(i2 as int + 1).last() == dataflow@.nodes[i2 as int]);
            }
            let node = &dataflow.nodes[i2];
            match &node.host_addr {
                Option::Some(a) => {
                    if a.addr_eq(target) {
                        ops.push(node.duplicate());
                        proof {
                            assert(op_views(ops@) =~= pre_ops.push(dataflow@.nodes[i2 as int]));
                        }
                    }
                },
                Option::None => {
                    proof {
                        assert(false);
                    }
                },
            }
            i2 += 1;
        }
        proof {
            assert(dataflow@.nodes.take(n as int) =~= dataflow@.nodes);
        }
        let edges = dataflow.edges.clone();
        proof {
            assert(edges@ =~= dataflow.edges@);
        }
        out.push(
            CreateSubDataflowRequest {
                job_id: job.duplicate(),
                target: target.duplicate(),
                operators: ops,
                edges,
            },
        );
        k += 1;
    }
    out
}

impl Cluster {
    /// Builds the registry from static configuration; workers start
    /// `Pending` with no heartbeat seen.
    pub fn new(cluster_config: &Vec<NodeConfig>) -> (r: Cluster)
        ensures
            r@.len() == cluster_config@.len(),
            forall|i: int|
                0 <= i < cluster_config@.len() ==> (#[trigger] r@[i]) == (WorkerView {
                    addr: cluster_config@[i]@,
                    status: WorkerStatus::Pending,
                    last_heartbeat_at: 0u64,
                }),
    {
        let mut workers: Vec<Worker> = Vec::new();
        let mut i: usize = 0;
        while i < cluster_config.len()
            invariant
                i <= cluster_config@.len(),
                workers@.len() == i,
                forall|j: int|
                    0 <= j < i ==> (#[trigger] workers@[j])@ == (WorkerView {
                        addr: cluster_config@[j]@,
                        status: WorkerStatus::Pending,
                        last_heartbeat_at: 0u64,
                    }),
            decreases cluster_config@.len() - i,
        {
            let cfg = &cluster_config[i];
            workers.push(
                Worker {
                    addr: HostAddr { host: cfg.host.clone(), port: cfg.port },
                    status: WorkerStatus::Pending,
                    last_heartbeat_at: 0,
                },
            );
            i += 1;
        }
        let r = Cluster { workers };
        proof {
            assert forall|j: int| 0 <= j < cluster_config@.len() implies (#[trigger] r@[j])
                == (WorkerView {
                addr: cluster_config@[j]@,
                status: WorkerStatus::Pending,
                last_heartbeat_at: 0u64,
            }) by {
                assert(r@[j] == r.workers@[j]@);
            }
        }
        r
    }

    /// The addresses available to placement, in registry order.
    fn available_addrs(&self) -> (r: Vec<HostAddr>)
        ensures
            r@.map_values(|a: HostAddr| a@) == avail_addrs(self@),
    {
        let mut out: Vec<HostAddr> = Vec::new();
        let mut i: usize = 0;
        while i < self.workers.len()
            invariant
                i <= self.workers@.len(),
                self@.len() == self.workers@.len(),
                out@.map_values(|a: HostAddr| a@) == avail_addrs(self@.take(i as int)),
            decreases self.workers@.len() - i,
        {
            let ghost pre = out@.map_values(|a: HostAddr| a@);
            proof {
                assert(self@[i as int] == self.workers@[i as int]@);
                assert(self@.take(i as int + 1).drop_last() =~= self@.take(i as int));
                assert(self@.take(i as int + 1).last() == self@[i as int]);
            }
            match self.workers[i].status {
                WorkerStatus::Unreachable => {
                    proof {
                        assert(out@.map_values(|a: HostAddr| a@) == avail_addrs(
                            self@.take(i as int + 1),
                        ));
                    }
                },
                _ => {
                    out.push(self.workers[i].addr.duplicate());
                    proof {
                        assert(out@.map_values(|a: HostAddr| a@) =~= pre.push(
                            self@[i as int].addr,
                        ));
                    }
                },
            }
            i += 1;
        }
        proof {
            assert(self@.take(self@.len() as int) =~= self@);
        }
        out
    }

    /// Assigns every operator a worker, round-robin over the workers that
    /// are not unreachable, in declared operator order. Fails exactly when
    /// no worker is available; the dataflow is then left unchanged.
    pub fn partition_dataflow(&self, dataflow: &mut Dataflow) -> (r: Result<(), CoordException>)
        ensures
            r is Ok <==> avail_addrs(self@).len() > 0,
            r is Ok ==> placement_of(final(dataflow)@, old(dataflow)@, avail_addrs(self@)),
            r matches Err(e) ==> e.kind == CoordErrorKind::NoAvailableWorker && final(dataflow)@
                == old(dataflow)@,
    {
        let avail = self.available_addrs();
        let ghost av = avail_addrs(self@);
        proof {
            assert(avail@.len() == av.len());
        }
        if avail.len() == 0 {
            return Err(CoordException::of_kind(CoordErrorKind::NoAvailableWorker));
        }
        let n = dataflow.nodes.len();
        let mut i: usize = 0;
        while i < n
            invariant
                i <= n,
                n == dataflow.nodes@.len(),
                avail@.len() == av.len() > 0,
                avail@.map_values(|a: HostAddr| a@) == av,
                dataflow.job_id == old(dataflow).job_id,
                dataflow.edges@ == old(dataflow).edges@,
                dataflow.nodes@.len() == old(dataflow).nodes@.len(),
                forall|j: int|
                    i <= j < n ==> (#[trigger] dataflow.nodes@[j]) == old(dataflow).nodes@[j],
                forall|j: int|
                    0 <= j < i ==> {
                        &&& (#[trigger] dataflow.nodes@[j]).executor_id == old(
                            dataflow,
                        ).nodes@[j].executor_id
                        &&& dataflow.nodes@[j].payload@ == old(dataflow).nodes@[j].payload@
                        &&& dataflow.nodes@[j].host_addr matches Option::Some(a) && a@ == av[
                            j % av.len() as int]
                    },
            decreases n - i,
        {
            let k = i % avail.len();
            let addr = avail[k].duplicate();
            proof {
                assert(avail@.map_values(|a: HostAddr| a@)[k as int] == av[k as int]);
            }
            let slot = &mut dataflow.nodes[i];
            slot.host_addr = Some(addr);
            i += 1;
        }
        proof {
            let d2 = dataflow@;
            let d1 = old(dataflow)@;
            assert(d2.nodes.len() == d1.nodes.len());
            assert forall|j: int| 0 <= j < d1.nodes.len() implies {
                &&& (#[trigger] d2.nodes[j]).executor_id == d1.nodes[j].executor_id
                &&& d2.nodes[j].payload == d1.nodes[j].payload
                &&& d2.nodes[j].host_addr == Option::Some(av[j % av.len() as int])
            } by {
                assert(d2.nodes[j] == dataflow.nodes@[j]@);
                assert(d1.nodes[j] == old(dataflow).nodes@[j]@);
            }
        }
        Ok(())
    }

    /// Records one heartbeat: the matching worker becomes `Running`, and
    /// its largest seen timestamp absorbs duplicates and reorderings.
    pub fn apply_heartbeat(&mut self, hb: &Heartbeat)
        ensures
            final(self)@.len() == old(self)@.len(),
            forall|i: int|
                0 <= i < old(self)@.len() ==> (#[trigger] final(self)@[i]) == (
                if old(self)@[i].addr == hb.sender@ {
                    hb_update(old(self)@[i], hb.timestamp)
                } else {
                    old(self)@[i]
                }),
    {
        let n = self.workers.len();
        let mut i: usize = 0;
        while i < n
            invariant
                i <= n,
                n == self.workers@.len(),
                self.workers@.len() == old(self).workers@.len(),
                forall|j: int|
                    i <= j < n ==> (#[trigger] self.workers@[j]) == old(self).workers@[j],
                forall|j: int|
                    0 <= j < i ==> (#[trigger] self.workers@[j])@ == (
                    if old(self).workers@[j]@.addr == hb.sender@ {
                        hb_update(old(self).workers@[j]@, hb.timestamp)
                    } else {
                        old(self).workers@[j]@
                    }),
            decreases n - i,
        {
            if self.workers[i].addr.addr_eq(&hb.sender) {
                let slot = &mut self.workers[i];
                slot.status = WorkerStatus::Running;
                if hb.timestamp > slot.last_heartbeat_at {
                    slot.last_heartbeat_at = hb.timestamp;
                }
            }
            i += 1;
        }
        proof {
            assert forall|i2: int| 0 <= i2 < old(self)@.len() implies (#[trigger] self@[i2]) == (
            if old(self)@[i2].addr == hb.sender@ {
                hb_update(old(self)@[i2], hb.timestamp)
            } else {
                old(self)@[i2]
            }) by {
                assert(self@[i2] == self.workers@[i2]@);
                assert(old(self)@[i2] == old(self).workers@[i2]@);
            }
        }
    }

    /// Records the outcome of one liveness probe of worker `idx`: success
    /// marks it `Running` as of `now`; failure marks it `Unreachable`.
    pub fn apply_probe_result(&mut self, idx: usize, ok: bool, now: u64)
        requires
            idx < old(self)@.len(),
        ensures
            final(self)@.len() == old(self)@.len(),
            forall|i: int|
                0 <= i < old(self)@.len() && i != idx ==> (#[trigger] final(self)@[i]) == old(self)@[i],
            ok ==> final(self)@[idx as int] == (WorkerView {
                addr: old(self)@[idx as int].addr,
                status: WorkerStatus::Running,
                last_heartbeat_at: now,
            }),
            !ok ==> final(self)@[idx as int] == (WorkerView {
                addr: old(self)@[idx as int].addr,
                status: WorkerStatus::Unreachable,
                last_heartbeat_at: old(self)@[idx as int].last_heartbeat_at,
            }),
    {
        let slot = &mut self.workers[idx];
        if ok {
            slot.status = WorkerStatus::Running;
            slot.last_heartbeat_at = now;
        } else {
            slot.status = WorkerStatus::Unreachable;
        }
        proof {
            assert forall|i: int| 0 <= i < old(self)@.len() && i != idx implies (
            #[trigger] self@[i]) == old(self)@[i] by {
                assert(self@[i] == self.workers@[i]@);
                assert(old(self)@[i] == old(self).workers@[i]@);
            }
            assert(self@[idx as int] == self.workers@[idx as int]@);
            assert(old(self)@[idx as int] == old(self).workers@[idx as int]@);
        }
    }

    /// Marks every worker whose last heartbeat is older than `timeout`
    /// before `now` as `Unreachable`; the rest are untouched.
    pub fn expire_stale(&mut self, now: u64, timeout: u64)
        ensures
            final(self)@.len() == old(self)@.len(),
            forall|i: int|
                0 <= i < old(self)@.len() ==> (#[trigger] final(self)@[i]) == (
                if old(self)@[i].last_heartbeat_at < now && now - old(self)@[i].last_heartbeat_at
                    > timeout {
                    WorkerView {
                        addr: old(self)@[i].addr,
                        status: WorkerStatus::Unreachable,
                        last_heartbeat_at: old(self)@[i].last_heartbeat_at,
                    }
                } else {
                    old(self)@[i]
                }),
    {
        let n = self.workers.len();
        let mut i: usize = 0;
        while i < n
            invariant
                i <= n,
                n == self.workers@.len(),
                self.workers@.len() == old(self).workers@.len(),
                forall|j: int|
                    i <= j < n ==> (#[trigger] self.workers@[j]) == old(self).workers@[j],
                forall|j: int|
                    0 <= j < i ==> (#[trigger] self.workers@[j])@ == (
                    if old(self).workers@[j]@.last_heartbeat_at < now && now - old(self).workers@[j]@.last_heartbeat_at > timeout {
                        WorkerView {
                            addr: old(self).workers@[j]@.addr,
                            status: WorkerStatus::Unreachable,
                            last_heartbeat_at: old(self).workers@[j]@.last_heartbeat_at,
                        }
                    } else {
                        old(self).workers@[j]@
                    }),
            decreases n - i,
        {
            let last = self.workers[i].last_heartbeat_at;
            if last < now && now - last > timeout {
                let slot = &mut self.workers[i];
                slot.status = WorkerStatus::Unreachable;
            }
            i += 1;
        }
        proof {
            assert forall|i2: int| 0 <= i2 < old(self)@.len() implies (#[trigger] self@[i2]) == (
            if old(self)@[i2].last_heartbeat_at < now && now - old(self)@[i2].last_heartbeat_at
                > timeout {
                WorkerView {
                    addr: old(self)@[i2].addr,
                    status: WorkerStatus::Unreachable,
                    last_heartbeat_at: old(self)@[i2].last_heartbeat_at,
                }
            } else {
                old(self)@[i2]
            }) by {
                assert(self@[i2] == self.workers@[i2]@);
                assert(old(self)@[i2] == old(self).workers@[i2]@);
            }
        }
    }

    /// The addresses that a termination broadcast goes to: every known
    /// worker, since placements are not remembered after a save.
    pub fn stop_targets(&self) -> (r: Vec<HostAddr>)
        ensures
            r@.len() == self@.len(),
            forall|i: int| 0 <= i < self@.len() ==> (#[trigger] r@[i])@ == self@[i].addr,
    {
        let mut out: Vec<HostAddr> = Vec::new();
        let mut i: usize = 0;
        while i < self.workers.len()
            invariant
                i <= self.workers@.len(),
                self@.len() == self.workers@.len(),
                out@.len() == i,
                forall|j: int| 0 <= j < i ==> (#[trigger] out@[j])@ == self@[j].addr,
            decreases self.workers@.len() - i,
        {
            out.push(self.workers[i].addr.duplicate());
            proof {
                assert(self@[i as int] == self.workers@[i as int]@);
            }
            i += 1;
        }
        out
    }
}

} // verus!
