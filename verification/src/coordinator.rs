//! The coordinator: end-to-end dataflow lifecycle. A submission is
//! validated, partitioned over the live workers, preceded by a termination
//! of any prior incarnation of the same job, persisted, and turned into a
//! deployment plan; termination deletes from storage and plans a stop
//! broadcast. Sending the planned requests is transport work and happens
//! outside the library; the plans say exactly what must be sent, and in
//! which order (stops strictly before deployments).

use vstd::prelude::*;
use crate::cluster::{
    avail_addrs, deployment_plan_of, placement_of, plan_deployment, Cluster,
    CreateSubDataflowRequest, NodeConfig, WorkerView,
};
use crate::storage::{df_key, DataflowStorageImpl, MemDataflowStorage, PersistDataflowStorage};
use crate::types::{
    CoordErrorKind, CoordException, Dataflow, DataflowStatus, DataflowView, Heartbeat, HostAddr,
    JobId, JobIdView, RpcError,
};
use crate::validate::valid_dataflow;
use crate::gateway::Response;

verus! {

/// What a termination asks the caller to send: `stop_dataflow` to each of
/// these workers. Idempotent termination of an unknown job plans nothing.
#[derive(Debug)]
pub struct TerminationPlan {
    pub status: DataflowStatus,
    pub stop_targets: Vec<HostAddr>,
}

/// What an accepted submission asks the caller to send: first the stop
/// broadcast for the replaced incarnation, then one sub-dataflow per
/// worker. `dataflow` is the placed dataflow as persisted.
#[derive(Debug)]
pub struct SubmissionPlan {
    pub dataflow: Dataflow,
    pub stop_targets: Vec<HostAddr>,
    pub deploy: Vec<CreateSubDataflowRequest>,
}

/// The coordination plane: it exclusively owns the cluster registry and
/// the dataflow storage.
pub struct Coordinator {
    dataflow_storage: DataflowStorageImpl,
    cluster: Cluster,
}

impl Coordinator {
    /// The storage's internal invariant.
    pub closed spec fn wf(self) -> bool {
        self.dataflow_storage.wf()
    }

    /// What is currently stored, job identity to dataflow.
    pub closed spec fn contents(self) -> Map<JobIdView, DataflowView> {
        self.dataflow_storage.contents()
    }

    /// The worker registry.
    pub closed spec fn workers(self) -> Seq<WorkerView> {
        self.cluster@
    }

    /// Whether the in-memory backend is in use; its storage never fails.
    pub closed spec fn is_memory_backed(self) -> bool {
        self.dataflow_storage is Memory
    }

    pub fn new(job_storage: DataflowStorageImpl, cluster_config: &Vec<NodeConfig>) -> (r:
        Coordinator)
        requires
            job_storage.wf(),
        ensures
            r.wf(),
            r.contents() == job_storage.contents(),
            r.is_memory_backed() == (job_storage is Memory),
            r.workers().len() == cluster_config@.len(),
            forall|i: int|
                0 <= i < cluster_config@.len() ==> (#[trigger] r.workers()[i]) == (WorkerView {
                    addr: cluster_config@[i]@,
                    status: crate::cluster::WorkerStatus::Pending,
                    last_heartbeat_at: 0u64,
                }),
    {
        Coordinator { dataflow_storage: job_storage, cluster: Cluster::new(cluster_config) }
    }

    /// Submits a dataflow: validate, place, terminate any prior
    /// incarnation, persist, and plan the deployment. Rejections carry
    /// `InvalidDataflow` exactly on invalid input and `NoAvailableWorker`
    /// exactly when a valid input meets a cluster with no usable worker;
    /// the in-memory backend owes success on every other input.
    pub fn create_dataflow(&mut self, dataflow: Dataflow) -> (r: Result<
        SubmissionPlan,
        CoordException,
    >)
        requires
            old(self).wf(),
        ensures
            final(self).wf(),
            final(self).workers() == old(self).workers(),
            final(self).is_memory_backed() == old(self).is_memory_backed(),
            (r matches Err(e) && e.kind == CoordErrorKind::InvalidDataflow) <==> !valid_dataflow(
                dataflow@,
            ),
            (r matches Err(e) && e.kind == CoordErrorKind::NoAvailableWorker) <==> (
            valid_dataflow(dataflow@) && avail_addrs(old(self).workers()).len() == 0),
            r matches Ok(p) ==> {
                &&& placement_of(p.dataflow@, dataflow@, avail_addrs(old(self).workers()))
                &&& deployment_plan_of(p.deploy@, p.dataflow@)
                &&& final(self).contents() == old(self).contents().insert(
                    df_key(p.dataflow@),
                    p.dataflow@,
                )
            },
            r matches Err(e) ==> (e.kind == CoordErrorKind::InvalidDataflow || e.kind
                == CoordErrorKind::NoAvailableWorker || e.kind == CoordErrorKind::StorageSaveFailed
                || e.kind == CoordErrorKind::StorageDeleteFailed),
            old(self).is_memory_backed() && valid_dataflow(dataflow@) && avail_addrs(
                old(self).workers(),
            ).len() > 0 ==> r is Ok,
            old(self).is_memory_backed() ==> (r matches Ok(p) ==> {
                &&& old(self).contents().contains_key(df_key(p.dataflow@))
                    ==> p.stop_targets@.len() == old(self).workers().len() && (forall|i: int|
                    0 <= i < old(self).workers().len() ==> (#[trigger] p.stop_targets@[i])@
                        == old(self).workers()[i].addr)
                &&& !old(self).contents().contains_key(df_key(p.dataflow@))
                    ==> p.stop_targets@.len() == 0
            }),
    {
        let mut df = dataflow;
        match df.validate() {
            Err(e) => {
                return Err(e);
            },
            Ok(_) => {},
        }
        match self.cluster.partition_dataflow(&mut df) {
            Err(e) => {
                return Err(e);
            },
            Ok(_) => {},
        }
        let key = df.job_id.as_ref().unwrap().duplicate();
        let tplan = match self.terminate_dataflow(&key) {
            Ok(p) => p,
            Err(e) => {
                return Err(e);
            },
        };
        let placed = df.duplicate();
        match self.dataflow_storage.save(df) {
            Err(e) => {
                return Err(e);
            },
            Ok(_) => {},
        }
        proof {
            assert(final(self).contents() =~= old(self).contents().insert(
                df_key(placed@),
                placed@,
            ));
        }
        let deploy = plan_deployment(&placed);
        Ok(SubmissionPlan { dataflow: placed, stop_targets: tplan.stop_targets, deploy })
    }

    /// Terminates a job: an unknown job is already `Closed` and plans no
    /// worker calls; a known one is deleted from storage first, and only
    /// then is a stop broadcast to every worker planned. A storage error
    /// aborts before any broadcast is planned.
    pub fn terminate_dataflow(&mut self, job_id: &JobId) -> (r: Result<
        TerminationPlan,
        CoordException,
    >)
        requires
            old(self).wf(),
        ensures
            final(self).wf(),
            final(self).workers() == old(self).workers(),
            final(self).is_memory_backed() == old(self).is_memory_backed(),
            r matches Ok(p) ==> p.status == DataflowStatus::Closed,
            r matches Err(e) ==> e.kind == CoordErrorKind::StorageDeleteFailed,
            r matches Ok(p) ==> (final(self).contents() == old(self).contents() || final(self).contents() == old(self).contents().remove(job_id@)),
            old(self).is_memory_backed() ==> {
                &&& r is Ok
                &&& final(self).contents() == old(self).contents().remove(job_id@)
            },
            old(self).is_memory_backed() && !old(self).contents().contains_key(job_id@)
                ==> (r matches Ok(p) && p.stop_targets@.len() == 0),
            old(self).is_memory_backed() && old(self).contents().contains_key(job_id@)
                ==> (r matches Ok(p) && p.stop_targets@.len() == old(self).workers().len()
                    && (forall|i: int|
                        0 <= i < old(self).workers().len() ==> (#[trigger] p.stop_targets@[i])@
                            == old(self).workers()[i].addr)),
    {
        if !self.dataflow_storage.may_exists(job_id) {
            proof {
                if self.dataflow_storage is Memory {
                    assert(self.contents() =~= self.contents().remove(job_id@));
                }
            }
            return Ok(TerminationPlan { status: DataflowStatus::Closed, stop_targets: Vec::new() });
        }
        match self.dataflow_storage.delete(job_id) {
            Err(e) => Err(e),
            Ok(_) => Ok(
                TerminationPlan {
                    status: DataflowStatus::Closed,
                    stop_targets: self.cluster.stop_targets(),
                },
            ),
        }
    }

    /// Reads the stored dataflow for `job_id` through the storage layer.
    pub fn get_dataflow(&self, job_id: &JobId) -> (r: Option<Dataflow>)
        requires
            self.wf(),
        ensures
            r matches Some(d) ==> self.contents().contains_key(job_id@) && d@
                == self.contents()[job_id@],
            !self.contents().contains_key(job_id@) ==> r is None,
            self.is_memory_backed() && self.contents().contains_key(job_id@) ==> r is Some,
    {
        self.dataflow_storage.get(job_id)
    }

    /// The workers a liveness probe must visit, in registry order.
    pub fn probe_targets(&self) -> (r: Vec<HostAddr>)
        ensures
            r@.len() == self.workers().len(),
            forall|i: int|
                0 <= i < self.workers().len() ==> (#[trigger] r@[i])@ == self.workers()[i].addr,
    {
        self.cluster.stop_targets()
    }

    /// Records the outcome of the probe of worker `idx`.
    pub fn apply_probe_result(&mut self, idx: usize, ok: bool, now: u64)
        requires
            old(self).wf(),
            idx < old(self).workers().len(),
        ensures
            final(self).wf(),
            final(self).contents() == old(self).contents(),
            final(self).is_memory_backed() == old(self).is_memory_backed(),
            final(self).workers().len() == old(self).workers().len(),
            forall|i: int|
                0 <= i < old(self).workers().len() && i != idx ==> (#[trigger] final(self).workers()[i]) == old(self).workers()[i],
            ok ==> final(self).workers()[idx as int] == (WorkerView {
                addr: old(self).workers()[idx as int].addr,
                status: crate::cluster::WorkerStatus::Running,
                last_heartbeat_at: now,
            }),
            !ok ==> final(self).workers()[idx as int] == (WorkerView {
                addr: old(self).workers()[idx as int].addr,
                status: crate::cluster::WorkerStatus::Unreachable,
                last_heartbeat_at: old(self).workers()[idx as int].last_heartbeat_at,
            }),
    {
        self.cluster.apply_probe_result(idx, ok, now);
    }

    /// Feeds one incoming heartbeat into the cluster model.
    pub fn receive_heartbeat(&mut self, hb: &Heartbeat)
        requires
            old(self).wf(),
        ensures
            final(self).wf(),
            final(self).contents() == old(self).contents(),
            final(self).is_memory_backed() == old(self).is_memory_backed(),
            final(self).workers().len() == old(self).workers().len(),
            forall|i: int|
                0 <= i < old(self).workers().len() ==> (#[trigger] final(self).workers()[i]) == (
                if old(self).workers()[i].addr == hb.sender@ {
                    crate::cluster::hb_update(old(self).workers()[i], hb.timestamp)
                } else {
                    old(self).workers()[i]
                }),
    {
        self.cluster.apply_heartbeat(hb);
    }

    /// Marks workers whose heartbeat is older than `timeout` before `now`
    /// as unreachable.
    pub fn expire_stale_workers(&mut self, now: u64, timeout: u64)
        requires
            old(self).wf(),
        ensures
            final(self).wf(),
            final(self).contents() == old(self).contents(),
            final(self).is_memory_backed() == old(self).is_memory_backed(),
            final(self).workers().len() == old(self).workers().len(),
            forall|i: int|
                0 <= i < old(self).workers().len() ==> (#[trigger] final(self).workers()[i]) == (
                if old(self).workers()[i].last_heartbeat_at < now && now - old(self).workers()[i].last_heartbeat_at > timeout {
                    WorkerView {
                        addr: old(self).workers()[i].addr,
                        status: crate::cluster::WorkerStatus::Unreachable,
                        last_heartbeat_at: old(self).workers()[i].last_heartbeat_at,
                    }
                } else {
                    old(self).workers()[i]
                }),
    {
        self.cluster.expire_stale(now, timeout);
    }
}

/// Decides a deployment's overall outcome from the per-worker replies:
/// success needs every worker to have accepted its sub-dataflow; the first
/// failure is returned as-is, and already-deployed partitions are not
/// rolled back here.
pub fn deploy_outcome(results: &Vec<Result<Response, RpcError>>) -> (r: Result<(), CoordException>)
    ensures
        r is Ok <==> forall|i: int| 0 <= i < results@.len() ==> (#[trigger] results@[i]) is Ok,
        r matches Err(e) ==> exists|i: int|
            0 <= i < results@.len() && ((#[trigger] results@[i]) matches Err(re) && e.kind
                == crate::types::spec_rpc_error_kind(re.code) && (forall|j: int|
                0 <= j < i ==> (#[trigger] results@[j]) is Ok)),
{
    let mut i: usize = 0;
    while i < results.len()
        invariant
            i <= results@.len(),
            forall|j: int| 0 <= j < i ==> (#[trigger] results@[j]) is Ok,
        decreases results@.len() - i,
    {
        match &results[i] {
            Ok(_) => {},
            Err(re) => {
                return Err(
                    CoordException {
                        kind: crate::types::rpc_error_kind(re.code),
                        message: re.message.clone(),
                    },
                );
            },
        }
        i += 1;
    }
    Ok(())
}

/// Decides a termination broadcast's overall outcome: `Closed` when every
/// worker stopped; otherwise the dataflow is logically gone from storage
/// but some worker may still run it, which callers see as a partial
/// termination to re-invoke.
pub fn termination_outcome(results: &Vec<Result<Response, RpcError>>) -> (r: Result<
    DataflowStatus,
    CoordException,
>)
    ensures
        (r matches Ok(s) && s == DataflowStatus::Closed) <==> forall|i: int|
            0 <= i < results@.len() ==> (#[trigger] results@[i]) is Ok,
        r matches Err(e) ==> e.kind == CoordErrorKind::PartialTerminate,
{
    let mut i: usize = 0;
    while i < results.len()
        invariant
            i <= results@.len(),
            forall|j: int| 0 <= j < i ==> (#[trigger] results@[j]) is Ok,
        decreases results@.len() - i,
    {
        match &results[i] {
            Ok(_) => {},
            Err(_) => {
                return Err(CoordException::of_kind(CoordErrorKind::PartialTerminate));
            },
        }
        i += 1;
    }
    Ok(DataflowStatus::Closed)
}

/// Startup configuration of the coordinator process.
#[derive(Clone, Debug)]
pub struct CoordinatorConfig {
    pub port: usize,
    pub cluster: Vec<NodeConfig>,
    pub storage: DataflowStorageConfig,
}

/// Which storage backend to run on.
#[derive(Clone, Debug)]
pub enum DataflowStorageConfig {
    Persist { dataflow_store_path: String },
    Memory,
}

impl DataflowStorageConfig {
    /// Builds the configured backend; a backend that cannot be opened is a
    /// typed startup error for the binary to map to an exit code.
    pub fn to_dataflow_storage(&self) -> (r: Result<DataflowStorageImpl, CoordException>)
        ensures
            r matches Ok(s) ==> s.wf(),
            (*self) is Memory ==> (r matches Ok(s) && s is Memory && s.contents() == Map::<
                JobIdView,
                DataflowView,
            >::empty()),
    {
        match self {
            DataflowStorageConfig::Persist { dataflow_store_path } => {
                match PersistDataflowStorage::open(dataflow_store_path.as_str()) {
                    Ok(s) => Ok(DataflowStorageImpl::Persist(s)),
                    Err(e) => Err(e),
                }
            },
            DataflowStorageConfig::Memory => Ok(
                DataflowStorageImpl::Memory(MemDataflowStorage::new()),
            ),
        }
    }
}

/// Startup failure of the coordinator process.
pub struct CoordinatorException {}

} // verus!
