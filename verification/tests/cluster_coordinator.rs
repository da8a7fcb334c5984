use lightflus_core::cluster::{plan_deployment, NodeConfig};
use lightflus_core::codec::encode_dataflow;
use lightflus_core::coordinator::{
    deploy_outcome, termination_outcome, Coordinator, DataflowStorageConfig,
};
use lightflus_core::gateway::Response;
use lightflus_core::types::{
    CoordErrorKind, Dataflow, DataflowStatus, Edge, Heartbeat, HostAddr, JobId, NodeType,
    OperatorSpec, RpcCode, RpcError,
};

fn node(host: &str, port: u16) -> NodeConfig {
    NodeConfig { host: host.to_string(), port }
}

fn addr(host: &str, port: u16) -> HostAddr {
    HostAddr { host: host.to_string(), port }
}

fn job(name: &str) -> JobId {
    JobId { namespace: "default".to_string(), name: name.to_string() }
}

fn chain_dataflow(name: &str, operators: u32) -> Dataflow {
    let mut nodes = Vec::new();
    let mut edges = Vec::new();
    let mut id: u32 = 0;
    while id < operators {
        nodes.push(OperatorSpec { executor_id: id, payload: vec![id as u8], host_addr: None });
        if id + 1 < operators {
            edges.push(Edge { from_id: id, to_id: id + 1 });
        }
        id += 1;
    }
    Dataflow { job_id: Some(job(name)), nodes, edges }
}

fn memory_coordinator(workers: Vec<NodeConfig>) -> Coordinator {
    let storage = DataflowStorageConfig::Memory.to_dataflow_storage().unwrap();
    Coordinator::new(storage, &workers)
}

fn heartbeat_from(a: HostAddr, ts: u64) -> Heartbeat {
    Heartbeat { sender: a, node_type: NodeType::TaskWorker, timestamp: ts }
}

#[test]
fn round_robin_placement() {
    let mut coordinator = memory_coordinator(vec![
        node("w0", 1),
        node("w1", 2),
        node("w2", 3),
    ]);
    let plan = coordinator.create_dataflow(chain_dataflow("rr", 5)).unwrap();
    let assigned: Vec<HostAddr> = plan
        .dataflow
        .nodes
        .iter()
        .map(|o| o.host_addr.clone().unwrap())
        .collect();
    assert_eq!(
        assigned,
        vec![addr("w0", 1), addr("w1", 2), addr("w2", 3), addr("w0", 1), addr("w1", 2)],
    );
}

#[test]
fn single_operator_lands_on_first_worker() {
    let mut coordinator = memory_coordinator(vec![node("w0", 1), node("w1", 2)]);
    let plan = coordinator.create_dataflow(chain_dataflow("single", 1)).unwrap();
    assert_eq!(plan.dataflow.nodes[0].host_addr, Some(addr("w0", 1)));
}

#[test]
fn empty_cluster_is_no_available_worker() {
    let mut coordinator = memory_coordinator(Vec::new());
    let err = coordinator.create_dataflow(chain_dataflow("empty", 2)).unwrap_err();
    assert_eq!(err.kind, CoordErrorKind::NoAvailableWorker);
}

#[test]
fn unreachable_worker_is_skipped_by_placement() {
    let mut coordinator = memory_coordinator(vec![
        node("w0", 1),
        node("w1", 2),
        node("w2", 3),
    ]);
    coordinator.apply_probe_result(1, false, 10);
    let plan = coordinator.create_dataflow(chain_dataflow("skip", 4)).unwrap();
    let assigned: Vec<HostAddr> = plan
        .dataflow
        .nodes
        .iter()
        .map(|o| o.host_addr.clone().unwrap())
        .collect();
    assert_eq!(assigned, vec![addr("w0", 1), addr("w2", 3), addr("w0", 1), addr("w2", 3)]);
}

#[test]
fn validate_rejects_missing_job_id() {
    let mut df = chain_dataflow("x", 2);
    df.job_id = None;
    assert_eq!(df.validate().unwrap_err().kind, CoordErrorKind::InvalidDataflow);
}

#[test]
fn validate_rejects_duplicate_executor_ids() {
    let mut df = chain_dataflow("x", 2);
    df.nodes[1].executor_id = 0;
    df.edges.clear();
    assert_eq!(df.validate().unwrap_err().kind, CoordErrorKind::InvalidDataflow);
}

#[test]
fn validate_rejects_undeclared_edge_endpoints() {
    let mut df = chain_dataflow("x", 2);
    df.edges.push(Edge { from_id: 0, to_id: 7 });
    assert_eq!(df.validate().unwrap_err().kind, CoordErrorKind::InvalidDataflow);
}

#[test]
fn validate_rejects_cycles() {
    let mut df = chain_dataflow("x", 3);
    df.edges.push(Edge { from_id: 2, to_id: 0 });
    assert_eq!(df.validate().unwrap_err().kind, CoordErrorKind::InvalidDataflow);
    let mut tight = chain_dataflow("y", 1);
    tight.edges.push(Edge { from_id: 0, to_id: 0 });
    assert_eq!(tight.validate().unwrap_err().kind, CoordErrorKind::InvalidDataflow);
}

#[test]
fn validate_accepts_a_dag_listed_out_of_order() {
    let df = Dataflow {
        job_id: Some(job("dag")),
        nodes: vec![
            OperatorSpec { executor_id: 2, payload: vec![], host_addr: None },
            OperatorSpec { executor_id: 1, payload: vec![], host_addr: None },
            OperatorSpec { executor_id: 0, payload: vec![], host_addr: None },
        ],
        edges: vec![Edge { from_id: 0, to_id: 1 }, Edge { from_id: 1, to_id: 2 }],
    };
    assert!(df.validate().is_ok());
}

#[test]
fn deployment_groups_operators_by_worker() {
    let mut coordinator = memory_coordinator(vec![node("w0", 1), node("w1", 2)]);
    let plan = coordinator.create_dataflow(chain_dataflow("groups", 4)).unwrap();
    assert_eq!(plan.deploy.len(), 2);
    let first = &plan.deploy[0];
    let second = &plan.deploy[1];
    assert_eq!(first.target, addr("w0", 1));
    assert_eq!(second.target, addr("w1", 2));
    let ids0: Vec<u32> = first.operators.iter().map(|o| o.executor_id).collect();
    let ids1: Vec<u32> = second.operators.iter().map(|o| o.executor_id).collect();
    assert_eq!(ids0, vec![0, 2]);
    assert_eq!(ids1, vec![1, 3]);
    assert_eq!(first.edges, chain_dataflow("groups", 4).edges);
    assert_eq!(second.edges, chain_dataflow("groups", 4).edges);
    assert_eq!(first.job_id, job("groups"));
}

#[test]
fn plan_deployment_alone_groups_a_placed_dataflow() {
    let mut df = chain_dataflow("manual", 3);
    for (i, op) in df.nodes.iter_mut().enumerate() {
        let target = if i == 1 { addr("b", 2) } else { addr("a", 1) };
        op.host_addr = Some(target);
    }
    let plan = plan_deployment(&df);
    assert_eq!(plan.len(), 2);
    assert_eq!(plan[0].target, addr("a", 1));
    assert_eq!(plan[1].target, addr("b", 2));
    assert_eq!(plan[0].operators.len(), 2);
    assert_eq!(plan[1].operators.len(), 1);
}

#[test]
fn terminate_unknown_job_is_closed_with_no_calls() {
    let mut coordinator = memory_coordinator(vec![node("w0", 1)]);
    let plan = coordinator.terminate_dataflow(&job("never-submitted")).unwrap();
    assert_eq!(plan.status, DataflowStatus::Closed);
    assert!(plan.stop_targets.is_empty());
}

#[test]
fn second_termination_is_idempotent_and_quiet() {
    let mut coordinator = memory_coordinator(vec![node("w0", 1), node("w1", 2)]);
    coordinator.create_dataflow(chain_dataflow("twice", 2)).unwrap();
    let first = coordinator.terminate_dataflow(&job("twice")).unwrap();
    assert_eq!(first.status, DataflowStatus::Closed);
    assert_eq!(first.stop_targets, vec![addr("w0", 1), addr("w1", 2)]);
    let second = coordinator.terminate_dataflow(&job("twice")).unwrap();
    assert_eq!(second.status, DataflowStatus::Closed);
    assert!(second.stop_targets.is_empty());
    assert!(coordinator.get_dataflow(&job("twice")).is_none());
}

#[test]
fn resubmission_replaces_and_stops_the_old_incarnation_first() {
    let mut coordinator = memory_coordinator(vec![node("w0", 1), node("w1", 2)]);
    coordinator.create_dataflow(chain_dataflow("replace", 2)).unwrap();
    let second = coordinator.create_dataflow(chain_dataflow("replace", 3)).unwrap();
    // The prior incarnation is stopped on every worker before any deploy.
    assert_eq!(second.stop_targets, vec![addr("w0", 1), addr("w1", 2)]);
    let got = coordinator.get_dataflow(&job("replace")).unwrap();
    assert_eq!(encode_dataflow(&got), encode_dataflow(&second.dataflow));
    assert_eq!(got.nodes.len(), 3);
}

#[test]
fn heartbeat_revives_an_unreachable_worker() {
    let mut coordinator = memory_coordinator(vec![node("w0", 1), node("w1", 2)]);
    coordinator.apply_probe_result(1, false, 5);
    let before = coordinator.create_dataflow(chain_dataflow("revive-a", 2)).unwrap();
    assert_eq!(before.dataflow.nodes[1].host_addr, Some(addr("w0", 1)));
    coordinator.receive_heartbeat(&heartbeat_from(addr("w1", 2), 6));
    let after = coordinator.create_dataflow(chain_dataflow("revive-b", 2)).unwrap();
    assert_eq!(after.dataflow.nodes[1].host_addr, Some(addr("w1", 2)));
}

#[test]
fn heartbeat_timestamps_keep_their_maximum_in_any_order() {
    let mut a = memory_coordinator(vec![node("w0", 1)]);
    let mut b = memory_coordinator(vec![node("w0", 1)]);
    for ts in [5u64, 3, 9, 7] {
        a.receive_heartbeat(&heartbeat_from(addr("w0", 1), ts));
    }
    for ts in [7u64, 9, 3, 5] {
        b.receive_heartbeat(&heartbeat_from(addr("w0", 1), ts));
    }
    // Both coordinators now place on w0; the recorded timestamp shows
    // through expiry: at now = 12 the worker survives a timeout of 3 only
    // because its last heartbeat is 9, whatever the arrival order was.
    a.expire_stale_workers(12, 3);
    b.expire_stale_workers(12, 3);
    assert!(a.create_dataflow(chain_dataflow("ha", 1)).is_ok());
    assert!(b.create_dataflow(chain_dataflow("hb", 1)).is_ok());
    a.expire_stale_workers(12, 2);
    let err = a.create_dataflow(chain_dataflow("hc", 1)).unwrap_err();
    assert_eq!(err.kind, CoordErrorKind::NoAvailableWorker);
}

#[test]
fn partial_deploy_surfaces_first_error_and_terminate_still_broadcasts() {
    let mut coordinator = memory_coordinator(vec![node("w0", 1), node("w1", 2)]);
    let plan = coordinator.create_dataflow(chain_dataflow("partial", 2)).unwrap();
    assert_eq!(plan.deploy.len(), 2);
    // w1 drops all RPCs with Unavailable.
    let results: Vec<Result<Response, RpcError>> = vec![
        Ok(Response::ok()),
        Err(RpcError { code: RpcCode::Unavailable, message: "w1 down".to_string() }),
    ];
    let err = deploy_outcome(&results).unwrap_err();
    assert_eq!(err.kind, CoordErrorKind::RpcUnavailable);
    let tplan = coordinator.terminate_dataflow(&job("partial")).unwrap();
    assert_eq!(tplan.status, DataflowStatus::Closed);
    assert_eq!(tplan.stop_targets, vec![addr("w0", 1), addr("w1", 2)]);
}

#[test]
fn termination_outcome_is_closed_only_when_every_worker_stopped() {
    let ok: Vec<Result<Response, RpcError>> = vec![Ok(Response::ok()), Ok(Response::ok())];
    assert_eq!(termination_outcome(&ok).unwrap(), DataflowStatus::Closed);
    let mixed: Vec<Result<Response, RpcError>> = vec![
        Ok(Response::ok()),
        Err(RpcError { code: RpcCode::DeadlineExceeded, message: String::new() }),
    ];
    assert_eq!(termination_outcome(&mixed).unwrap_err().kind, CoordErrorKind::PartialTerminate);
}

#[test]
fn deploy_outcome_maps_transport_codes() {
    let timed_out: Vec<Result<Response, RpcError>> = vec![
        Err(RpcError { code: RpcCode::DeadlineExceeded, message: String::new() }),
    ];
    assert_eq!(deploy_outcome(&timed_out).unwrap_err().kind, CoordErrorKind::RpcDeadlineExceeded);
    let lost: Vec<Result<Response, RpcError>> = vec![
        Err(RpcError { code: RpcCode::DataLoss, message: String::new() }),
    ];
    assert_eq!(deploy_outcome(&lost).unwrap_err().kind, CoordErrorKind::RpcDataLoss);
    let fine: Vec<Result<Response, RpcError>> = vec![Ok(Response::ok())];
    assert!(deploy_outcome(&fine).is_ok());
}

#[test]
fn probe_targets_cover_every_worker() {
    let coordinator = memory_coordinator(vec![node("w0", 1), node("w1", 2), node("w2", 3)]);
    assert_eq!(coordinator.probe_targets(), vec![addr("w0", 1), addr("w1", 2), addr("w2", 3)]);
}

#[test]
fn submission_of_invalid_dataflow_has_no_side_effects() {
    let mut coordinator = memory_coordinator(vec![node("w0", 1)]);
    let mut df = chain_dataflow("invalid", 2);
    df.edges.push(Edge { from_id: 1, to_id: 0 });
    let err = coordinator.create_dataflow(df).unwrap_err();
    assert_eq!(err.kind, CoordErrorKind::InvalidDataflow);
    assert!(coordinator.get_dataflow(&job("invalid")).is_none());
}
