use lightflus_core::types::{Dataflow, Edge, HostAddr, JobId, OperatorSpec};
use lightflus_core::codec::{decode_dataflow, decode_job_id, encode_dataflow, encode_job_id};
use lightflus_core::storage::{DataflowStorageImpl, MemDataflowStorage};
use lightflus_core::coordinator::DataflowStorageConfig;

fn job(ns: &str, name: &str) -> JobId {
    JobId { namespace: ns.to_string(), name: name.to_string() }
}

fn addr(host: &str, port: u16) -> HostAddr {
    HostAddr { host: host.to_string(), port }
}

fn sample_dataflow() -> Dataflow {
    Dataflow {
        job_id: Some(job("ns", "wordcount")),
        nodes: vec![
            OperatorSpec { executor_id: 0, payload: vec![1, 2, 3], host_addr: None },
            OperatorSpec {
                executor_id: 1,
                payload: vec![],
                host_addr: Some(addr("worker-a", 8080)),
            },
        ],
        edges: vec![Edge { from_id: 0, to_id: 1 }],
    }
}

#[test]
fn job_id_codec_round_trip() {
    let j = job("namespace-x", "job-émile");
    let bytes = encode_job_id(&j);
    let back = decode_job_id(&bytes).expect("canonical bytes must decode");
    assert_eq!(back, j);
}

#[test]
fn job_id_encoding_is_injective_on_fields() {
    let a = encode_job_id(&job("ab", "c"));
    let b = encode_job_id(&job("a", "bc"));
    assert_ne!(a, b);
}

#[test]
fn dataflow_codec_round_trip() {
    let df = sample_dataflow();
    let bytes = encode_dataflow(&df);
    let back = decode_dataflow(&bytes).expect("canonical bytes must decode");
    assert_eq!(encode_dataflow(&back), bytes);
    assert_eq!(back.nodes.len(), 2);
    assert_eq!(back.nodes[0].payload, vec![1, 2, 3]);
    assert_eq!(back.edges, vec![Edge { from_id: 0, to_id: 1 }]);
    assert_eq!(back.job_id, Some(job("ns", "wordcount")));
}

#[test]
fn decode_rejects_garbage() {
    assert!(decode_dataflow(&vec![1u8, 2, 3]).is_none());
    assert!(decode_job_id(&vec![255u8]).is_none());
}

#[test]
fn decode_rejects_trailing_bytes() {
    let mut bytes = encode_dataflow(&sample_dataflow());
    bytes.push(0);
    assert!(decode_dataflow(&bytes).is_none());
}

#[test]
fn mem_save_then_get_is_byte_identical() {
    let mut storage = MemDataflowStorage::new();
    let df = sample_dataflow();
    let expected = encode_dataflow(&df);
    storage.save(df).expect("in-memory save never fails");
    let got = storage.get(&job("ns", "wordcount")).expect("saved job must be found");
    assert_eq!(encode_dataflow(&got), expected);
}

#[test]
fn mem_delete_is_idempotent() {
    let mut storage = MemDataflowStorage::new();
    storage.save(sample_dataflow()).unwrap();
    let key = job("ns", "wordcount");
    assert!(storage.may_exists(&key));
    storage.delete(&key).expect("first delete succeeds");
    storage.delete(&key).expect("second delete succeeds too");
    assert!(!storage.may_exists(&key));
    assert!(storage.get(&key).is_none());
}

#[test]
fn mem_save_is_an_upsert() {
    let mut storage = MemDataflowStorage::new();
    let key = job("ns", "wordcount");
    storage.save(sample_dataflow()).unwrap();
    let mut df2 = sample_dataflow();
    df2.nodes.push(OperatorSpec { executor_id: 9, payload: vec![9], host_addr: None });
    let expected = encode_dataflow(&df2);
    storage.save(df2).unwrap();
    let got = storage.get(&key).unwrap();
    assert_eq!(encode_dataflow(&got), expected);
}

#[test]
fn saving_what_was_read_back_changes_nothing() {
    let mut storage = MemDataflowStorage::new();
    storage.save(sample_dataflow()).unwrap();
    let key = job("ns", "wordcount");
    let read_back = storage.get(&key).unwrap();
    let before = encode_dataflow(&storage.get(&key).unwrap());
    storage.save(read_back).unwrap();
    let after = encode_dataflow(&storage.get(&key).unwrap());
    assert_eq!(before, after);
}

#[test]
fn mem_get_of_unknown_job_is_none() {
    let storage = MemDataflowStorage::new();
    assert!(storage.get(&job("nope", "nothing")).is_none());
    assert!(!storage.may_exists(&job("nope", "nothing")));
}

#[test]
fn persist_save_then_get_is_byte_identical() {
    let path = "/tmp/lightflus_core_test_store".to_string();
    let config = DataflowStorageConfig::Persist { dataflow_store_path: path };
    let mut storage = config.to_dataflow_storage().expect("store must open");
    let df = sample_dataflow();
    let expected = encode_dataflow(&df);
    storage.save(df).expect("save on a fresh store succeeds");
    let key = job("ns", "wordcount");
    assert!(storage.may_exists(&key));
    let got = storage.get(&key).expect("saved job must be found");
    assert_eq!(encode_dataflow(&got), expected);
    storage.delete(&key).expect("delete succeeds");
    storage.delete(&key).expect("second delete succeeds too");
    assert!(storage.get(&key).is_none());
}

#[test]
fn persist_open_failure_is_a_typed_error() {
    let config = DataflowStorageConfig::Persist {
        dataflow_store_path: "/dev/null/not-a-directory".to_string(),
    };
    let err = match config.to_dataflow_storage() {
        Err(e) => e,
        Ok(_) => panic!("opening a store under /dev/null must fail"),
    };
    assert_eq!(err.kind, lightflus_core::types::CoordErrorKind::StorageGetFailed);
}

#[test]
fn storage_enum_dispatches_to_memory() {
    let mut storage = DataflowStorageImpl::Memory(MemDataflowStorage::new());
    let key = job("ns", "wordcount");
    assert!(!storage.may_exists(&key));
    storage.save(sample_dataflow()).unwrap();
    assert!(storage.may_exists(&key));
    assert!(storage.get(&key).is_some());
    storage.delete(&key).unwrap();
    assert!(!storage.may_exists(&key));
}
