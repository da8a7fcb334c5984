use lightflus_core::gateway::{MockRpcGateway, RpcGateway};
use lightflus_core::sink::{ErrorKind, SinkException};
use lightflus_core::types::{Ack, Heartbeat, HostAddr, NodeType, RpcCode};

fn addr(host: &str, port: u16) -> HostAddr {
    HostAddr { host: host.to_string(), port }
}

fn ack(event_id: u64, ts: u64) -> Ack {
    Ack { sender: addr("peer", 9), timestamp: ts, event_id }
}

#[test]
fn mock_gateway_keeps_acks_in_call_order() {
    // Capacity 1 forces strict alternation: every accepted ack is observed
    // before the next one is admitted, in exactly the call order.
    let mut gw = MockRpcGateway::new(addr("peer", 9), 1, 1);
    let mut observed: Vec<u64> = Vec::new();
    for i in 0..100u64 {
        gw.receive_ack(ack(i, i)).expect("queue has room");
        let got = gw.pop_ack().expect("just enqueued");
        observed.push(got.event_id);
    }
    let expected: Vec<u64> = (0..100).collect();
    assert_eq!(observed, expected);
}

#[test]
fn mock_gateway_batches_stay_fifo() {
    let mut gw = MockRpcGateway::new(addr("peer", 9), 10, 10);
    for i in 0..10u64 {
        gw.receive_ack(ack(i, i)).unwrap();
    }
    for i in 0..10u64 {
        assert_eq!(gw.pop_ack().unwrap().event_id, i);
    }
    assert!(gw.pop_ack().is_none());
}

#[test]
fn mock_gateway_full_queue_is_unavailable() {
    let mut gw = MockRpcGateway::new(addr("peer", 9), 1, 1);
    gw.receive_ack(ack(0, 0)).unwrap();
    let err = gw.receive_ack(ack(1, 1)).unwrap_err();
    assert_eq!(err.code, RpcCode::Unavailable);
    // The refused ack left the queue untouched.
    assert_eq!(gw.pop_ack().unwrap().event_id, 0);
}

#[test]
fn mock_gateway_dropped_receiver_is_data_loss() {
    let mut gw = MockRpcGateway::new(addr("peer", 9), 4, 4);
    gw.close();
    let err = gw.receive_ack(ack(0, 0)).unwrap_err();
    assert_eq!(err.code, RpcCode::DataLoss);
    let err = gw
        .receive_heartbeat(Heartbeat {
            sender: addr("peer", 9),
            node_type: NodeType::TaskWorker,
            timestamp: 1,
        })
        .unwrap_err();
    assert_eq!(err.code, RpcCode::DataLoss);
}

#[test]
fn mock_gateway_heartbeats_are_fifo_too() {
    let mut gw = MockRpcGateway::new(addr("peer", 9), 2, 2);
    for ts in [4u64, 8] {
        gw.receive_heartbeat(Heartbeat {
            sender: addr("peer", 9),
            node_type: NodeType::TaskWorker,
            timestamp: ts,
        })
        .unwrap();
    }
    assert_eq!(gw.pop_heartbeat().unwrap().timestamp, 4);
    assert_eq!(gw.pop_heartbeat().unwrap().timestamp, 8);
    assert!(gw.pop_heartbeat().is_none());
}

#[test]
fn mock_gateway_reports_its_peer() {
    let gw = MockRpcGateway::new(addr("peer", 9), 1, 1);
    assert_eq!(*gw.get_host_addr(), addr("peer", 9));
}

#[test]
fn call_token_admits_two_callers_in_issue_order() {
    // Two calls issued in order: the first completes or errors strictly
    // before the second begins its transport call.
    let mut token = lightflus_core::gateway::FifoCallToken::new();
    token.enqueue(1);
    token.enqueue(2);
    assert_eq!(token.try_grant(), Some(1));
    // While the first round trip is in flight the second cannot begin.
    assert_eq!(token.try_grant(), None);
    token.release();
    assert_eq!(token.try_grant(), Some(2));
    token.release();
    assert_eq!(token.try_grant(), None);
}

#[test]
fn call_token_keeps_order_over_many_callers() {
    let mut token = lightflus_core::gateway::FifoCallToken::new();
    for c in 0..50u64 {
        token.enqueue(c);
    }
    for c in 0..50u64 {
        assert_eq!(token.try_grant(), Some(c));
        token.release();
    }
}

#[test]
fn sink_invalid_message_type_error() {
    let e = SinkException::invalid_message_type();
    assert_eq!(e.kind, ErrorKind::InvalidMessageType);
    assert_eq!(e.msg, "invalid message type");
}

#[test]
fn sink_message_send_failed_keeps_detail() {
    let e = SinkException::message_send_failed("channel closed".to_string());
    assert_eq!(e.kind, ErrorKind::MessageSendFailed);
    assert_eq!(e.msg, "channel closed");
}
