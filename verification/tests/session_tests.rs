use scylla_cql::connection::{Compression, ConnectionParams, StreamTable};
use scylla_cql::prepared::PreparedCache;
use scylla_cql::session::{
    effective_consistency, exec_step, should_retry, Consistency, ExecAction, ExecEvent, ExecState,
    Metrics, ServerErrorKind, SessionConfig,
};
use scylla_cql::topology::{next_node_state, Node, NodeEvent, NodeState, Topology};

#[test]
fn connection_params_default_and_from() {
    let d = ConnectionParams::default();
    assert_eq!(d.compression, None);
    let p = ConnectionParams::from(Some(Compression::Lz4));
    assert_eq!(p.compression, Some(Compression::Lz4));
    let q: ConnectionParams = None.into();
    assert_eq!(q, d);
}

#[test]
fn multiplexing_delivers_out_of_order_responses() {
    let mut table = StreamTable::new(8);
    let id1 = table.register(101).unwrap();
    let id2 = table.register(202).unwrap();
    assert_ne!(id1, id2);
    // the transport delivers the second response first
    assert_eq!(table.take(id2), Some(202));
    assert_eq!(table.take(id1), Some(101));
    // each slot was released exactly once
    assert_eq!(table.take(id1), None);
    assert_eq!(table.take(id2), None);
}

#[test]
fn stream_ids_are_bounded() {
    let mut table = StreamTable::new(2);
    assert!(table.register(1).is_some());
    assert!(table.register(2).is_some());
    assert_eq!(table.register(3), None);
    let freed = table.register(1).is_none();
    assert!(freed);
    table.take(0);
    assert!(table.register(4).is_some());
}

#[test]
fn prepare_is_idempotent() {
    let mut cache = PreparedCache::new();
    let text = b"SELECT x FROM t WHERE k = ?".to_vec();
    assert_eq!(cache.lookup(&text), None);
    cache.record(text.clone(), vec![0xab, 0xcd]);
    let first = cache.lookup(&text).unwrap();
    cache.record(text.clone(), vec![0xab, 0xcd]);
    let second = cache.lookup(&text).unwrap();
    assert_eq!(first, second);
    assert_eq!(first, vec![0xab, 0xcd]);
}

#[test]
fn invalidate_drops_only_that_text() {
    let mut cache = PreparedCache::new();
    let a = b"a".to_vec();
    let b = b"b".to_vec();
    cache.record(a.clone(), vec![1]);
    cache.record(b.clone(), vec![2]);
    cache.invalidate(&a);
    assert_eq!(cache.lookup(&a), None);
    assert_eq!(cache.lookup(&b), Some(vec![2]));
}

#[test]
fn unprepared_triggers_one_reprepare_then_surfaces() {
    let s0 = ExecState::AwaitingExecute { reprepared: false };
    let (s1, a1) = exec_step(s0, ExecEvent::ExecuteFailed(ServerErrorKind::Unprepared));
    assert_eq!(a1, ExecAction::SendPrepare);
    assert_eq!(s1, ExecState::AwaitingPrepare);
    let (s2, a2) = exec_step(s1, ExecEvent::PrepareOk);
    assert_eq!(a2, ExecAction::SendExecute);
    assert_eq!(s2, ExecState::AwaitingExecute { reprepared: true });
    // a second unprepared error surfaces to the caller
    let (s3, a3) = exec_step(s2, ExecEvent::ExecuteFailed(ServerErrorKind::Unprepared));
    assert_eq!(a3, ExecAction::Fail(ServerErrorKind::Unprepared));
    assert_eq!(s3, ExecState::Done);
}

#[test]
fn failed_repreparation_surfaces_as_the_executes_error() {
    let s0 = ExecState::AwaitingExecute { reprepared: false };
    let (s1, _) = exec_step(s0, ExecEvent::ExecuteFailed(ServerErrorKind::Unprepared));
    let (s2, a) = exec_step(s1, ExecEvent::PrepareFailed(ServerErrorKind::Syntax));
    assert_eq!(a, ExecAction::Fail(ServerErrorKind::Syntax));
    assert_eq!(s2, ExecState::Done);
}

#[test]
fn successful_retry_after_reprepare() {
    let s0 = ExecState::AwaitingExecute { reprepared: false };
    let (s1, _) = exec_step(s0, ExecEvent::ExecuteFailed(ServerErrorKind::Unprepared));
    let (s2, _) = exec_step(s1, ExecEvent::PrepareOk);
    let (s3, a) = exec_step(s2, ExecEvent::ExecuteOk);
    assert_eq!(a, ExecAction::Succeed);
    assert_eq!(s3, ExecState::Done);
}

#[test]
fn retry_policy_is_bounded_and_kind_aware() {
    assert!(should_retry(ServerErrorKind::Timeout, 0, 3));
    assert!(should_retry(ServerErrorKind::Unavailable, 2, 3));
    assert!(should_retry(ServerErrorKind::Overloaded, 1, 3));
    assert!(!should_retry(ServerErrorKind::Timeout, 3, 3));
    assert!(!should_retry(ServerErrorKind::Syntax, 0, 3));
    assert!(!should_retry(ServerErrorKind::Invalid, 0, 3));
    assert!(!should_retry(ServerErrorKind::Unauthorized, 0, 3));
    assert!(!should_retry(ServerErrorKind::Unprepared, 0, 3));
}

#[test]
fn routing_prefers_the_token_owner() {
    let topo = Topology {
        nodes: vec![
            Node { id: 10, state: NodeState::Healthy },
            Node { id: 20, state: NodeState::Healthy },
            Node { id: 30, state: NodeState::Healthy },
        ],
        ring: vec![(100, 0), (200, 1), (300, 2)],
    };
    // token 150 falls to the ring position 200, owned by node 1
    assert_eq!(topo.route(150), Ok(1));
    // a token past the last position wraps to the first
    assert_eq!(topo.route(301), Ok(0));
}

#[test]
fn routing_falls_back_when_owner_is_down() {
    let topo = Topology {
        nodes: vec![
            Node { id: 10, state: NodeState::Down },
            Node { id: 20, state: NodeState::Healthy },
            Node { id: 30, state: NodeState::Down },
        ],
        ring: vec![(100, 0), (200, 1), (300, 2)],
    };
    // node 0 owns token 50 but is down: a healthy node is chosen
    let chosen = topo.route(50).unwrap();
    assert_eq!(chosen, 1);
}

#[test]
fn routing_fails_fast_with_no_usable_node() {
    let topo = Topology {
        nodes: vec![
            Node { id: 10, state: NodeState::Down },
            Node { id: 20, state: NodeState::Connecting },
        ],
        ring: vec![(100, 0), (200, 1)],
    };
    assert!(topo.route(123).is_err());
}

#[test]
fn node_lifecycle_transitions() {
    let s = NodeState::Unknown;
    let s = next_node_state(s, NodeEvent::ConnectStarted);
    assert_eq!(s, NodeState::Connecting);
    let s = next_node_state(s, NodeEvent::ConnectSucceeded);
    assert_eq!(s, NodeState::Healthy);
    let s = next_node_state(s, NodeEvent::ConnectionLost);
    assert_eq!(s, NodeState::Degraded);
    let s = next_node_state(s, NodeEvent::ConnectSucceeded);
    assert_eq!(s, NodeState::Healthy);
    let s = next_node_state(s, NodeEvent::AllConnectionsLost);
    assert_eq!(s, NodeState::Down);
    let s = next_node_state(s, NodeEvent::ConnectStarted);
    assert_eq!(s, NodeState::Connecting);
    let s = next_node_state(s, NodeEvent::ConnectFailed);
    assert_eq!(s, NodeState::Down);
}

#[test]
fn consistency_is_configurable_and_overridable() {
    let cfg = SessionConfig::default();
    assert_eq!(cfg.consistency, Consistency::One);
    assert_eq!(cfg.max_attempts, 3);
    assert_eq!(effective_consistency(cfg.consistency, None), Consistency::One);
    assert_eq!(
        effective_consistency(cfg.consistency, Some(Consistency::Quorum)),
        Consistency::Quorum
    );
}

#[test]
fn metrics_count_independently() {
    let mut m = Metrics::new();
    m.record_query();
    m.record_query();
    m.record_error();
    m.record_retry();
    assert_eq!(m.queries, 2);
    assert_eq!(m.errors, 1);
    assert_eq!(m.retries, 1);
}
