use redis_cluster::addr::NodeAddr;
use redis_cluster::cluster::Cluster;
use redis_cluster::cmd::ClusterCmd;
use redis_cluster::dispatch::{choose_send_addr, Dispatcher, Outcome, Route, Verdict};
use redis_cluster::pool::Pool;
use redis_cluster::value::Value;
use redis_cluster::{ClusterError, TTL};

fn range_entry(start: i64, end: i64, host: &[u8], port: i64) -> Value {
    Value::Bulk(vec![
        Value::Int(start),
        Value::Int(end),
        Value::Bulk(vec![Value::Data(host.to_vec()), Value::Int(port)]),
    ])
}

fn packed_set(key: &[u8]) -> Vec<u8> {
    let mut cmd = ClusterCmd::new();
    cmd.arg(b"SET".to_vec());
    cmd.arg(key.to_vec());
    cmd.arg(b"v".to_vec());
    cmd.get_packed_command()
}

#[test]
fn moved_then_success_takes_two_attempts() {
    let mut cluster: Cluster<u32> =
        Cluster::new(vec![NodeAddr::new(b"a".to_vec(), 7000)]).unwrap();
    let before = Value::Bulk(vec![range_entry(0, 16383, b"a", 7000)]);
    cluster.install_topology(&before).unwrap();

    let packed = packed_set(b"k");
    let mut d = Dispatcher::new(&packed).unwrap();

    // attempt 1: routed to the registered owner, comes back MOVED
    match d.route(&cluster.slots) {
        Route::Target(a) => assert_eq!(a.host, b"a".to_vec()),
        Route::Random => panic!("expected a targeted route"),
    }
    let moved_to = NodeAddr::new(b"b".to_vec(), 7001);
    assert_eq!(d.record(&Outcome::Moved(moved_to)), Verdict::Refresh);

    // the refresh installs the new layout
    let after = Value::Bulk(vec![range_entry(0, 16383, b"b", 7001)]);
    cluster.install_topology(&after).unwrap();

    // attempt 2: routed to the new owner, succeeds
    match d.route(&cluster.slots) {
        Route::Target(a) => assert_eq!(a.host, b"b".to_vec()),
        Route::Random => panic!("expected a targeted route"),
    }
    assert_eq!(d.record(&Outcome::Success), Verdict::Done);
    assert_eq!(d.attempts, 2);
}

#[test]
fn transient_errors_exhaust_after_exactly_ttl_attempts() {
    let packed = packed_set(b"k");
    let mut d = Dispatcher::new(&packed).unwrap();
    for i in 0..TTL {
        let verdict = d.record(&Outcome::TransientError);
        if i + 1 < TTL {
            assert_eq!(verdict, Verdict::Retry);
        } else {
            assert_eq!(verdict, Verdict::Exhausted);
        }
    }
    assert_eq!(d.attempts, TTL);
}

#[test]
fn redirection_at_final_attempt_also_exhausts() {
    let packed = packed_set(b"k");
    let mut d = Dispatcher::new(&packed).unwrap();
    for _ in 0..TTL - 1 {
        assert_eq!(d.record(&Outcome::TransientError), Verdict::Retry);
    }
    let moved_to = NodeAddr::new(b"b".to_vec(), 7001);
    assert_eq!(d.record(&Outcome::Moved(moved_to)), Verdict::Exhausted);
    assert_eq!(d.attempts, TTL);
}

#[test]
fn success_is_done_and_counts_one_attempt() {
    let packed = packed_set(b"k");
    let mut d = Dispatcher::new(&packed).unwrap();
    assert_eq!(d.record(&Outcome::Success), Verdict::Done);
    assert_eq!(d.attempts, 1);
}

#[test]
fn transient_error_routes_next_attempt_randomly() {
    let mut cluster: Cluster<u32> =
        Cluster::new(vec![NodeAddr::new(b"a".to_vec(), 7000)]).unwrap();
    let layout = Value::Bulk(vec![range_entry(0, 16383, b"a", 7000)]);
    cluster.install_topology(&layout).unwrap();

    let packed = packed_set(b"k");
    let mut d = Dispatcher::new(&packed).unwrap();
    match d.route(&cluster.slots) {
        Route::Target(_) => {}
        Route::Random => panic!("expected a targeted route"),
    }
    assert_eq!(d.record(&Outcome::TransientError), Verdict::Retry);
    match d.route(&cluster.slots) {
        Route::Target(_) => panic!("expected the random fallback"),
        Route::Random => {}
    }
    // the fallback mark is consumed: the next route targets again
    match d.route(&cluster.slots) {
        Route::Target(_) => {}
        Route::Random => panic!("expected a targeted route again"),
    }
}

#[test]
fn pipeline_dispatcher_routes_by_first_command() {
    let mut cluster: Cluster<u32> =
        Cluster::new(vec![NodeAddr::new(b"a".to_vec(), 7000)]).unwrap();
    let layout = Value::Bulk(vec![range_entry(0, 16383, b"a", 7000)]);
    cluster.install_topology(&layout).unwrap();

    let mut batch = packed_set(b"k");
    batch.extend_from_slice(&packed_set(b"k"));
    assert!(Dispatcher::new(&batch).is_err());
    let mut d = Dispatcher::for_pipeline(&batch).unwrap();
    assert_eq!(d.attempts, 0);
    match d.route(&cluster.slots) {
        Route::Target(a) => assert_eq!(a.host, b"a".to_vec()),
        Route::Random => panic!("expected a targeted route"),
    }
}

#[test]
fn fallback_chooser_prefers_reachable_target_then_pool() {
    let mut pool: Pool<u32> = Pool::new();
    pool.insert(NodeAddr::new(b"p".to_vec(), 1), 1);
    let target = NodeAddr::new(b"t".to_vec(), 2);

    // a reachable target is used as is, pooled or not
    match choose_send_addr(&Route::Target(target.clone()), true, &pool) {
        Ok(a) => assert_eq!(a, target),
        Err(_) => panic!("a reachable target must be chosen"),
    }
    // an unreachable target falls back to a pooled address, without error
    match choose_send_addr(&Route::Target(target.clone()), false, &pool) {
        Ok(a) => assert_eq!(a, NodeAddr::new(b"p".to_vec(), 1)),
        Err(_) => panic!("a live pool must serve as fallback"),
    }
    match choose_send_addr(&Route::Random, false, &pool) {
        Ok(a) => assert_eq!(a, NodeAddr::new(b"p".to_vec(), 1)),
        Err(_) => panic!("a live pool must serve the random route"),
    }
    // only an empty pool makes the attempt unroutable
    let empty: Pool<u32> = Pool::new();
    assert!(matches!(
        choose_send_addr(&Route::Random, false, &empty),
        Err(ClusterError::RoutingUnavailable)
    ));
    assert!(matches!(
        choose_send_addr(&Route::Target(target), false, &empty),
        Err(ClusterError::RoutingUnavailable)
    ));
}

#[test]
fn keyless_command_routes_randomly() {
    let cluster: Cluster<u32> =
        Cluster::new(vec![NodeAddr::new(b"a".to_vec(), 7000)]).unwrap();
    let mut cmd = ClusterCmd::new();
    cmd.arg(b"PING".to_vec());
    let packed = cmd.get_packed_command();
    let mut d = Dispatcher::new(&packed).unwrap();
    assert_eq!(d.slot, None);
    match d.route(&cluster.slots) {
        Route::Target(_) => panic!("a keyless command must route randomly"),
        Route::Random => {}
    }
}

#[test]
fn unknown_slot_owner_routes_randomly() {
    let cluster: Cluster<u32> =
        Cluster::new(vec![NodeAddr::new(b"a".to_vec(), 7000)]).unwrap();
    // no topology installed: every owner is unknown
    let packed = packed_set(b"k");
    let mut d = Dispatcher::new(&packed).unwrap();
    match d.route(&cluster.slots) {
        Route::Target(_) => panic!("an unknown owner must route randomly"),
        Route::Random => {}
    }
}
