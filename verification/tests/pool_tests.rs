use redis_cluster::addr::NodeAddr;
use redis_cluster::cluster::Cluster;
use redis_cluster::dispatch::{Dispatcher, Route};
use redis_cluster::pool::Pool;
use redis_cluster::value::Value;
use redis_cluster::ClusterError;

fn addr(host: &[u8], port: u16) -> NodeAddr {
    NodeAddr::new(host.to_vec(), port)
}

fn range_entry(start: i64, end: i64, host: &[u8], port: i64) -> Value {
    Value::Bulk(vec![
        Value::Int(start),
        Value::Int(end),
        Value::Bulk(vec![Value::Data(host.to_vec()), Value::Int(port)]),
    ])
}

#[test]
fn construction_with_zero_startup_addresses_fails_immediately() {
    let r: Result<Cluster<u32>, ClusterError> = Cluster::new(vec![]);
    match r {
        Err(e) => assert_eq!(e, ClusterError::RoutingUnavailable),
        Ok(_) => panic!("an empty startup list must be refused"),
    }
}

#[test]
fn construction_keeps_startup_addresses() {
    let c: Cluster<u32> = Cluster::new(vec![addr(b"a", 1), addr(b"b", 2)]).unwrap();
    assert_eq!(c.startup_nodes.len(), 2);
    assert_eq!(c.startup_nodes[0], addr(b"a", 1));
    assert_eq!(c.startup_nodes[1], addr(b"b", 2));
}

#[test]
fn pool_insert_remove_and_lookup() {
    let mut pool: Pool<u32> = Pool::new();
    assert_eq!(pool.len(), 0);
    pool.insert(addr(b"a", 1), 10);
    pool.insert(addr(b"b", 2), 20);
    assert_eq!(pool.len(), 2);
    assert!(pool.has_addr(&addr(b"a", 1)));
    assert!(!pool.has_addr(&addr(b"a", 2)));
    assert_eq!(pool.remove(&addr(b"a", 1)), Some(10));
    assert_eq!(pool.remove(&addr(b"a", 1)), None);
    assert!(!pool.has_addr(&addr(b"a", 1)));
    assert!(pool.has_addr(&addr(b"b", 2)));
}

#[test]
fn random_addr_fails_on_empty_pool_and_picks_a_member() {
    let pool: Pool<u32> = Pool::new();
    assert!(pool.random_addr().is_none());

    let mut pool: Pool<u32> = Pool::new();
    pool.insert(addr(b"only", 9), 1);
    assert_eq!(pool.random_addr().unwrap(), &addr(b"only", 9));

    let mut pool: Pool<u32> = Pool::new();
    pool.insert(addr(b"a", 1), 1);
    pool.insert(addr(b"b", 2), 2);
    pool.insert(addr(b"c", 3), 3);
    for _ in 0..32 {
        let picked = pool.random_addr().unwrap();
        assert!(pool.has_addr(picked));
    }
}

#[test]
fn reconciliation_drops_addresses_no_longer_owning_slots() {
    let mut cluster: Cluster<u32> = Cluster::new(vec![addr(b"a", 7000)]).unwrap();
    let before = Value::Bulk(vec![
        range_entry(0, 8191, b"a", 7000),
        range_entry(8192, 16383, b"b", 7001),
    ]);
    cluster.install_topology(&before).unwrap();
    cluster.conns.insert(addr(b"a", 7000), 1);
    cluster.conns.insert(addr(b"b", 7001), 2);

    // the refresh drops node a: it no longer owns any slot
    let after = Value::Bulk(vec![range_entry(0, 16383, b"b", 7001)]);
    cluster.install_topology(&after).unwrap();
    cluster.conns.retain_topology(&cluster.slots);

    assert!(!cluster.conns.has_addr(&addr(b"a", 7000)));
    assert!(cluster.conns.has_addr(&addr(b"b", 7001)));
    assert_eq!(cluster.conns.len(), 1);

    // a request that targets the remaining owner still routes; the random
    // fallback can only pick pooled, live addresses
    let mut cmd = redis_cluster::cmd::ClusterCmd::new();
    cmd.arg(b"GET".to_vec());
    cmd.arg(b"k".to_vec());
    let packed = cmd.get_packed_command();
    let mut d = Dispatcher::new(&packed).unwrap();
    match d.route(&cluster.slots) {
        Route::Target(a) => assert_eq!(a, addr(b"b", 7001)),
        Route::Random => {
            let picked = cluster.conns.random_addr().unwrap();
            assert_eq!(picked, &addr(b"b", 7001));
        }
    }
}

#[test]
fn retained_pool_keeps_only_table_addresses() {
    let mut cluster: Cluster<u32> = Cluster::new(vec![addr(b"x", 1)]).unwrap();
    let layout = Value::Bulk(vec![range_entry(0, 16383, b"kept", 5)]);
    cluster.install_topology(&layout).unwrap();
    cluster.conns.insert(addr(b"kept", 5), 1);
    cluster.conns.insert(addr(b"stale1", 6), 2);
    cluster.conns.insert(addr(b"stale2", 7), 3);
    cluster.conns.retain_topology(&cluster.slots);
    assert_eq!(cluster.conns.len(), 1);
    assert!(cluster.conns.has_addr(&addr(b"kept", 5)));
}

#[test]
fn topology_addr_list_is_distinct() {
    let mut cluster: Cluster<u32> = Cluster::new(vec![addr(b"x", 1)]).unwrap();
    let layout = Value::Bulk(vec![
        range_entry(0, 100, b"a", 1),
        range_entry(101, 200, b"b", 2),
        range_entry(201, 16383, b"a", 1),
    ]);
    cluster.install_topology(&layout).unwrap();
    let mut addrs = cluster.slots.addr_list();
    addrs.sort_by(|x, y| (x.host.clone(), x.port).cmp(&(y.host.clone(), y.port)));
    assert_eq!(addrs.len(), 2);
    assert_eq!(addrs[0], addr(b"a", 1));
    assert_eq!(addrs[1], addr(b"b", 2));
}
