use redis_cluster::addr::NodeAddr;
use redis_cluster::cluster::Cluster;
use redis_cluster::slots::{parse_slots, SlotInfo};
use redis_cluster::value::Value;
use redis_cluster::ClusterError;

fn node(host: &[u8], port: i64) -> Value {
    Value::Bulk(vec![Value::Data(host.to_vec()), Value::Int(port)])
}

fn range_entry(start: i64, end: i64, host: &[u8], port: i64) -> Value {
    Value::Bulk(vec![Value::Int(start), Value::Int(end), node(host, port)])
}

#[test]
fn full_coverage_registers_every_slot_once() {
    let reply = Value::Bulk(vec![
        range_entry(0, 5460, b"10.0.0.1", 7000),
        range_entry(5461, 10922, b"10.0.0.2", 7001),
        range_entry(10923, 16383, b"10.0.0.3", 7002),
    ]);
    let mut cluster: Cluster<u32> =
        Cluster::new(vec![NodeAddr::new(b"10.0.0.1".to_vec(), 7000)]).unwrap();
    cluster.install_topology(&reply).unwrap();
    for s in 0u16..16384 {
        let owner = cluster.slots.lookup(s).expect("every slot must have an owner");
        let expected: u16 = if s <= 5460 {
            7000
        } else if s <= 10922 {
            7001
        } else {
            7002
        };
        assert_eq!(owner.port, expected);
    }
}

#[test]
fn refresh_replaces_whole_table() {
    let mut cluster: Cluster<u32> =
        Cluster::new(vec![NodeAddr::new(b"a".to_vec(), 1)]).unwrap();
    let first = Value::Bulk(vec![range_entry(0, 16383, b"old", 1)]);
    cluster.install_topology(&first).unwrap();
    assert_eq!(cluster.slots.lookup(100).unwrap().host, b"old".to_vec());
    let second = Value::Bulk(vec![range_entry(0, 16383, b"new", 2)]);
    cluster.install_topology(&second).unwrap();
    assert_eq!(cluster.slots.lookup(100).unwrap().host, b"new".to_vec());
}

#[test]
fn failed_refresh_keeps_previous_table() {
    let mut cluster: Cluster<u32> =
        Cluster::new(vec![NodeAddr::new(b"a".to_vec(), 1)]).unwrap();
    let good = Value::Bulk(vec![range_entry(0, 16383, b"keep", 9)]);
    cluster.install_topology(&good).unwrap();
    let garbage = Value::Bulk(vec![Value::Int(7), Value::Nil]);
    assert_eq!(
        cluster.install_topology(&garbage),
        Err(ClusterError::MalformedTopologyResponse)
    );
    assert_eq!(cluster.slots.lookup(42).unwrap().host, b"keep".to_vec());
}

#[test]
fn parse_skips_malformed_entries_individually() {
    let reply = Value::Bulk(vec![
        Value::Int(3),
        Value::Bulk(vec![Value::Int(1), Value::Int(2)]),
        range_entry(20000, 30000, b"x", 1),
        range_entry(5, 2, b"x", 1),
        range_entry(0, 9, b"ok", 6379),
        range_entry(10, 19, b"badport", 70000),
    ]);
    let infos = parse_slots(&reply).unwrap();
    assert_eq!(infos.len(), 1);
    assert_eq!(infos[0].start_slot, 0);
    assert_eq!(infos[0].end_slot, 9);
    assert_eq!(infos[0].master.host, b"ok".to_vec());
    assert_eq!(infos[0].master.port, 6379);
}

#[test]
fn parse_fails_when_nothing_usable() {
    assert!(matches!(
        parse_slots(&Value::Int(3)),
        Err(ClusterError::MalformedTopologyResponse)
    ));
    let all_bad = Value::Bulk(vec![Value::Nil, Value::Bulk(vec![])]);
    assert!(matches!(
        parse_slots(&all_bad),
        Err(ClusterError::MalformedTopologyResponse)
    ));
}

#[test]
fn parse_keeps_replicas_structurally() {
    let entry = Value::Bulk(vec![
        Value::Int(0),
        Value::Int(100),
        node(b"master", 7000),
        node(b"replica1", 7001),
        Value::Nil,
        node(b"replica2", 7002),
    ]);
    let infos = parse_slots(&Value::Bulk(vec![entry])).unwrap();
    assert_eq!(infos[0].replicas.len(), 2);
    assert_eq!(infos[0].replicas[0].host, b"replica1".to_vec());
    assert_eq!(infos[0].replicas[1].host, b"replica2".to_vec());
}

#[test]
fn nodes_lists_each_slot_of_the_range_inclusive() {
    let info = SlotInfo {
        start_slot: 5,
        end_slot: 7,
        master: NodeAddr::new(b"m".to_vec(), 1),
        replicas: vec![],
    };
    let pairs = info.nodes();
    assert_eq!(pairs.len(), 3);
    assert_eq!(pairs[0].0, 5);
    assert_eq!(pairs[1].0, 6);
    assert_eq!(pairs[2].0, 7);
    for (_, a) in pairs.iter() {
        assert_eq!(a.host, b"m".to_vec());
    }
}
