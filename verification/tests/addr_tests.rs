use redis_cluster::addr::{bytes_eq, copy_bytes, NodeAddr};

#[test]
fn addresses_equal_iff_host_and_port_equal() {
    let a = NodeAddr::new(b"10.0.0.1".to_vec(), 6379);
    let b = NodeAddr::new(b"10.0.0.1".to_vec(), 6379);
    let c = NodeAddr::new(b"10.0.0.1".to_vec(), 6380);
    let d = NodeAddr::new(b"10.0.0.2".to_vec(), 6379);
    assert_eq!(a, b);
    assert_ne!(a, c);
    assert_ne!(a, d);
}

#[test]
fn duplicate_is_an_independent_equal_copy() {
    let a = NodeAddr::new(b"host".to_vec(), 1);
    let b = a.duplicate();
    assert_eq!(a, b);
    let c = a.clone();
    assert_eq!(a, c);
}

#[test]
fn byte_vector_helpers() {
    assert!(bytes_eq(&b"abc".to_vec(), &b"abc".to_vec()));
    assert!(!bytes_eq(&b"abc".to_vec(), &b"abd".to_vec()));
    assert!(!bytes_eq(&b"abc".to_vec(), &b"ab".to_vec()));
    assert!(bytes_eq(&vec![], &vec![]));
    let v = b"xyz".to_vec();
    assert_eq!(copy_bytes(&v), v);
}
