use redis_cluster::resp::{pack_command, unpack_command};
use redis_cluster::cmd::ClusterCmd;
use redis_cluster::ClusterError;

#[test]
fn pack_set_command_wire_form() {
    let args: Vec<Vec<u8>> = vec![b"SET".to_vec(), b"k".to_vec(), b"v".to_vec()];
    let packed = pack_command(&args);
    assert_eq!(packed, b"*3\r\n$3\r\nSET\r\n$1\r\nk\r\n$1\r\nv\r\n".to_vec());
}

#[test]
fn round_trip_recovers_key_at_position_one() {
    let mut cmd = ClusterCmd::new();
    cmd.arg(b"SET".to_vec());
    cmd.arg(b"k".to_vec());
    cmd.arg(b"v".to_vec());
    let packed = cmd.get_packed_command();
    let args = unpack_command(&packed).unwrap();
    assert_eq!(args.len(), 3);
    assert_eq!(args[0], b"SET".to_vec());
    assert_eq!(args[1], b"k".to_vec());
    assert_eq!(args[2], b"v".to_vec());
}

#[test]
fn round_trip_keeps_binary_payloads() {
    // payload bytes may contain the delimiter bytes themselves
    let args: Vec<Vec<u8>> = vec![b"SET".to_vec(), vec![13, 10, 0, 255], vec![]];
    let packed = pack_command(&args);
    let back = unpack_command(&packed).unwrap();
    assert_eq!(back, args);
}

#[test]
fn round_trip_empty_argument_list() {
    let args: Vec<Vec<u8>> = vec![];
    let packed = pack_command(&args);
    assert_eq!(packed, b"*0\r\n".to_vec());
    let back = unpack_command(&packed).unwrap();
    assert!(back.is_empty());
}

#[test]
fn unpack_rejects_missing_header() {
    assert_eq!(
        unpack_command(b"$3\r\nSET\r\n"),
        Err(ClusterError::MalformedCommand)
    );
}

#[test]
fn unpack_rejects_truncated_frame() {
    assert_eq!(
        unpack_command(b"*2\r\n$3\r\nSET"),
        Err(ClusterError::MalformedCommand)
    );
}

#[test]
fn unpack_rejects_trailing_bytes() {
    assert_eq!(
        unpack_command(b"*1\r\n$4\r\nPING\r\nx"),
        Err(ClusterError::MalformedCommand)
    );
}

#[test]
fn unpack_rejects_oversized_declared_length() {
    assert_eq!(
        unpack_command(b"*1\r\n$999\r\nhi\r\n"),
        Err(ClusterError::MalformedCommand)
    );
}
