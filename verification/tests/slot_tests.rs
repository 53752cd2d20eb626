use redis_cluster::cmd::{
    slot, slot_for_command, slot_for_packed_command, slot_for_packed_pipeline, ClusterCmd,
};
use redis_cluster::ClusterError;

#[test]
fn slot_is_deterministic() {
    let first = slot(b"somekey");
    let second = slot(b"somekey");
    assert_eq!(first, second);
    assert!(first < 16384);
}

#[test]
fn slot_known_checksum_value() {
    // CRC16-XMODEM of "123456789" is 0x31c3 = 12739, below the slot count.
    assert_eq!(slot(b"123456789"), 12739);
}

#[test]
fn slot_empty_key() {
    // CRC16-XMODEM of the empty message is 0.
    assert_eq!(slot(b""), 0);
}

#[test]
fn hash_tag_colocates_keys() {
    let a = slot(b"{user1000}.following");
    let b = slot(b"{user1000}.followers");
    assert_eq!(a, b);
    let c = slot(b"{a}xyz");
    let d = slot(b"a");
    assert_eq!(c, d);
}

#[test]
fn empty_hash_tag_hashes_whole_key() {
    // "{}" holds no byte between the braces, so the whole key is hashed.
    let whole = slot(b"foo{}{bar}");
    assert!(whole < 16384);
    assert_eq!(whole, slot(b"foo{}{bar}"));
}

#[test]
fn command_without_key_has_no_slot() {
    let args: Vec<Vec<u8>> = vec![b"PING".to_vec()];
    assert_eq!(slot_for_command(&args), None);
    let empty: Vec<Vec<u8>> = vec![];
    assert_eq!(slot_for_command(&empty), None);
}

#[test]
fn command_with_key_hashes_second_argument() {
    let args: Vec<Vec<u8>> = vec![b"GET".to_vec(), b"123456789".to_vec()];
    assert_eq!(slot_for_command(&args), Some(12739));
}

#[test]
fn packed_command_without_key_has_no_slot() {
    let mut cmd = ClusterCmd::new();
    cmd.arg(b"PING".to_vec());
    assert_eq!(cmd.slot(), None);
    let packed = cmd.get_packed_command();
    assert_eq!(slot_for_packed_command(&packed), Ok(None));
}

#[test]
fn packed_command_with_key_routes_by_key() {
    let mut cmd = ClusterCmd::new();
    cmd.arg(b"SET".to_vec());
    cmd.arg(b"123456789".to_vec());
    cmd.arg(b"v".to_vec());
    assert_eq!(cmd.slot(), Some(12739));
    let packed = cmd.get_packed_command();
    assert_eq!(slot_for_packed_command(&packed), Ok(Some(12739)));
}

#[test]
fn malformed_packed_command_fails_fast() {
    assert_eq!(
        slot_for_packed_command(b"PING\r\n"),
        Err(ClusterError::MalformedCommand)
    );
}

#[test]
fn pipeline_routes_by_first_command() {
    let mut first = ClusterCmd::new();
    first.arg(b"SET".to_vec());
    first.arg(b"123456789".to_vec());
    first.arg(b"v".to_vec());
    let mut second = ClusterCmd::new();
    second.arg(b"GET".to_vec());
    second.arg(b"otherkey".to_vec());
    let mut batch = first.get_packed_command();
    batch.extend_from_slice(&second.get_packed_command());

    // the whole batch is more than one frame, so the single-command
    // extractor refuses it, while the batch extractor reads the first
    // command's key
    assert_eq!(
        slot_for_packed_command(&batch),
        Err(ClusterError::MalformedCommand)
    );
    assert_eq!(slot_for_packed_pipeline(&batch), Ok(Some(12739)));
}

#[test]
fn pipeline_extractor_accepts_a_single_frame() {
    let mut cmd = ClusterCmd::new();
    cmd.arg(b"GET".to_vec());
    cmd.arg(b"123456789".to_vec());
    let packed = cmd.get_packed_command();
    assert_eq!(slot_for_packed_pipeline(&packed), Ok(Some(12739)));

    let mut keyless = ClusterCmd::new();
    keyless.arg(b"PING".to_vec());
    let packed = keyless.get_packed_command();
    assert_eq!(slot_for_packed_pipeline(&packed), Ok(None));
}

#[test]
fn pipeline_extractor_fails_fast_on_malformed_bytes() {
    assert_eq!(
        slot_for_packed_pipeline(b"MULTI\r\n"),
        Err(ClusterError::MalformedCommand)
    );
    assert_eq!(
        slot_for_packed_pipeline(b"*1\r\n$4\r\nPI"),
        Err(ClusterError::MalformedCommand)
    );
}
