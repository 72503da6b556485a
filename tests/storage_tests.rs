use envsafe_cli::storage::{
    cached_version, clear_region, read_payload, write_payload, CacheError, SharedEnvData,
    CACHE_CAPACITY, LEN_PREFIX,
};
use envsafe_cli::vars::VariableSet;

fn snapshot_json(version: u64, project: &str, env: &str, key: &str, value: &str) -> Vec<u8> {
    format!(
        "{{\"version\":{},\"project_id\":\"{}\",\"environment\":\"{}\",\"variables\":{{\"{}\":\"{}\"}},\"last_updated\":\"2024-01-01T00:00:00Z\"}}",
        version, project, env, key, value
    )
    .into_bytes()
}

fn decoded_version(region: &[u8]) -> u64 {
    match read_payload(region) {
        Some(bytes) => match serde_json::from_slice::<serde_json::Value>(&bytes) {
            Ok(v) => v["version"].as_u64().unwrap_or(0),
            Err(_) => 0,
        },
        None => 0,
    }
}

#[test]
fn test_read_write() {
    let mut region = vec![0u8; CACHE_CAPACITY];
    let data = snapshot_json(1, "test-project", "development", "TEST_KEY", "test_value");

    write_payload(&mut region, &data).unwrap();

    let read_data = read_payload(&region).unwrap();
    let value: serde_json::Value = serde_json::from_slice(&read_data).unwrap();
    assert_eq!(value["version"].as_u64().unwrap(), 1);
    assert_eq!(value["variables"]["TEST_KEY"].as_str().unwrap(), "test_value");

    clear_region(&mut region);
    assert!(read_payload(&region).is_none());
}

#[test]
fn read_after_write_returns_payload() {
    let mut region = vec![0u8; CACHE_CAPACITY];
    let data = b"hello".to_vec();
    assert_eq!(write_payload(&mut region, &data), Ok(()));
    assert_eq!(&region[..LEN_PREFIX], &5u64.to_le_bytes());
    assert_eq!(read_payload(&region), Some(data));
}

#[test]
fn largest_payload_fits_and_one_more_byte_does_not() {
    let mut region = vec![0u8; CACHE_CAPACITY];
    let largest = vec![7u8; CACHE_CAPACITY - LEN_PREFIX];
    assert_eq!(write_payload(&mut region, &largest), Ok(()));
    assert_eq!(read_payload(&region).unwrap().len(), CACHE_CAPACITY - LEN_PREFIX);
    let too_big = vec![1u8; CACHE_CAPACITY - LEN_PREFIX + 1];
    assert_eq!(write_payload(&mut region, &too_big), Err(CacheError::CapacityExceeded));
}

#[test]
fn oversized_write_keeps_prior_content() {
    let mut region = vec![0u8; CACHE_CAPACITY];
    let prior = snapshot_json(2, "p", "dev", "A", "1");
    write_payload(&mut region, &prior).unwrap();
    let before = region.clone();
    let too_big = vec![b'x'; CACHE_CAPACITY];
    assert_eq!(write_payload(&mut region, &too_big), Err(CacheError::CapacityExceeded));
    assert_eq!(region, before);
    assert_eq!(read_payload(&region), Some(prior));
}

#[test]
fn fresh_region_has_version_zero() {
    let region = vec![0u8; CACHE_CAPACITY];
    assert!(read_payload(&region).is_none());
    assert_eq!(decoded_version(&region), 0);
    assert_eq!(cached_version(&None), 0);
}

#[test]
fn second_write_wins() {
    let mut region = vec![0u8; CACHE_CAPACITY];
    write_payload(&mut region, &snapshot_json(5, "p", "dev", "A", "a long first value")).unwrap();
    write_payload(&mut region, &snapshot_json(6, "p", "dev", "A", "b")).unwrap();
    assert_eq!(decoded_version(&region), 6);
}

#[test]
fn interrupted_write_reads_as_no_data() {
    let mut region = vec![0u8; CACHE_CAPACITY];
    let data = snapshot_json(7, "p", "dev", "A", "1");
    // The length prefix went out, the payload copy stopped halfway.
    region[..LEN_PREFIX].copy_from_slice(&(data.len() as u64).to_le_bytes());
    region[LEN_PREFIX..LEN_PREFIX + data.len() / 2].copy_from_slice(&data[..data.len() / 2]);
    assert_eq!(decoded_version(&region), 0);
}

#[test]
fn torn_length_prefix_reads_as_none() {
    let mut region = vec![0u8; CACHE_CAPACITY];
    region[..LEN_PREFIX].copy_from_slice(&u64::MAX.to_le_bytes());
    assert!(read_payload(&region).is_none());
    region[..LEN_PREFIX].copy_from_slice(&((CACHE_CAPACITY - LEN_PREFIX + 1) as u64).to_le_bytes());
    assert!(read_payload(&region).is_none());
}

#[test]
fn short_region_holds_nothing() {
    assert!(read_payload(&[1u8, 0, 0]).is_none());
}

#[test]
fn cached_version_reads_snapshot() {
    let snap = SharedEnvData {
        version: 3,
        project_id: "p".to_string(),
        environment: "dev".to_string(),
        variables: VariableSet::new(),
        last_updated: "t".to_string(),
    };
    assert_eq!(cached_version(&Some(snap)), 3);
}
