use quache::{
    checksum_text, frame_snapshot, open_snapshot, shard_file_name, shard_index, shard_path,
    split_snapshot, KVStore, Shard, ShardEntry, StoreError, NO_TTL,
};
use serde_json::Value;

#[test]
fn routing_is_the_same_for_two_stores() {
    let a = KVStore::new(7, "a".to_string());
    let b = KVStore::new(7, "b".to_string());
    for key in ["a", "b", "hey", "thisisaverylongkey", ""] {
        assert_eq!(a.find_shard(key), b.find_shard(key));
        assert_eq!(a.find_shard(key), a.find_shard(key));
        assert!(a.find_shard(key) < 7);
    }
}

#[test]
fn routing_uses_crc32_of_the_key() {
    // CRC-32 of "123456789" is 0xCBF43926.
    let store = KVStore::new(65536, "d".to_string());
    assert_eq!(store.find_shard("123456789"), 0x3926);
    assert_eq!(shard_index(0xCBF43926, 65536), 0x3926);
    assert_eq!(shard_index(10, 3), 1);
    assert_eq!(shard_index(u32::MAX, 1), 0);
}

#[test]
fn expired_entry_is_gone_after_cleanup() {
    let t = 5_000;
    let mut store = KVStore::new(3, "d".to_string());
    store.put_at("a".to_string(), Value::from(1), None, t);
    store.put_at("b".to_string(), Value::from(2), Some(1), t);
    assert_eq!(store.get("a".to_string()), Ok(Value::from(1)));
    assert_eq!(store.get("b".to_string()), Ok(Value::from(2)));
    store.cleanup_at(t + 1);
    assert_eq!(store.get("b".to_string()), Ok(Value::from(2)));
    store.cleanup_at(t + 5);
    assert_eq!(store.get("b".to_string()), Err(StoreError::NotFound));
    assert_eq!(store.get("a".to_string()), Ok(Value::from(1)));
}

#[test]
fn expired_entry_is_still_read_before_cleanup() {
    let mut store = KVStore::new(2, "d".to_string());
    store.put_at("k".to_string(), Value::from("v"), Some(10), 100);
    assert_eq!(store.get("k".to_string()), Ok(Value::from("v")));
}

#[test]
fn permanent_entries_survive_any_cleanup() {
    let mut store = KVStore::new(2, "d".to_string());
    store.put_at("p".to_string(), Value::from(true), None, 0);
    store.put_at("z".to_string(), Value::from(false), Some(0), 0);
    store.put_at("n".to_string(), Value::from(false), Some(-5), 0);
    store.cleanup_at(u64::MAX);
    assert_eq!(store.get("p".to_string()), Ok(Value::from(true)));
    assert_eq!(store.get("z".to_string()), Ok(Value::from(false)));
    assert_eq!(store.get("n".to_string()), Ok(Value::from(false)));
}

#[test]
fn entry_expiry_is_strict() {
    let e = ShardEntry::new_at(Value::from(1), Some(10), 100);
    assert!(!e.is_expired(110));
    assert!(e.is_expired(111));
    assert!(!e.is_expired(50));
    let p = ShardEntry::new_at(Value::from(1), None, 100);
    assert_eq!(p.ttl, NO_TTL);
    assert!(!p.is_expired(u64::MAX));
}

#[test]
fn put_overwrites_an_existing_key() {
    let mut store = KVStore::new(3, "d".to_string());
    store.put_at("k".to_string(), Value::from(1), None, 1);
    store.put_at("k".to_string(), Value::from(2), Some(5), 2);
    assert_eq!(store.get("k".to_string()), Ok(Value::from(2)));
    let i = store.find_shard("k");
    assert_eq!(store.shard(i).get_length(), 1);
    assert_eq!(store.shard(i).get(&"k".to_string()).unwrap().timestamp, 2);
}

#[test]
fn later_record_wins_when_building_a_shard() {
    let shard = Shard::new_with_data(vec![
        ("k".to_string(), ShardEntry::new_at(Value::from(1), None, 1)),
        ("k".to_string(), ShardEntry::new_at(Value::from(2), None, 2)),
    ]);
    assert_eq!(shard.get_length(), 1);
    assert_eq!(shard.get(&"k".to_string()).unwrap().value, Value::from(2));
}

#[test]
fn delete_of_absent_key_changes_nothing() {
    let mut store = KVStore::new(3, "d".to_string());
    store.put_at("a".to_string(), Value::from(1), None, 1);
    store.delete("missing".to_string());
    assert_eq!(store.get("a".to_string()), Ok(Value::from(1)));
    let total: usize = (0..3).map(|i| store.shard(i).get_length()).sum();
    assert_eq!(total, 1);
}

#[test]
fn second_flush_without_writes_is_skipped() {
    let mut store = KVStore::new(2, "d".to_string());
    store.put_at("a".to_string(), Value::from(1), None, 1);
    let i = store.find_shard("a");
    assert!(store.mark_flush(i));
    assert!(!store.mark_flush(i));
    assert!(!store.mark_flush(1 - i));
    assert_eq!(store.flushed_size(i), Some(1));
    assert_eq!(store.flushed_size(1 - i), None);
}

#[test]
fn empty_shard_is_never_written() {
    let mut store = KVStore::new(1, "d".to_string());
    store.put_at("a".to_string(), Value::from(1), None, 1);
    assert!(store.mark_flush(0));
    store.delete("a".to_string());
    assert!(store.mark_flush(0));
    assert_eq!(store.flushed_size(0), Some(0));
    assert_eq!(store.shard(0).flush(b"{}"), None);
    assert!(!store.mark_flush(0));
}

#[test]
fn shard_snapshot_frames_the_encoded_text() {
    let shard = Shard::new_with_data(vec![("a".to_string(), ShardEntry::new_at(Value::from(1), None, 1))]);
    assert_eq!(shard.flush(b"xyz"), Some(frame_snapshot(b"xyz")));
}

#[test]
fn snapshot_file_names() {
    assert_eq!(shard_file_name(0), "shard-0");
    assert_eq!(shard_file_name(42), "shard-42");
    assert_eq!(shard_file_name(1000), "shard-1000");
    assert_eq!(shard_path(".quache/", 3), ".quache/shard-3");
    assert_eq!(shard_path(".quache//", 10), ".quache/shard-10");
    assert_eq!(shard_path("data", 7), "data/shard-7");
    assert_eq!(shard_path("/", 1), "/shard-1");
}

#[test]
fn checksum_text_concatenates_decimal_bytes() {
    assert_eq!(checksum_text(&[1, 23, 255, 0, 100]), b"1232550100".to_vec());
    assert_eq!(checksum_text(&[]), Vec::<u8>::new());
}

#[test]
fn snapshot_of_empty_data_uses_md5() {
    let content = frame_snapshot(b"");
    assert_eq!(content, b"\n2122914021714301784233128915223624866126".to_vec());
}

#[test]
fn snapshot_round_trip() {
    let data = b"{\"a\":{\"ttl\":-1,\"value\":1,\"timestamp\":7}}".to_vec();
    let content = frame_snapshot(&data);
    assert_eq!(open_snapshot(&content), Ok(data.clone()));
    let (d, c) = split_snapshot(&content);
    assert_eq!(d, data);
    assert_eq!(c, checksum_text(&md5::compute(&data).to_vec()));
}

#[test]
fn flipped_data_byte_is_detected() {
    let data = b"{\"a\":{\"ttl\":-1,\"value\":1,\"timestamp\":7}}".to_vec();
    let content = frame_snapshot(&data);
    for i in 0..data.len() {
        let mut bad = content.clone();
        bad[i] ^= 0x01;
        assert_eq!(open_snapshot(&bad), Err(StoreError::Integrity));
    }
}

#[test]
fn snapshot_without_newline_is_split_as_checksum_only() {
    let (d, c) = split_snapshot(b"abc");
    assert!(d.is_empty());
    assert_eq!(c, b"abc".to_vec());
    assert_eq!(open_snapshot(b"abc"), Err(StoreError::Integrity));
}

#[test]
fn restore_three_shards_from_snapshots() {
    let mut store = KVStore::new(3, "d".to_string());
    store.put("hey".to_string(), Value::from(1), None);
    store.put("thisisaverylongkey".to_string(), Value::from(2), None);
    store.put("notthekindofthingyouwouldfind".to_string(), Value::from(3), None);
    let mut loaded: Vec<Option<Shard>> = Vec::new();
    for i in 0..3 {
        assert!(store.mark_flush(i));
        let records: Vec<(String, ShardEntry)> = store
            .shard(i)
            .entries()
            .iter()
            .map(|(k, e)| (k.clone(), ShardEntry::new_at(e.value.clone(), Some(e.ttl), e.timestamp)))
            .collect();
        loaded.push(Some(Shard::new_with_data(records)));
    }
    let restored = KVStore::new_from_disk(3, "d".to_string(), loaded);
    assert_eq!(restored.get("hey".to_string()), Ok(Value::from(1)));
    assert_eq!(restored.get("thisisaverylongkey".to_string()), Ok(Value::from(2)));
    assert_eq!(restored.get("notthekindofthingyouwouldfind".to_string()), Ok(Value::from(3)));
}

#[test]
fn missing_snapshot_gives_empty_shard() {
    let shard = Shard::new_with_data(vec![("a".to_string(), ShardEntry::new_at(Value::from(1), None, 1))]);
    let store = KVStore::new_from_disk(2, "d".to_string(), vec![None, Some(shard)]);
    assert_eq!(store.shard(0).get_length(), 0);
    assert_eq!(store.shard(1).get_length(), 1);
    assert_eq!(store.flushed_count(), 0);
}

#[test]
fn error_messages() {
    assert!(StoreError::NotFound.message().contains("not found"));
    assert!(!StoreError::Integrity.message().is_empty());
    assert!(!StoreError::Serialization.message().is_empty());
    assert!(!StoreError::Io.message().is_empty());
}
