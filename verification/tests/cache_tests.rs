use fy::cache::{after_removal, timestamp, Cache};
use rusqlite::{Connection, OptionalExtension};
use sha2::Digest;

fn open(max_bytes: u64) -> (Connection, Cache) {
    let connection = Connection::open_in_memory().unwrap();
    connection
        .execute_batch(
            "CREATE TABLE IF NOT EXISTS translations (
                 cache_key BLOB PRIMARY KEY,
                 translated TEXT NOT NULL,
                 size_bytes INTEGER NOT NULL,
                 accessed_at INTEGER NOT NULL
             );",
        )
        .unwrap();
    (connection, Cache::new(max_bytes))
}

fn put(connection: &Connection, cache: &Cache, key: &[u8], value: &str, now: i64) {
    let size = Cache::entry_size(key, value);
    if !cache.admits(size) {
        return;
    }
    connection
        .execute(
            "INSERT INTO translations(cache_key, translated, size_bytes, accessed_at)
             VALUES (?1, ?2, ?3, ?4)
             ON CONFLICT(cache_key) DO UPDATE SET
                 translated = excluded.translated,
                 size_bytes = excluded.size_bytes,
                 accessed_at = excluded.accessed_at",
            (key, value, size, now),
        )
        .unwrap();
    let mut total: i64 = connection
        .query_row("SELECT COALESCE(SUM(size_bytes), 0) FROM translations", [], |row| row.get(0))
        .unwrap();
    while cache.over_budget(total) {
        let removed: Option<i64> = connection
            .query_row(
                "SELECT size_bytes FROM translations ORDER BY accessed_at ASC, rowid ASC LIMIT 1",
                [],
                |row| row.get(0),
            )
            .optional()
            .unwrap();
        let Some(removed) = removed else { break };
        connection
            .execute(
                "DELETE FROM translations WHERE rowid = (
                    SELECT rowid FROM translations ORDER BY accessed_at ASC, rowid ASC LIMIT 1
                 )",
                [],
            )
            .unwrap();
        total = after_removal(total, removed);
    }
}

fn get(connection: &Connection, key: &[u8]) -> Option<String> {
    connection
        .query_row(
            "SELECT translated AS value FROM translations WHERE cache_key = ?1",
            [key],
            |row| row.get(0),
        )
        .optional()
        .unwrap()
}

#[test]
fn evicts_oldest_entry() {
    let (connection, cache) = open(75);
    let first = Cache::key(&["one", "m", "zh", "p"]);
    let second = Cache::key(&["two", "m", "zh", "p"]);
    put(&connection, &cache, &first, "1234567890", 1);
    put(&connection, &cache, &second, "abcdefghij", 2);
    assert!(get(&connection, &first).is_none());
    assert_eq!(get(&connection, &second).as_deref(), Some("abcdefghij"));
}

#[test]
fn oversized_entries_are_not_stored() {
    let (connection, cache) = open(40);
    let key = Cache::key(&["k"]);
    assert_eq!(Cache::entry_size(&key, "12345678"), 40);
    assert!(cache.admits(40));
    assert!(!cache.admits(41));
    put(&connection, &cache, &key, "123456789", 1);
    assert!(get(&connection, &key).is_none());
}

#[test]
fn key_is_sha256_of_length_framed_parts() {
    let mut message = Vec::new();
    for part in ["ab", "", "中"] {
        message.extend_from_slice(&(part.len() as u64).to_le_bytes());
        message.extend_from_slice(part.as_bytes());
    }
    let expected: [u8; 32] = sha2::Sha256::digest(&message).into();
    assert_eq!(Cache::key(&["ab", "", "中"]), expected);
    assert_ne!(Cache::key(&["ab", "c"]), Cache::key(&["a", "bc"]));
    assert_ne!(Cache::key(&["abc"]), Cache::key(&["abc", ""]));
}

#[test]
fn budget_arithmetic() {
    let cache = Cache::new(u64::MAX);
    assert_eq!(cache.max_bytes(), u64::MAX);
    assert!(!cache.over_budget(0));
    assert!(!cache.over_budget(i64::MAX));
    assert!(!cache.over_budget(-5));
    let cache = Cache::new(10);
    assert!(!cache.over_budget(10));
    assert!(cache.over_budget(11));
    assert_eq!(after_removal(10, 4), 6);
    assert_eq!(after_removal(i64::MIN, 1), i64::MIN);
    assert_eq!(after_removal(i64::MAX, -1), i64::MAX);
    assert!(timestamp() > 0);
}

#[test]
fn evicts_only_what_the_budget_needs() {
    let (connection, cache) = open(100);
    let keys = [Cache::key(&["a"]), Cache::key(&["b"]), Cache::key(&["c"])];
    put(&connection, &cache, &keys[0], "1234567890", 1);
    put(&connection, &cache, &keys[1], "abcdefghij", 2);
    assert!(get(&connection, &keys[0]).is_some());
    put(&connection, &cache, &keys[2], "ABCDEFGHIJ", 3);
    assert!(get(&connection, &keys[0]).is_none());
    assert_eq!(get(&connection, &keys[1]).as_deref(), Some("abcdefghij"));
    assert_eq!(get(&connection, &keys[2]).as_deref(), Some("ABCDEFGHIJ"));
}

#[test]
fn a_budget_beyond_i64_keeps_entries() {
    let (connection, cache) = open(u64::MAX);
    let key = Cache::key(&["k"]);
    put(&connection, &cache, &key, "value", 1);
    assert_eq!(get(&connection, &key).as_deref(), Some("value"));
}
