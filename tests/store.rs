use kvs::codec::{decode_command, encode_command, encode_record, read_command_from, Command};
use kvs::engine::{KvStore, DEFAULT_THRESHOLD};
use kvs::err::{KeyNonExist, KvsError, ParseError, ServerNotMatch};

fn s(x: &str) -> String {
    x.to_owned()
}

fn get(store: &KvStore, k: &str) -> Option<String> {
    store.get(s(k)).expect("get does not fail")
}

/// Splits a log into its records.
fn records(log: &[u8]) -> Vec<Command> {
    let mut off = 0;
    let mut out = Vec::new();
    while let Some((c, n)) = read_command_from(log, off) {
        out.push(c);
        off += n;
    }
    assert_eq!(off, log.len());
    out
}

#[test]
fn fresh_directory_scenario() {
    let mut store = KvStore::open(Vec::new());
    store.set(s("a"), s("1")).unwrap();
    assert_eq!(get(&store, "a"), Some(s("1")));
    store.set(s("a"), s("2")).unwrap();
    assert_eq!(get(&store, "a"), Some(s("2")));
    store.remove(s("a")).unwrap();
    assert_eq!(get(&store, "a"), None);
    assert_eq!(store.remove(s("a")), Err(KvsError::KeyNotFound));
}

#[test]
fn reopen_keeps_values() {
    let mut store = KvStore::open(Vec::new());
    store.set(s("k"), s("v")).unwrap();
    let bytes = store.log_bytes().clone();
    let reopened = KvStore::open(bytes);
    assert_eq!(get(&reopened, "k"), Some(s("v")));
}

#[test]
fn missing_key_is_absent() {
    let store = KvStore::open(Vec::new());
    assert_eq!(get(&store, "nothing"), None);
}

#[test]
fn remove_missing_key_fails() {
    let mut store = KvStore::open(Vec::new());
    assert_eq!(store.remove(s("x")), Err(KvsError::KeyNotFound));
    assert_eq!(store.cursor(), 0);
}

#[test]
fn set_twice_same_as_once() {
    let mut once = KvStore::open(Vec::new());
    once.set(s("k"), s("v")).unwrap();
    let mut twice = KvStore::open(Vec::new());
    twice.set(s("k"), s("v")).unwrap();
    twice.set(s("k"), s("v")).unwrap();
    assert_eq!(get(&once, "k"), get(&twice, "k"));
    assert_eq!(get(&twice, "other"), None);
}

#[test]
fn cursor_is_log_length() {
    let mut store = KvStore::open(Vec::new());
    store.set(s("a"), s("1")).unwrap();
    assert_eq!(store.cursor(), store.log_bytes().len());
    // {"Set":{"key":"a","value":"1"}} is 31 bytes, after an 8-byte length.
    assert_eq!(store.cursor(), 39);
    store.remove(s("a")).unwrap();
    assert_eq!(store.cursor(), store.log_bytes().len());
}

#[test]
fn record_layout() {
    let rec = encode_record(&Command::Put { key: s("a"), value: s("1") });
    let payload = br#"{"Set":{"key":"a","value":"1"}}"#;
    assert_eq!(&rec[..8], &(payload.len() as u64).to_be_bytes());
    assert_eq!(&rec[8..], &payload[..]);
    let rm = encode_command(&Command::Remove { key: s("a") });
    assert_eq!(rm, br#"{"Remove":{"key":"a"}}"#.to_vec());
}

#[test]
fn command_round_trip() {
    let cmds = vec![
        Command::Put { key: s("key \"quoted\""), value: s("line\nbreak ünïcode") },
        Command::Remove { key: s("k") },
    ];
    for c in cmds {
        assert_eq!(decode_command(&encode_command(&c)), Some(c.clone()));
        let rec = encode_record(&c);
        assert_eq!(read_command_from(&rec, 0), Some((c, rec.len())));
    }
}

#[test]
fn decode_rejects_garbage() {
    assert_eq!(decode_command(b"not json"), None);
    assert_eq!(decode_command(br#"{"Set":{"key":"a"}}"#), None);
    assert_eq!(decode_command(br#"{"Other":{"key":"a"}}"#), None);
    assert_eq!(read_command_from(&[0, 0, 0], 0), None);
    assert_eq!(read_command_from(&[0, 0, 0, 0, 0, 0, 0, 9, b'{'], 0), None);
}

#[test]
fn recovery_follows_last_record() {
    let mut log = Vec::new();
    log.extend(encode_record(&Command::Put { key: s("k"), value: s("1") }));
    log.extend(encode_record(&Command::Remove { key: s("k") }));
    log.extend(encode_record(&Command::Put { key: s("k"), value: s("2") }));
    log.extend(encode_record(&Command::Put { key: s("j"), value: s("x") }));
    log.extend(encode_record(&Command::Remove { key: s("j") }));
    let store = KvStore::open(log.clone());
    assert_eq!(get(&store, "k"), Some(s("2")));
    assert_eq!(get(&store, "j"), None);
    assert_eq!(store.cursor(), log.len());
    assert_eq!(store.threshold(), DEFAULT_THRESHOLD);
}

#[test]
fn recovery_cuts_a_torn_tail() {
    let mut log = encode_record(&Command::Put { key: s("k"), value: s("1") });
    let good = log.len();
    log.extend_from_slice(&[0, 0, 0, 0, 0, 0, 1, 0, b'{']);
    let store = KvStore::open(log);
    assert_eq!(store.cursor(), good);
    assert_eq!(get(&store, "k"), Some(s("1")));
}

#[test]
fn large_log_doubles_threshold() {
    let mut log = Vec::new();
    let value = "v".repeat(1024);
    let mut i = 0;
    while log.len() < DEFAULT_THRESHOLD {
        log.extend(encode_record(&Command::Put { key: format!("k{}", i), value: value.clone() }));
        i += 1;
    }
    let store = KvStore::open(log.clone());
    assert_eq!(store.threshold(), 2 * log.len());
}

#[test]
fn compaction_keeps_values() {
    let mut store = KvStore::open(Vec::new());
    let value = "x".repeat(1024);
    let mut max_cursor = 0;
    for i in 0..2000 {
        store.set(format!("key{}", i), format!("{}{}", value, i)).unwrap();
        max_cursor = max_cursor.max(store.cursor());
    }
    // Every key is live, so a compacted log is as long as the one it replaces.
    assert!(store.compactions() >= 1);
    assert!(max_cursor >= DEFAULT_THRESHOLD);
    assert_eq!(records(store.log_bytes()).len(), 2000);
    for i in 0..2000 {
        assert_eq!(get(&store, &format!("key{}", i)), Some(format!("{}{}", value, i)));
    }
}

#[test]
fn compaction_leaves_one_set_per_live_key() {
    let mut store = KvStore::open(Vec::new());
    let value = "y".repeat(1024);
    for round in 0..3 {
        for i in 0..40 {
            store.set(format!("k{}", i), format!("{}{}", value, round)).unwrap();
        }
    }
    for i in 0..10 {
        store.remove(format!("k{}", i)).unwrap();
    }
    let start = store.compactions();
    let mut i = 100;
    while store.compactions() == start {
        store.set(s("filler"), format!("{}", i)).unwrap();
        i += 1;
    }
    let recs = records(store.log_bytes());
    let mut keys: Vec<String> = Vec::new();
    for c in &recs {
        match c {
            Command::Put { key, .. } => keys.push(key.clone()),
            Command::Remove { .. } => panic!("a removal survived compaction"),
        }
    }
    keys.sort();
    let n = keys.len();
    keys.dedup();
    assert_eq!(keys.len(), n);
    assert_eq!(n, 31);
    for i in 0..10 {
        assert_eq!(get(&store, &format!("k{}", i)), None);
    }
    for i in 10..40 {
        assert_eq!(get(&store, &format!("k{}", i)), Some(format!("{}2", value)));
    }
}

#[test]
fn error_descriptions() {
    assert_eq!(KeyNonExist.description(), "Key not found");
    assert_eq!(ParseError.description(), "Parse failed");
    assert_eq!(ServerNotMatch.description(), "Server not match");
}

#[test]
fn small_log_threshold_is_twice_its_length() {
    let mut log = Vec::new();
    let value = "w".repeat(1024);
    let mut i = 0;
    while log.len() < 100 * 1024 {
        log.extend(encode_record(&Command::Put { key: format!("k{}", i), value: value.clone() }));
        i += 1;
    }
    let store = KvStore::open(log.clone());
    assert!(2 * log.len() > DEFAULT_THRESHOLD);
    assert_eq!(store.threshold(), 2 * log.len());
    let tiny = KvStore::open(encode_record(&Command::Put { key: s("a"), value: s("b") }));
    assert_eq!(tiny.threshold(), DEFAULT_THRESHOLD);
}

#[test]
fn set_appends_one_record_at_the_cursor() {
    let mut store = KvStore::open(Vec::new());
    store.set(s("a"), s("1")).unwrap();
    let before = store.log_bytes().clone();
    store.remove(s("a")).unwrap();
    let after = store.log_bytes().clone();
    assert_eq!(&after[..before.len()], &before[..]);
    assert_eq!(after[before.len()..].to_vec(), encode_record(&Command::Remove { key: s("a") }));
}
