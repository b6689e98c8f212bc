use redis_starter_rust::app_state::{AppState, RedisStateValue, ReplicationInfo, ServerRole};
use redis_starter_rust::connection::{handle_echo, handle_info, handle_ping};
use redis_starter_rust::store::RedisStore;

fn req(words: &[&str]) -> Vec<String> {
    words.iter().map(|w| w.to_string()).collect()
}

fn answer(state: &mut AppState, words: &[&str], now: u64) -> Option<Vec<u8>> {
    let args = req(words);
    assert!(!state.command_undefined(&args, now));
    state.handle_command(&args, now)
}

#[test]
fn defaults() {
    let state = AppState::default();
    assert_eq!(state.port, 6379);
    assert_eq!(state._master_host, "localhost");
    assert_eq!(state._master_port, 6379);
    assert_eq!(state.master_replid, "8371b4fb1155b71f4a04d3e1bc3e18c4a990aeeb");
    assert_eq!(state.master_repl_offset, 0);
    assert_eq!(state.replication_info.role, ServerRole::Master);
    assert_eq!(ReplicationInfo::default().role, ServerRole::Master);
}

#[test]
fn ping_echo_and_unknown() {
    let mut state = AppState::default();
    assert_eq!(answer(&mut state, &["PING"], 0), Some(b"+PONG\r\n".to_vec()));
    assert_eq!(answer(&mut state, &["ECHO", "hey"], 0), Some(b"$3\r\nhey\r\n".to_vec()));
    assert_eq!(answer(&mut state, &["ECHO"], 0), None);
    assert_eq!(answer(&mut state, &["FOO", "bar"], 0), Some(b"+OK\r\n".to_vec()));
    assert_eq!(answer(&mut state, &[], 0), Some(b"+NULL\r\n".to_vec()));
    assert_eq!(answer(&mut state, &["ping"], 0), Some(b"+OK\r\n".to_vec()));
    assert_eq!(handle_ping(), b"+PONG\r\n".to_vec());
    assert_eq!(handle_echo(&req(&["ECHO", "x"])), Some(b"$1\r\nx\r\n".to_vec()));
}

#[test]
fn long_texts_are_outside_the_short_frame() {
    let state = AppState::default();
    assert!(state.command_undefined(&req(&["ECHO", "0123456789"]), 0));
    assert!(!state.command_undefined(&req(&["ECHO", "012345678"]), 0));
}

#[test]
fn set_then_get() {
    let mut state = AppState::default();
    assert_eq!(answer(&mut state, &["SET", "k", "v"], 0), Some(b"+OK\r\n".to_vec()));
    assert_eq!(answer(&mut state, &["GET", "k"], 5), Some(b"$1\r\nv\r\n".to_vec()));
    assert_eq!(answer(&mut state, &["SET", "k", "w"], 6), Some(b"+OK\r\n".to_vec()));
    assert_eq!(answer(&mut state, &["GET", "k"], 7), Some(b"$1\r\nw\r\n".to_vec()));
    assert_eq!(answer(&mut state, &["GET", "other"], 7), None);
    assert_eq!(answer(&mut state, &["GET"], 7), None);
}

#[test]
fn set_refusals_change_nothing() {
    let mut state = AppState::default();
    assert_eq!(answer(&mut state, &["SET", "k"], 0), None);
    assert_eq!(answer(&mut state, &["SET", "k", "v", "px"], 0), None);
    assert_eq!(answer(&mut state, &["SET", "k", "v", "px", "soon"], 0), None);
    assert_eq!(answer(&mut state, &["GET", "k"], 0), None);
}

#[test]
fn expiring_values() {
    let mut state = AppState::default();
    assert_eq!(answer(&mut state, &["SET", "k", "v", "px", "100"], 1_000), Some(b"+OK\r\n".to_vec()));
    assert_eq!(answer(&mut state, &["GET", "k"], 100_001_000), Some(b"$1\r\nv\r\n".to_vec()));
    assert_eq!(answer(&mut state, &["GET", "k"], 100_001_001), Some(b"$-1\r\n".to_vec()));
    assert_eq!(answer(&mut state, &["GET", "k"], 100_001_002), None);
    // a negative expiry wraps to a very distant instant
    assert_eq!(answer(&mut state, &["SET", "n", "v", "px", "-1"], 0), Some(b"+OK\r\n".to_vec()));
    assert_eq!(answer(&mut state, &["GET", "n"], u64::MAX), Some(b"$1\r\nv\r\n".to_vec()));
}

#[test]
fn info_replication() {
    let mut state = AppState::default();
    assert_eq!(answer(&mut state, &["INFO", "replication"], 0), Some(b"+role:master\r\n".to_vec()));
    assert_eq!(answer(&mut state, &["INFO", "server"], 0), Some(b"+UNSUPPORTED\r\n".to_vec()));
    assert_eq!(answer(&mut state, &["INFO"], 0), None);
    assert_eq!(handle_info(ServerRole::Slave, &req(&["INFO", "replication"])), Some(b"+role:slave\r\n".to_vec()));
}

#[test]
fn store_operations() {
    let mut store = RedisStore::new();
    let key = "a".to_string();
    assert!(store.get(&key).is_none());
    store.insert(key.clone(), RedisStateValue { expiry: None, value: "1".to_string() });
    store.insert("b".to_string(), RedisStateValue { expiry: Some(5), value: "2".to_string() });
    store.insert(key.clone(), RedisStateValue { expiry: None, value: "3".to_string() });
    assert_eq!(store.get(&key).unwrap().value, "3");
    assert_eq!(store.get(&"b".to_string()).unwrap().expiry, Some(5));
    store.remove(&key);
    assert!(store.get(&key).is_none());
    assert_eq!(store.get(&"b".to_string()).unwrap().value, "2");
    let copy = store.get(&"b".to_string()).unwrap().clone();
    assert_eq!(copy.value, "2");
    assert_eq!(copy.expiry, Some(5));
}
