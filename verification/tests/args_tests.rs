use redis_starter_rust::app_state::{AppState, ServerRole};
use redis_starter_rust::args::{
    apply_arg, apply_arg_undefined, handle_arg_port, handle_arg_replicaof, handshake_ping,
    handshake_reply, ArgError, ArgStep,
};

fn words(w: &[&str]) -> Vec<String> {
    w.iter().map(|s| s.to_string()).collect()
}

#[test]
fn port_option() {
    let mut state = AppState::default();
    let args = words(&["prog", "--port", "6380"]);
    assert!(!apply_arg_undefined(&args, 1));
    assert!(matches!(apply_arg(&mut state, &args, 0), Ok(ArgStep::Unknown)));
    assert!(matches!(apply_arg(&mut state, &args, 1), Ok(ArgStep::Applied)));
    assert_eq!(state.port, 6380);
    assert!(matches!(apply_arg(&mut state, &args, 2), Ok(ArgStep::Unknown)));
    handle_arg_port(&mut state, "7000");
    assert_eq!(state.port, 7000);
}

#[test]
fn options_without_values_are_undefined() {
    assert!(apply_arg_undefined(&words(&["--port"]), 0));
    assert!(apply_arg_undefined(&words(&["--port", "x"]), 0));
    assert!(apply_arg_undefined(&words(&["--replicaof"]), 0));
    assert!(!apply_arg_undefined(&words(&["--replicaof", "h p"]), 0));
    assert!(!apply_arg_undefined(&words(&["--other"]), 0));
}

#[test]
fn replicaof_option() {
    let mut state = AppState::default();
    let args = words(&["--replicaof", "localhost 6379"]);
    match apply_arg(&mut state, &args, 0) {
        Ok(ArgStep::Connect { host, port }) => {
            assert_eq!(host, "localhost");
            assert_eq!(port, "6379");
        }
        _ => panic!("expected a connection"),
    }
    assert_eq!(state.replication_info.role, ServerRole::Slave);

    let mut other = AppState::default();
    assert_eq!(handle_arg_replicaof(&mut other, "nospace").unwrap_err(), ArgError::InvalidReplicaOf);
    assert_eq!(other.replication_info.role, ServerRole::Master);
    let (h, p) = handle_arg_replicaof(&mut other, "a b c").unwrap();
    assert_eq!((h.as_str(), p.as_str()), ("a", "b c"));
    let (h, p) = handle_arg_replicaof(&mut other, "é ").unwrap();
    assert_eq!((h.as_str(), p.as_str()), ("é", ""));
}

#[test]
fn handshake_messages() {
    assert_eq!(handshake_ping(), b"*1\r\n$4\r\nPING\r\n".to_vec());
    assert_eq!(
        handshake_reply(0, b"+PONG\r\n", 6380),
        Some(b"*3\r\n$8\r\nREPLCONF\r\n$14\r\nlistening-port\r\n$4\r\n6380\r\n".to_vec())
    );
    assert_eq!(
        handshake_reply(1, b"+OK\r\n", 6380),
        Some(b"*3\r\n$8\r\nREPLCONF\r\n$4\r\ncapa\r\n$6\r\npsync2\r\n".to_vec())
    );
    assert_eq!(
        handshake_reply(2, b"+OK\r\n", 6380),
        Some(b"*3\r\n$5\r\nPSYNC\r\n$1\r\n?\r\n$2\r\n-1\r\n".to_vec())
    );
    assert_eq!(handshake_reply(0, b"+OK\r\n", 6380), None);
    assert_eq!(handshake_reply(3, b"+OK\r\n", 6380), None);
    assert_eq!(handshake_reply(1, b"-ERR\r\n", 6380), None);
    assert_eq!(
        handshake_reply(0, b"+PONG", -1),
        Some(b"*3\r\n$8\r\nREPLCONF\r\n$14\r\nlistening-port\r\n$2\r\n-1\r\n".to_vec())
    );
}
