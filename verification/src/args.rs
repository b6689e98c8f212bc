//! Start-up options and the replica's side of the replication handshake.
use crate::app_state::{AppState, ServerRole};
use crate::decimal::{decimal_int, format_i32, lemma_decimal_bytes, parse_i32, spec_parse_i32};
use crate::encode::{array_frame, encode_resp_arr, strings_bytes};
use crate::connection::arg_bytes;
use crate::text::{
    ascii_string, bytes_eq, first_index_of, has_prefix, index_of_byte, starts_with,
    text_bytes,
};
use vstd::prelude::*;
use vstd::utf8::{
    encode_utf8_valid_utf8, is_char_boundary, is_char_boundary_iff_not_is_continuation_byte,
    is_char_boundary_start_end_of_seq, valid_utf8,
};

verus! {

/// Why the start-up options were refused.
#[derive(Debug, Clone, Copy, PartialEq, Eq)]
pub enum ArgError {
    /// The value of `--replicaof` has no space between host and port.
    InvalidReplicaOf,
}

/// `--port`
pub open spec fn port_flag() -> Seq<u8> { seq![45u8, 45u8, 112u8, 111u8, 114u8, 116u8] }
/// `--replicaof`
pub open spec fn replicaof_flag() -> Seq<u8> {
    seq![45u8, 45u8, 114u8, 101u8, 112u8, 108u8, 105u8, 99u8, 97u8, 111u8, 102u8]
}
/// `PING`
pub open spec fn ping_command() -> Seq<u8> { seq![80u8, 73u8, 78u8, 71u8] }
/// `REPLCONF`
pub open spec fn replconf_command() -> Seq<u8> { seq![82u8, 69u8, 80u8, 76u8, 67u8, 79u8, 78u8, 70u8] }
/// `listening-port`
pub open spec fn listening_port_word() -> Seq<u8> {
    seq![108u8, 105u8, 115u8, 116u8, 101u8, 110u8, 105u8, 110u8, 103u8, 45u8, 112u8, 111u8, 114u8, 116u8]
}
/// `capa`
pub open spec fn capa_word() -> Seq<u8> { seq![99u8, 97u8, 112u8, 97u8] }
/// `psync2`
pub open spec fn psync2_word() -> Seq<u8> { seq![112u8, 115u8, 121u8, 110u8, 99u8, 50u8] }
/// `PSYNC`
pub open spec fn psync_command() -> Seq<u8> { seq![80u8, 83u8, 89u8, 78u8, 67u8] }
/// `+PONG`
pub open spec fn pong_prefix() -> Seq<u8> { seq![43u8, 80u8, 79u8, 78u8, 71u8] }
/// `+OK`
pub open spec fn ok_prefix() -> Seq<u8> { seq![43u8, 79u8, 75u8] }

/// The text before and the text after the first space, if there is one.
pub open spec fn split_once_space(b: Seq<u8>) -> Option<(Seq<u8>, Seq<u8>)> {
    match first_index_of(b, 32u8, 0) {
        None => None,
        Some(m) => Some((b.subrange(0, m), b.subrange(m + 1, b.len() as int))),
    }
}

/// `str::split_once(" ")`: the text before and after the first space.
fn split_space(s: &str) -> (r: Option<(String, String)>)
    ensures
        match split_once_space(text_bytes(s@)) {
            None => r is None,
            Some((h, p)) => r matches Some((a, b)) && text_bytes(a@) == h && text_bytes(b@) == p,
        },
{
    let bytes = s.as_bytes();
    let m = match index_of_byte(bytes, 32u8, 0) {
        None => {
            return None;
        },
        Some(m) => m,
    };
    let ghost b = text_bytes(s@);
    proof {
        encode_utf8_valid_utf8(s@);
        is_char_boundary_iff_not_is_continuation_byte(b, m as int);
    }
    let (host, rest) = s.split_at(m);
    let ghost rb = text_bytes(rest@);
    proof {
        encode_utf8_valid_utf8(rest@);
        assert(rb =~= b.subrange(m as int, b.len() as int));
        assert(rb[0] == 32u8);
        if rb.len() == 1 {
            is_char_boundary_start_end_of_seq(rb);
        } else {
            reveal_with_fuel(is_char_boundary, 2);
            assert(vstd::utf8::pop_first_scalar(rb) =~= rb.subrange(1, rb.len() as int));
            assert(valid_utf8(vstd::utf8::pop_first_scalar(rb)));
            assert(is_char_boundary(rb, 1));
        }
    }
    let (_, port) = rest.split_at(1);
    proof {
        assert(text_bytes(port@) =~= b.subrange(m + 1, b.len() as int));
    }
    Some((host.to_owned(), port.to_owned()))
}

/// The listening port `--port <n>` sets.
pub fn handle_arg_port(state: &mut AppState, arg: &str)
    requires
        spec_parse_i32(text_bytes(arg@)) is Some,
    ensures
        final(state).port == spec_parse_i32(text_bytes(arg@))->0,
        final(state).replication_info == old(state).replication_info,
        final(state).redis_state == old(state).redis_state,
        final(state)._master_host == old(state)._master_host,
        final(state)._master_port == old(state)._master_port,
        final(state).master_replid == old(state).master_replid,
        final(state).master_repl_offset == old(state).master_repl_offset,
{
    match parse_i32(arg.as_bytes()) {
        Some(port) => {
            state.port = port;
        },
        None => {},
    }
}

/// `--replicaof "<host> <port>"`: the server becomes a replica of the
/// master at `<host>:<port>`, which the caller then connects to. Refused,
/// with the state unchanged, when there is no space in the value.
pub fn handle_arg_replicaof(state: &mut AppState, arg: &str) -> (r: Result<(String, String), ArgError>)
    ensures
        match split_once_space(text_bytes(arg@)) {
            None => r == Err::<(String, String), ArgError>(ArgError::InvalidReplicaOf)
                && final(state).replication_info == old(state).replication_info,
            Some((h, p)) => r matches Ok((host, port)) && text_bytes(host@) == h && text_bytes(port@) == p
                && final(state).replication_info.role == ServerRole::Slave,
        },
        final(state).port == old(state).port,
        final(state).redis_state == old(state).redis_state,
        final(state)._master_host == old(state)._master_host,
        final(state)._master_port == old(state)._master_port,
        final(state).master_replid == old(state).master_replid,
        final(state).master_repl_offset == old(state).master_repl_offset,
{
    match split_space(arg) {
        None => Err(ArgError::InvalidReplicaOf),
        Some((host, port)) => {
            state.replication_info.role = ServerRole::Slave;
            Ok((host, port))
        },
    }
}

/// What one start-up option asks of the caller once it is applied.
pub enum ArgStep {
    /// Nothing more: the option is applied.
    Applied,
    /// Connect to the master at `host:port` and run the handshake.
    Connect { host: String, port: String },
    /// The text is not an option (a value of an option, or unknown).
    Unknown,
}

/// The start-up options on which `apply_arg` is defined: `--port` and
/// `--replicaof` have a value after them, and that of `--port` is an `i32`.
pub open spec fn arg_defined(args: Seq<String>, i: int) -> bool {
    &&& arg_bytes(args, i) == port_flag() ==> i + 1 < args.len() && spec_parse_i32(
        arg_bytes(args, i + 1),
    ) is Some
    &&& arg_bytes(args, i) == replicaof_flag() ==> i + 1 < args.len()
}

/// Applies start-up argument `i`: `--port <n>` sets the port, and
/// `--replicaof "<host> <port>"` makes the server a replica; anything else
/// is unknown.
pub fn apply_arg(state: &mut AppState, args: &Vec<String>, i: usize) -> (r: Result<ArgStep, ArgError>)
    requires
        i < args@.len(),
        arg_defined(args@, i as int),
    ensures
        arg_bytes(args@, i as int) == port_flag() ==> (r matches Ok(ArgStep::Applied)
            && final(state).port == spec_parse_i32(arg_bytes(args@, i + 1))->0
            && final(state).replication_info == old(state).replication_info),
        arg_bytes(args@, i as int) == replicaof_flag() ==> (match split_once_space(arg_bytes(args@, i + 1)) {
            None => r == Err::<ArgStep, ArgError>(ArgError::InvalidReplicaOf)
                && final(state).replication_info == old(state).replication_info,
            Some((h, p)) => r matches Ok(ArgStep::Connect { host, port }) && text_bytes(host@) == h
                && text_bytes(port@) == p && final(state).replication_info.role == ServerRole::Slave,
        } && final(state).port == old(state).port),
        arg_bytes(args@, i as int) != port_flag() && arg_bytes(args@, i as int) != replicaof_flag()
            ==> (r matches Ok(ArgStep::Unknown) && final(state).port == old(state).port
            && final(state).replication_info == old(state).replication_info),
        final(state).redis_state == old(state).redis_state,
        final(state)._master_host == old(state)._master_host,
        final(state)._master_port == old(state)._master_port,
        final(state).master_replid == old(state).master_replid,
        final(state).master_repl_offset == old(state).master_repl_offset,
{
    let n = args.len();
    let arg = args[i].as_str().as_bytes();
    let port_word: Vec<u8> = vec![45u8, 45u8, 112u8, 111u8, 114u8, 116u8];
    let replicaof_word: Vec<u8> = vec![45u8, 45u8, 114u8, 101u8, 112u8, 108u8, 105u8, 99u8, 97u8, 111u8, 102u8];
    if bytes_eq(arg, &port_word) {
        handle_arg_port(state, args[i + 1].as_str());
        Ok(ArgStep::Applied)
    } else if bytes_eq(arg, &replicaof_word) {
        let (host, port) = handle_arg_replicaof(state, args[i + 1].as_str())?;
        Ok(ArgStep::Connect { host, port })
    } else {
        Ok(ArgStep::Unknown)
    }
}

/// Whether `apply_arg` is undefined on argument `i`: an option without its
/// value, or a port that is not an `i32`.
pub fn apply_arg_undefined(args: &Vec<String>, i: usize) -> (r: bool)
    requires
        i < args@.len(),
    ensures
        r == !arg_defined(args@, i as int),
{
    let n = args.len();
    let arg = args[i].as_str().as_bytes();
    let port_word: Vec<u8> = vec![45u8, 45u8, 112u8, 111u8, 114u8, 116u8];
    let replicaof_word: Vec<u8> = vec![45u8, 45u8, 114u8, 101u8, 112u8, 108u8, 105u8, 99u8, 97u8, 111u8, 102u8];
    if bytes_eq(arg, &port_word) {
        n - i < 2 || parse_i32(args[i + 1].as_str().as_bytes()).is_none()
    } else if bytes_eq(arg, &replicaof_word) {
        n - i < 2
    } else {
        false
    }
}

/// The UTF-8 bytes of the encoded command, as they go on the wire.
fn command_bytes(parts: Vec<String>) -> (r: Vec<u8>)
    ensures
        r@ == array_frame(strings_bytes(parts@)),
{
    let mut v: Vec<u8> = Vec::new();
    match encode_resp_arr(parts) {
        Ok(s) => {
            crate::decimal::append_bytes(&mut v, s.as_str().as_bytes());
        },
        Err(_) => {},
    }
    v
}

/// The first message of the handshake: `PING` as a RESP array.
pub fn handshake_ping() -> (r: Vec<u8>)
    ensures
        r@ == array_frame(seq![ping_command()]),
{
    let w = vec![80u8, 73u8, 78u8, 71u8];
    let ping = ascii_string(w);
    let parts = vec![ping];
    proof {
        assert(strings_bytes(parts@) =~= seq![ping_command()]);
    }
    command_bytes(parts)
}

/// The message the replica sends after the master's `counter`-th answer.
pub open spec fn handshake_reply_spec(counter: i32, response: Seq<u8>, port: i32) -> Option<Seq<u8>> {
    if counter == 0 && starts_with(response, pong_prefix()) {
        Some(array_frame(seq![replconf_command(), listening_port_word(), decimal_int(port as int)]))
    } else if counter == 1 && starts_with(response, ok_prefix()) {
        Some(array_frame(seq![replconf_command(), capa_word(), psync2_word()]))
    } else if counter == 2 && starts_with(response, ok_prefix()) {
        Some(array_frame(seq![psync_command(), seq![63u8], seq![45u8, 49u8]]))
    } else {
        None
    }
}

/// The replica's side of the handshake: after `+PONG` it announces its
/// listening port, after the first `+OK` its capabilities, and after the
/// second `+OK` it asks for a full resynchronisation. Other answers get
/// no message.
pub fn handshake_reply(counter: i32, response: &[u8], port: i32) -> (r: Option<Vec<u8>>)
    ensures
        crate::connection::reply_bytes(r) == handshake_reply_spec(counter, response@, port),
{
    let replconf = vec![82u8, 69u8, 80u8, 76u8, 67u8, 79u8, 78u8, 70u8];
    if counter == 0 && has_prefix(response, &[43u8, 80u8, 79u8, 78u8, 71u8]) {
        let digits = format_i32(port);
        proof {
            assert forall|i: int| 0 <= i < digits@.len() implies #[trigger] digits@[i] < 128 by {
                lemma_decimal_bytes(if port < 0 { (-port) as nat } else { port as nat });
                if port < 0 {
                    assert(digits@ =~= seq![45u8] + crate::decimal::decimal_bytes((-port) as nat));
                    if i > 0 {
                        assert(digits@[i] == crate::decimal::decimal_bytes((-port) as nat)[i - 1]);
                    }
                }
            }
        }
        let parts = vec![
            ascii_string(replconf),
            ascii_string(vec![108u8, 105u8, 115u8, 116u8, 101u8, 110u8, 105u8, 110u8, 103u8, 45u8, 112u8, 111u8, 114u8, 116u8]),
            ascii_string(digits),
        ];
        proof {
            assert(strings_bytes(parts@) =~= seq![replconf_command(), listening_port_word(), decimal_int(port as int)]);
        }
        Some(command_bytes(parts))
    } else if counter == 1 && has_prefix(response, &[43u8, 79u8, 75u8]) {
        let parts = vec![
            ascii_string(replconf),
            ascii_string(vec![99u8, 97u8, 112u8, 97u8]),
            ascii_string(vec![112u8, 115u8, 121u8, 110u8, 99u8, 50u8]),
        ];
        proof {
            assert(strings_bytes(parts@) =~= seq![replconf_command(), capa_word(), psync2_word()]);
        }
        Some(command_bytes(parts))
    } else if counter == 2 && has_prefix(response, &[43u8, 79u8, 75u8]) {
        let q: Vec<u8> = vec![63u8];
        let minus_one: Vec<u8> = vec![45u8, 49u8];
        assert(q@ =~= seq![63u8]);
        assert(minus_one@ =~= seq![45u8, 49u8]);
        let parts = vec![
            ascii_string(vec![80u8, 83u8, 89u8, 78u8, 67u8]),
            ascii_string(q),
            ascii_string(minus_one),
        ];
        proof {
            assert(strings_bytes(parts@) =~= seq![psync_command(), seq![63u8], seq![45u8, 49u8]]);
        }
        Some(command_bytes(parts))
    } else {
        None
    }
}

/// An array of at most three ASCII parts, each shorter than a hundred bytes
/// and without `$`, is read back by `parse_args` as those parts.
proof fn lemma_message_reads_back(parts: Seq<Seq<u8>>)
    requires
        parts.len() <= 3,
        forall|k: int| 0 <= k < parts.len() ==> crate::text::ascii_bytes(#[trigger] parts[k])
            && crate::framing::no_dollar(parts[k]) && parts[k].len() < 100,
    ensures
        crate::framing::spec_parse_args(array_frame(parts), array_frame(parts).len() as int)
            == crate::framing::ArgsScan::Parsed(parts),
{
    assert forall|k: int| 0 <= k < parts.len() implies crate::framing::readable_payload(#[trigger] parts[k]) by {
        crate::text::lemma_ascii_valid_utf8(parts[k]);
    }
    assert forall|k: int| 0 <= k < parts.len() implies (#[trigger] parts[k]).len() < 100 by {}
    crate::framing::lemma_concat_frames_len(parts);
    lemma_decimal_bytes(parts.len());
    crate::framing::law_parse_args_reads_array(parts, Seq::empty());
    assert(array_frame(parts) + Seq::<u8>::empty() =~= array_frame(parts));
}

/// After the master's `+PONG` the replica announces its port: the message is
/// an array that `parse_args` reads as `REPLCONF`, `listening-port` and a
/// decimal text that reads back as the port, for every port.
pub proof fn law_handshake_announces_port(response: Seq<u8>, port: i32)
    requires
        starts_with(response, pong_prefix()),
    ensures
        handshake_reply_spec(0, response, port) matches Some(m)
            && crate::framing::spec_parse_args(m, m.len() as int) matches crate::framing::ArgsScan::Parsed(ps)
            && ps.len() == 3 && ps[0] == replconf_command() && ps[1] == listening_port_word()
            && spec_parse_i32(ps[2]) == Some(port),
{
    let t = decimal_int(port as int);
    crate::decimal::lemma_decimal_int_bytes(port);
    crate::decimal::lemma_parse_decimal_i32(port);
    let parts = seq![replconf_command(), listening_port_word(), t];
    assert forall|k: int| 0 <= k < parts.len() implies crate::text::ascii_bytes(#[trigger] parts[k])
        && crate::framing::no_dollar(parts[k]) && parts[k].len() < 100 by {
        if k == 2 {
            assert forall|i: int| 0 <= i < t.len() implies #[trigger] t[i] < 128 && t[i] != 36u8 by {
                assert(crate::decimal::is_digit(t[i]) || t[i] == 45u8);
            }
        }
    }
    lemma_message_reads_back(parts);
}

/// After the first `+OK` the replica sends `REPLCONF capa psync2`, after the
/// second `PSYNC ? -1`, each read back as those words by `parse_args`; from
/// the fourth answer on it sends nothing.
pub proof fn law_handshake_after_ok(response: Seq<u8>, counter: i32, port: i32)
    requires
        starts_with(response, ok_prefix()),
    ensures
        counter == 1 ==> (handshake_reply_spec(counter, response, port) matches Some(m)
            && crate::framing::spec_parse_args(m, m.len() as int) == crate::framing::ArgsScan::Parsed(
            seq![replconf_command(), capa_word(), psync2_word()],
        )),
        counter == 2 ==> (handshake_reply_spec(counter, response, port) matches Some(m)
            && crate::framing::spec_parse_args(m, m.len() as int) == crate::framing::ArgsScan::Parsed(
            seq![psync_command(), seq![63u8], seq![45u8, 49u8]],
        )),
        counter > 2 || counter < 0 ==> handshake_reply_spec(counter, response, port) is None,
{
    let a = seq![replconf_command(), capa_word(), psync2_word()];
    let b = seq![psync_command(), seq![63u8], seq![45u8, 49u8]];
    assert forall|k: int| 0 <= k < a.len() implies crate::text::ascii_bytes(#[trigger] a[k])
        && crate::framing::no_dollar(a[k]) && a[k].len() < 100 by {}
    assert forall|k: int| 0 <= k < b.len() implies crate::text::ascii_bytes(#[trigger] b[k])
        && crate::framing::no_dollar(b[k]) && b[k].len() < 100 by {}
    lemma_message_reads_back(a);
    lemma_message_reads_back(b);
}

} // verus!
