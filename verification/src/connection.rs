//! What the server answers to a request, and how a request changes its data.
//! A request is the list of bulk strings read from a client; the answer is
//! the bytes written back, or nothing.
use std::string::FromUtf8Error;
use crate::app_state::{AppState, RedisStateValue, ServerRole};
use crate::decimal::{parse_i32, spec_parse_i32, append_bytes};
use crate::encode::{crlf, simple_string_frame, RESP_SIMPLE_STRING_START, RESP_STRING_START};
use crate::store::RedisStore;
use crate::text::{ascii_bytes, bytes_eq, lemma_ascii_valid_utf8, lemma_decode_encode, lemma_text_bytes, lemma_valid_concat, string_from_utf8, text_bytes};
use vstd::prelude::*;

verus! {

/// The stored data: key text to value text and expiry instant.
pub type StoreView = Map<Seq<char>, (Seq<char>, Option<u128>)>;

/// `PING`
pub open spec fn ping_word() -> Seq<u8> { seq![80u8, 73u8, 78u8, 71u8] }
/// `ECHO`
pub open spec fn echo_word() -> Seq<u8> { seq![69u8, 67u8, 72u8, 79u8] }
/// `SET`
pub open spec fn set_word() -> Seq<u8> { seq![83u8, 69u8, 84u8] }
/// `GET`
pub open spec fn get_word() -> Seq<u8> { seq![71u8, 69u8, 84u8] }
/// `INFO`
pub open spec fn info_word() -> Seq<u8> { seq![73u8, 78u8, 70u8, 79u8] }
/// `replication`
pub open spec fn replication_word() -> Seq<u8> {
    seq![114u8, 101u8, 112u8, 108u8, 105u8, 99u8, 97u8, 116u8, 105u8, 111u8, 110u8]
}
/// `PONG`
pub open spec fn pong_word() -> Seq<u8> { seq![80u8, 79u8, 78u8, 71u8] }
/// `OK`
pub open spec fn ok_word() -> Seq<u8> { seq![79u8, 75u8] }
/// `NULL`
pub open spec fn null_word() -> Seq<u8> { seq![78u8, 85u8, 76u8, 76u8] }
/// `UNSUPPORTED`
pub open spec fn unsupported_word() -> Seq<u8> {
    seq![85u8, 78u8, 83u8, 85u8, 80u8, 80u8, 79u8, 82u8, 84u8, 69u8, 68u8]
}
/// `role:master` or `role:slave`
pub open spec fn role_line(role: ServerRole) -> Seq<u8> {
    seq![114u8, 111u8, 108u8, 101u8, 58u8] + match role {
        ServerRole::Master => seq![109u8, 97u8, 115u8, 116u8, 101u8, 114u8],
        ServerRole::Slave => seq![115u8, 108u8, 97u8, 118u8, 101u8],
    }
}
/// The null bulk string `$-1\r\n`.
pub open spec fn null_bulk() -> Seq<u8> { seq![36u8, 45u8, 49u8, 13u8, 10u8] }

/// The bulk string that `serialize_resp_str` writes: its length is one
/// digit, the byte length taken modulo 2^32.
pub open spec fn short_bulk_frame(payload: Seq<u8>) -> Seq<u8> {
    seq![RESP_STRING_START, (48 + payload.len() % 0x1_0000_0000) as u8] + crlf() + payload + crlf()
}

/// The byte length modulo 2^32 is a single digit.
pub open spec fn short_enough(payload: Seq<u8>) -> bool {
    payload.len() % 0x1_0000_0000 < 10
}

/// The bytes of an answer, if there is one.
pub open spec fn reply_bytes(r: Option<Vec<u8>>) -> Option<Seq<u8>> {
    match r {
        Some(v) => Some(v@),
        None => None,
    }
}

/// The bytes of argument `k` of a request.
pub open spec fn arg_bytes(args: Seq<String>, k: int) -> Seq<u8> {
    text_bytes(args[k]@)
}

/// Encodes `input` as a bulk string whose length is a single digit:
/// `$<d>\r\n<input>\r\n`, where `d` is the byte length modulo 2^32. Defined
/// where that is below ten.
pub fn serialize_resp_str(input: &str) -> (r: Result<String, FromUtf8Error>)
    requires
        short_enough(text_bytes(input@)),
    ensures
        r matches Ok(s) && text_bytes(s@) == short_bulk_frame(text_bytes(input@)),
{
    let n = input.as_bytes().len();
    let d: u32 = ((n as u64) % 0x1_0000_0000u64) as u32;
    let mut result: Vec<u8> = Vec::new();
    result.push(RESP_STRING_START);
    result.push((d + 48) as u8);
    result.push(13u8);
    result.push(10u8);
    append_bytes(&mut result, input.as_bytes());
    result.push(13u8);
    result.push(10u8);
    let ghost p = text_bytes(input@);
    let ghost head = seq![RESP_STRING_START, (48 + p.len() % 0x1_0000_0000) as u8] + crlf();
    proof {
        assert(result@ =~= head + p + crlf());
        lemma_text_bytes(input@);
        assert(ascii_bytes(head));
        assert(ascii_bytes(crlf()));
        lemma_ascii_valid_utf8(head);
        lemma_ascii_valid_utf8(crlf());
        lemma_valid_concat(head, p);
        lemma_valid_concat(head + p, crlf());
    }
    let ghost b = result@;
    let r = string_from_utf8(result);
    proof {
        lemma_decode_encode(b);
    }
    r
}

/// The bytes of a string.
fn string_bytes(s: &String) -> (r: Vec<u8>)
    ensures
        r@ == text_bytes(s@),
{
    let mut v: Vec<u8> = Vec::new();
    append_bytes(&mut v, s.as_str().as_bytes());
    v
}

/// `+<word>\r\n`
fn simple_reply(word: Vec<u8>) -> (r: Vec<u8>)
    ensures
        r@ == simple_string_frame(word@),
{
    let mut v: Vec<u8> = Vec::new();
    v.push(RESP_SIMPLE_STRING_START);
    append_bytes(&mut v, &word);
    v.push(13u8);
    v.push(10u8);
    assert(v@ =~= simple_string_frame(word@));
    v
}

/// Whether argument `k` of the request is the word `word`.
fn arg_is(args: &Vec<String>, k: usize, word: Vec<u8>) -> (r: bool)
    requires
        k < args@.len(),
    ensures
        r == (arg_bytes(args@, k as int) == word@),
{
    bytes_eq(args[k].as_str().as_bytes(), &word)
}

/// The answer to `PING`.
pub fn handle_ping() -> (r: Vec<u8>)
    ensures
        r@ == simple_string_frame(pong_word()),
{
    simple_reply(vec![80u8, 79u8, 78u8, 71u8])
}

/// The answer to `ECHO <text>`, if the request has the text.
pub open spec fn echo_reply(args: Seq<String>) -> Option<Seq<u8>> {
    if args.len() < 2 {
        None
    } else {
        Some(short_bulk_frame(arg_bytes(args, 1)))
    }
}

/// `ECHO` is answered for these requests.
pub open spec fn echo_defined(args: Seq<String>) -> bool {
    args.len() < 2 || short_enough(arg_bytes(args, 1))
}

/// Answers `ECHO <text>` with the text as a short bulk string; a request
/// without the text gets no answer.
pub fn handle_echo(args: &Vec<String>) -> (r: Option<Vec<u8>>)
    requires
        echo_defined(args@),
    ensures
        reply_bytes(r) == echo_reply(args@),
{
    if args.len() < 2 {
        return None;
    }
    match serialize_resp_str(args[1].as_str()) {
        Ok(s) => Some(string_bytes(&s)),
        Err(_) => None,
    }
}

/// The expiry that `SET` gives the stored value: none without options, and
/// after `<ms>` milliseconds with `SET <key> <value> <option> <ms>`, the
/// milliseconds read as an `i32` and taken as a `u64`; `None` where the
/// options are incomplete or the milliseconds do not read.
pub open spec fn set_expiry(args: Seq<String>, now: u64) -> Option<Option<u128>> {
    if args.len() < 4 {
        Some(None)
    } else if args.len() < 5 {
        None
    } else {
        match spec_parse_i32(arg_bytes(args, 4)) {
            None => None,
            Some(ms) => Some(Some((now + (ms as u64) * 1_000_000) as u128)),
        }
    }
}

/// The data after `SET`, and its answer.
pub open spec fn set_result(store: StoreView, args: Seq<String>, now: u64) -> (StoreView, Option<Seq<u8>>) {
    if args.len() < 3 {
        (store, None)
    } else {
        match set_expiry(args, now) {
            None => (store, None),
            Some(e) => (store.insert(args[1]@, (args[2]@, e)), Some(simple_string_frame(ok_word()))),
        }
    }
}

/// Stores a value: `SET <key> <value>`, or `SET <key> <value> <option> <ms>`
/// for a value that expires `<ms>` milliseconds after `now`.
pub fn handle_set(store: &mut RedisStore, args: &Vec<String>, now: u64) -> (r: Option<Vec<u8>>)
    ensures
        (final(store)@, reply_bytes(r)) == set_result(old(store)@, args@, now),
{
    if args.len() < 3 {
        return None;
    }
    let mut px: Option<u128> = None;
    if args.len() >= 4 {
        if args.len() < 5 {
            return None;
        }
        match parse_i32(args[4].as_str().as_bytes()) {
            None => {
                return None;
            },
            Some(ms) => {
                let wide: u64 = ms as u64;
                px = Some(now as u128 + wide as u128 * 1_000_000u128);
            },
        }
    }
    let value = RedisStateValue { expiry: px, value: args[2].clone() };
    store.insert(args[1].clone(), value);
    Some(simple_reply(vec![79u8, 75u8]))
}

/// The stored value has expired by `now`.
pub open spec fn expired(expiry: Option<u128>, now: u64) -> bool {
    expiry matches Some(t) && t < now
}

/// The data after `GET`, and its answer.
pub open spec fn get_result(store: StoreView, args: Seq<String>, now: u64) -> (StoreView, Option<Seq<u8>>) {
    if args.len() < 2 || !store.contains_key(args[1]@) {
        (store, None)
    } else if expired(store[args[1]@].1, now) {
        (store.remove(args[1]@), Some(null_bulk()))
    } else {
        (store, Some(short_bulk_frame(text_bytes(store[args[1]@].0))))
    }
}

/// `GET` is answered for these requests.
pub open spec fn get_defined(store: StoreView, args: Seq<String>, now: u64) -> bool {
    args.len() < 2 || !store.contains_key(args[1]@) || expired(store[args[1]@].1, now)
        || short_enough(text_bytes(store[args[1]@].0))
}

/// Reads a value: `GET <key>`. A value whose expiry has passed is removed
/// and answered with the null bulk string; a missing key gets no answer.
pub fn handle_get(store: &mut RedisStore, args: &Vec<String>, now: u64) -> (r: Option<Vec<u8>>)
    requires
        get_defined(old(store)@, args@, now),
    ensures
        (final(store)@, reply_bytes(r)) == get_result(old(store)@, args@, now),
{
    if args.len() < 2 {
        return None;
    }
    let key = &args[1];
    let (expiry, reply) = match store.get(key) {
        None => {
            return None;
        },
        Some(v) => {
            let e = v.expiry;
            let expired_now = match e {
                Some(t) => t < now as u128,
                None => false,
            };
            if expired_now {
                (true, None)
            } else {
                match serialize_resp_str(v.value.as_str()) {
                    Ok(s) => (false, Some(string_bytes(&s))),
                    Err(_) => (false, None),
                }
            }
        },
    };
    if expiry {
        store.remove(key);
        return Some(vec![36u8, 45u8, 49u8, 13u8, 10u8]);
    }
    reply
}

/// The answer to `INFO <section>`.
pub open spec fn info_reply(role: ServerRole, args: Seq<String>) -> Option<Seq<u8>> {
    if args.len() < 2 {
        None
    } else if arg_bytes(args, 1) == replication_word() {
        Some(simple_string_frame(role_line(role)))
    } else {
        Some(simple_string_frame(unsupported_word()))
    }
}

/// Answers `INFO replication` with the server's role; other sections are
/// unsupported.
pub fn handle_info(role: ServerRole, args: &Vec<String>) -> (r: Option<Vec<u8>>)
    ensures
        reply_bytes(r) == info_reply(role, args@),
{
    if args.len() < 2 {
        return None;
    }
    if arg_is(args, 1, vec![114u8, 101u8, 112u8, 108u8, 105u8, 99u8, 97u8, 116u8, 105u8, 111u8, 110u8]) {
        let line = match role {
            ServerRole::Master => vec![114u8, 111u8, 108u8, 101u8, 58u8, 109u8, 97u8, 115u8, 116u8, 101u8, 114u8],
            ServerRole::Slave => vec![114u8, 111u8, 108u8, 101u8, 58u8, 115u8, 108u8, 97u8, 118u8, 101u8],
        };
        assert(line@ =~= role_line(role));
        Some(simple_reply(line))
    } else {
        Some(simple_reply(vec![85u8, 78u8, 83u8, 85u8, 80u8, 80u8, 79u8, 82u8, 84u8, 69u8, 68u8]))
    }
}

/// The data after a request, and its answer.
pub open spec fn command_result(store: StoreView, role: ServerRole, args: Seq<String>, now: u64) -> (StoreView, Option<Seq<u8>>) {
    if args.len() == 0 {
        (store, Some(simple_string_frame(null_word())))
    } else if arg_bytes(args, 0) == ping_word() {
        (store, Some(simple_string_frame(pong_word())))
    } else if arg_bytes(args, 0) == echo_word() {
        (store, echo_reply(args))
    } else if arg_bytes(args, 0) == set_word() {
        set_result(store, args, now)
    } else if arg_bytes(args, 0) == get_word() {
        get_result(store, args, now)
    } else if arg_bytes(args, 0) == info_word() {
        (store, info_reply(role, args))
    } else {
        (store, Some(simple_string_frame(ok_word())))
    }
}

/// The requests that are answered: all but an `ECHO` or a `GET` whose text
/// is ten bytes long or longer (modulo 2^32).
pub open spec fn command_defined(store: StoreView, args: Seq<String>, now: u64) -> bool {
    args.len() > 0 ==> {
        &&& arg_bytes(args, 0) == echo_word() ==> echo_defined(args)
        &&& arg_bytes(args, 0) == get_word() ==> get_defined(store, args, now)
    }
}

impl AppState {
    /// Answers one request at instant `now` (nanoseconds), changing the data
    /// as `command_result` says; the rest of the state stays as it was.
    pub fn handle_command(&mut self, args: &Vec<String>, now: u64) -> (r: Option<Vec<u8>>)
        requires
            command_defined(old(self).redis_state@, args@, now),
        ensures
            (final(self).redis_state@, reply_bytes(r)) == command_result(
                old(self).redis_state@,
                old(self).replication_info.role,
                args@,
                now,
            ),
            final(self).replication_info == old(self).replication_info,
            final(self).port == old(self).port,
            final(self)._master_host == old(self)._master_host,
            final(self)._master_port == old(self)._master_port,
            final(self).master_replid == old(self).master_replid,
            final(self).master_repl_offset == old(self).master_repl_offset,
    {
        if args.len() == 0 {
            return Some(simple_reply(vec![78u8, 85u8, 76u8, 76u8]));
        }
        if arg_is(args, 0, vec![80u8, 73u8, 78u8, 71u8]) {
            Some(handle_ping())
        } else if arg_is(args, 0, vec![69u8, 67u8, 72u8, 79u8]) {
            handle_echo(args)
        } else if arg_is(args, 0, vec![83u8, 69u8, 84u8]) {
            handle_set(&mut self.redis_state, args, now)
        } else if arg_is(args, 0, vec![71u8, 69u8, 84u8]) {
            handle_get(&mut self.redis_state, args, now)
        } else if arg_is(args, 0, vec![73u8, 78u8, 70u8, 79u8]) {
            handle_info(self.replication_info.role, args)
        } else {
            Some(simple_reply(vec![79u8, 75u8]))
        }
    }

    /// Whether `handle_command` is undefined on this request: an `ECHO` or a
    /// `GET` whose text has ten bytes or more (modulo 2^32).
    pub fn command_undefined(&self, args: &Vec<String>, now: u64) -> (r: bool)
        ensures
            r == !command_defined(self.redis_state@, args@, now),
    {
        if args.len() < 2 {
            return false;
        }
        if arg_is(args, 0, vec![69u8, 67u8, 72u8, 79u8]) {
            return !(((args[1].as_str().as_bytes().len() as u64) % 0x1_0000_0000u64) < 10);
        }
        if arg_is(args, 0, vec![71u8, 69u8, 84u8]) {
            match self.redis_state.get(&args[1]) {
                None => false,
                Some(v) => {
                    let gone = match v.expiry {
                        Some(t) => t < now as u128,
                        None => false,
                    };
                    !gone && !(((v.value.as_str().as_bytes().len() as u64) % 0x1_0000_0000u64) < 10)
                },
            }
        } else {
            false
        }
    }
}

/// A value stored by `SET <key> <value>` is what a later `GET <key>` answers,
/// as a short bulk string, and the `SET` itself is answered `+OK`.
pub proof fn law_get_after_set(
    store: StoreView,
    role: ServerRole,
    set_args: Seq<String>,
    get_args: Seq<String>,
    t1: u64,
    t2: u64,
)
    requires
        set_args.len() == 3,
        arg_bytes(set_args, 0) == set_word(),
        get_args.len() >= 2,
        arg_bytes(get_args, 0) == get_word(),
        get_args[1]@ == set_args[1]@,
    ensures
        command_result(store, role, set_args, t1).1 == Some(simple_string_frame(ok_word())),
        command_result(command_result(store, role, set_args, t1).0, role, get_args, t2) == (
            command_result(store, role, set_args, t1).0,
            Some(short_bulk_frame(text_bytes(set_args[2]@))),
        ),
{
    assert(set_word() != ping_word());
    assert(set_word() != echo_word());
    assert(get_word() != ping_word());
    assert(get_word() != echo_word());
    assert(get_word() != set_word()) by {
        assert(get_word()[0] != set_word()[0]);
    }
}

/// A value stored by `SET <key> <value> <option> <ms>` at instant `t1` is
/// answered by `GET <key>` up to `ms` milliseconds later; after that, `GET`
/// answers the null bulk string and the key is gone.
pub proof fn law_get_after_expiring_set(
    store: StoreView,
    role: ServerRole,
    set_args: Seq<String>,
    get_args: Seq<String>,
    t1: u64,
    t2: u64,
)
    requires
        set_args.len() == 5,
        arg_bytes(set_args, 0) == set_word(),
        spec_parse_i32(arg_bytes(set_args, 4)) is Some,
        get_args.len() >= 2,
        arg_bytes(get_args, 0) == get_word(),
        get_args[1]@ == set_args[1]@,
    ensures
        ({
            let ms = spec_parse_i32(arg_bytes(set_args, 4))->0;
            let deadline = t1 + (ms as u64) * 1_000_000;
            let after_set = command_result(store, role, set_args, t1).0;
            &&& command_result(store, role, set_args, t1).1 == Some(simple_string_frame(ok_word()))
            &&& t2 <= deadline ==> command_result(after_set, role, get_args, t2) == (
                after_set,
                Some(short_bulk_frame(text_bytes(set_args[2]@))),
            )
            &&& t2 > deadline ==> command_result(after_set, role, get_args, t2) == (
                after_set.remove(set_args[1]@),
                Some(null_bulk()),
            )
            &&& t2 > deadline ==> !command_result(after_set, role, get_args, t2).0.contains_key(
                set_args[1]@,
            )
        }),
{
    assert(set_word() != ping_word());
    assert(set_word() != echo_word());
    assert(get_word() != ping_word());
    assert(get_word() != echo_word());
    assert(get_word() != set_word()) by {
        assert(get_word()[0] != set_word()[0]);
    }
}

/// `GET` of a key that holds nothing gets no answer and changes nothing.
pub proof fn law_get_missing_key(store: StoreView, role: ServerRole, args: Seq<String>, now: u64)
    requires
        args.len() >= 2,
        arg_bytes(args, 0) == get_word(),
        !store.contains_key(args[1]@),
    ensures
        command_result(store, role, args, now) == (store, None::<Seq<u8>>),
{
    assert(get_word() != ping_word());
    assert(get_word() != echo_word());
    assert(get_word() != set_word()) by {
        assert(get_word()[0] != set_word()[0]);
    }
}

/// Only `SET` and `GET` change the data.
pub proof fn law_only_set_and_get_change_data(store: StoreView, role: ServerRole, args: Seq<String>, now: u64)
    requires
        args.len() == 0 || (arg_bytes(args, 0) != set_word() && arg_bytes(args, 0) != get_word()),
    ensures
        command_result(store, role, args, now).0 == store,
{
}

/// `INFO replication` answers the role the server holds.
pub proof fn law_info_reports_role(store: StoreView, role: ServerRole, args: Seq<String>, now: u64)
    requires
        args.len() >= 2,
        arg_bytes(args, 0) == info_word(),
        arg_bytes(args, 1) == replication_word(),
    ensures
        command_result(store, role, args, now) == (store, Some(simple_string_frame(role_line(role)))),
{
    assert(info_word() != ping_word()) by {
        assert(info_word()[0] != ping_word()[0]);
    }
    assert(info_word() != echo_word()) by {
        assert(info_word()[0] != echo_word()[0]);
    }
}

/// `ECHO <text>` answers the text itself: the answer is `$`, one length
/// digit (the byte length modulo 2^32, where that is below ten, the inputs
/// `handle_echo` is defined on), `\r\n`, every byte of the text unchanged,
/// and `\r\n`.
pub proof fn law_echo_returns_argument(args: Seq<String>)
    requires
        args.len() >= 2,
    ensures
        ({
            let p = arg_bytes(args, 1);
            &&& echo_reply(args) matches Some(r) && r.len() == p.len() + 6 && r[0] == RESP_STRING_START
                && (short_enough(p) ==> r[1] == 48 + p.len() % 0x1_0000_0000) && r.subrange(2, 4) == crlf()
                && r.subrange(4, 4 + p.len() as int) == p && r.subrange(4 + p.len() as int, r.len() as int) == crlf()
        }),
{
    let p = arg_bytes(args, 1);
    let r = short_bulk_frame(p);
    assert(r.subrange(2, 4) =~= crlf());
    assert(r.subrange(4, 4 + p.len() as int) =~= p);
    assert(r.subrange(4 + p.len() as int, r.len() as int) =~= crlf());
}

/// A client that reads the answer to `ECHO <text>` with `parse_args` gets the
/// text back, for texts of fewer than ten bytes without a `$`.
pub proof fn law_echo_reads_back(args: Seq<String>)
    requires
        args.len() >= 2,
        crate::framing::no_dollar(arg_bytes(args, 1)),
        arg_bytes(args, 1).len() < 10,
    ensures
        echo_reply(args) matches Some(r) && crate::framing::spec_parse_args(r, r.len() as int) matches crate::framing::ArgsScan::Parsed(ps)
            && ps.len() == 1 && vstd::utf8::decode_utf8(ps[0]) == args[1]@,
{
    let p = arg_bytes(args, 1);
    lemma_text_bytes(args[1]@);
    crate::framing::law_short_frame_is_bulk_frame(p);
    crate::framing::law_parse_args_reads_bulk_string(p, Seq::empty());
    assert(crate::encode::bulk_string_frame(p) + Seq::<u8>::empty() =~= crate::encode::bulk_string_frame(p));
}

} // verus!
