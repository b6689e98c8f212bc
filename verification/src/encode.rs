//! RESP encoders: simple strings, bulk strings, arrays of bulk strings and
//! the RDB file transfer frame.
use crate::decimal::{decimal_bytes, format_usize, append_bytes, lemma_decimal_bytes, lemma_parse_decimal_usize, spec_parse_usize};
use crate::text::{first_index_of, lemma_first_index_of, 
    ascii_bytes, lemma_ascii_valid_utf8, lemma_decode_encode, lemma_text_bytes,
    lemma_valid_concat, string_from_utf8, text_bytes,
};
use vstd::prelude::*;
use vstd::utf8::valid_utf8;

verus! {

/// First byte of a RESP array.
pub const RESP_ARRAY_START: u8 = 42u8;

/// First byte of a RESP bulk string.
pub const RESP_STRING_START: u8 = 36u8;

/// First byte of a RESP simple string.
pub const RESP_SIMPLE_STRING_START: u8 = 43u8;

/// Why an encoder could not produce text.
#[derive(Debug, PartialEq, Eq)]
pub enum EncodeError {
    /// The encoded bytes were not valid UTF-8.
    InvalidUtf8,
}

/// The line terminator `\r\n`.
pub open spec fn crlf() -> Seq<u8> {
    seq![13u8, 10u8]
}

/// `+<payload>\r\n`
pub open spec fn simple_string_frame(payload: Seq<u8>) -> Seq<u8> {
    seq![RESP_SIMPLE_STRING_START] + payload + crlf()
}

/// `$<byte length in decimal>\r\n<payload>\r\n`
pub open spec fn bulk_string_frame(payload: Seq<u8>) -> Seq<u8> {
    seq![RESP_STRING_START] + decimal_bytes(payload.len()) + crlf() + payload + crlf()
}

/// The parts, separated by single commas.
pub open spec fn join_with_commas(parts: Seq<Seq<u8>>) -> Seq<u8>
    decreases parts.len(),
{
    if parts.len() == 0 {
        Seq::empty()
    } else if parts.len() == 1 {
        parts[0]
    } else {
        join_with_commas(parts.drop_last()) + seq![44u8] + parts.last()
    }
}

/// The bulk-string frames of the parts, one after the other.
pub open spec fn concat_bulk_frames(parts: Seq<Seq<u8>>) -> Seq<u8>
    decreases parts.len(),
{
    if parts.len() == 0 {
        Seq::empty()
    } else {
        concat_bulk_frames(parts.drop_last()) + bulk_string_frame(parts.last())
    }
}

/// `*<count>\r\n` followed by a bulk-string frame for each part.
pub open spec fn array_frame(parts: Seq<Seq<u8>>) -> Seq<u8> {
    seq![RESP_ARRAY_START] + decimal_bytes(parts.len()) + crlf() + concat_bulk_frames(parts)
}

/// `$<byte length>\r\n<data>`, with no terminator after the data.
pub open spec fn rdb_frame(data: Seq<u8>) -> Seq<u8> {
    seq![RESP_STRING_START] + decimal_bytes(data.len()) + crlf() + data
}

/// The UTF-8 bytes of each string.
pub open spec fn strings_bytes(parts: Seq<String>) -> Seq<Seq<u8>> {
    parts.map_values(|p: String| text_bytes(p@))
}

/// The ASCII head `<start><decimal n>\r\n` is ASCII.
proof fn lemma_head_ascii(start: u8, n: nat)
    requires
        start < 128,
    ensures
        ascii_bytes(seq![start] + decimal_bytes(n) + crlf()),
{
    lemma_decimal_bytes(n);
    let h = seq![start] + decimal_bytes(n) + crlf();
    assert forall|i: int| 0 <= i < h.len() implies #[trigger] h[i] < 128 by {
        if 1 <= i < 1 + decimal_bytes(n).len() {
            assert(h[i] == decimal_bytes(n)[i - 1]);
        }
    }
}

/// A frame around UTF-8 text is UTF-8.
proof fn lemma_wrapped_valid(head: Seq<u8>, body: Seq<u8>, tail: Seq<u8>)
    requires
        ascii_bytes(head),
        valid_utf8(body),
        ascii_bytes(tail),
    ensures
        valid_utf8(head + body + tail),
{
    lemma_ascii_valid_utf8(head);
    lemma_ascii_valid_utf8(tail);
    lemma_valid_concat(head, body);
    lemma_valid_concat(head + body, tail);
}

proof fn lemma_crlf_ascii()
    ensures
        ascii_bytes(crlf()),
        ascii_bytes(Seq::<u8>::empty()),
{
}

/// Turns bytes that are UTF-8 into a `String`.
fn into_text(bytes: Vec<u8>) -> (r: Result<String, EncodeError>)
    ensures
        r is Ok <==> valid_utf8(bytes@),
        r matches Ok(s) ==> text_bytes(s@) == bytes@,
{
    let ghost b = bytes@;
    match string_from_utf8(bytes) {
        Ok(s) => {
            proof {
                lemma_decode_encode(b);
            }
            Ok(s)
        },
        Err(_) => Err(EncodeError::InvalidUtf8),
    }
}

/// Pushes `\r\n`.
fn push_crlf(v: &mut Vec<u8>)
    ensures
        final(v)@ == old(v)@ + crlf(),
{
    v.push(13u8);
    v.push(10u8);
}

/// Encodes `input` as a RESP simple string: `+<input>\r\n`.
pub fn encode_simple_str(input: &str) -> (r: Result<String, EncodeError>)
    ensures
        r matches Ok(s) && text_bytes(s@) == simple_string_frame(text_bytes(input@)),
{
    let mut result: Vec<u8> = Vec::new();
    result.push(RESP_SIMPLE_STRING_START);
    append_bytes(&mut result, input.as_bytes());
    push_crlf(&mut result);
    proof {
        lemma_text_bytes(input@);
        lemma_crlf_ascii();
        lemma_wrapped_valid(seq![RESP_SIMPLE_STRING_START], text_bytes(input@), crlf());
        assert(result@ =~= simple_string_frame(text_bytes(input@)));
    }
    into_text(result)
}

/// Bytes of a bulk-string frame around `payload`.
fn bulk_frame_bytes(payload: &[u8]) -> (r: Vec<u8>)
    ensures
        r@ == bulk_string_frame(payload@),
{
    let mut result: Vec<u8> = Vec::new();
    result.push(RESP_STRING_START);
    let len = format_usize(payload.len());
    append_bytes(&mut result, &len);
    push_crlf(&mut result);
    append_bytes(&mut result, payload);
    push_crlf(&mut result);
    assert(result@ =~= bulk_string_frame(payload@));
    result
}

/// A bulk-string frame around UTF-8 text is UTF-8.
proof fn lemma_bulk_frame_valid(payload: Seq<u8>)
    requires
        valid_utf8(payload),
    ensures
        valid_utf8(bulk_string_frame(payload)),
{
    lemma_head_ascii(RESP_STRING_START, payload.len());
    lemma_crlf_ascii();
    lemma_wrapped_valid(
        seq![RESP_STRING_START] + decimal_bytes(payload.len()) + crlf(),
        payload,
        crlf(),
    );
    assert(bulk_string_frame(payload) =~= seq![RESP_STRING_START] + decimal_bytes(payload.len())
        + crlf() + payload + crlf());
}

/// Encodes `input` as a RESP bulk string: `$<byte length>\r\n<input>\r\n`.
pub fn encode_resp_str(input: &str) -> (r: Result<String, EncodeError>)
    ensures
        r matches Ok(s) && text_bytes(s@) == bulk_string_frame(text_bytes(input@)),
{
    let result = bulk_frame_bytes(input.as_bytes());
    proof {
        lemma_text_bytes(input@);
        lemma_bulk_frame_valid(text_bytes(input@));
    }
    into_text(result)
}

/// Joins the parts with commas and encodes the result as one bulk string:
/// `$<byte length of the joined text>\r\n<joined text>\r\n`.
pub fn encode_bulk_string(parts: Vec<String>) -> (r: Result<String, EncodeError>)
    ensures
        r matches Ok(s) && text_bytes(s@) == bulk_string_frame(
            join_with_commas(strings_bytes(parts@)),
        ),
{
    let ghost pb = strings_bytes(parts@);
    let mut content: Vec<u8> = Vec::new();
    let mut i: usize = 0;
    while i < parts.len()
        invariant
            0 <= i <= parts@.len(),
            pb == strings_bytes(parts@),
            content@ == join_with_commas(pb.take(i as int)),
            valid_utf8(content@),
        decreases parts.len() - i,
    {
        let ghost before = content@;
        if i > 0 {
            content.push(44u8);
        }
        append_bytes(&mut content, parts[i].as_str().as_bytes());
        proof {
            let t = pb.take(i + 1);
            assert(t.drop_last() =~= pb.take(i as int));
            assert(t.last() == text_bytes(parts@[i as int]@));
            lemma_text_bytes(parts@[i as int]@);
            if i > 0 {
                assert(ascii_bytes(seq![44u8]));
                lemma_wrapped_valid(Seq::<u8>::empty(), before, seq![44u8]);
                assert(Seq::<u8>::empty() + before + seq![44u8] =~= before + seq![44u8]);
                lemma_valid_concat(before + seq![44u8], text_bytes(parts@[i as int]@));
                assert(content@ =~= before + seq![44u8] + text_bytes(parts@[i as int]@));
            } else {
                assert(t =~= seq![t[0]]);
                assert(content@ =~= text_bytes(parts@[i as int]@));
            }
        }
        i = i + 1;
    }
    assert(pb.take(parts@.len() as int) =~= pb);
    let result = bulk_frame_bytes(&content);
    proof {
        lemma_bulk_frame_valid(content@);
    }
    into_text(result)
}

/// Encodes a file transfer: `$<byte length>\r\n<data>`, with no line
/// terminator after the data.
pub fn encode_rdb_file(input: &Vec<u8>) -> (r: Result<Vec<u8>, EncodeError>)
    ensures
        r matches Ok(v) && v@ == rdb_frame(input@),
{
    let mut result: Vec<u8> = Vec::new();
    result.push(RESP_STRING_START);
    let len = format_usize(input.len());
    append_bytes(&mut result, &len);
    push_crlf(&mut result);
    append_bytes(&mut result, input.as_slice());
    assert(result@ =~= rdb_frame(input@));
    Ok(result)
}

/// Encodes the parts as a RESP array of bulk strings:
/// `*<count>\r\n` followed by `$<byte length>\r\n<part>\r\n` for each part.
pub fn encode_resp_arr(parts: Vec<String>) -> (r: Result<String, EncodeError>)
    ensures
        r matches Ok(s) && text_bytes(s@) == array_frame(strings_bytes(parts@)),
{
    let ghost pb = strings_bytes(parts@);
    let mut content: Vec<u8> = Vec::new();
    let mut i: usize = 0;
    while i < parts.len()
        invariant
            0 <= i <= parts@.len(),
            pb == strings_bytes(parts@),
            content@ == concat_bulk_frames(pb.take(i as int)),
            valid_utf8(content@),
        decreases parts.len() - i,
    {
        let one = vec![parts[i].clone()];
        proof {
            assert(strings_bytes(one@) =~= seq![text_bytes(parts@[i as int]@)]);
        }
        let s = encode_bulk_string(one)?;
        let ghost before = content@;
        append_bytes(&mut content, s.as_str().as_bytes());
        proof {
            let t = pb.take(i + 1);
            assert(t.drop_last() =~= pb.take(i as int));
            assert(t.last() == text_bytes(parts@[i as int]@));
            lemma_text_bytes(s@);
            lemma_valid_concat(before, text_bytes(s@));
        }
        i = i + 1;
    }
    assert(pb.take(parts@.len() as int) =~= pb);
    let mut wrapper: Vec<u8> = Vec::new();
    wrapper.push(RESP_ARRAY_START);
    let count = format_usize(parts.len());
    append_bytes(&mut wrapper, &count);
    push_crlf(&mut wrapper);
    append_bytes(&mut wrapper, &content);
    proof {
        lemma_head_ascii(RESP_ARRAY_START, parts@.len() as nat);
        lemma_crlf_ascii();
        lemma_wrapped_valid(
            seq![RESP_ARRAY_START] + decimal_bytes(parts@.len() as nat) + crlf(),
            content@,
            Seq::<u8>::empty(),
        );
        assert(wrapper@ =~= seq![RESP_ARRAY_START] + decimal_bytes(parts@.len() as nat) + crlf()
            + content@ + Seq::<u8>::empty());
        assert(wrapper@ =~= array_frame(pb));
    }
    into_text(wrapper)
}

/// A bulk string of one part is that part's own bulk-string frame: it has
/// no comma, so `encode_bulk_string` of a single part agrees with
/// `encode_resp_str` of it.
pub proof fn law_single_part_bulk_string(p: Seq<u8>)
    ensures
        bulk_string_frame(join_with_commas(seq![p])) == bulk_string_frame(p),
{
    assert(join_with_commas(seq![p]) == p);
}

/// The total byte length of the parts.
pub open spec fn total_len(parts: Seq<Seq<u8>>) -> nat
    decreases parts.len(),
{
    if parts.len() == 0 {
        0
    } else {
        total_len(parts.drop_last()) + parts.last().len()
    }
}

/// Joining one part gives the part itself.
pub proof fn law_join_single(p: Seq<u8>)
    ensures
        join_with_commas(seq![p]) == p,
{
}

/// Joining two non-empty runs of parts: the join of the first run, one
/// comma, the join of the second run. With `law_join_single` this fixes the
/// join: every two neighbouring parts are separated by exactly one comma.
pub proof fn law_join_concat(a: Seq<Seq<u8>>, b: Seq<Seq<u8>>)
    requires
        a.len() >= 1,
        b.len() >= 1,
    ensures
        join_with_commas(a + b) == join_with_commas(a) + seq![44u8] + join_with_commas(b),
    decreases b.len(),
{
    if b.len() == 1 {
        assert((a + b).drop_last() =~= a);
        assert((a + b).last() == b[0]);
    } else {
        let b0 = b.drop_last();
        assert((a + b).drop_last() =~= a + b0);
        assert((a + b).last() == b.last());
        law_join_concat(a, b0);
        assert(join_with_commas(a + b) =~= join_with_commas(a) + seq![44u8] + join_with_commas(b));
    }
}

/// The joined text of `n >= 1` parts has the bytes of the parts and `n - 1`
/// commas.
pub proof fn law_join_length(parts: Seq<Seq<u8>>)
    requires
        parts.len() >= 1,
    ensures
        join_with_commas(parts).len() == total_len(parts) + parts.len() - 1,
    decreases parts.len(),
{
    if parts.len() == 1 {
        assert(parts.drop_last() =~= Seq::<Seq<u8>>::empty());
        assert(total_len(parts.drop_last()) == 0);
        assert(join_with_commas(parts) == parts.last());
    } else {
        law_join_length(parts.drop_last());
        assert(join_with_commas(parts) == join_with_commas(parts.drop_last()) + seq![44u8] + parts.last());
    }
}

/// A frame `<start><decimal n>\r\n<rest>`: its first `\r` after the start
/// byte ends digits that read as `n`, and `rest` follows the `\r\n`.
proof fn lemma_length_header(start: u8, n: nat, rest: Seq<u8>)
    requires
        n <= usize::MAX,
    ensures
        ({
            let f = seq![start] + decimal_bytes(n) + crlf() + rest;
            let k: int = (1 + decimal_bytes(n).len()) as int;
            &&& first_index_of(f, 13u8, 1) == Some(k)
            &&& spec_parse_usize(f.subrange(1, k)) == Some(n as usize)
            &&& f.subrange(k, k + 2) == crlf()
            &&& f.subrange(k + 2, f.len() as int) == rest
        }),
{
    let d = decimal_bytes(n);
    lemma_decimal_bytes(n);
    lemma_parse_decimal_usize(n as usize);
    let f = seq![start] + d + crlf() + rest;
    let k: int = (1 + d.len()) as int;
    assert forall|m: int| 1 <= m < k implies #[trigger] f[m] != 13u8 by {
        assert(f[m] == d[m - 1]);
        assert(crate::decimal::is_digit(d[m - 1]));
    }
    assert(f[k] == 13u8);
    lemma_first_index_of(f, 13u8, 1, k);
    assert(f.subrange(1, k) =~= d);
    assert(f.subrange(k, k + 2) =~= crlf());
    assert(f.subrange(k + 2, f.len() as int) =~= rest);
}

/// A bulk-string frame starts with `$`; the bytes up to its first `\r` are
/// decimal digits that read as the byte length of the payload, whatever that
/// length is; after the `\r\n` come the payload, unchanged, and `\r\n`.
pub proof fn law_bulk_string_header(p: Seq<u8>)
    requires
        p.len() <= usize::MAX,
    ensures
        ({
            let f = bulk_string_frame(p);
            &&& f[0] == RESP_STRING_START
            &&& first_index_of(f, 13u8, 1) matches Some(k) && spec_parse_usize(f.subrange(1, k)) == Some(
                p.len() as usize,
            ) && f.subrange(k, k + 2) == crlf() && f.subrange(k + 2, f.len() as int) == p + crlf()
        }),
{
    lemma_length_header(RESP_STRING_START, p.len(), p + crlf());
    assert(bulk_string_frame(p) =~= seq![RESP_STRING_START] + decimal_bytes(p.len()) + crlf() + (p
        + crlf()));
}

/// An RDB transfer frame starts with `$`; the bytes up to its first `\r`
/// are decimal digits that read as the length of the data, whatever that
/// length is; after the `\r\n` comes the data, unchanged, and nothing else.
pub proof fn law_rdb_header(data: Seq<u8>)
    requires
        data.len() <= usize::MAX,
    ensures
        ({
            let f = rdb_frame(data);
            &&& f[0] == RESP_STRING_START
            &&& first_index_of(f, 13u8, 1) matches Some(k) && spec_parse_usize(f.subrange(1, k)) == Some(
                data.len() as usize,
            ) && f.subrange(k, k + 2) == crlf() && f.subrange(k + 2, f.len() as int) == data
        }),
{
    lemma_length_header(RESP_STRING_START, data.len(), data);
}

} // verus!
