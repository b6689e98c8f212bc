//! Reading requests: the bulk strings of a received buffer, and the short
//! bulk-string reply used by the command handlers.
use crate::decimal::{lemma_parse_decimal_usize, spec_parse_usize, parse_usize, decimal_bytes, lemma_decimal_bytes};
use crate::encode::{array_frame, bulk_string_frame, concat_bulk_frames, crlf, strings_bytes, RESP_ARRAY_START, RESP_STRING_START};
use crate::text::{lemma_first_index_of, first_index_of, index_of_byte, lemma_decode_encode, lemma_text_bytes, lemma_ascii_valid_utf8, string_from_utf8, text_bytes, ascii_bytes};
use vstd::prelude::*;
use vstd::utf8::{decode_utf8, valid_utf8};

verus! {

/// Why the bulk strings of a request could not be read.
#[derive(Debug, Clone, Copy, PartialEq, Eq)]
pub enum ParseArgsError {
    /// A length or a payload is not valid UTF-8.
    InvalidUtf8,
    /// A length is not a decimal number that fits in `usize`.
    InvalidLength,
}

/// What reading the bulk strings of a buffer comes to.
pub enum ArgsScan {
    /// The payloads, in the order of their `$` markers.
    Parsed(Seq<Seq<u8>>),
    /// A length or a payload was refused.
    Failed(ParseArgsError),
    /// A frame runs past the end of the buffer: no `\r` ends its length, or
    /// its payload ends beyond the buffer; or the count of bytes read exceeds
    /// the buffer. The reader is not defined there.
    Truncated,
}

/// The first index `k >= j` of the buffer that holds `\r`.
pub open spec fn find_cr(buf: Seq<u8>, j: int) -> Option<int> {
    first_index_of(buf, 13u8, j)
}

/// Where the payload of a bulk string whose `$` stands at `i` is taken to
/// start: four bytes on for a one-digit length, five for a longer one.
pub open spec fn payload_start(i: int, len: nat) -> int {
    i + if len > 9 { 5int } else { 4int }
}

/// Reads on from index `i` of the first `n` bytes, after the payloads `acc`:
/// every `$` starts a bulk string whose decimal length runs to the next
/// `\r`, and whose payload is taken at `payload_start`.
pub open spec fn scan_args(buf: Seq<u8>, n: int, i: int, acc: Seq<Seq<u8>>) -> ArgsScan
    decreases n - i,
{
    if i >= n || i < 0 {
        ArgsScan::Parsed(acc)
    } else if buf[i] != RESP_STRING_START {
        scan_args(buf, n, i + 1, acc)
    } else {
        match find_cr(buf, i + 1) {
            None => ArgsScan::Truncated,
            Some(j) => {
                let digits = buf.subrange(i + 1, j);
                if !valid_utf8(digits) {
                    ArgsScan::Failed(ParseArgsError::InvalidUtf8)
                } else {
                    match spec_parse_usize(digits) {
                        None => ArgsScan::Failed(ParseArgsError::InvalidLength),
                        Some(len) => {
                            let start = payload_start(i, len as nat);
                            let end = start + len;
                            if end > usize::MAX || end > buf.len() {
                                ArgsScan::Truncated
                            } else {
                                let p = buf.subrange(start, end);
                                if !valid_utf8(p) {
                                    ArgsScan::Failed(ParseArgsError::InvalidUtf8)
                                } else {
                                    scan_args(buf, n, i + 1, acc.push(p))
                                }
                            }
                        },
                    }
                }
            },
        }
    }
}

/// The bulk strings of the first `n` bytes of `buf`.
pub open spec fn spec_parse_args(buf: Seq<u8>, n: int) -> ArgsScan {
    if n > buf.len() {
        ArgsScan::Truncated
    } else {
        scan_args(buf, n, 0, Seq::empty())
    }
}

/// The strings `args` are the texts of the payloads `ps`.
pub open spec fn texts_of(args: Seq<String>, ps: Seq<Seq<u8>>) -> bool {
    &&& args.len() == ps.len()
    &&& forall|k: int| 0 <= k < ps.len() ==> #[trigger] args[k]@ == decode_utf8(ps[k])
}

enum ScanResult {
    Args(Vec<String>),
    Error(ParseArgsError),
    Truncated,
}

/// The bytes `buf[a..b]`.
fn copy_range(buf: &[u8], a: usize, b: usize) -> (r: Vec<u8>)
    requires
        a <= b <= buf@.len(),
    ensures
        r@ == buf@.subrange(a as int, b as int),
{
    let mut v: Vec<u8> = Vec::new();
    let mut k = a;
    while k < b
        invariant
            a <= k <= b <= buf@.len(),
            v@ == buf@.subrange(a as int, k as int),
        decreases b - k,
    {
        v.push(buf[k]);
        assert(buf@.subrange(a as int, k + 1) =~= buf@.subrange(a as int, k as int).push(buf@[k as int]));
        k = k + 1;
    }
    v
}

fn scan(buf: &[u8], n: usize) -> (r: ScanResult)
    ensures
        match spec_parse_args(buf@, n as int) {
            ArgsScan::Parsed(ps) => r matches ScanResult::Args(args) && texts_of(args@, ps),
            ArgsScan::Failed(e) => r == ScanResult::Error(e),
            ArgsScan::Truncated => r is Truncated,
        },
{
    if n > buf.len() {
        return ScanResult::Truncated;
    }
    let mut args: Vec<String> = Vec::new();
    let ghost mut acc: Seq<Seq<u8>> = Seq::empty();
    let mut i: usize = 0;
    while i < n
        invariant
            n <= buf@.len(),
            0 <= i <= n,
            spec_parse_args(buf@, n as int) == scan_args(buf@, n as int, i as int, acc),
            texts_of(args@, acc),
        decreases n - i,
    {
        if buf[i] == RESP_STRING_START {
            let j = match index_of_byte(buf, 13u8, i + 1) {
                None => {
                    return ScanResult::Truncated;
                },
                Some(j) => j,
            };
            let digits = copy_range(buf, i + 1, j);
            let ghost digit_bytes = digits@;
            let len = match string_from_utf8(digits) {
                Err(_) => {
                    return ScanResult::Error(ParseArgsError::InvalidUtf8);
                },
                Ok(text) => {
                    proof {
                        lemma_decode_encode(digit_bytes);
                    }
                    match parse_usize(text.as_str().as_bytes()) {
                        None => {
                            return ScanResult::Error(ParseArgsError::InvalidLength);
                        },
                        Some(len) => len,
                    }
                },
            };
            let offset: usize = if len > 9 { 5 } else { 4 };
            let start = match i.checked_add(offset) {
                None => {
                    return ScanResult::Truncated;
                },
                Some(s) => s,
            };
            let end = match start.checked_add(len) {
                None => {
                    return ScanResult::Truncated;
                },
                Some(e) => e,
            };
            if end > buf.len() {
                return ScanResult::Truncated;
            }
            let payload = copy_range(buf, start, end);
            let ghost p = payload@;
            match string_from_utf8(payload) {
                Err(_) => {
                    return ScanResult::Error(ParseArgsError::InvalidUtf8);
                },
                Ok(text) => {
                    args.push(text);
                    proof {
                        acc = acc.push(p);
                    }
                },
            }
        }
        i = i + 1;
    }
    ScanResult::Args(args)
}

/// Reads the bulk strings of the first `bytes_read` bytes of `buffer`, as
/// `spec_parse_args` describes; the buffer is left as it was.
pub fn parse_args(buffer: &mut [u8], bytes_read: usize) -> (r: Result<Vec<String>, ParseArgsError>)
    requires
        !(spec_parse_args(old(buffer)@, bytes_read as int) is Truncated),
    ensures
        final(buffer)@ == old(buffer)@,
        match spec_parse_args(old(buffer)@, bytes_read as int) {
            ArgsScan::Parsed(ps) => r matches Ok(args) && texts_of(args@, ps),
            ArgsScan::Failed(e) => r == Err::<Vec<String>, ParseArgsError>(e),
            ArgsScan::Truncated => false,
        },
{
    match scan(buffer, bytes_read) {
        ScanResult::Args(args) => Ok(args),
        ScanResult::Error(e) => Err(e),
        ScanResult::Truncated => Err(ParseArgsError::InvalidLength),
    }
}

/// Whether a frame of the first `bytes_read` bytes of `buffer` runs past the
/// end of the buffer, the inputs on which `parse_args` is not defined.
pub fn parse_args_truncated(buffer: &[u8], bytes_read: usize) -> (r: bool)
    ensures
        r == (spec_parse_args(buffer@, bytes_read as int) is Truncated),
{
    match scan(buffer, bytes_read) {
        ScanResult::Truncated => true,
        _ => false,
    }
}

/// The byte `$` does not occur in `b`.
pub open spec fn no_dollar(b: Seq<u8>) -> bool {
    forall|i: int| 0 <= i < b.len() ==> #[trigger] b[i] != RESP_STRING_START
}

/// The payloads that the reader gives back exactly: valid UTF-8 without a
/// `$`, shorter than a hundred bytes.
pub open spec fn readable_payload(p: Seq<u8>) -> bool {
    valid_utf8(p) && no_dollar(p) && p.len() < 100
}

/// Bytes without a `$` are passed over.
proof fn lemma_scan_skips(buf: Seq<u8>, n: int, i: int, k: int, acc: Seq<Seq<u8>>)
    requires
        0 <= i <= k <= n,
        n <= buf.len(),
        forall|j: int| i <= j < k ==> #[trigger] buf[j] != RESP_STRING_START,
    ensures
        scan_args(buf, n, i, acc) == scan_args(buf, n, k, acc),
    decreases k - i,
{
    if i < k {
        lemma_scan_skips(buf, n, i + 1, k, acc);
    }
}

/// A bulk-string frame at offset `o` is read as its payload.
proof fn lemma_scan_one_frame(buf: Seq<u8>, n: int, o: int, p: Seq<u8>, acc: Seq<Seq<u8>>)
    requires
        0 <= o,
        o + bulk_string_frame(p).len() <= n <= buf.len() <= usize::MAX,
        buf.subrange(o, o + bulk_string_frame(p).len()) == bulk_string_frame(p),
        readable_payload(p),
    ensures
        scan_args(buf, n, o, acc) == scan_args(buf, n, o + bulk_string_frame(p).len(), acc.push(p)),
{
    let f = bulk_string_frame(p);
    let d = decimal_bytes(p.len());
    lemma_decimal_bytes(p.len());
    let dl = d.len() as int;
    assert(f =~= seq![RESP_STRING_START] + d + crlf() + p + crlf());
    assert forall|j: int| 0 <= j < f.len() implies #[trigger] buf[o + j] == f[j] by {
        assert(buf.subrange(o, o + f.len())[j] == buf[o + j]);
    }
    assert(buf[o] == RESP_STRING_START) by {
        assert(buf[o + 0] == f[0]);
    }
    // the length runs to the `\r` after the digits
    assert forall|m: int| o + 1 <= m < o + 1 + dl implies #[trigger] buf[m] != 13u8 by {
        assert(buf[o + (m - o)] == f[m - o]);
        assert(f[m - o] == d[m - o - 1]);
    }
    assert(buf[o + 1 + dl] == 13u8) by {
        assert(buf[o + (1 + dl)] == f[1 + dl]);
    }
    lemma_first_index_of(buf, 13u8, o + 1, o + 1 + dl);
    let digits = buf.subrange(o + 1, o + 1 + dl);
    assert(digits =~= d) by {
        assert forall|m: int| 0 <= m < dl implies digits[m] == d[m] by {
            assert(buf[o + (1 + m)] == f[1 + m]);
        }
    }
    assert(ascii_bytes(d)) by {
        assert forall|m: int| 0 <= m < d.len() implies #[trigger] d[m] < 128 by {
            assert(crate::decimal::is_digit(d[m]));
        }
    }
    lemma_ascii_valid_utf8(d);
    lemma_parse_decimal_usize(p.len() as usize);
    let start = payload_start(o, p.len());
    assert(start == o + 3 + dl);
    let payload = buf.subrange(start, start + p.len());
    assert(payload =~= p) by {
        assert forall|m: int| 0 <= m < p.len() implies payload[m] == p[m] by {
            assert(buf[o + (3 + dl + m)] == f[3 + dl + m]);
        }
    }
    assert(scan_args(buf, n, o, acc) == scan_args(buf, n, o + 1, acc.push(p)));
    assert forall|j: int| o + 1 <= j < o + f.len() implies #[trigger] buf[j] != RESP_STRING_START by {
        assert(buf[o + (j - o)] == f[j - o]);
        let q = j - o;
        if q < 1 + dl {
            assert(f[q] == d[q - 1]);
        } else if q < 3 + dl {
        } else if q < 3 + dl + p.len() {
            assert(f[q] == p[q - 3 - dl]);
        } else {
        }
    }
    lemma_scan_skips(buf, n, o + 1, o + f.len(), acc.push(p));
}

/// The bulk-string frames of `ps` at offset `o` are read as the payloads `ps`.
proof fn lemma_scan_frames(buf: Seq<u8>, n: int, o: int, ps: Seq<Seq<u8>>, acc: Seq<Seq<u8>>)
    requires
        0 <= o,
        o + concat_bulk_frames(ps).len() <= n <= buf.len() <= usize::MAX,
        buf.subrange(o, o + concat_bulk_frames(ps).len()) == concat_bulk_frames(ps),
        forall|k: int| 0 <= k < ps.len() ==> readable_payload(#[trigger] ps[k]),
    ensures
        scan_args(buf, n, o, acc) == scan_args(buf, n, o + concat_bulk_frames(ps).len(), acc + ps),
    decreases ps.len(),
{
    if ps.len() == 0 {
        assert(acc + ps =~= acc);
    } else {
        let init = ps.drop_last();
        let c = concat_bulk_frames(init);
        let f = bulk_string_frame(ps.last());
        assert(concat_bulk_frames(ps) == c + f);
        assert(buf.subrange(o, o + c.len()) =~= c) by {
            assert forall|m: int| 0 <= m < c.len() implies buf.subrange(o, o + c.len())[m] == c[m] by {
                assert(buf.subrange(o, o + (c + f).len())[m] == (c + f)[m]);
            }
        }
        assert forall|k: int| 0 <= k < init.len() implies readable_payload(#[trigger] init[k]) by {
            assert(init[k] == ps[k]);
        }
        lemma_scan_frames(buf, n, o, init, acc);
        assert(buf.subrange(o + c.len(), o + c.len() + f.len()) =~= f) by {
            assert forall|m: int| 0 <= m < f.len() implies buf.subrange(o + c.len(), o + c.len() + f.len())[m] == f[m] by {
                assert(buf.subrange(o, o + (c + f).len())[c.len() + m] == (c + f)[c.len() + m]);
            }
        }
        assert(readable_payload(ps[ps.len() - 1]));
        lemma_scan_one_frame(buf, n, o + c.len(), ps.last(), acc + init);
        assert((acc + init).push(ps.last()) =~= acc + ps);
    }
}

/// Reading back an encoded array: the bulk strings of an array frame, read
/// from a buffer that holds the frame followed by any bytes, up to the end of
/// the frame, are the parts that were encoded, provided that each part is
/// valid UTF-8, holds no `$` and is shorter than a hundred bytes.
pub proof fn law_parse_args_reads_array(parts: Seq<Seq<u8>>, tail: Seq<u8>)
    requires
        forall|k: int| 0 <= k < parts.len() ==> readable_payload(#[trigger] parts[k]),
        array_frame(parts).len() + tail.len() <= usize::MAX,
    ensures
        spec_parse_args(array_frame(parts) + tail, array_frame(parts).len() as int)
            == ArgsScan::Parsed(parts),
{
    let f = array_frame(parts);
    let buf = f + tail;
    let n = f.len() as int;
    let d = decimal_bytes(parts.len());
    lemma_decimal_bytes(parts.len());
    let head = seq![RESP_ARRAY_START] + d + crlf();
    let c = concat_bulk_frames(parts);
    assert(f =~= head + c);
    assert forall|j: int| 0 <= j < head.len() implies #[trigger] buf[j] != RESP_STRING_START by {
        assert(buf[j] == head[j]);
        if 1 <= j < 1 + d.len() {
            assert(head[j] == d[j - 1]);
            assert(crate::decimal::is_digit(d[j - 1]));
        }
    }
    lemma_scan_skips(buf, n, 0, head.len() as int, Seq::empty());
    assert(buf.subrange(head.len() as int, (head.len() + c.len()) as int) =~= c) by {
        assert forall|m: int| 0 <= m < c.len() implies buf.subrange(head.len() as int, (head.len() + c.len()) as int)[m] == c[m] by {
            assert(buf[head.len() + m] == f[head.len() + m]);
        }
    }
    lemma_scan_frames(buf, n, head.len() as int, parts, Seq::empty());
    assert(Seq::<Seq<u8>>::empty() + parts =~= parts);
}

/// Reading back encoded strings: for strings whose UTF-8 bytes are fewer
/// than a hundred and hold no `$`, the bulk strings read from their array
/// frame (followed by any bytes) are the same strings.
pub proof fn law_parse_args_reads_strings(parts: Seq<String>, tail: Seq<u8>)
    requires
        forall|k: int| 0 <= k < parts.len() ==> no_dollar(#[trigger] text_bytes(parts[k]@))
            && text_bytes(parts[k]@).len() < 100,
        array_frame(strings_bytes(parts)).len() + tail.len() <= usize::MAX,
    ensures
        spec_parse_args(
            array_frame(strings_bytes(parts)) + tail,
            array_frame(strings_bytes(parts)).len() as int,
        ) matches ArgsScan::Parsed(ps) && ps.len() == parts.len() && forall|k: int|
            0 <= k < parts.len() ==> decode_utf8(#[trigger] ps[k]) == parts[k]@,
{
    let pb = strings_bytes(parts);
    assert forall|k: int| 0 <= k < pb.len() implies readable_payload(#[trigger] pb[k]) by {
        lemma_text_bytes(parts[k]@);
    }
    law_parse_args_reads_array(pb, tail);
    assert forall|k: int| 0 <= k < parts.len() implies decode_utf8(#[trigger] pb[k]) == parts[k]@ by {
        lemma_text_bytes(parts[k]@);
    }
}

/// `serialize_resp_str` and `encode_resp_str` write the same frame where the
/// former is defined and the text is shorter than ten bytes.
pub proof fn law_short_frame_is_bulk_frame(p: Seq<u8>)
    requires
        p.len() < 10,
    ensures
        crate::connection::short_bulk_frame(p) == bulk_string_frame(p),
{
    lemma_decimal_bytes(p.len());
    assert(decimal_bytes(p.len()) =~= seq![(p.len() + 48) as u8]);
    assert(crate::connection::short_bulk_frame(p) =~= bulk_string_frame(p));
}

/// Reading back one bulk string: the bulk strings read from a buffer that
/// holds a bulk-string frame followed by any bytes, up to the end of the
/// frame, are the frame's payload alone, for a payload that is valid UTF-8,
/// holds no `$` and is shorter than a hundred bytes.
pub proof fn law_parse_args_reads_bulk_string(p: Seq<u8>, tail: Seq<u8>)
    requires
        readable_payload(p),
        bulk_string_frame(p).len() + tail.len() <= usize::MAX,
    ensures
        spec_parse_args(bulk_string_frame(p) + tail, bulk_string_frame(p).len() as int)
            == ArgsScan::Parsed(seq![p]),
{
    let f = bulk_string_frame(p);
    let buf = f + tail;
    assert(buf.subrange(0, f.len() as int) =~= f);
    lemma_scan_one_frame(buf, f.len() as int, 0, p, Seq::empty());
    assert(Seq::<Seq<u8>>::empty().push(p) =~= seq![p]);
}

/// The frames of parts shorter than a hundred bytes take at most 106 bytes
/// each.
pub proof fn lemma_concat_frames_len(ps: Seq<Seq<u8>>)
    requires
        forall|k: int| 0 <= k < ps.len() ==> (#[trigger] ps[k]).len() < 100,
    ensures
        concat_bulk_frames(ps).len() <= 106 * ps.len(),
    decreases ps.len(),
{
    if ps.len() > 0 {
        let init = ps.drop_last();
        assert forall|k: int| 0 <= k < init.len() implies (#[trigger] init[k]).len() < 100 by {
            assert(init[k] == ps[k]);
        }
        lemma_concat_frames_len(init);
        assert(ps.last().len() < 100) by {
            assert(ps[ps.len() - 1].len() < 100);
        }
        lemma_decimal_bytes(ps.last().len());
    }
}

} // verus!
