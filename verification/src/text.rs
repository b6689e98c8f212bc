//! Bytes and text: UTF-8 facts used by the encoders and the parser, and the
//! one std conversion from bytes to `String` that the library relies on.
use std::string::FromUtf8Error;
use vstd::prelude::*;
use vstd::utf8::{
    decode_utf8, decode_utf8_encode_utf8, encode_utf8, encode_utf8_valid_utf8,
    partial_valid_utf8_extend_ascii_block, valid_utf8, valid_utf8_concat,
};

verus! {

#[verifier::external_type_specification]
#[verifier::external_body]
pub struct ExFromUtf8Error(FromUtf8Error);

/// Calls `String::from_utf8`. Its documentation: the call returns an error
/// when the bytes are not UTF-8, and otherwise a `String` made of those
/// bytes, without copying them. The contract states exactly that: `Ok`
/// precisely on valid UTF-8, and then the string decodes the bytes.
#[verifier::external_body]
pub(crate) fn string_from_utf8(bytes: Vec<u8>) -> (r: Result<String, FromUtf8Error>)
    ensures
        r is Ok <==> valid_utf8(bytes@),
        r matches Ok(s) ==> s@ == decode_utf8(bytes@),
{
    String::from_utf8(bytes)
}

/// Every byte of `s` is ASCII.
pub open spec fn ascii_bytes(s: Seq<u8>) -> bool {
    forall|i: int| 0 <= i < s.len() ==> #[trigger] s[i] < 128
}

/// The UTF-8 bytes of a string, as `str::as_bytes` gives them.
pub open spec fn text_bytes(s: Seq<char>) -> Seq<u8> {
    encode_utf8(s)
}

/// An ASCII byte string is valid UTF-8.
pub proof fn lemma_ascii_valid_utf8(s: Seq<u8>)
    requires
        ascii_bytes(s),
    ensures
        valid_utf8(s),
{
    assert(s.subrange(0, 0) =~= Seq::<u8>::empty());
    assert(valid_utf8(Seq::<u8>::empty()));
    partial_valid_utf8_extend_ascii_block(s, 0, s.len() as int);
    assert(s.subrange(0, s.len() as int) =~= s);
}

/// The bytes of any string are valid UTF-8, and decoding them gives the string back.
pub proof fn lemma_text_bytes(s: Seq<char>)
    ensures
        valid_utf8(text_bytes(s)),
        decode_utf8(text_bytes(s)) == s,
{
    encode_utf8_valid_utf8(s);
    vstd::utf8::encode_utf8_decode_utf8(s);
}

/// Decoding valid UTF-8 and encoding again gives the same bytes.
pub proof fn lemma_decode_encode(b: Seq<u8>)
    requires
        valid_utf8(b),
    ensures
        text_bytes(decode_utf8(b)) == b,
{
    decode_utf8_encode_utf8(b);
}

/// The concatenation of two valid UTF-8 byte strings is valid UTF-8.
pub proof fn lemma_valid_concat(a: Seq<u8>, b: Seq<u8>)
    requires
        valid_utf8(a),
        valid_utf8(b),
    ensures
        valid_utf8(a + b),
{
    valid_utf8_concat(a, b);
}

/// Whether two byte strings are equal.
pub fn bytes_eq(a: &[u8], b: &[u8]) -> (r: bool)
    ensures
        r == (a@ == b@),
{
    if a.len() != b.len() {
        return false;
    }
    let mut i: usize = 0;
    while i < a.len()
        invariant
            a@.len() == b@.len(),
            0 <= i <= a@.len(),
            forall|j: int| 0 <= j < i ==> a@[j] == b@[j],
        decreases a.len() - i,
    {
        if a[i] != b[i] {
            return false;
        }
        i = i + 1;
    }
    assert(a@ =~= b@);
    true
}

/// The first index `k >= j` at which `b` holds the byte `x`.
pub open spec fn first_index_of(b: Seq<u8>, x: u8, j: int) -> Option<int>
    decreases b.len() - j,
{
    if j >= b.len() || j < 0 {
        None
    } else if b[j] == x {
        Some(j)
    } else {
        first_index_of(b, x, j + 1)
    }
}

/// `prefix` is a prefix of `b`.
pub open spec fn starts_with(b: Seq<u8>, prefix: Seq<u8>) -> bool {
    prefix.len() <= b.len() && b.subrange(0, prefix.len() as int) == prefix
}

/// The first index at or after `from` at which `b` holds `x`.
pub fn index_of_byte(b: &[u8], x: u8, from: usize) -> (r: Option<usize>)
    ensures
        match r {
            Some(k) => first_index_of(b@, x, from as int) == Some(k as int) && from <= k < b@.len()
                && b@[k as int] == x,
            None => first_index_of(b@, x, from as int) is None,
        },
{
    if from >= b.len() {
        return None;
    }
    let mut j = from;
    while j < b.len()
        invariant
            from <= j <= b@.len(),
            first_index_of(b@, x, from as int) == first_index_of(b@, x, j as int),
        decreases b.len() - j,
    {
        if b[j] == x {
            return Some(j);
        }
        j = j + 1;
    }
    None
}

/// Whether `prefix` is a prefix of `b`.
pub fn has_prefix(b: &[u8], prefix: &[u8]) -> (r: bool)
    ensures
        r == starts_with(b@, prefix@),
{
    if prefix.len() > b.len() {
        return false;
    }
    let mut i: usize = 0;
    while i < prefix.len()
        invariant
            prefix@.len() <= b@.len(),
            0 <= i <= prefix@.len(),
            forall|j: int| 0 <= j < i ==> b@[j] == prefix@[j],
        decreases prefix.len() - i,
    {
        if b[i] != prefix[i] {
            assert(b@.subrange(0, prefix@.len() as int)[i as int] == b@[i as int]);
            return false;
        }
        i = i + 1;
    }
    assert(b@.subrange(0, prefix@.len() as int) =~= prefix@);
    true
}

/// A `String` of the ASCII bytes `bytes`.
pub fn ascii_string(bytes: Vec<u8>) -> (r: String)
    requires
        ascii_bytes(bytes@),
    ensures
        text_bytes(r@) == bytes@,
{
    let ghost b = bytes@;
    proof {
        lemma_ascii_valid_utf8(b);
        lemma_decode_encode(b);
    }
    match string_from_utf8(bytes) {
        Ok(s) => s,
        Err(_) => String::new(),
    }
}

/// The first index of `x` at or after `j` is `k` when `k` holds `x` and no
/// index between them does.
pub proof fn lemma_first_index_of(b: Seq<u8>, x: u8, j: int, k: int)
    requires
        0 <= j <= k < b.len(),
        b[k] == x,
        forall|m: int| j <= m < k ==> #[trigger] b[m] != x,
    ensures
        first_index_of(b, x, j) == Some(k),
    decreases k - j,
{
    if j < k {
        lemma_first_index_of(b, x, j + 1, k);
    }
}

} // verus!
