//! Byte encodings: SHA-256 from `sha2`, URL-safe unpadded Base64 from
//! `base64`, UTF-8 decoding from std, and HMAC-SHA256 and lowercase hex built
//! on them.
use vstd::prelude::*;
use vstd::utf8::{decode_utf8, encode_utf8, valid_utf8};

use base64::Engine;
use sha2::Digest;

verus! {

/// The SHA-256 digest of `data`.
pub uninterp spec fn sha256(data: Seq<u8>) -> Seq<u8>;

/// What `URL_SAFE_NO_PAD.encode` writes for `data`.
pub uninterp spec fn b64url_encode(data: Seq<u8>) -> Seq<char>;

/// What `URL_SAFE_NO_PAD.decode` reads from `text`, or `None` when it refuses.
pub uninterp spec fn b64url_decode(text: Seq<char>) -> Option<Seq<u8>>;

/// The URL-safe Base64 alphabet.
pub open spec fn is_b64url_char(c: char) -> bool {
    ('A' <= c && c <= 'Z') || ('a' <= c && c <= 'z') || ('0' <= c && c <= '9') || c == '-' || c
        == '_'
}

/// `sha2::Sha256::digest`: the 32-byte SHA-256 digest of `data`.
#[verifier::external_body]
pub(crate) fn sha256_digest(data: &[u8]) -> (out: Vec<u8>)
    ensures
        out@ == sha256(data@),
        out@.len() == 32,
{
    sha2::Sha256::digest(data).to_vec()
}

/// `base64`'s `URL_SAFE_NO_PAD.encode`. The encoding uses only the URL-safe
/// alphabet, carries no padding, and its own `decode` reads it back.
#[verifier::external_body]
pub(crate) fn b64_encode(data: &[u8]) -> (out: String)
    ensures
        out@ == b64url_encode(data@),
        b64url_decode(out@) == Some(data@),
        forall|i: int| 0 <= i < out@.len() ==> is_b64url_char(#[trigger] out@[i]),
{
    base64::engine::general_purpose::URL_SAFE_NO_PAD.encode(data)
}

/// `base64`'s `URL_SAFE_NO_PAD.decode`: the bytes `text` encodes, or `None`
/// when it is not valid unpadded URL-safe Base64. A character outside the
/// URL-safe alphabet (padding `=` included, which this configuration
/// refuses) is always refused.
#[verifier::external_body]
pub(crate) fn b64_decode(text: &str) -> (out: Option<Vec<u8>>)
    ensures
        match out {
            Some(v) => b64url_decode(text@) == Some(v@),
            None => b64url_decode(text@) is None,
        },
        (exists|i: int| 0 <= i < text@.len() && !is_b64url_char(#[trigger] text@[i])) ==> out is None,
{
    match base64::engine::general_purpose::URL_SAFE_NO_PAD.decode(text) {
        Ok(v) => Some(v),
        Err(_) => None,
    }
}

/// `String::from_utf8`: the text `bytes` encode, or `None` when they are not
/// UTF-8.
#[verifier::external_body]
pub(crate) fn utf8_string(bytes: Vec<u8>) -> (out: Option<String>)
    ensures
        out is Some <==> valid_utf8(bytes@),
        out matches Some(s) ==> s@ == decode_utf8(bytes@),
{
    match String::from_utf8(bytes) {
        Ok(s) => Some(s),
        Err(_) => None,
    }
}

/// HMAC's block size for SHA-256, in bytes.
pub open spec fn block_len() -> nat {
    64
}

/// The key as HMAC uses it: hashed when longer than a block, then padded with
/// zeros to one block.
pub open spec fn key_block(key: Seq<u8>) -> Seq<u8> {
    let k = if key.len() > block_len() {
        sha256(key)
    } else {
        key
    };
    k + Seq::new((block_len() - k.len()) as nat, |i: int| 0u8)
}

/// Every byte of `k` xor `pad`.
pub open spec fn xor_pad(k: Seq<u8>, pad: u8) -> Seq<u8> {
    Seq::new(k.len(), |i: int| k[i] ^ pad)
}

/// HMAC-SHA256 (RFC 2104) of `msg` under `key`.
pub open spec fn hmac_sha256(key: Seq<u8>, msg: Seq<u8>) -> Seq<u8> {
    sha256(xor_pad(key_block(key), 0x5cu8) + sha256(xor_pad(key_block(key), 0x36u8) + msg))
}

/// The lowercase hex digit for a nibble.
pub open spec fn hex_digit(n: int) -> char {
    if n < 10 {
        ((n + 48) as u32) as char
    } else {
        ((n + 87) as u32) as char
    }
}

/// Bytes as lowercase hex, two digits each.
pub open spec fn hex_lower(bytes: Seq<u8>) -> Seq<char>
    decreases bytes.len(),
{
    if bytes.len() == 0 {
        seq![]
    } else {
        hex_lower(bytes.drop_last()) + seq![
            hex_digit(bytes.last() as int / 16),
            hex_digit(bytes.last() as int % 16),
        ]
    }
}

/// The HMAC-SHA256 of `msg` under `key`, in lowercase hex.
pub open spec fn hmac_hex_spec(key: Seq<u8>, msg: Seq<char>) -> Seq<char> {
    hex_lower(hmac_sha256(key, encode_utf8(msg)))
}

fn slice_to_vec(s: &[u8]) -> (out: Vec<u8>)
    ensures
        out@ == s@,
{
    let mut out: Vec<u8> = Vec::new();
    let mut i: usize = 0;
    while i < s.len()
        invariant
            i <= s.len(),
            out@ == s@.take(i as int),
        decreases s.len() - i,
    {
        out.push(s[i]);
        i = i + 1;
        assert(out@ =~= s@.take(i as int));
    }
    assert(s@.take(s.len() as int) =~= s@);
    out
}

fn padded_block(key: &[u8]) -> (out: Vec<u8>)
    ensures
        out@ == key_block(key@),
        out@.len() == 64,
{
    let mut k = if key.len() > 64 {
        sha256_digest(key)
    } else {
        slice_to_vec(key)
    };
    let ghost base = k@;
    while k.len() < 64
        invariant
            base.len() <= 64,
            k@.len() <= 64,
            k@ == base + Seq::new((k@.len() - base.len()) as nat, |i: int| 0u8),
        decreases 64 - k.len(),
    {
        k.push(0u8);
        assert(k@ =~= base + Seq::new((k@.len() - base.len()) as nat, |i: int| 0u8));
    }
    assert(k@ =~= key_block(key@));
    k
}

fn xor_with(k: &Vec<u8>, pad: u8, tail: &[u8]) -> (out: Vec<u8>)
    ensures
        out@ == xor_pad(k@, pad) + tail@,
{
    let mut out: Vec<u8> = Vec::new();
    let mut i: usize = 0;
    while i < k.len()
        invariant
            i <= k.len(),
            out@ == xor_pad(k@, pad).take(i as int),
        decreases k.len() - i,
    {
        out.push(k[i] ^ pad);
        i = i + 1;
        assert(out@ =~= xor_pad(k@, pad).take(i as int));
    }
    let mut j: usize = 0;
    while j < tail.len()
        invariant
            j <= tail.len(),
            out@ == xor_pad(k@, pad) + tail@.take(j as int),
        decreases tail.len() - j,
    {
        out.push(tail[j]);
        j = j + 1;
        assert(out@ =~= xor_pad(k@, pad) + tail@.take(j as int));
    }
    assert(tail@.take(tail.len() as int) =~= tail@);
    assert(xor_pad(k@, pad).take(k.len() as int) =~= xor_pad(k@, pad));
    out
}

/// HMAC-SHA256 of `msg` under `key`.
pub fn hmac_sha256_bytes(key: &[u8], msg: &[u8]) -> (out: Vec<u8>)
    ensures
        out@ == hmac_sha256(key@, msg@),
{
    let block = padded_block(key);
    let inner_input = xor_with(&block, 0x36u8, msg);
    let inner = sha256_digest(inner_input.as_slice());
    let outer_input = xor_with(&block, 0x5cu8, inner.as_slice());
    sha256_digest(outer_input.as_slice())
}

fn hex_char(n: u8) -> (c: char)
    requires
        n < 16,
    ensures
        c == hex_digit(n as int),
{
    match n {
        0 => '0',
        1 => '1',
        2 => '2',
        3 => '3',
        4 => '4',
        5 => '5',
        6 => '6',
        7 => '7',
        8 => '8',
        9 => '9',
        10 => 'a',
        11 => 'b',
        12 => 'c',
        13 => 'd',
        14 => 'e',
        _ => 'f',
    }
}

/// Bytes as lowercase hex.
pub fn to_hex_lower(bytes: &Vec<u8>) -> (out: String)
    ensures
        out@ == hex_lower(bytes@),
{
    let mut out = String::new();
    let mut i: usize = 0;
    assert(bytes@.take(0) =~= Seq::<u8>::empty());
    while i < bytes.len()
        invariant
            i <= bytes.len(),
            out@ == hex_lower(bytes@.take(i as int)),
        decreases bytes.len() - i,
    {
        let b = bytes[i];
        crate::text::push_char(&mut out, hex_char(b / 16));
        crate::text::push_char(&mut out, hex_char(b % 16));
        i = i + 1;
        proof {
            let t = bytes@.take(i as int);
            assert(t.drop_last() =~= bytes@.take(i - 1));
            assert(t.last() == b);
        }
        assert(out@ =~= hex_lower(bytes@.take(i as int)));
    }
    assert(bytes@.take(bytes.len() as int) =~= bytes@);
    out
}

/// The HMAC-SHA256 of `msg`'s UTF-8 bytes under `key`, in lowercase hex.
pub fn hmac_hex(key: &[u8], msg: &str) -> (out: String)
    ensures
        out@ == hmac_hex_spec(key@, msg@),
{
    let mac = hmac_sha256_bytes(key, msg.as_bytes());
    to_hex_lower(&mac)
}

/// Whether two MACs are equal, comparing every character of equal-length
/// inputs rather than stopping at the first difference.
pub fn macs_equal(a: &str, b: &str) -> (r: bool)
    ensures
        r == (a@ == b@),
{
    let x = crate::text::chars_of(a);
    let y = crate::text::chars_of(b);
    if x.len() != y.len() {
        return false;
    }
    let mut same = true;
    let mut i: usize = 0;
    while i < x.len()
        invariant
            x.len() == y.len(),
            i <= x.len(),
            same == (forall|j: int| 0 <= j < i ==> x@[j] == y@[j]),
        decreases x.len() - i,
    {
        same = same && x[i] == y[i];
        i = i + 1;
    }
    if same {
        assert(x@ =~= y@);
    }
    same
}

} // verus!
