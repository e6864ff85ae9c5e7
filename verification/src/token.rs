//! The credential an embedded widget carries.
//!
//! `b64(user_id):b64(version):b64(exp):hex(mac)`, where the MAC is
//! HMAC-SHA256 over `pi-embed:{user_id}:{version}:{exp}` keyed by the signing
//! secret. The purpose prefix ties a signature to this use, so a token minted
//! for another purpose cannot be replayed here. The signature is checked
//! before the expiry, so a tampered expiry cannot be probed by watching which
//! error comes back.
use vstd::prelude::*;
use vstd::utf8::{decode_utf8, encode_utf8, valid_utf8};

use crate::codec::{
    b64_decode, b64_encode, b64url_decode, b64url_encode, hex_digit, hex_lower, hmac_hex,
    hmac_hex_spec, is_b64url_char, macs_equal, utf8_string,
};
use crate::decimal::{decimal, i64_to_string, lemma_parse_decimal, parse_bounded, parse_int};
use crate::text::{chars_of, split, split_chars, string_of_chars};

verus! {

broadcast use {vstd::utf8::encode_utf8_valid_utf8, vstd::utf8::encode_utf8_decode_utf8};

/// Token lifetime, in seconds.
pub const TTL_SECS: i64 = 3_600;

/// Why a token was refused.
#[derive(PartialEq, Eq, Structural, Clone, Copy, Debug)]
pub enum Invalid {
    Malformed,
    BadSignature,
    Expired,
}

/// The signed text: `pi-embed:{user_id}:{version}:{exp}`.
pub open spec fn payload(user: Seq<char>, version: int, exp: int) -> Seq<char> {
    "pi-embed:"@ + user + ":"@ + decimal(version) + ":"@ + decimal(exp)
}

/// Base64 of the UTF-8 bytes of `text`.
pub open spec fn b64_text(text: Seq<char>) -> Seq<char> {
    b64url_encode(encode_utf8(text))
}

/// The token `sign` writes.
pub open spec fn token_for(secret: Seq<u8>, user: Seq<char>, version: int, exp: int) -> Seq<char> {
    b64_text(user) + ":"@ + b64_text(decimal(version)) + ":"@ + b64_text(decimal(exp)) + ":"@
        + hmac_hex_spec(secret, payload(user, version, exp))
}

/// The text a Base64 part carries, when it decodes to UTF-8.
pub open spec fn decode_text(part: Seq<char>) -> Option<Seq<char>> {
    match b64url_decode(part) {
        Some(bytes) => if valid_utf8(bytes) {
            Some(decode_utf8(bytes))
        } else {
            None
        },
        None => None,
    }
}

/// What `verify` decides for `token` at time `now`.
pub open spec fn verdict(secret: Seq<u8>, token: Seq<char>, now: int) -> Result<
    (Seq<char>, int),
    Invalid,
> {
    let parts = split(token, ':');
    if parts.len() != 4 {
        Err(Invalid::Malformed)
    } else {
        match (decode_text(parts[0]), decode_text(parts[1]), decode_text(parts[2])) {
            (Some(user), Some(vt), Some(et)) => match (
                parse_int(vt, i32::MIN as int, i32::MAX as int),
                parse_int(et, i64::MIN as int, i64::MAX as int),
            ) {
                (Some(version), Some(exp)) => {
                    if hmac_hex_spec(secret, payload(user, version, exp)) != parts[3] {
                        Err(Invalid::BadSignature)
                    } else if exp <= now {
                        Err(Invalid::Expired)
                    } else {
                        Ok((user, version))
                    }
                },
                _ => Err(Invalid::Malformed),
            },
            _ => Err(Invalid::Malformed),
        }
    }
}

proof fn lemma_split_single(a: Seq<char>, sep: char)
    requires
        forall|i: int| 0 <= i < a.len() ==> #[trigger] a[i] != sep,
    ensures
        split(a, sep) == seq![a],
    decreases a.len(),
{
    if a.len() > 0 {
        let t = a.drop_last();
        assert forall|i: int| 0 <= i < t.len() implies #[trigger] t[i] != sep by {
            assert(t[i] == a[i]);
        }
        lemma_split_single(t, sep);
        assert(t.push(a.last()) =~= a);
        assert(split(a, sep) =~= seq![a]);
    } else {
        assert(a =~= Seq::<char>::empty());
    }
}

proof fn lemma_split_after(a: Seq<char>, sep: char, rest: Seq<char>)
    requires
        forall|i: int| 0 <= i < a.len() ==> #[trigger] a[i] != sep,
    ensures
        split(a.push(sep) + rest, sep) == seq![a] + split(rest, sep),
    decreases rest.len(),
{
    if rest.len() == 0 {
        lemma_split_single(a, sep);
        assert(a.push(sep) + rest =~= a.push(sep));
        assert(a.push(sep).drop_last() =~= a);
        assert(split(a.push(sep) + rest, sep) =~= seq![a] + split(rest, sep));
    } else {
        let r0 = rest.drop_last();
        lemma_split_after(a, sep, r0);
        let whole = a.push(sep) + rest;
        assert(whole.drop_last() =~= a.push(sep) + r0);
        assert(whole.last() == rest.last());
        crate::text::lemma_split_nonempty(r0, sep);
        assert(split(whole, sep) =~= seq![a] + split(rest, sep));
    }
}

proof fn lemma_hex_has_no_colon(b: Seq<u8>)
    ensures
        forall|i: int| 0 <= i < hex_lower(b).len() ==> #[trigger] hex_lower(b)[i] != ':',
    decreases b.len(),
{
    if b.len() > 0 {
        lemma_hex_has_no_colon(b.drop_last());
        let hi = b.last() as int / 16;
        let lo = b.last() as int % 16;
        assert(hex_digit(hi) != ':');
        assert(hex_digit(lo) != ':');
        let p = hex_lower(b.drop_last());
        let h = hex_lower(b);
        assert(h =~= p + seq![hex_digit(hi), hex_digit(lo)]);
        assert forall|i: int| 0 <= i < h.len() implies #[trigger] h[i] != ':' by {
            if i < p.len() {
                assert(h[i] == p[i]);
            }
        }
    }
}

/// The time decides only between an expired token and a good one: a token
/// that is malformed, or whose signature does not match, is answered the
/// same at every moment, so a tampered expiry cannot be probed by watching
/// which error comes back.
pub proof fn law_time_never_decides_a_forgery(secret: Seq<u8>, token: Seq<char>, now1: int, now2: int)
    ensures
        verdict(secret, token, now1) == Err::<(Seq<char>, int), Invalid>(Invalid::BadSignature) ==> verdict(
            secret,
            token,
            now2,
        ) == Err::<(Seq<char>, int), Invalid>(Invalid::BadSignature),
        verdict(secret, token, now1) == Err::<(Seq<char>, int), Invalid>(Invalid::Malformed) ==> verdict(
            secret,
            token,
            now2,
        ) == Err::<(Seq<char>, int), Invalid>(Invalid::Malformed),
{
}

/// `b64(user_id):b64(version):b64(exp):hex(mac)`.
///
/// Whatever is signed verifies back to the same user and version while the
/// expiry lies ahead, and is refused as expired once it does not.
pub fn sign(secret: &[u8], user_id: &str, version: i32, exp: i64) -> (out: String)
    ensures
        out@ == token_for(secret@, user_id@, version as int, exp as int),
        forall|now: int|
            now < exp ==> #[trigger] verdict(secret@, out@, now) == Ok::<(Seq<char>, int), Invalid>(
                (user_id@, version as int),
            ),
        forall|now: int|
            now >= exp ==> #[trigger] verdict(secret@, out@, now) == Err::<(Seq<char>, int), Invalid>(
                Invalid::Expired,
            ),
{
    let version_text = i64_to_string(version as i64);
    let exp_text = i64_to_string(exp);
    let e0 = b64_encode(user_id.as_bytes());
    let e1 = b64_encode(version_text.as_str().as_bytes());
    let e2 = b64_encode(exp_text.as_str().as_bytes());
    let message = payload_text(user_id, version, exp);
    let mac = hmac_hex(secret, message.as_str());
    let mut out = e0;
    out.append(":");
    out.append(e1.as_str());
    out.append(":");
    out.append(e2.as_str());
    out.append(":");
    out.append(mac.as_str());
    proof {
        reveal_strlit(":");
        let ghost u = user_id@;
        let ghost v = version as int;
        let ghost x = exp as int;
        assert(out@ =~= token_for(secret@, u, v, x));
        lemma_hex_has_no_colon(crate::codec::hmac_sha256(secret@, encode_utf8(payload(u, v, x))));
        let m = mac@;
        assert forall|i: int| 0 <= i < e0@.len() implies #[trigger] e0@[i] != ':' by {
            assert(is_b64url_char(e0@[i]));
        }
        assert forall|i: int| 0 <= i < e1@.len() implies #[trigger] e1@[i] != ':' by {
            assert(is_b64url_char(e1@[i]));
        }
        assert forall|i: int| 0 <= i < e2@.len() implies #[trigger] e2@[i] != ':' by {
            assert(is_b64url_char(e2@[i]));
        }
        lemma_split_single(m, ':');
        lemma_split_after(e2@, ':', m);
        lemma_split_after(e1@, ':', e2@.push(':') + m);
        lemma_split_after(e0@, ':', e1@.push(':') + (e2@.push(':') + m));
        assert(out@ =~= e0@.push(':') + (e1@.push(':') + (e2@.push(':') + m)));
        let parts = split(out@, ':');
        assert(parts =~= seq![e0@, e1@, e2@, m]);
        lemma_parse_decimal(v, i32::MIN as int, i32::MAX as int);
        lemma_parse_decimal(x, i64::MIN as int, i64::MAX as int);
        assert(decode_text(parts[0]) == Some(u));
        assert(decode_text(parts[1]) == Some(decimal(v)));
        assert(decode_text(parts[2]) == Some(decimal(x)));
    }
    out
}

/// `pi-embed:{user_id}:{version}:{exp}`.
pub fn payload_text(user_id: &str, version: i32, exp: i64) -> (out: String)
    ensures
        out@ == payload(user_id@, version as int, exp as int),
{
    let mut out = String::from_str("pi-embed:");
    out.append(user_id);
    out.append(":");
    let v = i64_to_string(version as i64);
    out.append(v.as_str());
    out.append(":");
    let x = i64_to_string(exp);
    out.append(x.as_str());
    out
}

fn decode_part(part: &Vec<char>) -> (out: Option<String>)
    ensures
        match out {
            Some(s) => decode_text(part@) == Some(s@),
            None => decode_text(part@) is None,
        },
{
    let text = string_of_chars(part);
    match b64_decode(text.as_str()) {
        None => None,
        Some(bytes) => utf8_string(bytes),
    }
}

/// Recover `(user_id, version)` from a token, or say why not.
///
/// The version still has to be rechecked against the account by the caller;
/// this only proves the token is intact and current.
pub fn verify(secret: &[u8], token: &str, now: i64) -> (r: Result<(String, i32), Invalid>)
    ensures
        match r {
            Ok((user, version)) => verdict(secret@, token@, now as int) == Ok::<
                (Seq<char>, int),
                Invalid,
            >((user@, version as int)),
            Err(e) => verdict(secret@, token@, now as int) == Err::<(Seq<char>, int), Invalid>(e),
        },
{
    let cs = chars_of(token);
    let parts = split_chars(&cs, ':');
    if parts.len() != 4 {
        return Err(Invalid::Malformed);
    }
    let user = decode_part(&parts[0]);
    let vt = decode_part(&parts[1]);
    let et = decode_part(&parts[2]);
    let (user, vt, et) = match (user, vt, et) {
        (Some(u), Some(v), Some(e)) => (u, v, e),
        _ => return Err(Invalid::Malformed),
    };
    let vcs = chars_of(vt.as_str());
    let ecs = chars_of(et.as_str());
    let version = parse_bounded(&vcs, i32::MIN as i64, i32::MAX as i64);
    let exp = parse_bounded(&ecs, i64::MIN, i64::MAX);
    let (version, exp) = match (version, exp) {
        (Some(v), Some(x)) => (v as i32, x),
        _ => return Err(Invalid::Malformed),
    };
    let message = payload_text(user.as_str(), version, exp);
    let expected = hmac_hex(secret, message.as_str());
    let given = string_of_chars(&parts[3]);
    if !macs_equal(expected.as_str(), given.as_str()) {
        return Err(Invalid::BadSignature);
    }
    if exp <= now {
        return Err(Invalid::Expired);
    }
    Ok((user, version))
}

} // verus!
