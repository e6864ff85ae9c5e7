use base64::engine::general_purpose::URL_SAFE_NO_PAD as B64;
use base64::Engine;
use web_admin::codec::hmac_hex;
use web_admin::token::{sign, verify, Invalid};

const SECRET: &[u8] = b"test-signing-secret";

fn uid() -> String {
    "11111111-2222-3333-4444-555555555555".to_string()
}

#[test]
fn round_trips() {
    let t = sign(SECRET, &uid(), 3, 2_000);
    assert_eq!(verify(SECRET, &t, 1_000), Ok((uid(), 3)));
}

#[test]
fn rejects_expiry_in_the_past() {
    let t = sign(SECRET, &uid(), 1, 1_000);
    assert_eq!(verify(SECRET, &t, 1_000), Err(Invalid::Expired));
}

#[test]
fn rejects_a_different_secret() {
    let t = sign(SECRET, &uid(), 1, 2_000);
    assert_eq!(verify(b"other-secret", &t, 1_000), Err(Invalid::BadSignature));
}

#[test]
fn rejects_a_lengthened_expiry() {
    let t = sign(SECRET, &uid(), 1, 1_500);
    let parts: Vec<&str> = t.split(':').collect();
    let forged = format!("{}:{}:{}:{}", parts[0], parts[1], B64.encode(b"99999999999"), parts[3]);
    assert_eq!(verify(SECRET, &forged, 1_000), Err(Invalid::BadSignature));
}

#[test]
fn rejects_a_bumped_version() {
    let t = sign(SECRET, &uid(), 1, 2_000);
    let (_, version) = verify(SECRET, &t, 1_000).unwrap();
    assert_eq!(version, 1);
    assert_ne!(sign(SECRET, &uid(), 2, 2_000), t);
}

#[test]
fn rejects_malformed_shapes() {
    assert_eq!(verify(SECRET, "a:b:c", 0), Err(Invalid::Malformed));
    assert_eq!(verify(SECRET, "", 0), Err(Invalid::Malformed));
    assert_eq!(verify(SECRET, "!!!:!!!:!!!:!!!", 0), Err(Invalid::Malformed));
}

#[test]
fn is_not_interchangeable_with_a_share_token() {
    let share_payload = format!("{}:{}", uid(), 1);
    let share_mac = hmac_hex(SECRET, &share_payload);
    let ours = sign(SECRET, &uid(), 1, 2_000);
    assert!(!ours.ends_with(&share_mac));
}

#[test]
fn the_token_is_four_encoded_parts() {
    let t = sign(SECRET, "u", 7, 42);
    let parts: Vec<&str> = t.split(':').collect();
    assert_eq!(parts.len(), 4);
    assert_eq!(B64.decode(parts[0]).unwrap(), b"u");
    assert_eq!(B64.decode(parts[1]).unwrap(), b"7");
    assert_eq!(B64.decode(parts[2]).unwrap(), b"42");
    assert_eq!(parts[3], hmac_hex(SECRET, "pi-embed:u:7:42"));
}

#[test]
fn the_mac_is_rfc_4231_hmac_sha256() {
    let key = [0x0bu8; 20];
    assert_eq!(
        hmac_hex(&key, "Hi There"),
        "b0344c61d8db38535ca8afceaf0bf12b881dc200c9833da726e9376c2e32cff7"
    );
}

#[test]
fn a_forged_expiry_is_refused_the_same_at_any_time() {
    let t = sign(SECRET, &uid(), 1, 1_500);
    let parts: Vec<&str> = t.split(':').collect();
    let forged = format!("{}:{}:{}:{}", parts[0], parts[1], B64.encode(b"10"), parts[3]);
    assert_eq!(verify(SECRET, &forged, 5), Err(Invalid::BadSignature));
    assert_eq!(verify(SECRET, &forged, 1_000_000), Err(Invalid::BadSignature));
    assert_eq!(verify(SECRET, "a:b", 5), Err(Invalid::Malformed));
    assert_eq!(verify(SECRET, "a:b", 1_000_000), Err(Invalid::Malformed));
}
