use ghostbay::auth::{
    authenticate, authenticate_at, decode_access_key, encode_access_key, expiry_after_days,
    generate_access_key_id, generate_secret_access_key, new_access_key, rotated_access_key,
    AccessKey, AccessKeyRow, CreateAccessKeyRequest, SignatureValidationRequest,
    ACCESS_KEY_ID_ALPHABET, SECRET_KEY_ALPHABET,
};
use ghostbay::clock::UtcTime;
use ghostbay::codec::RowError;
use ghostbay::sigv4::AuthError;
use ghostbay::string_map::StringMap;

const SECRET: &str = "wJalrXUtnFEMI/K7MDENG+bPxRfiCYEXAMPLEKEY";
const AWS_EXAMPLE_SIGNATURE: &str = "5d672d79c15b13162d9279b0855cfba6789a8edb4c82c400e06b5924a6f2b5d7";
const EMPTY_HASH: &str = "e3b0c44298fc1c149afbf4c8996fb92427ae41e4649b934ca495991b7852b855";

fn at(secs: i64, nanos: u32) -> UtcTime {
    UtcTime { secs, nanos }
}

fn example_time() -> UtcTime {
    at(1440938160, 0)
}

fn example_request(signature: &str) -> SignatureValidationRequest {
    let mut h = StringMap::new();
    h.insert("X-Amz-Date".to_string(), "20150830T123600Z".to_string());
    h.insert("Host".to_string(), "iam.amazonaws.com".to_string());
    h.insert("Content-Type".to_string(), "application/x-www-form-urlencoded; charset=utf-8".to_string());
    SignatureValidationRequest {
        access_key_id: "AKIDEXAMPLE".to_string(),
        signature: signature.to_string(),
        signed_headers: h,
        method: "GET".to_string(),
        uri: "/".to_string(),
        query_string: "Action=ListUsers&Version=2010-05-08".to_string(),
        payload_hash: EMPTY_HASH.to_string(),
        timestamp: example_time(),
        region: "us-east-1".to_string(),
        service: "iam".to_string(),
    }
}

fn example_key(expires_at: Option<UtcTime>) -> AccessKey {
    AccessKey {
        id: 7,
        access_key_id: "AKIDEXAMPLE".to_string(),
        secret_access_key: SECRET.to_string(),
        created_at: at(1440000000, 0),
        expires_at,
        is_active: true,
        policies: vec!["admin".to_string(), "read".to_string()],
        description: Some("example".to_string()),
    }
}

#[test]
fn generated_access_key_ids_have_the_aws_shape() {
    for _ in 0..20 {
        let id = generate_access_key_id();
        assert_eq!(id.len(), 20);
        assert!(id.starts_with("AKIA"));
        assert!(id[4..].chars().all(|c| ACCESS_KEY_ID_ALPHABET.contains(c)));
    }
}

#[test]
fn generated_secrets_are_forty_characters_of_the_alphabet() {
    for _ in 0..20 {
        let s = generate_secret_access_key();
        assert_eq!(s.chars().count(), 40);
        assert!(s.chars().all(|c| SECRET_KEY_ALPHABET.contains(c)));
    }
}

#[test]
fn generated_keys_differ() {
    assert_ne!(generate_access_key_id(), generate_access_key_id());
    assert_ne!(generate_secret_access_key(), generate_secret_access_key());
}

#[test]
fn new_access_key_is_active_and_keeps_the_request() {
    let req = CreateAccessKeyRequest {
        policies: vec!["admin".to_string()],
        description: Some("d".to_string()),
        expires_at: Some(at(2000000000, 0)),
    };
    let now = at(1700000000, 5);
    let k = new_access_key(req, now);
    assert!(k.is_active);
    assert_eq!(k.created_at, now);
    assert_eq!(k.expires_at, Some(at(2000000000, 0)));
    assert_eq!(k.policies, vec!["admin".to_string()]);
    assert_eq!(k.description, Some("d".to_string()));
    assert!(k.access_key_id.starts_with("AKIA"));
    assert_eq!(k.secret_access_key.len(), 40);
}

#[test]
fn rotation_replaces_only_the_secret_and_the_creation_time() {
    let k = example_key(None);
    let r = rotated_access_key(k, "NEWSECRET".to_string(), at(1500000000, 0));
    assert_eq!(r.secret_access_key, "NEWSECRET");
    assert_eq!(r.created_at, at(1500000000, 0));
    assert_eq!(r.id, 7);
    assert_eq!(r.access_key_id, "AKIDEXAMPLE");
    assert_eq!(r.policies, vec!["admin".to_string(), "read".to_string()]);
    assert_eq!(r.description, Some("example".to_string()));
    assert!(r.is_active);
}

#[test]
fn authenticate_accepts_the_right_signature() {
    let ctx = authenticate_at(Some(example_key(None)), &example_request(AWS_EXAMPLE_SIGNATURE), example_time()).unwrap();
    assert_eq!(ctx.access_key_id, "AKIDEXAMPLE");
    assert!(ctx.authenticated);
    assert_eq!(ctx.policies, vec!["admin".to_string(), "read".to_string()]);
    assert!(ctx.session_token.is_none());
}

#[test]
fn authenticate_refuses_a_missing_key() {
    let r = authenticate_at(None, &example_request(AWS_EXAMPLE_SIGNATURE), example_time());
    assert_eq!(r.unwrap_err(), AuthError::AccessKeyNotFound);
    let r = authenticate(None, &example_request(AWS_EXAMPLE_SIGNATURE));
    assert_eq!(r.unwrap_err(), AuthError::AccessKeyNotFound);
    assert_eq!(AuthError::AccessKeyNotFound.message(), "Access key not found");
}

#[test]
fn authenticate_refuses_an_expired_key() {
    let now = example_time();
    let key = example_key(Some(at(now.secs - 1, 0)));
    let r = authenticate_at(Some(key), &example_request(AWS_EXAMPLE_SIGNATURE), now);
    assert_eq!(r.unwrap_err(), AuthError::AccessKeyExpired);
    // expiring exactly now is not yet expired
    let key = example_key(Some(now));
    assert!(authenticate_at(Some(key), &example_request(AWS_EXAMPLE_SIGNATURE), now).is_ok());
    assert_eq!(AuthError::AccessKeyExpired.message(), "Access key expired");
}

#[test]
fn authenticate_refuses_an_old_request() {
    let now = at(example_time().secs + 901, 0);
    let r = authenticate_at(Some(example_key(None)), &example_request(AWS_EXAMPLE_SIGNATURE), now);
    assert_eq!(r.unwrap_err(), AuthError::RequestTimestampTooOld);
    // against the real clock the example request of 2015 is far too old
    let r = authenticate(Some(example_key(None)), &example_request(AWS_EXAMPLE_SIGNATURE));
    assert_eq!(r.unwrap_err(), AuthError::RequestTimestampTooOld);
}

#[test]
fn authenticate_refuses_a_wrong_signature() {
    let wrong = "0".repeat(64);
    let r = authenticate_at(Some(example_key(None)), &example_request(&wrong), example_time());
    assert_eq!(r.unwrap_err(), AuthError::InvalidSignature);
    assert_eq!(AuthError::InvalidSignature.message(), "Invalid signature");
}

fn example_row() -> AccessKeyRow {
    AccessKeyRow {
        id: "67e55044-10b1-426f-9247-bb680e5fe0c8".to_string(),
        access_key_id: "AKIDEXAMPLE".to_string(),
        secret_access_key: SECRET.to_string(),
        created_at: "2024-01-02T03:04:05Z".to_string(),
        expires_at: Some("2025-01-02T03:04:05.250+01:00".to_string()),
        is_active: true,
        policies: "[\"admin\",\"read\"]".to_string(),
        description: None,
    }
}

#[test]
fn decode_access_key_reads_a_row() {
    let k = decode_access_key(example_row()).unwrap();
    assert_eq!(k.id, 0x67e55044_10b1_426f_9247_bb680e5fe0c8);
    assert_eq!(k.access_key_id, "AKIDEXAMPLE");
    assert_eq!(k.created_at, at(1704164645, 0));
    assert_eq!(k.expires_at, Some(at(1735783445, 250_000_000)));
    assert_eq!(k.policies, vec!["admin".to_string(), "read".to_string()]);
    assert!(k.is_active);
    assert_eq!(k.description, None);
}

#[test]
fn decode_access_key_reports_the_first_bad_field() {
    let mut r = example_row();
    r.policies = "{\"a\":1}".to_string();
    r.id = "nope".to_string();
    assert_eq!(decode_access_key(r).unwrap_err(), RowError::InvalidJson);
    let mut r = example_row();
    r.id = "nope".to_string();
    r.created_at = "yesterday".to_string();
    assert_eq!(decode_access_key(r).unwrap_err(), RowError::InvalidUuid);
    let mut r = example_row();
    r.created_at = "yesterday".to_string();
    assert_eq!(decode_access_key(r).unwrap_err(), RowError::InvalidTimestamp);
    let mut r = example_row();
    r.expires_at = Some("2025-13-01T00:00:00Z".to_string());
    assert_eq!(decode_access_key(r).unwrap_err(), RowError::InvalidTimestamp);
}

#[test]
fn encode_access_key_writes_text_fields() {
    let k = example_key(Some(at(1735783445, 250_000_000)));
    let row = encode_access_key(&k).unwrap();
    assert_eq!(row.id, "00000000-0000-0000-0000-000000000007");
    assert_eq!(row.created_at, "2015-08-19T16:00:00+00:00");
    assert_eq!(row.expires_at, Some("2025-01-02T02:04:05.250+00:00".to_string()));
    assert_eq!(row.policies, "[\"admin\",\"read\"]");
    assert_eq!(row.description, Some("example".to_string()));
}

#[test]
fn access_key_rows_read_back() {
    let k = example_key(Some(at(1735783445, 123_456_789)));
    let back = decode_access_key(encode_access_key(&k).unwrap()).unwrap();
    assert_eq!(back.id, k.id);
    assert_eq!(back.access_key_id, k.access_key_id);
    assert_eq!(back.secret_access_key, k.secret_access_key);
    assert_eq!(back.created_at, k.created_at);
    assert_eq!(back.expires_at, k.expires_at);
    assert_eq!(back.is_active, k.is_active);
    assert_eq!(back.policies, k.policies);
    assert_eq!(back.description, k.description);
}

#[test]
fn expiry_after_days_adds_whole_days() {
    assert_eq!(expiry_after_days(at(1000, 7), 0), at(1000, 7));
    assert_eq!(expiry_after_days(at(1000, 7), 30), at(1000 + 30 * 86_400, 7));
}

#[test]
fn checked_expiry_refuses_what_would_overflow() {
    assert_eq!(ghostbay::auth::checked_expiry_after_days(at(1000, 7), 30), Some(at(1000 + 30 * 86_400, 7)));
    assert_eq!(ghostbay::auth::checked_expiry_after_days(at(1000, 7), 0), Some(at(1000, 7)));
    assert_eq!(ghostbay::auth::checked_expiry_after_days(at(1000, 7), u64::MAX / 2), None);
    assert_eq!(ghostbay::auth::checked_expiry_after_days(at(1000, 7), 100_000_000_000), None);
}

#[test]
fn ordinary_requests_are_within_the_hash_limits() {
    assert!(ghostbay::auth::request_within_hash_limits(SECRET, &example_request(AWS_EXAMPLE_SIGNATURE)));
}
