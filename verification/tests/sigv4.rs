use ghostbay::clock::UtcTime;
use ghostbay::sigv4::{hash_payload, parse_authorization_header, AuthError, SigV4Validator};
use ghostbay::string_map::StringMap;

const SECRET: &str = "wJalrXUtnFEMI/K7MDENG+bPxRfiCYEXAMPLEKEY";
const AWS_EXAMPLE_SIGNATURE: &str = "5d672d79c15b13162d9279b0855cfba6789a8edb4c82c400e06b5924a6f2b5d7";

fn at(secs: i64, nanos: u32) -> UtcTime {
    UtcTime { secs, nanos }
}

fn example_time() -> UtcTime {
    at(1440938160, 0)
}

fn example_headers() -> StringMap {
    let mut h = StringMap::new();
    h.insert("X-Amz-Date".to_string(), "20150830T123600Z".to_string());
    h.insert("Host".to_string(), "iam.amazonaws.com".to_string());
    h.insert("Content-Type".to_string(), "application/x-www-form-urlencoded; charset=utf-8".to_string());
    h
}

const EMPTY_HASH: &str = "e3b0c44298fc1c149afbf4c8996fb92427ae41e4649b934ca495991b7852b855";

fn validate_example(now: UtcTime, signature: &str) -> Result<bool, AuthError> {
    SigV4Validator::validate_signature_at(
        now,
        SECRET,
        "AKIDEXAMPLE",
        "GET",
        "/",
        "Action=ListUsers&Version=2010-05-08",
        &example_headers(),
        EMPTY_HASH,
        signature,
        example_time(),
        "us-east-1",
        "iam",
    )
}

#[test]
fn parse_authorization_header_reads_all_parts() {
    let info = parse_authorization_header(
        "AWS4-HMAC-SHA256 Credential=AKIA1234/20240101/us-east-1/s3/aws4_request, SignedHeaders=host;x-amz-date, Signature=abcdef",
    )
    .unwrap();
    assert_eq!(info.access_key_id, "AKIA1234");
    assert_eq!(info.date, "20240101");
    assert_eq!(info.region, "us-east-1");
    assert_eq!(info.service, "s3");
    assert_eq!(info.signed_headers, vec!["host".to_string(), "x-amz-date".to_string()]);
    assert_eq!(info.signature, "abcdef");
}

#[test]
fn parse_authorization_header_needs_the_algorithm_prefix() {
    let r = parse_authorization_header("AWS4-HMAC-SHA1 Credential=a/b/c/d/aws4_request, SignedHeaders=host, Signature=x");
    assert_eq!(r.unwrap_err(), AuthError::InvalidAuthorizationHeader);
    assert_eq!(AuthError::InvalidAuthorizationHeader.message(), "Invalid authorization header format");
}

#[test]
fn parse_authorization_header_reports_the_first_missing_field() {
    let r = parse_authorization_header("AWS4-HMAC-SHA256 SignedHeaders=host, Signature=x");
    assert_eq!(r.unwrap_err(), AuthError::MissingCredential);
    let r = parse_authorization_header("AWS4-HMAC-SHA256 Credential=a/b/c/d/aws4_request, Signature=x");
    assert_eq!(r.unwrap_err(), AuthError::MissingSignedHeaders);
    let r = parse_authorization_header("AWS4-HMAC-SHA256 Credential=a/b/c/d/aws4_request, SignedHeaders=host");
    assert_eq!(r.unwrap_err(), AuthError::MissingSignature);
    assert_eq!(AuthError::MissingSignature.message(), "Missing Signature in authorization header");
}

#[test]
fn parse_authorization_header_needs_five_credential_parts() {
    let r = parse_authorization_header("AWS4-HMAC-SHA256 Credential=a/b/c/aws4_request, SignedHeaders=host, Signature=x");
    assert_eq!(r.unwrap_err(), AuthError::InvalidCredentialFormat);
}

#[test]
fn parse_authorization_header_takes_the_last_value_of_a_field() {
    let info = parse_authorization_header(
        "AWS4-HMAC-SHA256 Signature=first, Credential=k/d/r/s/aws4_request, SignedHeaders=host, Signature=second, Other=1",
    )
    .unwrap();
    assert_eq!(info.signature, "second");
    assert_eq!(info.access_key_id, "k");
}

#[test]
fn canonical_uri_keeps_slashes_and_encodes_segments() {
    assert_eq!(SigV4Validator::canonical_uri_encode(""), "/");
    assert_eq!(SigV4Validator::canonical_uri_encode("/"), "/");
    assert_eq!(SigV4Validator::canonical_uri_encode("/my bucket/a+b~c.txt"), "/my%20bucket/a%2Bb~c.txt");
    assert_eq!(SigV4Validator::canonical_uri_encode("/é"), "/%C3%A9");
}

#[test]
fn canonical_query_string_encodes_and_sorts() {
    assert_eq!(SigV4Validator::canonical_query_string(""), "");
    assert_eq!(SigV4Validator::canonical_query_string("b=2&a=1"), "a=1&b=2");
    assert_eq!(SigV4Validator::canonical_query_string("acl"), "acl=");
    assert_eq!(SigV4Validator::canonical_query_string("k=a b&k=a+b"), "k=a%20b&k=a%2Bb");
    assert_eq!(SigV4Validator::canonical_query_string("x=1=2"), "x=1%3D2");
}

#[test]
fn canonical_query_string_does_not_depend_on_parameter_order() {
    let a = SigV4Validator::canonical_query_string("prefix=photos&list-type=2&max-keys=10");
    let b = SigV4Validator::canonical_query_string("max-keys=10&prefix=photos&list-type=2");
    assert_eq!(a, b);
    assert_eq!(a, "list-type=2&max-keys=10&prefix=photos");
}

#[test]
fn canonical_headers_lower_case_trim_and_sort() {
    let mut h = StringMap::new();
    h.insert("X-Amz-Date".to_string(), "  20240101T000000Z \t".to_string());
    h.insert("Host".to_string(), "example.com".to_string());
    let (text, signed) = SigV4Validator::canonical_headers(&h);
    assert_eq!(text, "host:example.com\nx-amz-date:20240101T000000Z\n");
    assert_eq!(signed, "host;x-amz-date");
}

#[test]
fn canonical_headers_do_not_depend_on_insertion_order() {
    let mut a = StringMap::new();
    a.insert("b".to_string(), "2".to_string());
    a.insert("A".to_string(), "1".to_string());
    let mut b = StringMap::new();
    b.insert("A".to_string(), "1".to_string());
    b.insert("b".to_string(), "2".to_string());
    assert_eq!(SigV4Validator::canonical_headers(&a), SigV4Validator::canonical_headers(&b));
}

#[test]
fn canonical_request_matches_the_aws_example() {
    let cr = SigV4Validator::create_canonical_request(
        "GET",
        "/",
        "Action=ListUsers&Version=2010-05-08",
        &example_headers(),
        EMPTY_HASH,
    );
    assert_eq!(
        cr,
        "GET\n/\nAction=ListUsers&Version=2010-05-08\ncontent-type:application/x-www-form-urlencoded; charset=utf-8\nhost:iam.amazonaws.com\nx-amz-date:20150830T123600Z\n\ncontent-type;host;x-amz-date\ne3b0c44298fc1c149afbf4c8996fb92427ae41e4649b934ca495991b7852b855"
    );
    let sts = SigV4Validator::create_string_to_sign(&cr, example_time(), "us-east-1", "iam");
    assert_eq!(
        sts,
        "AWS4-HMAC-SHA256\n20150830T123600Z\n20150830/us-east-1/iam/aws4_request\nf536975d06c0309214f805bb90ccff089219ecd68b2577efef23edd43b7e1a59"
    );
}

#[test]
fn signing_key_matches_the_aws_example() {
    let key = SigV4Validator::get_signing_key(SECRET, example_time(), "us-east-1", "iam");
    assert_eq!(hex::encode(&key), "c4afb1cc5771d871763a393e44b703571b55cc28424d1a5e86da6ed3c154a4b9");
}

#[test]
fn signature_matches_the_aws_example() {
    let key = SigV4Validator::get_signing_key(SECRET, example_time(), "us-east-1", "iam");
    let cr = SigV4Validator::create_canonical_request(
        "GET",
        "/",
        "Action=ListUsers&Version=2010-05-08",
        &example_headers(),
        EMPTY_HASH,
    );
    let sts = SigV4Validator::create_string_to_sign(&cr, example_time(), "us-east-1", "iam");
    assert_eq!(SigV4Validator::calculate_signature(&key, &sts), AWS_EXAMPLE_SIGNATURE);
}

#[test]
fn validate_signature_accepts_the_right_signature() {
    assert_eq!(validate_example(example_time(), AWS_EXAMPLE_SIGNATURE), Ok(true));
}

#[test]
fn validate_signature_rejects_a_wrong_signature() {
    let mut wrong = AWS_EXAMPLE_SIGNATURE.to_string();
    wrong.replace_range(0..1, "6");
    assert_eq!(validate_example(example_time(), &wrong), Ok(false));
    assert_eq!(validate_example(example_time(), ""), Ok(false));
}

#[test]
fn validate_signature_allows_fifteen_minutes_either_way() {
    let t = example_time();
    assert_eq!(validate_example(at(t.secs + 900, 0), AWS_EXAMPLE_SIGNATURE), Ok(true));
    assert_eq!(validate_example(at(t.secs - 900, 0), AWS_EXAMPLE_SIGNATURE), Ok(true));
    assert_eq!(validate_example(at(t.secs + 900, 1), AWS_EXAMPLE_SIGNATURE), Err(AuthError::RequestTimestampTooOld));
    assert_eq!(validate_example(at(t.secs - 901, 0), AWS_EXAMPLE_SIGNATURE), Err(AuthError::RequestTimestampTooOld));
    assert_eq!(AuthError::RequestTimestampTooOld.message(), "Request timestamp too old");
}

#[test]
fn validate_signature_against_the_clock_refuses_an_old_request() {
    let r = SigV4Validator::validate_signature(
        SECRET,
        "AKIDEXAMPLE",
        "GET",
        "/",
        "Action=ListUsers&Version=2010-05-08",
        &example_headers(),
        EMPTY_HASH,
        AWS_EXAMPLE_SIGNATURE,
        example_time(),
        "us-east-1",
        "iam",
    );
    assert_eq!(r, Err(AuthError::RequestTimestampTooOld));
}

#[test]
fn build_query_string_sorts_by_name_and_encodes() {
    let mut p = StringMap::new();
    p.insert("b".to_string(), "x y".to_string());
    p.insert("a".to_string(), "1/2".to_string());
    assert_eq!(SigV4Validator::build_query_string(&p), "a=1%2F2&b=x%20y");
}

#[test]
fn presigned_url_has_the_expected_form() {
    let url = SigV4Validator::generate_presigned_url_at(
        example_time(),
        SECRET,
        "AKIDEXAMPLE",
        "GET",
        "photos",
        "cat.jpg",
        3600,
        "us-east-1",
        "s3",
        "s3.example.com",
    );
    let prefix = "https://s3.example.com/photos/cat.jpg?X-Amz-Algorithm=AWS4-HMAC-SHA256&X-Amz-Credential=AKIDEXAMPLE%2F20150830%2Fus-east-1%2Fs3%2Faws4_request&X-Amz-Date=20150830T123600Z&X-Amz-Expires=3600&X-Amz-SignedHeaders=host&X-Amz-Signature=";
    assert!(url.starts_with(prefix), "{}", url);
    assert_eq!(url.len(), prefix.len() + 64);
}

#[test]
fn presigned_url_signature_validates() {
    let url = SigV4Validator::generate_presigned_url_at(
        example_time(),
        SECRET,
        "AKIDEXAMPLE",
        "GET",
        "photos",
        "cat.jpg",
        3600,
        "us-east-1",
        "s3",
        "s3.example.com",
    );
    let (rest, signature) = url.split_once("&X-Amz-Signature=").unwrap();
    let query = rest.split_once('?').unwrap().1;
    let mut headers = StringMap::new();
    headers.insert("host".to_string(), "s3.example.com".to_string());
    let r = SigV4Validator::validate_signature_at(
        example_time(),
        SECRET,
        "AKIDEXAMPLE",
        "GET",
        "/photos/cat.jpg",
        query,
        &headers,
        "UNSIGNED-PAYLOAD",
        signature,
        example_time(),
        "us-east-1",
        "s3",
    );
    assert_eq!(r, Ok(true));
}

#[test]
fn presigned_url_against_the_clock() {
    let url = SigV4Validator::generate_presigned_url(
        SECRET, "AKIDEXAMPLE", "PUT", "b", "k", 60, "us-east-1", "s3", "localhost",
    )
    .unwrap();
    assert!(url.starts_with("https://localhost/b/k?X-Amz-Algorithm=AWS4-HMAC-SHA256&"));
    let r = SigV4Validator::generate_presigned_url(
        SECRET, "AKIDEXAMPLE", "PUT", "b", "k", u64::MAX / 2, "us-east-1", "s3", "localhost",
    );
    assert_eq!(r, Err(AuthError::ExpiryOutOfRange));
}

#[test]
fn hash_payload_is_hex_sha256() {
    assert_eq!(hash_payload(b""), EMPTY_HASH);
    assert_eq!(hash_payload(b"abc"), "ba7816bf8f01cfea414140de5dae2223b00361a396177a9cb410ff61f20015ad");
}

#[test]
fn authorization_header_written_from_parts_parses_back() {
    let header = "AWS4-HMAC-SHA256 Credential=SECRET-REDACTED/20130524/us-east-1/s3/aws4_request, SignedHeaders=host;range;x-amz-content-sha256;x-amz-date, Signature=fe5f80f77d5fa3beca038a248ff027d0445342fe2855ddc963176630326f1024";
    let info = parse_authorization_header(header).unwrap();
    assert_eq!(info.access_key_id, "SECRET-REDACTED");
    assert_eq!(info.date, "20130524");
    assert_eq!(info.region, "us-east-1");
    assert_eq!(info.service, "s3");
    assert_eq!(info.signed_headers, vec!["host", "range", "x-amz-content-sha256", "x-amz-date"]);
    assert_eq!(info.signature, "fe5f80f77d5fa3beca038a248ff027d0445342fe2855ddc963176630326f1024");
    // a lone comma or an equals sign inside a part is kept
    let info = parse_authorization_header(
        "AWS4-HMAC-SHA256 Credential=a,b/d/r/s/aws4_request, SignedHeaders=x,;y, Signature=p=q,",
    )
    .unwrap();
    assert_eq!(info.access_key_id, "a,b");
    assert_eq!(info.signed_headers, vec!["x,", "y"]);
    assert_eq!(info.signature, "p=q,");
}

#[test]
fn checked_presigned_url_matches_the_unchecked_one() {
    let unchecked = SigV4Validator::generate_presigned_url_at(
        example_time(), SECRET, "AKIDEXAMPLE", "GET", "photos", "cat.jpg", 3600, "us-east-1", "s3", "s3.example.com",
    );
    let checked = SigV4Validator::try_generate_presigned_url_at(
        example_time(), SECRET, "AKIDEXAMPLE", "GET", "photos", "cat.jpg", 3600, "us-east-1", "s3", "s3.example.com",
    );
    assert_eq!(checked, Some(unchecked));
}

#[test]
fn presigned_url_at_checks_the_expiry() {
    let url = SigV4Validator::presigned_url_at(
        example_time(), SECRET, "AKIDEXAMPLE", "GET", "photos", "cat.jpg", 3600, "us-east-1", "s3", "s3.example.com",
    );
    let unchecked = SigV4Validator::generate_presigned_url_at(
        example_time(), SECRET, "AKIDEXAMPLE", "GET", "photos", "cat.jpg", 3600, "us-east-1", "s3", "s3.example.com",
    );
    assert_eq!(url, Ok(unchecked));
    let r = SigV4Validator::presigned_url_at(
        example_time(), SECRET, "AKIDEXAMPLE", "GET", "b", "k", u64::MAX / 2, "us-east-1", "s3", "h",
    );
    assert_eq!(r, Err(AuthError::ExpiryOutOfRange));
    let r = SigV4Validator::presigned_url_at(
        example_time(), SECRET, "AKIDEXAMPLE", "GET", "b", "k", 9_000_000_000_000, "us-east-1", "s3", "h",
    );
    assert_eq!(r, Err(AuthError::ExpiryOutOfRange));
    assert!(SigV4Validator::generate_presigned_url(SECRET, "AKIDEXAMPLE", "GET", "b", "k", 0, "us-east-1", "s3", "h").is_ok());
}

#[test]
fn validation_does_not_depend_on_the_access_key() {
    let r = SigV4Validator::validate_signature_at(
        example_time(),
        SECRET,
        "SOMEONE-ELSE",
        "GET",
        "/",
        "Action=ListUsers&Version=2010-05-08",
        &example_headers(),
        EMPTY_HASH,
        AWS_EXAMPLE_SIGNATURE,
        example_time(),
        "us-east-1",
        "iam",
    );
    assert_eq!(r, Ok(true));
    assert_eq!(validate_example(example_time(), &AWS_EXAMPLE_SIGNATURE.to_uppercase()), Ok(false));
}

#[test]
fn authorization_fields_parse_in_any_order() {
    let a = parse_authorization_header(
        "AWS4-HMAC-SHA256 Credential=k/d/r/s/aws4_request, SignedHeaders=host;x-amz-date, Signature=abc",
    )
    .unwrap();
    let b = parse_authorization_header(
        "AWS4-HMAC-SHA256 Signature=abc, Extra=1, SignedHeaders=host;x-amz-date, noequals, Credential=k/d/r/s/aws4_request",
    )
    .unwrap();
    assert_eq!(a.access_key_id, b.access_key_id);
    assert_eq!(a.date, b.date);
    assert_eq!(a.region, b.region);
    assert_eq!(a.service, b.service);
    assert_eq!(a.signed_headers, b.signed_headers);
    assert_eq!(a.signature, b.signature);
}
