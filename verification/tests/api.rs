use ghostbay::api::{
    api_bucket_request, bucket_location, content_type_or_default, list_buckets_response,
    list_objects_response, max_keys_limit, object_storage_path, parse_range_header, quoted_etag,
    uploaded_object_request, validate_bucket_name, ApiError, ListObjectsQuery,
};
use ghostbay::catalog::{Bucket, Object};
use ghostbay::clock::UtcTime;

fn t(secs: i64) -> UtcTime {
    UtcTime { secs, nanos: 0 }
}

fn name_error(r: Result<(), ApiError>) -> String {
    match r {
        Err(ApiError::InvalidBucketName(m)) => m,
        other => panic!("unexpected {:?}", other),
    }
}

#[test]
fn bucket_names_of_three_to_sixty_three_bytes_pass() {
    assert!(validate_bucket_name("abc").is_ok());
    assert!(validate_bucket_name("my-bucket-01").is_ok());
    assert!(validate_bucket_name(&"a".repeat(63)).is_ok());
}

#[test]
fn bucket_names_of_the_wrong_length_fail() {
    let long = "a".repeat(64);
    for n in ["", "ab", long.as_str()] {
        assert_eq!(name_error(validate_bucket_name(n)), "Bucket name must be between 3 and 63 characters long");
    }
}

#[test]
fn bucket_names_with_other_characters_fail() {
    for n in ["My-Bucket", "my_bucket", "my.bucket", "bücket"] {
        assert_eq!(
            name_error(validate_bucket_name(n)),
            "Bucket name can only contain lowercase letters, numbers, and hyphens"
        );
    }
}

#[test]
fn bucket_name_length_counts_bytes() {
    // two characters, three bytes
    assert_eq!(
        name_error(validate_bucket_name("éa")),
        "Bucket name can only contain lowercase letters, numbers, and hyphens"
    );
    // 32 characters, 64 bytes
    assert_eq!(
        name_error(validate_bucket_name(&"é".repeat(32))),
        "Bucket name must be between 3 and 63 characters long"
    );
}

#[test]
fn range_headers_parse() {
    assert_eq!(parse_range_header("bytes=0-99"), Some((0, Some(99))));
    assert_eq!(parse_range_header("bytes=100-"), Some((100, None)));
    assert_eq!(parse_range_header("bytes=+5-+7"), Some((5, Some(7))));
    assert_eq!(parse_range_header("bytes=5-x"), Some((5, None)));
    assert_eq!(parse_range_header("bytes=18446744073709551615-"), Some((u64::MAX, None)));
}

#[test]
fn malformed_range_headers_give_nothing() {
    assert_eq!(parse_range_header("0-99"), None);
    assert_eq!(parse_range_header("bytes=-99"), None);
    assert_eq!(parse_range_header("bytes=1-2-3"), None);
    assert_eq!(parse_range_header("bytes=5"), None);
    assert_eq!(parse_range_header("bytes=x-1"), None);
    assert_eq!(parse_range_header("bytes=18446744073709551616-"), None);
    assert_eq!(parse_range_header("bytes=+-1"), None);
}

#[test]
fn range_header_round_trip() {
    for (s, e) in [(0u64, Some(0u64)), (7, Some(1234567)), (u64::MAX, None), (42, None)] {
        let text = match e {
            Some(e) => format!("bytes={}-{}", s, e),
            None => format!("bytes={}-", s),
        };
        assert_eq!(parse_range_header(&text), Some((s, e)));
    }
}

#[test]
fn errors_map_to_status_code_and_message() {
    let cases = vec![
        (ApiError::BucketNotFound("b".into()), 404, "NoSuchBucket", "Bucket not found: b"),
        (ApiError::ObjectNotFound("k".into()), 404, "NoSuchKey", "Object not found: k"),
        (ApiError::BucketAlreadyExists("b".into()), 409, "BucketAlreadyExists", "Bucket already exists: b"),
        (ApiError::InvalidBucketName("x".into()), 400, "InvalidBucketName", "Invalid bucket name: x"),
        (ApiError::InvalidObjectKey("x".into()), 400, "InvalidObjectKey", "Invalid object key: x"),
        (ApiError::AuthenticationFailed("x".into()), 401, "AccessDenied", "Authentication failed: x"),
        (ApiError::AuthorizationFailed("x".into()), 403, "AccessDenied", "Authorization failed: x"),
        (ApiError::BadRequest("x".into()), 400, "InvalidRequest", "Invalid request: x"),
        (ApiError::Storage("disk".into()), 500, "InternalError", "Storage operation failed"),
        (ApiError::Internal("boom".into()), 500, "InternalError", "Internal server error"),
        (ApiError::Database("locked".into()), 500, "InternalError", "Internal server error"),
    ];
    for (e, status, code, message) in cases {
        assert_eq!(e.status_code(), status);
        assert_eq!(e.error_code(), code);
        assert_eq!(e.response_message(), message);
    }
    assert_eq!(ApiError::Storage("disk".into()).to_message(), "Storage error: disk");
    assert_eq!(ApiError::Database("locked".into()).to_message(), "Database error: locked");
}

#[test]
fn list_buckets_names_each_bucket() {
    let buckets = vec![
        Bucket { id: 1, name: "a".into(), created_at: t(10), updated_at: t(11), versioning_enabled: false, region: "r".into() },
        Bucket { id: 2, name: "b".into(), created_at: t(20), updated_at: t(21), versioning_enabled: false, region: "r".into() },
    ];
    let r = list_buckets_response(buckets);
    assert_eq!(r.owner.id, "ghostbay");
    assert_eq!(r.owner.display_name, "GhostBay");
    assert_eq!(r.buckets.bucket.len(), 2);
    assert_eq!(r.buckets.bucket[1].name, "b");
    assert_eq!(r.buckets.bucket[1].creation_date, t(20));
}

fn object(key: &str, size: i64) -> Object {
    Object {
        id: 1,
        bucket_id: 2,
        key: key.into(),
        version_id: None,
        etag: "e".into(),
        size,
        content_type: "text/plain".into(),
        created_at: t(1),
        updated_at: t(2),
        storage_path: "p".into(),
        metadata: None,
    }
}

#[test]
fn list_objects_describes_each_object() {
    let q = ListObjectsQuery {
        list_type: Some("2".into()),
        prefix: Some("a".into()),
        max_keys: None,
        continuation_token: Some("tok".into()),
        delimiter: None,
        start_after: None,
    };
    let r = list_objects_response("bucket".into(), q, vec![object("a1", 5), object("a2", -1)]);
    assert_eq!(r.name, "bucket");
    assert_eq!(r.prefix.as_deref(), Some("a"));
    assert_eq!(r.key_count, 2);
    assert_eq!(r.max_keys, 1000);
    assert!(!r.is_truncated);
    assert_eq!(r.continuation_token.as_deref(), Some("tok"));
    assert!(r.next_continuation_token.is_none());
    assert_eq!(r.contents[0].key, "a1");
    assert_eq!(r.contents[0].size, 5);
    assert_eq!(r.contents[1].size, u64::MAX);
    assert_eq!(r.contents[1].last_modified, t(2));
    assert_eq!(r.contents[1].storage_class, "STANDARD");
    assert_eq!(r.contents[1].owner.display_name, "GhostBay");
}

#[test]
fn max_keys_become_a_signed_limit() {
    assert_eq!(max_keys_limit(None), None);
    assert_eq!(max_keys_limit(Some(10)), Some(10));
    assert_eq!(max_keys_limit(Some(u32::MAX)), Some(-1));
}

#[test]
fn upload_helpers() {
    assert_eq!(content_type_or_default(None), "binary/octet-stream");
    assert_eq!(content_type_or_default(Some("image/png")), "image/png");
    assert_eq!(object_storage_path("b", "dir/k.txt"), "b/dir/k.txt");
    assert_eq!(quoted_etag("abc"), "\"abc\"");
    assert_eq!(bucket_location("photos"), "/photos");
    let r = api_bucket_request("photos".into());
    assert_eq!(r.region, "us-east-1");
    let o = uploaded_object_request(9, "b", "k".into(), "text/plain".into(), 12);
    assert_eq!(o.bucket_id, 9);
    assert_eq!(o.size, 12);
    assert_eq!(o.storage_path, "b/k");
    assert!(o.metadata.is_none());
}

#[test]
fn object_headers_in_order() {
    let m = ghostbay::engine::ObjectMetadata {
        content_type: "text/plain".to_string(),
        content_length: 1234,
        etag: "\"1234\"".to_string(),
        last_modified: UtcTime { secs: 1440938160, nanos: 0 },
    };
    let h = ghostbay::api::object_headers(&m);
    let h: Vec<(&str, &str)> = h.iter().map(|(n, v)| (n.as_str(), v.as_str())).collect();
    assert_eq!(
        h,
        vec![
            ("Content-Type", "text/plain"),
            ("Content-Length", "1234"),
            ("ETag", "\"1234\""),
            ("Last-Modified", "Sun, 30 Aug 2015 12:36:00 GMT"),
        ]
    );
}
