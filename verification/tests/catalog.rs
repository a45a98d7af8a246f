use ghostbay::catalog::{
    decode_bucket, decode_object, encode_bucket, encode_object, like_pattern, list_limit,
    new_bucket, new_bucket_at, new_object, new_object_at, BucketRow, CreateBucketRequest,
    CreateObjectRequest, ObjectRow, MAX_LIST_LIMIT,
};
use ghostbay::clock::UtcTime;
use ghostbay::codec::RowError;

fn at(secs: i64, nanos: u32) -> UtcTime {
    UtcTime { secs, nanos }
}

fn object_request() -> CreateObjectRequest {
    CreateObjectRequest {
        bucket_id: 42,
        key: "a/b.txt".to_string(),
        content_type: "text/plain".to_string(),
        size: 11,
        storage_path: "./data/b/a/b.txt".to_string(),
        metadata: Some("{\"x\":\"y\"}".to_string()),
    }
}

#[test]
fn list_limit_defaults_and_caps_at_a_thousand() {
    assert_eq!(list_limit(None), 1000);
    assert_eq!(list_limit(Some(10)), 10);
    assert_eq!(list_limit(Some(1000)), 1000);
    assert_eq!(list_limit(Some(5000)), 1000);
    assert_eq!(list_limit(Some(-3)), -3);
    assert_eq!(MAX_LIST_LIMIT, 1000);
}

#[test]
fn like_pattern_appends_a_wildcard() {
    assert_eq!(like_pattern("photos/"), "photos/%");
    assert_eq!(like_pattern(""), "%");
}

#[test]
fn new_bucket_at_sets_times_and_no_versioning() {
    let b = new_bucket_at(
        CreateBucketRequest { name: "b".to_string(), region: "us-east-1".to_string() },
        9,
        at(100, 1),
    );
    assert_eq!(b.id, 9);
    assert_eq!(b.name, "b");
    assert_eq!(b.region, "us-east-1");
    assert_eq!(b.created_at, at(100, 1));
    assert_eq!(b.updated_at, at(100, 1));
    assert!(!b.versioning_enabled);
    let b2 = new_bucket(CreateBucketRequest { name: "c".to_string(), region: "r".to_string() });
    assert_eq!(b2.created_at, b2.updated_at);
    assert!(!b2.versioning_enabled);
    assert!(b2.created_at.secs > 1_700_000_000);
}

#[test]
fn new_object_at_copies_the_request() {
    let o = new_object_at(object_request(), "\"abc\"".to_string(), 5, at(200, 0));
    assert_eq!(o.id, 5);
    assert_eq!(o.bucket_id, 42);
    assert_eq!(o.key, "a/b.txt");
    assert_eq!(o.version_id, None);
    assert_eq!(o.etag, "\"abc\"");
    assert_eq!(o.size, 11);
    assert_eq!(o.content_type, "text/plain");
    assert_eq!(o.created_at, at(200, 0));
    assert_eq!(o.updated_at, at(200, 0));
    assert_eq!(o.storage_path, "./data/b/a/b.txt");
    assert_eq!(o.metadata, Some("{\"x\":\"y\"}".to_string()));
    let o2 = new_object(object_request(), "e".to_string());
    assert_eq!(o2.created_at, o2.updated_at);
    assert_ne!(o2.id, new_object(object_request(), "e".to_string()).id);
}

fn bucket_row() -> BucketRow {
    BucketRow {
        id: "67E55044-10B1-426F-9247-BB680E5FE0C8".to_string(),
        name: "photos".to_string(),
        created_at: "2024-01-02T03:04:05Z".to_string(),
        updated_at: "2024-01-02T03:04:05.5+00:00".to_string(),
        versioning_enabled: true,
        region: "us-east-1".to_string(),
    }
}

#[test]
fn decode_bucket_reads_a_row() {
    let b = decode_bucket(bucket_row()).unwrap();
    assert_eq!(b.id, 0x67e55044_10b1_426f_9247_bb680e5fe0c8);
    assert_eq!(b.name, "photos");
    assert_eq!(b.created_at, at(1704164645, 0));
    assert_eq!(b.updated_at, at(1704164645, 500_000_000));
    assert!(b.versioning_enabled);
    assert_eq!(b.region, "us-east-1");
}

#[test]
fn decode_bucket_reports_bad_fields() {
    let mut r = bucket_row();
    r.id = "xyz".to_string();
    r.created_at = "bad".to_string();
    assert_eq!(decode_bucket(r).unwrap_err(), RowError::InvalidUuid);
    let mut r = bucket_row();
    r.updated_at = "2024-01-02".to_string();
    assert_eq!(decode_bucket(r).unwrap_err(), RowError::InvalidTimestamp);
}

#[test]
fn encode_bucket_writes_text_and_reads_back() {
    let b = new_bucket_at(
        CreateBucketRequest { name: "b".to_string(), region: "eu".to_string() },
        0x67e55044_10b1_426f_9247_bb680e5fe0c8,
        at(1704164645, 1_000),
    );
    let row = encode_bucket(&b);
    assert_eq!(row.id, "67e55044-10b1-426f-9247-bb680e5fe0c8");
    assert_eq!(row.created_at, "2024-01-02T03:04:05.000001+00:00");
    let back = decode_bucket(row).unwrap();
    assert_eq!(back.id, b.id);
    assert_eq!(back.name, b.name);
    assert_eq!(back.created_at, b.created_at);
    assert_eq!(back.updated_at, b.updated_at);
    assert_eq!(back.versioning_enabled, b.versioning_enabled);
    assert_eq!(back.region, b.region);
}

fn object_row() -> ObjectRow {
    ObjectRow {
        id: "00000000-0000-0000-0000-000000000001".to_string(),
        bucket_id: "00000000-0000-0000-0000-000000000002".to_string(),
        key: "k".to_string(),
        version_id: None,
        etag: "\"e\"".to_string(),
        size: 3,
        content_type: "text/plain".to_string(),
        created_at: "1970-01-01T00:00:10Z".to_string(),
        updated_at: "1970-01-01T00:00:20Z".to_string(),
        storage_path: "./data/b/k".to_string(),
        metadata: None,
    }
}

#[test]
fn decode_object_reads_a_row() {
    let o = decode_object(object_row()).unwrap();
    assert_eq!(o.id, 1);
    assert_eq!(o.bucket_id, 2);
    assert_eq!(o.version_id, None);
    assert_eq!(o.created_at, at(10, 0));
    assert_eq!(o.updated_at, at(20, 0));
    assert_eq!(o.size, 3);
    let mut r = object_row();
    r.version_id = Some("00000000-0000-0000-0000-000000000003".to_string());
    assert_eq!(decode_object(r).unwrap().version_id, Some(3));
}

#[test]
fn decode_object_reports_bad_fields() {
    let mut r = object_row();
    r.bucket_id = "nope".to_string();
    assert_eq!(decode_object(r).unwrap_err(), RowError::InvalidUuid);
    let mut r = object_row();
    r.version_id = Some("nope".to_string());
    r.created_at = "nope".to_string();
    assert_eq!(decode_object(r).unwrap_err(), RowError::InvalidUuid);
    let mut r = object_row();
    r.updated_at = "nope".to_string();
    assert_eq!(decode_object(r).unwrap_err(), RowError::InvalidTimestamp);
}

#[test]
fn object_rows_read_back() {
    let mut o = new_object_at(object_request(), "\"abc\"".to_string(), 5, at(1704164645, 120_000_000));
    o.version_id = Some(77);
    let row = encode_object(&o);
    assert_eq!(row.version_id, Some("00000000-0000-0000-0000-00000000004d".to_string()));
    let back = decode_object(row).unwrap();
    assert_eq!(back.id, o.id);
    assert_eq!(back.bucket_id, o.bucket_id);
    assert_eq!(back.key, o.key);
    assert_eq!(back.version_id, o.version_id);
    assert_eq!(back.etag, o.etag);
    assert_eq!(back.size, o.size);
    assert_eq!(back.content_type, o.content_type);
    assert_eq!(back.created_at, o.created_at);
    assert_eq!(back.updated_at, o.updated_at);
    assert_eq!(back.storage_path, o.storage_path);
    assert_eq!(back.metadata, o.metadata);
}

#[test]
fn leap_second_rows_read_back() {
    let b = new_bucket_at(
        CreateBucketRequest { name: "b".to_string(), region: "eu".to_string() },
        1,
        at(1483228799, 1_500_000_000),
    );
    let row = encode_bucket(&b);
    assert_eq!(row.created_at, "2016-12-31T23:59:60.500+00:00");
    let back = decode_bucket(row).unwrap();
    assert_eq!(back.created_at, b.created_at);
}
