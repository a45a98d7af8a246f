use crate::catalog::{Bucket, CreateBucketRequest, CreateObjectRequest, Object};
use crate::clock::{format_http_date, http_date_text, UtcTime};
use crate::engine::ObjectMetadata;
use crate::string_map::{inserted_all, last_value, lookup, StringMap};
use crate::text::{
    chars_of, decimal, decimal_exec, is_digit, lemma_decimal, lemma_parse_decimal, lemma_split_at_pattern,
    lemma_split_plain, occurs_at_exec, one_char, parse_u64, parse_u64_exec, push_str_chars, skip_chars,
    split, split_exec, starts_with, string_of, views,
};
use vstd::prelude::*;
use vstd::utf8::encode_utf8;

verus! {

/// Why a request failed.
#[derive(Debug)]
pub enum ApiError {
    BucketNotFound(String),
    ObjectNotFound(String),
    BucketAlreadyExists(String),
    InvalidBucketName(String),
    InvalidObjectKey(String),
    AuthenticationFailed(String),
    AuthorizationFailed(String),
    /// The text of an internal error.
    Internal(String),
    /// The text of a database error.
    Database(String),
    Storage(String),
    BadRequest(String),
}

/// The result of a request.
pub type ApiResult<T> = Result<T, ApiError>;

/// The text of an error: a description followed by the error's detail.
pub open spec fn error_text(e: ApiError) -> Seq<char> {
    match e {
        ApiError::BucketNotFound(s) => "Bucket not found: "@ + s@,
        ApiError::ObjectNotFound(s) => "Object not found: "@ + s@,
        ApiError::BucketAlreadyExists(s) => "Bucket already exists: "@ + s@,
        ApiError::InvalidBucketName(s) => "Invalid bucket name: "@ + s@,
        ApiError::InvalidObjectKey(s) => "Invalid object key: "@ + s@,
        ApiError::AuthenticationFailed(s) => "Authentication failed: "@ + s@,
        ApiError::AuthorizationFailed(s) => "Authorization failed: "@ + s@,
        ApiError::Internal(s) => "Internal server error: "@ + s@,
        ApiError::Database(s) => "Database error: "@ + s@,
        ApiError::Storage(s) => "Storage error: "@ + s@,
        ApiError::BadRequest(s) => "Invalid request: "@ + s@,
    }
}

/// The HTTP status of an error's response.
pub open spec fn error_status(e: ApiError) -> u16 {
    match e {
        ApiError::BucketNotFound(_) | ApiError::ObjectNotFound(_) => 404,
        ApiError::BucketAlreadyExists(_) => 409,
        ApiError::InvalidBucketName(_) | ApiError::InvalidObjectKey(_) | ApiError::BadRequest(_) => 400,
        ApiError::AuthenticationFailed(_) => 401,
        ApiError::AuthorizationFailed(_) => 403,
        ApiError::Internal(_) | ApiError::Database(_) | ApiError::Storage(_) => 500,
    }
}

/// The S3 error code of an error's response.
pub open spec fn error_code(e: ApiError) -> Seq<char> {
    match e {
        ApiError::BucketNotFound(_) => "NoSuchBucket"@,
        ApiError::ObjectNotFound(_) => "NoSuchKey"@,
        ApiError::BucketAlreadyExists(_) => "BucketAlreadyExists"@,
        ApiError::InvalidBucketName(_) => "InvalidBucketName"@,
        ApiError::InvalidObjectKey(_) => "InvalidObjectKey"@,
        ApiError::AuthenticationFailed(_) | ApiError::AuthorizationFailed(_) => "AccessDenied"@,
        ApiError::BadRequest(_) => "InvalidRequest"@,
        ApiError::Internal(_) | ApiError::Database(_) | ApiError::Storage(_) => "InternalError"@,
    }
}

/// The message of an error's response: the error's text, except for storage and
/// internal errors, whose detail is not shown.
pub open spec fn error_response_message(e: ApiError) -> Seq<char> {
    match e {
        ApiError::Storage(_) => "Storage operation failed"@,
        ApiError::Internal(_) | ApiError::Database(_) => "Internal server error"@,
        _ => error_text(e),
    }
}

fn prefixed(prefix: &str, s: &String) -> (r: String)
    ensures
        r@ == prefix@ + s@,
{
    let mut v: Vec<char> = Vec::new();
    push_str_chars(&mut v, prefix);
    push_str_chars(&mut v, s.as_str());
    string_of(v.as_slice())
}

impl ApiError {
    /// The text of the error.
    pub fn to_message(&self) -> (m: String)
        ensures
            m@ == error_text(*self),
    {
        match self {
            ApiError::BucketNotFound(s) => prefixed("Bucket not found: ", s),
            ApiError::ObjectNotFound(s) => prefixed("Object not found: ", s),
            ApiError::BucketAlreadyExists(s) => prefixed("Bucket already exists: ", s),
            ApiError::InvalidBucketName(s) => prefixed("Invalid bucket name: ", s),
            ApiError::InvalidObjectKey(s) => prefixed("Invalid object key: ", s),
            ApiError::AuthenticationFailed(s) => prefixed("Authentication failed: ", s),
            ApiError::AuthorizationFailed(s) => prefixed("Authorization failed: ", s),
            ApiError::Internal(s) => prefixed("Internal server error: ", s),
            ApiError::Database(s) => prefixed("Database error: ", s),
            ApiError::Storage(s) => prefixed("Storage error: ", s),
            ApiError::BadRequest(s) => prefixed("Invalid request: ", s),
        }
    }

    /// The HTTP status of the error's response.
    pub fn status_code(&self) -> (s: u16)
        ensures
            s == error_status(*self),
    {
        match self {
            ApiError::BucketNotFound(_) | ApiError::ObjectNotFound(_) => 404,
            ApiError::BucketAlreadyExists(_) => 409,
            ApiError::InvalidBucketName(_) | ApiError::InvalidObjectKey(_) | ApiError::BadRequest(_) => 400,
            ApiError::AuthenticationFailed(_) => 401,
            ApiError::AuthorizationFailed(_) => 403,
            ApiError::Internal(_) | ApiError::Database(_) | ApiError::Storage(_) => 500,
        }
    }

    /// The S3 error code of the error's response.
    pub fn error_code(&self) -> (c: &'static str)
        ensures
            c@ == error_code(*self),
    {
        match self {
            ApiError::BucketNotFound(_) => "NoSuchBucket",
            ApiError::ObjectNotFound(_) => "NoSuchKey",
            ApiError::BucketAlreadyExists(_) => "BucketAlreadyExists",
            ApiError::InvalidBucketName(_) => "InvalidBucketName",
            ApiError::InvalidObjectKey(_) => "InvalidObjectKey",
            ApiError::AuthenticationFailed(_) | ApiError::AuthorizationFailed(_) => "AccessDenied",
            ApiError::BadRequest(_) => "InvalidRequest",
            ApiError::Internal(_) | ApiError::Database(_) | ApiError::Storage(_) => "InternalError",
        }
    }

    /// The message of the error's response.
    pub fn response_message(&self) -> (m: String)
        ensures
            m@ == error_response_message(*self),
    {
        match self {
            ApiError::Storage(_) => String::from_str("Storage operation failed"),
            ApiError::Internal(_) | ApiError::Database(_) => String::from_str("Internal server error"),
            _ => self.to_message(),
        }
    }
}

/// The query of a ListObjectsV2 request.
#[derive(Debug)]
pub struct ListObjectsQuery {
    pub list_type: Option<String>,
    pub prefix: Option<String>,
    pub max_keys: Option<u32>,
    pub continuation_token: Option<String>,
    pub delimiter: Option<String>,
    pub start_after: Option<String>,
}

/// The headers of a request, by name.
#[derive(Debug)]
pub struct S3Headers {
    pub headers: StringMap,
}

impl S3Headers {
    /// The headers of a request from its (name, value) pairs in order: a name
    /// that repeats reads as its last value.
    pub fn from_pairs(pairs: Vec<(String, String)>) -> (h: Self)
        ensures
            h.headers@ == inserted_all(Seq::empty(), pairs@.map_values(|e: (String, String)| (e.0@, e.1@))),
            forall|k: Seq<char>| #[trigger] lookup(h.headers@, k) == last_value(pairs@.map_values(|e: (String, String)| (e.0@, e.1@)), k),
    {
        S3Headers { headers: StringMap::from_pairs(pairs) }
    }
}

/// Whether `c` may stand in a bucket name: an ASCII lower-case letter, an ASCII
/// digit or `-`.
pub open spec fn bucket_name_char(c: char) -> bool {
    ('a' <= c && c <= 'z') || ('0' <= c && c <= '9') || c == '-'
}

/// Whether a bucket name is acceptable: 3 to 63 bytes of lower-case letters,
/// digits and hyphens.
pub open spec fn valid_bucket_name(name: Seq<char>) -> bool {
    3 <= encode_utf8(name).len() <= 63 && forall|i: int| 0 <= i < name.len() ==> bucket_name_char(#[trigger] name[i])
}

/// The bucket names accepted are exactly those of 3 to 63 characters, each an
/// ASCII lower-case letter, an ASCII digit or a hyphen.
pub proof fn lemma_bucket_names(name: Seq<char>)
    ensures
        valid_bucket_name(name) <==> (3 <= name.len() <= 63 && forall|i: int|
            0 <= i < name.len() ==> ('a' <= #[trigger] name[i] <= 'z') || ('0' <= name[i] <= '9') || name[i] == '-'),
{
    if forall|i: int| 0 <= i < name.len() ==> ('a' <= #[trigger] name[i] <= 'z') || ('0' <= name[i] <= '9') || name[i] == '-' {
        assert(vstd::utf8::is_ascii_chars(name));
        vstd::utf8::is_ascii_chars_encode_utf8(name);
    }
    if valid_bucket_name(name) {
        assert forall|i: int| 0 <= i < name.len() implies ('a' <= #[trigger] name[i] <= 'z') || ('0' <= name[i] <= '9') || name[i] == '-' by {
            assert(bucket_name_char(name[i]));
        }
        assert(vstd::utf8::is_ascii_chars(name));
        vstd::utf8::is_ascii_chars_encode_utf8(name);
    }
}

/// Checks a bucket name: its UTF-8 length must be between 3 and 63 bytes, and it
/// may hold only lower-case ASCII letters, digits and hyphens.
pub fn validate_bucket_name(name: &str) -> (res: ApiResult<()>)
    ensures
        !(3 <= encode_utf8(name@).len() <= 63) ==> (res matches Err(ApiError::InvalidBucketName(m))
            && m@ == "Bucket name must be between 3 and 63 characters long"@),
        3 <= encode_utf8(name@).len() <= 63 && !valid_bucket_name(name@) ==> (res matches Err(
            ApiError::InvalidBucketName(m),
        ) && m@ == "Bucket name can only contain lowercase letters, numbers, and hyphens"@),
        valid_bucket_name(name@) ==> res is Ok,
        3 <= name@.len() <= 63 && (forall|i: int| 0 <= i < name@.len() ==> ('a' <= #[trigger] name@[i] <= 'z')
            || ('0' <= name@[i] <= '9') || name@[i] == '-') ==> res is Ok,
        res is Ok ==> (forall|i: int| 0 <= i < name@.len() ==> ('a' <= #[trigger] name@[i] <= 'z')
            || ('0' <= name@[i] <= '9') || name@[i] == '-') && 3 <= name@.len() <= 63,
{
    proof {
        lemma_bucket_names(name@);
    }
    let n = name.as_bytes().len();
    if n < 3 || n > 63 {
        return Err(ApiError::InvalidBucketName(String::from_str("Bucket name must be between 3 and 63 characters long")));
    }
    let chars = chars_of(name);
    let mut i: usize = 0;
    while i < chars.len()
        invariant
            i <= chars.len(),
            chars@ == name@,
            3 <= encode_utf8(name@).len() <= 63,
            forall|j: int| 0 <= j < i ==> bucket_name_char(#[trigger] chars@[j]),
        decreases chars.len() - i,
    {
        let c = chars[i];
        if !(('a' <= c && c <= 'z') || ('0' <= c && c <= '9') || c == '-') {
            assert(!bucket_name_char(chars@[i as int]));
            return Err(ApiError::InvalidBucketName(String::from_str("Bucket name can only contain lowercase letters, numbers, and hyphens")));
        }
        i = i + 1;
    }
    Ok(())
}

/// What `parse_range_header` gives: for `bytes=start-end`, the start and the end
/// (none when empty or not a number); nothing when the prefix is missing, there is
/// not exactly one `-`, or the start is not a number.
pub open spec fn parse_range(r: Seq<char>) -> Option<(u64, Option<u64>)> {
    if !starts_with(r, "bytes="@) {
        None
    } else {
        let parts = split(r.skip(6), seq!['-']);
        if parts.len() != 2 {
            None
        } else {
            match parse_u64(parts[0]) {
                None => None,
                Some(start) => Some(
                    (start, if parts[1].len() == 0 { None } else { parse_u64(parts[1]) }),
                ),
            }
        }
    }
}

/// Parses an HTTP `Range` header of the form `bytes=start-end` (end optional).
pub fn parse_range_header(range: &str) -> (res: Option<(u64, Option<u64>)>)
    ensures
        res == parse_range(range@),
{
    let r = chars_of(range);
    let prefix = chars_of("bytes=");
    proof {
        reveal_strlit("bytes=");
    }
    if !occurs_at_exec(r.as_slice(), 0, prefix.as_slice()) {
        return None;
    }
    let rest = skip_chars(r.as_slice(), 6);
    let dash = one_char('-');
    let parts = split_exec(rest.as_slice(), dash.as_slice());
    if parts.len() != 2 {
        return None;
    }
    assert(views(parts@)[0] == parts@[0]@ && views(parts@)[1] == parts@[1]@);
    let start = match parse_u64_exec(parts[0].as_slice()) {
        Some(s) => s,
        None => return None,
    };
    let end = if parts[1].len() == 0 {
        None
    } else {
        parse_u64_exec(parts[1].as_slice())
    };
    Some((start, end))
}

/// The owner named in listings.
#[derive(Debug)]
pub struct Owner {
    pub id: String,
    pub display_name: String,
}

/// A bucket in a listing.
#[derive(Debug)]
pub struct BucketInfo {
    pub name: String,
    pub creation_date: UtcTime,
}

/// The buckets of a listing.
#[derive(Debug)]
pub struct Buckets {
    pub bucket: Vec<BucketInfo>,
}

/// The answer to ListBuckets.
#[derive(Debug)]
pub struct ListBucketsResponse {
    pub owner: Owner,
    pub buckets: Buckets,
}

/// An object in a listing.
#[derive(Debug)]
pub struct ObjectInfo {
    pub key: String,
    pub last_modified: UtcTime,
    pub etag: String,
    pub size: u64,
    pub storage_class: String,
    pub owner: Owner,
}

/// The answer to ListObjectsV2.
#[derive(Debug)]
pub struct ListObjectsV2Response {
    pub name: String,
    pub prefix: Option<String>,
    pub key_count: u32,
    pub max_keys: u32,
    pub is_truncated: bool,
    pub continuation_token: Option<String>,
    pub next_continuation_token: Option<String>,
    pub contents: Vec<ObjectInfo>,
}

/// The answer to CopyObject.
#[derive(Debug)]
pub struct CopyObjectResponse {
    pub copy_object_result: CopyObjectResult,
}

/// The result part of a CopyObject answer.
#[derive(Debug)]
pub struct CopyObjectResult {
    pub etag: String,
    pub last_modified: UtcTime,
}

/// The answer to CreateMultipartUpload.
#[derive(Debug)]
pub struct InitiateMultipartUploadResponse {
    pub bucket: String,
    pub key: String,
    pub upload_id: String,
}

/// The answer to CompleteMultipartUpload.
#[derive(Debug)]
pub struct CompleteMultipartUploadResponse {
    pub location: String,
    pub bucket: String,
    pub key: String,
    pub etag: String,
}

/// One part named in a CompleteMultipartUpload request.
#[derive(Debug)]
pub struct Part {
    pub etag: String,
    pub part_number: i32,
}

/// The body of a CompleteMultipartUpload request.
#[derive(Debug)]
pub struct CompleteMultipartUploadRequest {
    pub complete_multipart_upload: CompleteMultipartUploadData,
}

/// The parts of a CompleteMultipartUpload request.
#[derive(Debug)]
pub struct CompleteMultipartUploadData {
    pub part: Vec<Part>,
}

/// Whether `o` is the owner that listings name: `ghostbay`, shown as `GhostBay`.
pub open spec fn is_service_owner(o: Owner) -> bool {
    o.id@ == "ghostbay"@ && o.display_name@ == "GhostBay"@
}

/// The owner that listings name.
pub fn service_owner() -> (o: Owner)
    ensures
        is_service_owner(o),
{
    Owner { id: String::from_str("ghostbay"), display_name: String::from_str("GhostBay") }
}

/// The ListBuckets answer for the given buckets: each bucket's name and creation
/// date, in order.
pub fn list_buckets_response(buckets: Vec<Bucket>) -> (r: ListBucketsResponse)
    ensures
        is_service_owner(r.owner),
        r.buckets.bucket@.len() == buckets@.len(),
        forall|i: int| 0 <= i < buckets@.len() ==> (#[trigger] r.buckets.bucket@[i]).name == buckets@[i].name
            && r.buckets.bucket@[i].creation_date == buckets@[i].created_at,
{
    let ghost input = buckets@;
    let mut infos: Vec<BucketInfo> = Vec::new();
    for b in it: buckets
        invariant
            input == it.seq(),
            infos@.len() == it.index(),
            forall|i: int| 0 <= i < infos@.len() ==> (#[trigger] infos@[i]).name == input[i].name
                && infos@[i].creation_date == input[i].created_at,
    {
        assert(b == input[it.index() as int]);
        infos.push(BucketInfo { name: b.name, creation_date: b.created_at });
    }
    assert(infos@.len() == input.len());
    ListBucketsResponse { owner: service_owner(), buckets: Buckets { bucket: infos } }
}

/// The limit that a listing asks the catalog for: `max-keys` as an `i32` (wrapping
/// as `as` does).
pub fn max_keys_limit(max_keys: Option<u32>) -> (l: Option<i32>)
    ensures
        l == match max_keys {
            Some(k) => Some(k as i32),
            None => None::<i32>,
        },
{
    match max_keys {
        Some(k) => Some(k as i32),
        None => None,
    }
}

/// The ListObjectsV2 answer for the objects found: each object's key, update
/// time, ETag and size (as `u64`, wrapping as `as` does), with storage class
/// `STANDARD`; the key count is the number of objects (as `u32`), `max-keys`
/// defaults to 1000, and the listing is never truncated.
pub fn list_objects_response(bucket_name: String, query: ListObjectsQuery, objects: Vec<Object>) -> (r: ListObjectsV2Response)
    ensures
        r.name == bucket_name,
        r.prefix == query.prefix,
        r.key_count == objects@.len() as u32,
        r.max_keys == match query.max_keys {
            Some(k) => k,
            None => 1000u32,
        },
        !r.is_truncated,
        r.continuation_token == query.continuation_token,
        r.next_continuation_token is None,
        r.contents@.len() == objects@.len(),
        forall|i: int| 0 <= i < objects@.len() ==> {
            let info = #[trigger] r.contents@[i];
            &&& info.key == objects@[i].key
            &&& info.last_modified == objects@[i].updated_at
            &&& info.etag == objects@[i].etag
            &&& info.size == objects@[i].size as u64
            &&& info.storage_class@ == "STANDARD"@
            &&& is_service_owner(info.owner)
        },
{
    let ghost input = objects@;
    let mut infos: Vec<ObjectInfo> = Vec::new();
    for obj in it: objects
        invariant
            input == it.seq(),
            infos@.len() == it.index(),
            forall|i: int| 0 <= i < infos@.len() ==> {
                let info = #[trigger] infos@[i];
                &&& info.key == input[i].key
                &&& info.last_modified == input[i].updated_at
                &&& info.etag == input[i].etag
                &&& info.size == input[i].size as u64
                &&& info.storage_class@ == "STANDARD"@
                &&& is_service_owner(info.owner)
            },
    {
        assert(obj == input[it.index() as int]);
        infos.push(ObjectInfo {
            key: obj.key,
            last_modified: obj.updated_at,
            etag: obj.etag,
            size: obj.size as u64,
            storage_class: String::from_str("STANDARD"),
            owner: service_owner(),
        });
    }
    let key_count = infos.len() as u32;
    let max_keys = match query.max_keys {
        Some(k) => k,
        None => 1000,
    };
    ListObjectsV2Response {
        name: bucket_name,
        prefix: query.prefix,
        key_count,
        max_keys,
        is_truncated: false,
        continuation_token: query.continuation_token,
        next_continuation_token: None,
        contents: infos,
    }
}


/// The content type of an upload: the request's `content-type` header, or
/// `binary/octet-stream` when it has none.
pub fn content_type_or_default(header: Option<&str>) -> (t: String)
    ensures
        t@ == match header {
            Some(h) => h@,
            None => "binary/octet-stream"@,
        },
{
    match header {
        Some(h) => h.to_owned(),
        None => String::from_str("binary/octet-stream"),
    }
}

/// Where the catalog records an object as stored: `bucket/key`.
pub fn object_storage_path(bucket: &str, key: &str) -> (p: String)
    ensures
        p@ == bucket@ + seq!['/'] + key@,
{
    let mut v: Vec<char> = Vec::new();
    push_str_chars(&mut v, bucket);
    v.push('/');
    push_str_chars(&mut v, key);
    string_of(v.as_slice())
}

/// An ETag as a response header carries it: in double quotes.
pub fn quoted_etag(etag: &str) -> (q: String)
    ensures
        q@ == seq!['"'] + etag@ + seq!['"'],
{
    let mut v: Vec<char> = Vec::new();
    v.push('"');
    push_str_chars(&mut v, etag);
    v.push('"');
    string_of(v.as_slice())
}

/// The headers of an object read or head response: its content type, its length
/// in decimal, its ETag and its modification time as an HTTP date, in that order.
pub open spec fn object_header_list(m: ObjectMetadata) -> Seq<(Seq<char>, Seq<char>)> {
    seq![
        ("Content-Type"@, m.content_type@),
        ("Content-Length"@, decimal(m.content_length as nat)),
        ("ETag"@, m.etag@),
        ("Last-Modified"@, http_date_text(m.last_modified)),
    ]
}

/// The headers with which an object is served.
pub fn object_headers(m: &ObjectMetadata) -> (h: Vec<(String, String)>)
    requires
        m.last_modified.representable(),
    ensures
        h@.map_values(|e: (String, String)| (e.0@, e.1@)) == object_header_list(*m),
{
    let mut h: Vec<(String, String)> = Vec::new();
    h.push((String::from_str("Content-Type"), m.content_type.clone()));
    let len = decimal_exec(m.content_length);
    h.push((String::from_str("Content-Length"), string_of(len.as_slice())));
    h.push((String::from_str("ETag"), m.etag.clone()));
    h.push((String::from_str("Last-Modified"), format_http_date(m.last_modified)));
    assert(h@.map_values(|e: (String, String)| (e.0@, e.1@)) =~= object_header_list(*m));
    h
}

/// The `Location` of a created bucket: `/bucket`.
pub fn bucket_location(bucket: &str) -> (l: String)
    ensures
        l@ == seq!['/'] + bucket@,
{
    let mut v: Vec<char> = Vec::new();
    v.push('/');
    push_str_chars(&mut v, bucket);
    string_of(v.as_slice())
}

/// The catalog request for a bucket created through the API: region `us-east-1`.
pub fn api_bucket_request(name: String) -> (r: CreateBucketRequest)
    ensures
        r.name == name,
        r.region@ == "us-east-1"@,
{
    CreateBucketRequest { name, region: String::from_str("us-east-1") }
}

/// The catalog record request for an uploaded object: stored at `bucket/key`,
/// with the upload's size (as `i64`, wrapping as `as` does) and no metadata.
pub fn uploaded_object_request(
    bucket_id: u128,
    bucket_name: &str,
    key: String,
    content_type: String,
    content_length: u64,
) -> (r: CreateObjectRequest)
    ensures
        r.bucket_id == bucket_id,
        r.key == key,
        r.content_type == content_type,
        r.size == content_length as i64,
        r.storage_path@ == bucket_name@ + seq!['/'] + key@,
        r.metadata is None,
{
    let storage_path = object_storage_path(bucket_name, key.as_str());
    CreateObjectRequest {
        bucket_id,
        key,
        content_type,
        size: content_length as i64,
        storage_path,
        metadata: None,
    }
}

/// The `Range` header for a start and an optional end: `bytes=start-end`, or
/// `bytes=start-` without an end.
pub open spec fn range_header_text(start: u64, end: Option<u64>) -> Seq<char> {
    "bytes="@ + decimal(start as nat) + seq!['-'] + match end {
        Some(e) => decimal(e as nat),
        None => Seq::empty(),
    }
}

/// Parsing a `Range` header written for a start and an optional end gives them
/// back.
pub proof fn lemma_range_header_roundtrip(start: u64, end: Option<u64>)
    ensures
        parse_range(range_header_text(start, end)) == Some((start, end)),
{
    reveal_strlit("bytes=");
    let ds = decimal(start as nat);
    let tail: Seq<char> = match end {
        Some(e) => decimal(e as nat),
        None => Seq::empty(),
    };
    let text = range_header_text(start, end);
    lemma_decimal(start as nat);
    lemma_parse_decimal(start);
    assert(text =~= "bytes="@ + (ds + seq!['-'] + tail));
    assert(text.subrange(0, 6) =~= "bytes="@);
    assert(starts_with(text, "bytes="@));
    assert(text.skip(6) =~= ds + seq!['-'] + tail);
    assert forall|i: int| 0 <= i < ds.len() implies ds[i] != seq!['-'][0] by {
        assert(is_digit(ds[i]));
    }
    lemma_split_at_pattern(ds, tail, seq!['-']);
    match end {
        Some(e) => {
            lemma_decimal(e as nat);
            lemma_parse_decimal(e);
            assert forall|i: int| 0 <= i < tail.len() implies tail[i] != seq!['-'][0] by {
                assert(is_digit(tail[i]));
            }
        },
        None => {},
    }
    lemma_split_plain(tail, seq!['-']);
    assert(split(text.skip(6), seq!['-']) =~= seq![ds, tail]);
}

} // verus!
