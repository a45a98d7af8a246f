use crate::clock::{format_rfc3339, in_four_digit_years, parse_rfc3339, rfc3339_text, rfc3339_time, utc_now, UtcTime};
use crate::codec::{parse_uuid, uuid_from_text, uuid_text, uuid_to_text, RowError};
use crate::crypto::random_uuid;
use crate::text::push_char;
use vstd::prelude::*;

verus! {

/// The most objects that one listing returns.
pub const MAX_LIST_LIMIT: i32 = 1000;

/// A bucket in the catalog.
#[derive(Debug)]
pub struct Bucket {
    pub id: u128,
    pub name: String,
    pub created_at: UtcTime,
    pub updated_at: UtcTime,
    pub versioning_enabled: bool,
    pub region: String,
}

/// An object in the catalog.
#[derive(Debug)]
pub struct Object {
    pub id: u128,
    pub bucket_id: u128,
    pub key: String,
    pub version_id: Option<u128>,
    pub etag: String,
    pub size: i64,
    pub content_type: String,
    pub created_at: UtcTime,
    pub updated_at: UtcTime,
    pub storage_path: String,
    /// Serialized JSON.
    pub metadata: Option<String>,
}

/// A multipart upload in progress.
#[derive(Debug)]
pub struct MultipartUpload {
    pub id: u128,
    pub bucket_id: u128,
    pub object_key: String,
    pub upload_id: String,
    pub created_at: UtcTime,
    pub expires_at: Option<UtcTime>,
}

/// One uploaded part of a multipart upload.
#[derive(Debug)]
pub struct MultipartPart {
    pub id: u128,
    pub upload_id: u128,
    pub part_number: i32,
    pub etag: String,
    pub size: i64,
    pub created_at: UtcTime,
    pub storage_path: String,
}

/// What a new bucket is made from.
#[derive(Debug)]
pub struct CreateBucketRequest {
    pub name: String,
    pub region: String,
}

/// What a new object record is made from.
#[derive(Debug)]
pub struct CreateObjectRequest {
    pub bucket_id: u128,
    pub key: String,
    pub content_type: String,
    pub size: i64,
    pub storage_path: String,
    /// Serialized JSON.
    pub metadata: Option<String>,
}

/// A new bucket record for the request, with id `id`, created and updated at `now`,
/// without versioning.
pub fn new_bucket_at(req: CreateBucketRequest, id: u128, now: UtcTime) -> (b: Bucket)
    ensures
        b.id == id,
        b.name == req.name,
        b.region == req.region,
        b.created_at == now,
        b.updated_at == now,
        !b.versioning_enabled,
{
    Bucket { id, name: req.name, created_at: now, updated_at: now, versioning_enabled: false, region: req.region }
}

/// A new bucket record with a random id, created now.
pub fn new_bucket(req: CreateBucketRequest) -> (b: Bucket)
    ensures
        b.name == req.name,
        b.region == req.region,
        b.created_at == b.updated_at,
        b.created_at.valid(),
        !b.versioning_enabled,
{
    let id = random_uuid();
    let now = utc_now();
    new_bucket_at(req, id, now)
}

/// A new object record for the request with the given ETag, id `id`, created and
/// updated at `now`, without a version.
pub fn new_object_at(req: CreateObjectRequest, etag: String, id: u128, now: UtcTime) -> (o: Object)
    ensures
        o.id == id,
        o.bucket_id == req.bucket_id,
        o.key == req.key,
        o.version_id is None,
        o.etag == etag,
        o.size == req.size,
        o.content_type == req.content_type,
        o.created_at == now,
        o.updated_at == now,
        o.storage_path == req.storage_path,
        o.metadata == req.metadata,
{
    Object {
        id,
        bucket_id: req.bucket_id,
        key: req.key,
        version_id: None,
        etag,
        size: req.size,
        content_type: req.content_type,
        created_at: now,
        updated_at: now,
        storage_path: req.storage_path,
        metadata: req.metadata,
    }
}

/// A new object record with a random id, created now.
pub fn new_object(req: CreateObjectRequest, etag: String) -> (o: Object)
    ensures
        o.bucket_id == req.bucket_id,
        o.key == req.key,
        o.version_id is None,
        o.etag == etag,
        o.size == req.size,
        o.content_type == req.content_type,
        o.created_at == o.updated_at,
        o.created_at.valid(),
        o.storage_path == req.storage_path,
        o.metadata == req.metadata,
{
    let id = random_uuid();
    let now = utc_now();
    new_object_at(req, etag, id, now)
}

/// The number of objects a listing asks for: the requested limit, 1000 when none
/// is given, and never more than 1000.
pub fn list_limit(limit: Option<i32>) -> (n: i32)
    ensures
        n == match limit {
            Some(l) => if l < MAX_LIST_LIMIT { l } else { MAX_LIST_LIMIT },
            None => MAX_LIST_LIMIT,
        },
{
    let l = match limit {
        Some(l) => l,
        None => MAX_LIST_LIMIT,
    };
    if l < MAX_LIST_LIMIT { l } else { MAX_LIST_LIMIT }
}

/// The `LIKE` pattern that matches keys starting with `prefix`: the prefix
/// followed by `%`.
pub fn like_pattern(prefix: &str) -> (p: String)
    ensures
        p@ == prefix@.push('%'),
{
    let mut p = prefix.to_owned();
    push_char(&mut p, '%');
    p
}


/// A bucket as the catalog stores it: id and times as text.
#[derive(Debug)]
pub struct BucketRow {
    pub id: String,
    pub name: String,
    pub created_at: String,
    pub updated_at: String,
    pub versioning_enabled: bool,
    pub region: String,
}

/// An object as the catalog stores it: ids and times as text.
#[derive(Debug)]
pub struct ObjectRow {
    pub id: String,
    pub bucket_id: String,
    pub key: String,
    pub version_id: Option<String>,
    pub etag: String,
    pub size: i64,
    pub content_type: String,
    pub created_at: String,
    pub updated_at: String,
    pub storage_path: String,
    pub metadata: Option<String>,
}

/// What reading a bucket's row gives: an error for the first field that does not
/// read (the id must be a UUID, then both times RFC 3339), else the bucket that
/// the texts denote.
pub open spec fn bucket_read(row: BucketRow, res: Result<Bucket, RowError>) -> bool {
    &&& uuid_from_text(row.id@) is None ==> res == Err::<Bucket, RowError>(RowError::InvalidUuid)
    &&& uuid_from_text(row.id@) is Some && (rfc3339_time(row.created_at@) is None || rfc3339_time(row.updated_at@) is None)
        ==> res == Err::<Bucket, RowError>(RowError::InvalidTimestamp)
    &&& uuid_from_text(row.id@) is Some && rfc3339_time(row.created_at@) is Some && rfc3339_time(row.updated_at@) is Some
        ==> res is Ok
    &&& res matches Ok(b) ==> {
        &&& uuid_from_text(row.id@) == Some(b.id)
        &&& b.name == row.name
        &&& rfc3339_time(row.created_at@) == Some(b.created_at)
        &&& rfc3339_time(row.updated_at@) == Some(b.updated_at)
        &&& b.versioning_enabled == row.versioning_enabled
        &&& b.region == row.region
    }
}

/// Reads a bucket back from its stored row.
pub fn decode_bucket(row: BucketRow) -> (res: Result<Bucket, RowError>)
    ensures
        bucket_read(row, res),
{
    let id = match parse_uuid(row.id.as_str()) {
        Some(i) => i,
        None => return Err(RowError::InvalidUuid),
    };
    let created_at = match parse_rfc3339(row.created_at.as_str()) {
        Some(t) => t,
        None => return Err(RowError::InvalidTimestamp),
    };
    let updated_at = match parse_rfc3339(row.updated_at.as_str()) {
        Some(t) => t,
        None => return Err(RowError::InvalidTimestamp),
    };
    Ok(Bucket {
        id,
        name: row.name,
        created_at,
        updated_at,
        versioning_enabled: row.versioning_enabled,
        region: row.region,
    })
}

/// Whether `row` is the stored row of bucket `b`: the id and the times as their
/// texts, the rest as it is; the id's text reads back to the id, and each time's
/// text to the time when it falls in the years 0000 to 9999.
pub open spec fn bucket_row_of(b: Bucket, row: BucketRow) -> bool {
    &&& row.id@ == uuid_to_text(b.id)
    &&& row.name == b.name
    &&& row.created_at@ == rfc3339_text(b.created_at)
    &&& row.updated_at@ == rfc3339_text(b.updated_at)
    &&& row.versioning_enabled == b.versioning_enabled
    &&& row.region == b.region
    &&& uuid_from_text(row.id@) == Some(b.id)
    &&& in_four_digit_years(b.created_at) ==> rfc3339_time(row.created_at@) == Some(b.created_at)
    &&& in_four_digit_years(b.updated_at) ==> rfc3339_time(row.updated_at@) == Some(b.updated_at)
}

/// The stored row of a bucket.
pub fn encode_bucket(b: &Bucket) -> (row: BucketRow)
    requires
        b.created_at.representable(),
        b.updated_at.representable(),
    ensures
        bucket_row_of(*b, row),
{
    BucketRow {
        id: uuid_text(b.id),
        name: b.name.clone(),
        created_at: format_rfc3339(b.created_at),
        updated_at: format_rfc3339(b.updated_at),
        versioning_enabled: b.versioning_enabled,
        region: b.region.clone(),
    }
}

/// What reading an object's row gives: an error for the first field that does
/// not read (the id, the bucket id and the version id when there is one must be
/// UUIDs, then the times RFC 3339), else the object that the texts denote.
pub open spec fn object_read(row: ObjectRow, res: Result<Object, RowError>) -> bool {
    let ids_ok = uuid_from_text(row.id@) is Some && uuid_from_text(row.bucket_id@) is Some
        && !(row.version_id matches Some(v) && uuid_from_text(v@) is None);
    let times_ok = rfc3339_time(row.created_at@) is Some && rfc3339_time(row.updated_at@) is Some;
    &&& !ids_ok ==> res == Err::<Object, RowError>(RowError::InvalidUuid)
    &&& ids_ok && !times_ok ==> res == Err::<Object, RowError>(RowError::InvalidTimestamp)
    &&& ids_ok && times_ok ==> res is Ok
    &&& res matches Ok(o) ==> {
        &&& uuid_from_text(row.id@) == Some(o.id)
        &&& uuid_from_text(row.bucket_id@) == Some(o.bucket_id)
        &&& match row.version_id {
            Some(v) => uuid_from_text(v@) == o.version_id && o.version_id is Some,
            None => o.version_id is None,
        }
        &&& o.key == row.key
        &&& o.etag == row.etag
        &&& o.size == row.size
        &&& o.content_type == row.content_type
        &&& rfc3339_time(row.created_at@) == Some(o.created_at)
        &&& rfc3339_time(row.updated_at@) == Some(o.updated_at)
        &&& o.storage_path == row.storage_path
        &&& o.metadata == row.metadata
    }
}

/// Reads an object back from its stored row.
pub fn decode_object(row: ObjectRow) -> (res: Result<Object, RowError>)
    ensures
        object_read(row, res),
{
    let id = match parse_uuid(row.id.as_str()) {
        Some(i) => i,
        None => return Err(RowError::InvalidUuid),
    };
    let bucket_id = match parse_uuid(row.bucket_id.as_str()) {
        Some(i) => i,
        None => return Err(RowError::InvalidUuid),
    };
    let version_id = match &row.version_id {
        Some(v) => match parse_uuid(v.as_str()) {
            Some(i) => Some(i),
            None => return Err(RowError::InvalidUuid),
        },
        None => None,
    };
    let created_at = match parse_rfc3339(row.created_at.as_str()) {
        Some(t) => t,
        None => return Err(RowError::InvalidTimestamp),
    };
    let updated_at = match parse_rfc3339(row.updated_at.as_str()) {
        Some(t) => t,
        None => return Err(RowError::InvalidTimestamp),
    };
    Ok(Object {
        id,
        bucket_id,
        key: row.key,
        version_id,
        etag: row.etag,
        size: row.size,
        content_type: row.content_type,
        created_at,
        updated_at,
        storage_path: row.storage_path,
        metadata: row.metadata,
    })
}

/// Whether `row` is the stored row of object `o`: the ids and the times as their
/// texts, the rest as it is; each id's text reads back to the id, and each
/// time's text to the time when it falls in the years 0000 to 9999.
pub open spec fn object_row_of(o: Object, row: ObjectRow) -> bool {
    &&& row.id@ == uuid_to_text(o.id)
    &&& row.bucket_id@ == uuid_to_text(o.bucket_id)
    &&& match o.version_id {
        Some(v) => row.version_id matches Some(t) && t@ == uuid_to_text(v) && uuid_from_text(t@) == Some(v),
        None => row.version_id is None,
    }
    &&& row.key == o.key
    &&& row.etag == o.etag
    &&& row.size == o.size
    &&& row.content_type == o.content_type
    &&& row.created_at@ == rfc3339_text(o.created_at)
    &&& row.updated_at@ == rfc3339_text(o.updated_at)
    &&& row.storage_path == o.storage_path
    &&& row.metadata == o.metadata
    &&& uuid_from_text(row.id@) == Some(o.id)
    &&& uuid_from_text(row.bucket_id@) == Some(o.bucket_id)
    &&& in_four_digit_years(o.created_at) ==> rfc3339_time(row.created_at@) == Some(o.created_at)
    &&& in_four_digit_years(o.updated_at) ==> rfc3339_time(row.updated_at@) == Some(o.updated_at)
}

/// The stored row of an object.
pub fn encode_object(o: &Object) -> (row: ObjectRow)
    requires
        o.created_at.representable(),
        o.updated_at.representable(),
    ensures
        object_row_of(*o, row),
{
    let version_id = match o.version_id {
        Some(v) => Some(uuid_text(v)),
        None => None,
    };
    ObjectRow {
        id: uuid_text(o.id),
        bucket_id: uuid_text(o.bucket_id),
        key: o.key.clone(),
        version_id,
        etag: o.etag.clone(),
        size: o.size,
        content_type: o.content_type.clone(),
        created_at: format_rfc3339(o.created_at),
        updated_at: format_rfc3339(o.updated_at),
        storage_path: o.storage_path.clone(),
        metadata: o.metadata.clone(),
    }
}

/// A bucket written to its row and read back is the same bucket, when its times
/// fall in the years 0000 to 9999.
pub proof fn lemma_bucket_row_reads_back(b: Bucket, row: BucketRow, res: Result<Bucket, RowError>)
    requires
        in_four_digit_years(b.created_at),
        in_four_digit_years(b.updated_at),
        bucket_row_of(b, row),
        bucket_read(row, res),
    ensures
        res == Ok::<Bucket, RowError>(b),
{
}

/// An object written to its row and read back is the same object, when its
/// times fall in the years 0000 to 9999.
pub proof fn lemma_object_row_reads_back(o: Object, row: ObjectRow, res: Result<Object, RowError>)
    requires
        in_four_digit_years(o.created_at),
        in_four_digit_years(o.updated_at),
        object_row_of(o, row),
        object_read(row, res),
    ensures
        res == Ok::<Object, RowError>(o),
{
}

} // verus!
