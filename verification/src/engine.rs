use crate::clock::UtcTime;
use crate::codec::{uuid_text, uuid_to_text};
use crate::crypto::{hex_lower, md5, md5_lower_hex, random_uuid};
use crate::text::{
    chars_eq, chars_of, decimal, decimal_exec, extend_chars, one_char, push_str_chars, split,
    split_exec, string_of, views,
};
use vstd::prelude::*;

verus! {

/// Where the engine keeps objects and temporary files.
#[derive(Debug)]
pub struct StorageConfig {
    pub data_dir: String,
    pub temp_dir: String,
}

impl Default for StorageConfig {
    /// `./data` for objects and `./tmp` for temporary files.
    fn default() -> (c: Self)
        ensures
            c.data_dir@ == "./data"@,
            c.temp_dir@ == "./tmp"@,
    {
        StorageConfig { data_dir: String::from_str("./data"), temp_dir: String::from_str("./tmp") }
    }
}

/// An engine that keeps each object in a file under its data directory.
#[derive(Debug)]
pub struct LocalStorageEngine {
    pub config: StorageConfig,
}

/// The engine for a configuration (the directories are made by the caller).
pub fn create_storage_engine(config: StorageConfig) -> (e: LocalStorageEngine)
    ensures
        e.config == config,
{
    LocalStorageEngine { config }
}

/// What can go wrong in the engine's own logic.
#[derive(Debug, PartialEq, Eq, Structural)]
pub enum EngineError {
    /// A byte range that the object does not hold (start and clamped end).
    InvalidRange(u64, u64),
}

/// Metadata of a stored object.
#[derive(Debug)]
pub struct ObjectMetadata {
    pub content_type: String,
    pub content_length: u64,
    pub etag: String,
    pub last_modified: UtcTime,
}

/// A request to read an object, optionally a byte range of it.
#[derive(Debug)]
pub struct GetObjectRequest {
    pub bucket: String,
    pub key: String,
    pub range: Option<(u64, Option<u64>)>,
}

/// One part of a multipart upload.
#[derive(Debug)]
pub struct MultipartUploadPart {
    pub part_number: i32,
    pub etag: String,
    pub size: u64,
}

/// A request to assemble a multipart upload from its parts.
#[derive(Debug)]
pub struct CompleteMultipartUploadRequest {
    pub bucket: String,
    pub key: String,
    pub upload_id: String,
    pub parts: Vec<MultipartUploadPart>,
}

/// `PathBuf::join` on Unix: an absolute `p` replaces `base`; otherwise `p` is
/// appended, with a `/` between unless `base` is empty or already ends with one.
pub open spec fn path_join(base: Seq<char>, p: Seq<char>) -> Seq<char> {
    if p.len() > 0 && p[0] == '/' {
        p
    } else if base.len() == 0 || base.last() == '/' {
        base + p
    } else {
        base + seq!['/'] + p
    }
}

/// Joins two paths as `PathBuf::join` does on Unix.
pub fn path_join_exec(base: &str, p: &str) -> (r: String)
    ensures
        r@ == path_join(base@, p@),
{
    let b = chars_of(base);
    let q = chars_of(p);
    if q.len() > 0 && q[0] == '/' {
        return string_of(q.as_slice());
    }
    let mut out = b;
    if out.len() > 0 && out[out.len() - 1] != '/' {
        out.push('/');
    }
    extend_chars(&mut out, q.as_slice());
    string_of(out.as_slice())
}

/// The last component of a split path that is neither empty nor `.`.
pub open spec fn last_component(segs: Seq<Seq<char>>) -> Option<Seq<char>>
    decreases segs.len(),
{
    if segs.len() == 0 {
        None
    } else if segs.last().len() > 0 && segs.last() != seq!['.'] {
        Some(segs.last())
    } else {
        last_component(segs.drop_last())
    }
}

/// `Path::file_name` on Unix: the last normal component, none when the path ends
/// in `..` or has no normal component.
pub open spec fn file_name(p: Seq<char>) -> Option<Seq<char>> {
    match last_component(split(p, seq!['/'])) {
        Some(n) => if n == seq!['.', '.'] { None } else { Some(n) },
        None => None,
    }
}

proof fn lemma_single_char(s: Seq<char>, c: char)
    ensures
        s.len() == 1 ==> (s == seq![c] <==> s[0] == c),
{
    if s.len() == 1 && s[0] == c {
        assert(s =~= seq![c]);
    }
}

/// The index of the last `c` in `s`.
pub open spec fn last_index(s: Seq<char>, c: char) -> Option<int>
    decreases s.len(),
{
    if s.len() == 0 {
        None
    } else if s.last() == c {
        Some(s.len() - 1)
    } else {
        last_index(s.drop_last(), c)
    }
}

/// `Path::extension` on Unix: what follows the last `.` of the file name, unless
/// the name has no `.` or its only `.` is its first character.
pub open spec fn path_extension(p: Seq<char>) -> Option<Seq<char>> {
    match file_name(p) {
        None => None,
        Some(name) => match last_index(name, '.') {
            None => None,
            Some(i) => if i == 0 { None } else { Some(name.skip(i + 1)) },
        },
    }
}

/// The extension of a path's file name.
pub fn path_extension_exec(p: &str) -> (r: Option<Vec<char>>)
    ensures
        match (r, path_extension(p@)) {
            (Some(a), Some(b)) => a@ == b,
            (None, None) => true,
            _ => false,
        },
{
    let chars = chars_of(p);
    let slash = one_char('/');
    let segs = split_exec(chars.as_slice(), slash.as_slice());
    let ghost sv = views(segs@);
    let mut k: usize = segs.len();
    assert(sv.take(k as int) == sv);
    while k > 0 && (segs[k - 1].len() == 0 || (segs[k - 1].len() == 1 && segs[k - 1][0] == '.'))
        invariant
            k <= segs.len(),
            sv == views(segs@),
            last_component(sv.take(k as int)) == last_component(sv),
        decreases k,
    {
        assert(sv[k - 1] == segs@[k - 1]@);
        assert(sv.take(k as int).drop_last() == sv.take(k - 1));
        proof {
            lemma_single_char(segs@[k - 1]@, '.');
        }
        k = k - 1;
    }
    if k == 0 {
        return None;
    }
    let name = &segs[k - 1];
    assert(sv[k - 1] == name@);
    assert(sv.take(k as int).last() == name@);
    proof {
        lemma_single_char(name@, '.');
    }
    assert(last_component(sv.take(k as int)) == Some(name@));
    if name.len() == 2 && name[0] == '.' && name[1] == '.' {
        assert(name@ =~= seq!['.', '.']);
        return None;
    }
    assert(name@ != seq!['.', '.']);
    let mut i: usize = name.len();
    assert(name@.take(i as int) == name@);
    while i > 0 && name[i - 1] != '.'
        invariant
            i <= name.len(),
            last_index(name@.take(i as int), '.') == last_index(name@, '.'),
        decreases i,
    {
        assert(name@.take(i as int).drop_last() == name@.take(i - 1));
        i = i - 1;
    }
    if i == 0 {
        return None;
    }
    assert(name@.take(i as int).last() == '.');
    if i == 1 {
        return None;
    }
    let mut ext: Vec<char> = Vec::new();
    let mut j: usize = i;
    while j < name.len()
        invariant
            i <= j <= name.len(),
            ext@ == name@.subrange(i as int, j as int),
        decreases name.len() - j,
    {
        ext.push(name[j]);
        j = j + 1;
        assert(ext@ == name@.subrange(i as int, j as int));
    }
    assert(ext@ == name@.skip(i as int));
    Some(ext)
}

/// The content type of an object, by the extension of its key.
pub open spec fn content_type_for(ext: Option<Seq<char>>) -> Seq<char> {
    match ext {
        None => "binary/octet-stream"@,
        Some(e) => if e == "txt"@ {
            "text/plain"@
        } else if e == "html"@ || e == "htm"@ {
            "text/html"@
        } else if e == "css"@ {
            "text/css"@
        } else if e == "js"@ {
            "application/javascript"@
        } else if e == "json"@ {
            "application/json"@
        } else if e == "xml"@ {
            "application/xml"@
        } else if e == "jpg"@ || e == "jpeg"@ {
            "image/jpeg"@
        } else if e == "png"@ {
            "image/png"@
        } else if e == "gif"@ {
            "image/gif"@
        } else if e == "svg"@ {
            "image/svg+xml"@
        } else if e == "pdf"@ {
            "application/pdf"@
        } else if e == "zip"@ {
            "application/zip"@
        } else {
            "binary/octet-stream"@
        },
    }
}

fn ext_is(e: &Vec<char>, lit: &str) -> (b: bool)
    ensures
        b == (e@ == lit@),
{
    let l = chars_of(lit);
    chars_eq(e.as_slice(), l.as_slice())
}

/// The ETag that the engine reports for a file of `len` bytes: the decimal length
/// in double quotes.
pub open spec fn size_etag(len: u64) -> Seq<char> {
    seq!['"'] + decimal(len as nat) + seq!['"']
}

impl LocalStorageEngine {
    /// The directory of a bucket: the bucket joined to the data directory.
    pub fn bucket_dir(&self, bucket: &str) -> (p: String)
        ensures
            p@ == path_join(self.config.data_dir@, bucket@),
    {
        path_join_exec(self.config.data_dir.as_str(), bucket)
    }

    /// The file of an object: the key joined to the bucket's directory.
    pub fn object_path(&self, bucket: &str, key: &str) -> (p: String)
        ensures
            p@ == path_join(path_join(self.config.data_dir@, bucket@), key@),
    {
        let dir = self.bucket_dir(bucket);
        path_join_exec(dir.as_str(), key)
    }

    /// A fresh temporary file: `tmp_` followed by a random UUID, in the temporary
    /// directory.
    pub fn temp_path(&self) -> (p: String)
        ensures
            exists|id: u128| p@ == path_join(self.config.temp_dir@, "tmp_"@ + #[trigger] uuid_to_text(id)),
    {
        let id = random_uuid();
        let u = uuid_text(id);
        let mut v: Vec<char> = Vec::new();
        push_str_chars(&mut v, "tmp_");
        push_str_chars(&mut v, u.as_str());
        let name = string_of(v.as_slice());
        proof {
            reveal_strlit("tmp_");
            assert(name@ == "tmp_"@ + uuid_to_text(id));
        }
        path_join_exec(self.config.temp_dir.as_str(), name.as_str())
    }

    /// The content type of an object, guessed from the extension of its key:
    /// `binary/octet-stream` when the extension is missing or unknown.
    pub fn guess_content_type(&self, key: &str) -> (t: String)
        ensures
            t@ == content_type_for(path_extension(key@)),
    {
        let ext = path_extension_exec(key);
        let t = match ext {
            None => "binary/octet-stream",
            Some(e) => if ext_is(&e, "txt") {
                "text/plain"
            } else if ext_is(&e, "html") || ext_is(&e, "htm") {
                "text/html"
            } else if ext_is(&e, "css") {
                "text/css"
            } else if ext_is(&e, "js") {
                "application/javascript"
            } else if ext_is(&e, "json") {
                "application/json"
            } else if ext_is(&e, "xml") {
                "application/xml"
            } else if ext_is(&e, "jpg") || ext_is(&e, "jpeg") {
                "image/jpeg"
            } else if ext_is(&e, "png") {
                "image/png"
            } else if ext_is(&e, "gif") {
                "image/gif"
            } else if ext_is(&e, "svg") {
                "image/svg+xml"
            } else if ext_is(&e, "pdf") {
                "application/pdf"
            } else if ext_is(&e, "zip") {
                "application/zip"
            } else {
                "binary/octet-stream"
            },
        };
        t.to_owned()
    }
}

/// The byte range to serve of an object of `len` bytes: the end defaults to and
/// is clamped at the last byte; a start past the end, or at or past the length,
/// is refused. An empty file holds no byte range: every range is refused, with
/// the end as requested (the largest `u64` when none is).
pub fn resolve_range(start: u64, end: Option<u64>, len: u64) -> (r: Result<(u64, u64), EngineError>)
    ensures
        r == served_range(start, end, len),
        start < len && (end matches Some(e) ==> start <= e) ==> r == Ok::<(u64, u64), EngineError>(
            (start, last_served_byte(end, len)),
        ),
        r matches Ok((s, e)) ==> s == start && s <= e && e < len,
        start >= len || (end matches Some(e) && e < start) ==> r is Err,
{
    proof {
        lemma_served_range(start, end, len);
    }
    if len == 0 {
        let e = match end {
            Some(e) => e,
            None => u64::MAX,
        };
        return Err(EngineError::InvalidRange(start, e));
    }
    let last = len - 1;
    let e = match end {
        Some(e) => if e < last { e } else { last },
        None => last,
    };
    if start > e || start >= len {
        return Err(EngineError::InvalidRange(start, e));
    }
    Ok((start, e))
}

/// The ETag that the engine reports for a stored file: its length in quotes.
pub fn length_etag(len: u64) -> (s: String)
    ensures
        s@ == size_etag(len),
{
    let mut v: Vec<char> = Vec::new();
    v.push('"');
    let d = decimal_exec(len);
    extend_chars(&mut v, d.as_slice());
    v.push('"');
    assert(v@ =~= size_etag(len));
    string_of(v.as_slice())
}

/// The ETag of uploaded content: the lower-case hexadecimal MD5 of its bytes.
pub fn content_etag(data: &[u8]) -> (s: String)
    ensures
        s@ == hex_lower(md5(data@)),
{
    md5_lower_hex(data)
}

/// The byte range served of a file of `len` bytes for a requested start and
/// optional end (see `resolve_range`).
pub open spec fn served_range(start: u64, end: Option<u64>, len: u64) -> Result<(u64, u64), EngineError> {
    if len == 0 {
        Err(EngineError::InvalidRange(
            start,
            match end {
                Some(e) => e,
                None => u64::MAX,
            },
        ))
    } else {
        let e = match end {
            Some(e) => if e < len - 1 { e } else { (len - 1) as u64 },
            None => (len - 1) as u64,
        };
        if start > e || start >= len {
            Err(EngineError::InvalidRange(start, e))
        } else {
            Ok((start, e))
        }
    }
}

/// The last byte served of an object of `len` bytes: the requested end, or the
/// object's last byte when the end is missing or lies beyond it.
pub open spec fn last_served_byte(end: Option<u64>, len: u64) -> u64 {
    match end {
        Some(e) => if e < len { e } else { (len - 1) as u64 },
        None => (len - 1) as u64,
    }
}

/// A range that starts within the object, and does not end before it starts,
/// is served from its start to its end or the object's last byte, whichever
/// comes first; a served range lies within the object and within the request;
/// a range that starts past the object or ends before it starts is refused.
pub proof fn lemma_served_range(start: u64, end: Option<u64>, len: u64)
    ensures
        start < len && (end matches Some(e) ==> start <= e) ==> served_range(start, end, len) == Ok::<
            (u64, u64),
            EngineError,
        >((start, last_served_byte(end, len))),
        served_range(start, end, len) matches Ok((s, e)) ==> s == start && s <= e && e < len && (end matches Some(
            x,
        ) ==> e <= x),
        start >= len || (end matches Some(e) && e < start) ==> served_range(start, end, len) is Err,
{
}

impl LocalStorageEngine {
    /// The metadata of a stored file: the content type guessed from the key, the
    /// file's length, the length as ETag, and its modification time.
    pub fn file_metadata(&self, key: &str, len: u64, modified: UtcTime) -> (m: ObjectMetadata)
        ensures
            m.content_type@ == content_type_for(path_extension(key@)),
            m.content_length == len,
            m.etag@ == size_etag(len),
            m.last_modified == modified,
    {
        ObjectMetadata {
            content_type: self.guess_content_type(key),
            content_length: len,
            etag: length_etag(len),
            last_modified: modified,
        }
    }

    /// What a read of an object serves, given the length and modification time
    /// of its file (none when there is no file): nothing for a missing file;
    /// else the file's metadata, with the byte range to send when the request
    /// names one, or the range error.
    pub fn plan_read(
        &self,
        request: &GetObjectRequest,
        file: Option<(u64, UtcTime)>,
    ) -> (r: Result<Option<(ObjectMetadata, Option<(u64, u64)>)>, EngineError>)
        ensures
            file is None ==> r == Ok::<Option<(ObjectMetadata, Option<(u64, u64)>)>, EngineError>(None),
            file matches Some((len, modified)) ==> match request.range {
                None => r matches Ok(Some((m, rg))) && rg is None && m.content_length == len
                    && m.etag@ == size_etag(len) && m.last_modified == modified
                    && m.content_type@ == content_type_for(path_extension(request.key@)),
                Some((start, end)) => match served_range(start, end, len) {
                    Err(e) => r == Err::<Option<(ObjectMetadata, Option<(u64, u64)>)>, EngineError>(e),
                    Ok(span) => r matches Ok(Some((m, rg))) && rg == Some(span) && m.content_length == len
                        && m.etag@ == size_etag(len) && m.last_modified == modified
                        && m.content_type@ == content_type_for(path_extension(request.key@)),
                },
            },
    {
        let (len, modified) = match file {
            Some(f) => f,
            None => return Ok(None),
        };
        let span = match request.range {
            Some((start, end)) => Some(resolve_range(start, end, len)?),
            None => None,
        };
        Ok(Some((self.file_metadata(request.key.as_str(), len, modified), span)))
    }
}

} // verus!
