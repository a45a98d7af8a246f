use crate::clock::{format_rfc3339, in_four_digit_years, is_after, later_than, parse_rfc3339, rfc3339_text, rfc3339_time, utc_now, UtcTime};
use crate::codec::{json_of_strings, json_string_list, parse_string_list, parse_uuid, string_list_json, uuid_from_text, uuid_text, uuid_to_text, RowError};
use crate::crypto::{random_below, random_uuid};
use crate::sigv4::{
    canonical_request, expected_signature, signing_fits, too_far_apart, AuthError, SigV4Validator,
};
use crate::string_map::StringMap;
use crate::text::{lemma_encode_utf8_concat, push_char, string_views};
use vstd::prelude::*;

verus! {

/// The characters of a generated access key id (after its `AKIA` prefix).
pub const ACCESS_KEY_ID_ALPHABET: &'static str = "ABCDEFGHIJKLMNOPQRSTUVWXYZ0123456789";

/// The characters of a generated secret access key.
pub const SECRET_KEY_ALPHABET: &'static str = "ABCDEFGHIJKLMNOPQRSTUVWXYZabcdefghijklmnopqrstuvwxyz0123456789+/";

/// Who a request was authenticated as.
#[derive(Debug)]
pub struct AuthContext {
    pub access_key_id: String,
    pub authenticated: bool,
    pub policies: Vec<String>,
    pub session_token: Option<String>,
}

/// A stored access key.
#[derive(Debug)]
pub struct AccessKey {
    pub id: u128,
    pub access_key_id: String,
    pub secret_access_key: String,
    pub created_at: UtcTime,
    pub expires_at: Option<UtcTime>,
    pub is_active: bool,
    pub policies: Vec<String>,
    pub description: Option<String>,
}

/// What a new access key is made from.
#[derive(Debug)]
pub struct CreateAccessKeyRequest {
    pub policies: Vec<String>,
    pub description: Option<String>,
    pub expires_at: Option<UtcTime>,
}

/// A signed request to check.
#[derive(Debug)]
pub struct SignatureValidationRequest {
    pub access_key_id: String,
    pub signature: String,
    pub signed_headers: StringMap,
    pub method: String,
    pub uri: String,
    pub query_string: String,
    pub payload_hash: String,
    pub timestamp: UtcTime,
    pub region: String,
    pub service: String,
}

/// Whether `s` is `AKIA` followed by sixteen characters of the id alphabet.
pub open spec fn is_access_key_id(s: Seq<char>) -> bool {
    &&& s.len() == 20
    &&& s.take(4) == "AKIA"@
    &&& forall|i: int| 4 <= i < 20 ==> ACCESS_KEY_ID_ALPHABET@.contains(#[trigger] s[i])
}

/// Whether `s` is forty characters of the secret alphabet.
pub open spec fn is_secret_access_key(s: Seq<char>) -> bool {
    &&& s.len() == 40
    &&& forall|i: int| 0 <= i < 40 ==> SECRET_KEY_ALPHABET@.contains(#[trigger] s[i])
}

/// `AKIA` followed by sixteen randomly chosen characters of the id alphabet.
pub fn generate_access_key_id() -> (id: String)
    ensures
        is_access_key_id(id@),
{
    proof {
        reveal_strlit("ABCDEFGHIJKLMNOPQRSTUVWXYZ0123456789");
        reveal_strlit("AKIA");
    }
    let alphabet = ACCESS_KEY_ID_ALPHABET;
    let mut id = String::from_str("AKIA");
    let mut i: usize = 0;
    while i < 16
        invariant
            i <= 16,
            alphabet@ == ACCESS_KEY_ID_ALPHABET@,
            alphabet@.len() == 36,
            id@.len() == 4 + i,
            id@.take(4) == "AKIA"@,
            forall|j: int| 4 <= j < 4 + i ==> alphabet@.contains(#[trigger] id@[j]),
        decreases 16 - i,
    {
        let k = random_below(36);
        let c = alphabet.get_char(k);
        let ghost before = id@;
        push_char(&mut id, c);
        assert(alphabet@[k as int] == c);
        assert(id@.take(4) == before.take(4));
        i = i + 1;
    }
    id
}

/// Forty randomly chosen characters of the secret alphabet.
pub fn generate_secret_access_key() -> (secret: String)
    ensures
        is_secret_access_key(secret@),
{
    proof {
        reveal_strlit("ABCDEFGHIJKLMNOPQRSTUVWXYZabcdefghijklmnopqrstuvwxyz0123456789+/");
    }
    let alphabet = SECRET_KEY_ALPHABET;
    let mut secret = String::new();
    let mut i: usize = 0;
    while i < 40
        invariant
            i <= 40,
            alphabet@ == SECRET_KEY_ALPHABET@,
            alphabet@.len() == 64,
            secret@.len() == i,
            forall|j: int| 0 <= j < i ==> alphabet@.contains(#[trigger] secret@[j]),
        decreases 40 - i,
    {
        let k = random_below(64);
        let c = alphabet.get_char(k);
        push_char(&mut secret, c);
        assert(alphabet@[k as int] == c);
        i = i + 1;
    }
    secret
}

/// A new, active access key for the request, created at `now`, with a random id,
/// a generated access key id and a generated secret.
pub fn new_access_key(req: CreateAccessKeyRequest, now: UtcTime) -> (key: AccessKey)
    ensures
        is_access_key_id(key.access_key_id@),
        is_secret_access_key(key.secret_access_key@),
        key.created_at == now,
        key.expires_at == req.expires_at,
        key.is_active,
        key.policies@ == req.policies@,
        key.description == req.description,
{
    AccessKey {
        id: random_uuid(),
        access_key_id: generate_access_key_id(),
        secret_access_key: generate_secret_access_key(),
        created_at: now,
        expires_at: req.expires_at,
        is_active: true,
        policies: req.policies,
        description: req.description,
    }
}

/// The key after rotation: a new secret and creation time, the rest unchanged.
pub fn rotated_access_key(existing: AccessKey, new_secret: String, now: UtcTime) -> (key: AccessKey)
    ensures
        key.secret_access_key == new_secret,
        key.created_at == now,
        key.id == existing.id,
        key.access_key_id == existing.access_key_id,
        key.expires_at == existing.expires_at,
        key.is_active == existing.is_active,
        key.policies == existing.policies,
        key.description == existing.description,
{
    AccessKey { secret_access_key: new_secret, created_at: now, ..existing }
}

/// Whether a key that expires at `expires_at` has expired at `now`.
pub open spec fn is_expired(expires_at: Option<UtcTime>, now: UtcTime) -> bool {
    match expires_at {
        Some(e) => later_than(now, e),
        None => false,
    }
}

/// Whether a key with this expiry is still good at `now`, counted in nanoseconds
/// since the epoch: it has no expiry, or `now` is not past it.
pub open spec fn not_yet_expired(expires_at: Option<UtcTime>, now: UtcTime) -> bool {
    match expires_at {
        Some(e) => e.nanos < 1_000_000_000 && now.total_nanos() <= e.total_nanos(),
        None => true,
    }
}

/// A key expires only once the time is strictly past its expiry: for times with
/// less than a second of nanoseconds, it has expired exactly when `now` lies
/// later, in nanoseconds since the epoch, than its expiry; a key without expiry
/// never expires.
pub proof fn lemma_expiry(expires_at: Option<UtcTime>, now: UtcTime)
    requires
        now.nanos < 1_000_000_000,
    ensures
        match expires_at {
            Some(e) => e.nanos < 1_000_000_000 ==> (is_expired(expires_at, now) <==> now.total_nanos()
                > e.total_nanos()),
            None => !is_expired(expires_at, now),
        },
{
    if let Some(e) = expires_at {
        if e.nanos < 1_000_000_000 {
            if now.secs > e.secs {
                assert(now.secs * 1_000_000_000 >= e.secs * 1_000_000_000 + 1_000_000_000) by (nonlinear_arith)
                    requires
                        now.secs > e.secs,
                ;
            } else if now.secs < e.secs {
                assert(e.secs * 1_000_000_000 >= now.secs * 1_000_000_000 + 1_000_000_000) by (nonlinear_arith)
                    requires
                        now.secs < e.secs,
                ;
            }
        }
    }
}

/// The signature that a request signed with `secret` must carry.
pub open spec fn request_signature(secret: Seq<char>, r: SignatureValidationRequest) -> Seq<char> {
    expected_signature(
        secret,
        r.method@,
        r.uri@,
        r.query_string@,
        r.signed_headers@,
        r.payload_hash@,
        r.timestamp.secs,
        r.region@,
        r.service@,
    )
}

/// Whether the signature check of a request signed with `secret` stays within
/// the hashing limits.
pub open spec fn request_fits(secret: Seq<char>, r: SignatureValidationRequest) -> bool {
    signing_fits(
        secret,
        canonical_request(r.method@, r.uri@, r.query_string@, r.signed_headers@, r.payload_hash@),
        r.region@,
        r.service@,
    )
}

/// Authenticates a request at `now`, given the stored key that its access key
/// id names (if any): the key must exist and not have expired, the request must
/// be within fifteen minutes of `now`, and its signature must be the one that
/// the key's secret gives; then the context carries the key's id and policies.
pub fn authenticate_at(found: Option<AccessKey>, request: &SignatureValidationRequest, now: UtcTime) -> (res: Result<AuthContext, AuthError>)
    requires
        now.valid(),
        request.timestamp.valid(),
        found matches Some(k) ==> request_fits(k.secret_access_key@, *request),
    ensures
        found is None ==> res == Err::<AuthContext, AuthError>(AuthError::AccessKeyNotFound),
        found matches Some(k) ==> {
            if is_expired(k.expires_at, now) {
                res == Err::<AuthContext, AuthError>(AuthError::AccessKeyExpired)
            } else if too_far_apart(now, request.timestamp) {
                res == Err::<AuthContext, AuthError>(AuthError::RequestTimestampTooOld)
            } else if request.signature@ != request_signature(k.secret_access_key@, *request) {
                res == Err::<AuthContext, AuthError>(AuthError::InvalidSignature)
            } else {
                res matches Ok(ctx) && ctx.access_key_id == k.access_key_id && ctx.authenticated
                    && ctx.policies == k.policies && ctx.session_token is None
            }
        },
        found matches Some(k) && not_yet_expired(k.expires_at, now) && !too_far_apart(now, request.timestamp)
            && request.signature@ == request_signature(k.secret_access_key@, *request) ==> res is Ok,
        found matches Some(k) && (k.expires_at matches Some(e) && e.nanos < 1_000_000_000 && now.total_nanos()
            > e.total_nanos()) ==> res == Err::<AuthContext, AuthError>(AuthError::AccessKeyExpired),
{
    proof {
        match found {
            Some(ref k) => lemma_expiry(k.expires_at, now),
            None => {},
        }
    }
    let key = match found {
        Some(k) => k,
        None => return Err(AuthError::AccessKeyNotFound),
    };
    if let Some(expires_at) = key.expires_at {
        if is_after(now, expires_at) {
            return Err(AuthError::AccessKeyExpired);
        }
    }
    let valid = SigV4Validator::validate_signature_at(
        now,
        key.secret_access_key.as_str(),
        key.access_key_id.as_str(),
        request.method.as_str(),
        request.uri.as_str(),
        request.query_string.as_str(),
        &request.signed_headers,
        request.payload_hash.as_str(),
        request.signature.as_str(),
        request.timestamp,
        request.region.as_str(),
        request.service.as_str(),
    )?;
    if !valid {
        return Err(AuthError::InvalidSignature);
    }
    Ok(AuthContext {
        access_key_id: key.access_key_id,
        authenticated: true,
        policies: key.policies,
        session_token: None,
    })
}

/// Authenticates a request at the current time (see `authenticate_at`): whatever
/// the clock says, a missing key is refused, and a context is given only for an
/// existing key whose secret yields the request's signature.
pub fn authenticate(found: Option<AccessKey>, request: &SignatureValidationRequest) -> (res: Result<AuthContext, AuthError>)
    requires
        request.timestamp.valid(),
        found matches Some(k) ==> request_fits(k.secret_access_key@, *request),
    ensures
        found is None ==> res == Err::<AuthContext, AuthError>(AuthError::AccessKeyNotFound),
        found is Some ==> res != Err::<AuthContext, AuthError>(AuthError::AccessKeyNotFound),
        res matches Ok(ctx) ==> found matches Some(k) && ctx.access_key_id == k.access_key_id
            && ctx.authenticated && ctx.policies == k.policies && ctx.session_token is None
            && request.signature@ == request_signature(k.secret_access_key@, *request),
        res == Err::<AuthContext, AuthError>(AuthError::InvalidSignature) ==> (found matches Some(k)
            && request.signature@ != request_signature(k.secret_access_key@, *request)),
        res == Err::<AuthContext, AuthError>(AuthError::AccessKeyExpired) ==> (found matches Some(k)
            && k.expires_at is Some),
        res is Err ==> res == Err::<AuthContext, AuthError>(AuthError::AccessKeyNotFound)
            || res == Err::<AuthContext, AuthError>(AuthError::AccessKeyExpired)
            || res == Err::<AuthContext, AuthError>(AuthError::RequestTimestampTooOld)
            || res == Err::<AuthContext, AuthError>(AuthError::InvalidSignature),
        found matches Some(k) && k.expires_at is None && request.signature@ == request_signature(
            k.secret_access_key@,
            *request,
        ) ==> (res is Ok || res == Err::<AuthContext, AuthError>(AuthError::RequestTimestampTooOld)),
{
    let now = utc_now();
    authenticate_at(found, request, now)
}


/// An access key as the catalog stores it: identifiers and times as text, the
/// policies as a JSON list.
#[derive(Debug)]
pub struct AccessKeyRow {
    pub id: String,
    pub access_key_id: String,
    pub secret_access_key: String,
    pub created_at: String,
    pub expires_at: Option<String>,
    pub is_active: bool,
    pub policies: String,
    pub description: Option<String>,
}

/// What reading an access key's row gives: an error for the first field that
/// does not read (the policies must be a JSON list of strings, then the id a UUID,
/// then the times RFC 3339), else the key that the texts denote.
pub open spec fn access_key_read(row: AccessKeyRow, res: Result<AccessKey, RowError>) -> bool {
    let policies_ok = json_string_list(row.policies@) is Some;
    let id_ok = uuid_from_text(row.id@) is Some;
    let times_ok = rfc3339_time(row.created_at@) is Some && !(row.expires_at matches Some(e) && rfc3339_time(e@) is None);
    &&& !policies_ok ==> res == Err::<AccessKey, RowError>(RowError::InvalidJson)
    &&& policies_ok && !id_ok ==> res == Err::<AccessKey, RowError>(RowError::InvalidUuid)
    &&& policies_ok && id_ok && !times_ok ==> res == Err::<AccessKey, RowError>(RowError::InvalidTimestamp)
    &&& policies_ok && id_ok && times_ok ==> res is Ok
    &&& res matches Ok(k) ==> {
        &&& json_string_list(row.policies@) == Some(string_views(k.policies@))
        &&& uuid_from_text(row.id@) == Some(k.id)
        &&& k.access_key_id == row.access_key_id
        &&& k.secret_access_key == row.secret_access_key
        &&& rfc3339_time(row.created_at@) == Some(k.created_at)
        &&& match row.expires_at {
            Some(e) => rfc3339_time(e@) == k.expires_at && k.expires_at is Some,
            None => k.expires_at is None,
        }
        &&& k.is_active == row.is_active
        &&& k.description == row.description
    }
}

/// Reads an access key back from its stored row.
pub fn decode_access_key(row: AccessKeyRow) -> (res: Result<AccessKey, RowError>)
    ensures
        access_key_read(row, res),
{
    let policies = match parse_string_list(row.policies.as_str()) {
        Some(p) => p,
        None => return Err(RowError::InvalidJson),
    };
    let id = match parse_uuid(row.id.as_str()) {
        Some(i) => i,
        None => return Err(RowError::InvalidUuid),
    };
    let created_at = match parse_rfc3339(row.created_at.as_str()) {
        Some(t) => t,
        None => return Err(RowError::InvalidTimestamp),
    };
    let expires_at = match &row.expires_at {
        Some(e) => match parse_rfc3339(e.as_str()) {
            Some(t) => Some(t),
            None => return Err(RowError::InvalidTimestamp),
        },
        None => None,
    };
    Ok(AccessKey {
        id,
        access_key_id: row.access_key_id,
        secret_access_key: row.secret_access_key,
        created_at,
        expires_at,
        is_active: row.is_active,
        policies,
        description: row.description,
    })
}

/// Whether `row` is the stored row of access key `key`: the id and the times as
/// their texts, the policies as their JSON text, the rest as it is; each text
/// reads back to what it was written from (a time when it falls in the years
/// 0000 to 9999).
pub open spec fn access_key_row_of(key: AccessKey, row: AccessKeyRow) -> bool {
    &&& row.id@ == uuid_to_text(key.id)
    &&& row.access_key_id == key.access_key_id
    &&& row.secret_access_key == key.secret_access_key
    &&& row.created_at@ == rfc3339_text(key.created_at)
    &&& match key.expires_at {
        Some(e) => row.expires_at matches Some(t) && t@ == rfc3339_text(e)
            && (in_four_digit_years(e) ==> rfc3339_time(t@) == Some(e)),
        None => row.expires_at is None,
    }
    &&& row.is_active == key.is_active
    &&& row.policies@ == json_of_strings(string_views(key.policies@))
    &&& row.description == key.description
    &&& uuid_from_text(row.id@) == Some(key.id)
    &&& json_string_list(row.policies@) == Some(string_views(key.policies@))
    &&& in_four_digit_years(key.created_at) ==> rfc3339_time(row.created_at@) == Some(key.created_at)
}

/// The stored row of an access key. The result is an `Option` for policies that
/// JSON could not hold, which a list of strings never is, so a row always comes
/// back.
pub fn encode_access_key(key: &AccessKey) -> (row: Option<AccessKeyRow>)
    requires
        key.created_at.representable(),
        key.expires_at matches Some(e) ==> e.representable(),
    ensures
        row matches Some(r) && access_key_row_of(*key, r),
{
    let policies = match string_list_json(&key.policies) {
        Some(p) => p,
        None => return None,
    };
    let expires_at = match key.expires_at {
        Some(e) => Some(format_rfc3339(e)),
        None => None,
    };
    Some(AccessKeyRow {
        id: uuid_text(key.id),
        access_key_id: key.access_key_id.clone(),
        secret_access_key: key.secret_access_key.clone(),
        created_at: format_rfc3339(key.created_at),
        expires_at,
        is_active: key.is_active,
        policies,
        description: key.description.clone(),
    })
}


/// An access key written to its row and read back is the same key (its
/// policies the same list of texts), when its times fall in the years 0000 to
/// 9999.
pub proof fn lemma_access_key_row_reads_back(key: AccessKey, row: AccessKeyRow, res: Result<AccessKey, RowError>)
    requires
        in_four_digit_years(key.created_at),
        key.expires_at matches Some(e) ==> in_four_digit_years(e),
        access_key_row_of(key, row),
        access_key_read(row, res),
    ensures
        res matches Ok(k) && k.id == key.id && k.access_key_id == key.access_key_id
            && k.secret_access_key == key.secret_access_key && k.created_at == key.created_at
            && k.expires_at == key.expires_at && k.is_active == key.is_active
            && string_views(k.policies@) == string_views(key.policies@) && k.description == key.description,
{
}

/// Whether adding `days` days (as `i64`, wrapping as `as` does) to `now` stays
/// within the range of time spans and of date-times (beyond it the addition
/// panics).
pub open spec fn days_in_range(now: UtcTime, days: u64) -> bool {
    let d = days as i64;
    -106_751_991_167 <= d <= 106_751_991_167 && crate::clock::MIN_UTC_SECS <= now.secs + d * 86_400
        <= crate::clock::MAX_UTC_SECS
}

/// `now` plus a number of days: the expiry of a key created for that many days.
pub fn expiry_after_days(now: UtcTime, days: u64) -> (t: UtcTime)
    requires
        days_in_range(now, days),
    ensures
        t.secs == now.secs + (days as i64) * 86_400,
        t.nanos == now.nanos,
{
    let d = days as i64;
    UtcTime { secs: now.secs + d * 86_400, nanos: now.nanos }
}

/// The expiry `days` days after `now`, when the addition stays within the
/// range of time spans and of date-times; none otherwise (where the addition
/// would panic).
pub fn checked_expiry_after_days(now: UtcTime, days: u64) -> (t: Option<UtcTime>)
    ensures
        t is Some <==> days_in_range(now, days),
        t matches Some(e) ==> e.secs == now.secs + (days as i64) * 86_400 && e.nanos == now.nanos,
{
    let d = days as i64;
    if d < -106_751_991_167 || d > 106_751_991_167 {
        return None;
    }
    let secs = now.secs as i128 + (d as i128) * 86_400;
    if secs < crate::clock::MIN_UTC_SECS as i128 || secs > crate::clock::MAX_UTC_SECS as i128 {
        return None;
    }
    Some(expiry_after_days(now, days))
}

/// Whether checking the request's signature with `secret` stays within
/// SHA-256's input limit (beyond it the hashing panics).
pub fn request_within_hash_limits(secret: &str, request: &SignatureValidationRequest) -> (b: bool)
    ensures
        b == request_fits(secret@, *request),
{
    let canonical = SigV4Validator::create_canonical_request(
        request.method.as_str(),
        request.uri.as_str(),
        request.query_string.as_str(),
        &request.signed_headers,
        request.payload_hash.as_str(),
    );
    let limit: u64 = 0x2000_0000_0000_0000;
    let canonical_bytes = canonical.as_str().as_bytes().len() as u64;
    let secret_bytes = secret.as_bytes().len() as u64;
    let region_chars = request.region.as_str().unicode_len() as u128;
    let service_chars = request.service.as_str().unicode_len() as u128;
    proof {
        reveal_strlit("AWS4");
        lemma_encode_utf8_concat("AWS4"@, secret@);
        vstd::utf8::is_ascii_chars_encode_utf8("AWS4"@);
    }
    canonical_bytes < limit && secret_bytes < limit - 4 && 4 * (region_chars + service_chars) + 1024 < limit as u128
}

} // verus!
