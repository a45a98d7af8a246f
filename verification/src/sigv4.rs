use crate::clock::{MIN_UTC_SECS, MAX_UTC_SECS, format_amz_date, format_date_stamp, utc_amz_date, utc_date_stamp, utc_now, UtcTime};
use crate::crypto::{
    hex_encode, hex_lower, hmac_sha256, hmac_sha256_sign, lemma_hex_lower_len, sha256, sha256_digest, url_encode,
    url_encoded, SHA256_INPUT_LIMIT,
};
use crate::string_map::StringMap;
use crate::text::{
    chars_eq, chars_of, decimal, decimal_exec, entry_views, extend_chars, free_before, join, lemma_encode_utf8_concat,
    join_exec, lemma_split_at_free, lemma_split_at_pattern, lemma_split_free, lemma_split_join,
    lemma_split_once_after, lemma_split_plain, lemma_utf8_len_bound, lex_le, lex_order, occurs_at_exec,
    one_char, opt_view, push_str_chars, skip_chars, sort_by_name, sort_entries_by_name,
    sort_strings, split, split_exec, split_once, split_once_exec, starts_with, string_of,
    string_of_char, string_views, strings_of, to_lowercase, trim, trim_exec, trim_leading,
    trim_leading_exec, unicode_lowercase, views, Entry,
};
use vstd::prelude::*;
use vstd::utf8::encode_utf8;

verus! {

/// The pieces of a path, each URL-encoded.
pub open spec fn encoded_pieces(p: Seq<Seq<char>>) -> Seq<Seq<char>> {
    p.map_values(|x: Seq<char>| url_encoded(x))
}

/// The canonical URI: `/` for an empty URI; otherwise each `/`-separated segment
/// URL-encoded, the slashes kept.
pub open spec fn canonical_uri(uri: Seq<char>) -> Seq<char> {
    if uri.len() == 0 {
        seq!['/']
    } else {
        join(encoded_pieces(split(uri, seq!['/'])), seq!['/'])
    }
}

/// One query parameter in canonical form: name and value URL-encoded and joined
/// by `=`; a parameter without `=` gets an empty value.
pub open spec fn canonical_param(p: Seq<char>) -> Seq<char> {
    match split_once(p, '=') {
        Some((k, v)) => url_encoded(k) + seq!['='] + url_encoded(v),
        None => url_encoded(p) + seq!['='],
    }
}

/// The canonical forms of the `&`-separated parameters of a query, in their order.
pub open spec fn canonical_params(query: Seq<char>) -> Seq<Seq<char>> {
    split(query, seq!['&']).map_values(|p: Seq<char>| canonical_param(p))
}

/// The canonical query string: the canonical parameters sorted and joined by `&`
/// (empty for an empty query).
pub open spec fn canonical_query(query: Seq<char>) -> Seq<char> {
    if query.len() == 0 {
        Seq::empty()
    } else {
        join(canonical_params(query).sort_by(lex_order()), seq!['&'])
    }
}

/// A header with its name in lower case and its value trimmed.
pub open spec fn header_entry(e: Entry) -> Entry {
    (unicode_lowercase(e.0), trim(e.1))
}

/// The normalized headers, stably sorted by name.
pub open spec fn sorted_headers(headers: Seq<Entry>) -> Seq<Entry> {
    sort_by_name(headers.map_values(|e: Entry| header_entry(e)))
}

/// `name:value` lines of the sorted headers, each ended by a newline.
pub open spec fn canonical_headers_text(headers: Seq<Entry>) -> Seq<char> {
    join(sorted_headers(headers).map_values(|e: Entry| e.0 + seq![':'] + e.1), seq!['\n'])
        + seq!['\n']
}

/// The names of the sorted headers joined by `;`.
pub open spec fn signed_headers_text(headers: Seq<Entry>) -> Seq<char> {
    join(sorted_headers(headers).map_values(|e: Entry| e.0), seq![';'])
}

/// Why authentication failed.
#[derive(Clone, Copy, Debug, PartialEq, Eq, Structural)]
pub enum AuthError {
    InvalidAuthorizationHeader,
    MissingCredential,
    MissingSignedHeaders,
    MissingSignature,
    InvalidCredentialFormat,
    RequestTimestampTooOld,
    ExpiryOutOfRange,
    AccessKeyNotFound,
    AccessKeyExpired,
    InvalidSignature,
}

impl AuthError {
    /// The text that describes the error.
    pub fn message(&self) -> (m: &'static str)
        ensures
            m@ == match self {
                AuthError::InvalidAuthorizationHeader => "Invalid authorization header format"@,
                AuthError::MissingCredential => "Missing Credential in authorization header"@,
                AuthError::MissingSignedHeaders => "Missing SignedHeaders in authorization header"@,
                AuthError::MissingSignature => "Missing Signature in authorization header"@,
                AuthError::InvalidCredentialFormat => "Invalid credential format"@,
                AuthError::RequestTimestampTooOld => "Request timestamp too old"@,
                AuthError::ExpiryOutOfRange => "Expiry out of range"@,
                AuthError::AccessKeyNotFound => "Access key not found"@,
                AuthError::AccessKeyExpired => "Access key expired"@,
                AuthError::InvalidSignature => "Invalid signature"@,
            },
    {
        match self {
            AuthError::InvalidAuthorizationHeader => "Invalid authorization header format",
            AuthError::MissingCredential => "Missing Credential in authorization header",
            AuthError::MissingSignedHeaders => "Missing SignedHeaders in authorization header",
            AuthError::MissingSignature => "Missing Signature in authorization header",
            AuthError::InvalidCredentialFormat => "Invalid credential format",
            AuthError::RequestTimestampTooOld => "Request timestamp too old",
            AuthError::ExpiryOutOfRange => "Expiry out of range",
            AuthError::AccessKeyNotFound => "Access key not found",
            AuthError::AccessKeyExpired => "Access key expired",
            AuthError::InvalidSignature => "Invalid signature",
        }
    }
}

/// The canonical request: method, canonical URI, canonical query, canonical
/// headers, signed headers and payload hash, separated by newlines.
pub open spec fn canonical_request(
    method: Seq<char>,
    uri: Seq<char>,
    query: Seq<char>,
    headers: Seq<Entry>,
    payload_hash: Seq<char>,
) -> Seq<char> {
    method + seq!['\n'] + canonical_uri(uri) + seq!['\n'] + canonical_query(query) + seq!['\n']
        + canonical_headers_text(headers) + seq!['\n'] + signed_headers_text(headers) + seq!['\n']
        + payload_hash
}

/// `date/region/service/aws4_request` for the date of `secs`.
pub open spec fn credential_scope(secs: i64, region: Seq<char>, service: Seq<char>) -> Seq<char> {
    utc_date_stamp(secs) + seq!['/'] + region + seq!['/'] + service + "/aws4_request"@
}

/// The string to sign: algorithm, request time, credential scope and the
/// hexadecimal SHA-256 of the canonical request, separated by newlines.
pub open spec fn string_to_sign(
    canonical: Seq<char>,
    secs: i64,
    region: Seq<char>,
    service: Seq<char>,
) -> Seq<char> {
    "AWS4-HMAC-SHA256"@ + seq!['\n'] + utc_amz_date(secs) + seq!['\n'] + credential_scope(
        secs,
        region,
        service,
    ) + seq!['\n'] + hex_lower(sha256(encode_utf8(canonical)))
}

/// The signing key: the secret prefixed with `AWS4`, chained through HMAC-SHA256
/// with the date, the region, the service and `aws4_request`.
pub open spec fn signing_key(secret: Seq<char>, secs: i64, region: Seq<char>, service: Seq<char>) -> Seq<u8> {
    let k_date = hmac_sha256(encode_utf8("AWS4"@ + secret), encode_utf8(utc_date_stamp(secs)));
    let k_region = hmac_sha256(k_date, encode_utf8(region));
    let k_service = hmac_sha256(k_region, encode_utf8(service));
    hmac_sha256(k_service, encode_utf8("aws4_request"@))
}

/// The hexadecimal HMAC-SHA256 of the string to sign under the signing key.
pub open spec fn signature_of(key: Seq<u8>, to_sign: Seq<char>) -> Seq<char> {
    hex_lower(hmac_sha256(key, encode_utf8(to_sign)))
}

/// The signature that a request with these parts, made at `secs`, carries.
pub open spec fn expected_signature(
    secret: Seq<char>,
    method: Seq<char>,
    uri: Seq<char>,
    query: Seq<char>,
    headers: Seq<Entry>,
    payload_hash: Seq<char>,
    secs: i64,
    region: Seq<char>,
    service: Seq<char>,
) -> Seq<char> {
    signature_of(
        signing_key(secret, secs, region, service),
        string_to_sign(canonical_request(method, uri, query, headers, payload_hash), secs, region, service),
    )
}

/// The inputs on which signing stays within SHA-256's input limit (beyond it the
/// hashing panics): the canonical request and the secret with its `AWS4` prefix
/// below the limit, and region and service short enough that every HMAC input is.
pub open spec fn signing_fits(secret: Seq<char>, canonical: Seq<char>, region: Seq<char>, service: Seq<char>) -> bool {
    &&& encode_utf8(canonical).len() < SHA256_INPUT_LIMIT
    &&& encode_utf8("AWS4"@ + secret).len() < SHA256_INPUT_LIMIT
    &&& 4 * (region.len() + service.len()) + 1024 < SHA256_INPUT_LIMIT
}

proof fn lemma_canonical_param_no_amp(p: Seq<char>)
    ensures
        !canonical_param(p).contains('&'),
{
    match split_once(p, '=') {
        Some((k, v)) => {
            crate::crypto::lemma_percent_encode_lacks(encode_utf8(k), '&');
            crate::crypto::lemma_percent_encode_lacks(encode_utf8(v), '&');
            let a = url_encoded(k);
            let b = url_encoded(v);
            if (a + seq!['='] + b).contains('&') {
                let i = choose|i: int| 0 <= i < (a + seq!['='] + b).len() && (a + seq!['='] + b)[i] == '&';
                if i < a.len() {
                    assert(a[i] == '&');
                    assert(a.contains('&'));
                } else if i > a.len() {
                    assert(b[i - a.len() - 1] == '&');
                    assert(b.contains('&'));
                }
            }
        },
        None => {
            crate::crypto::lemma_percent_encode_lacks(encode_utf8(p), '&');
            let a = url_encoded(p);
            if (a + seq!['=']).contains('&') {
                let i = choose|i: int| 0 <= i < (a + seq!['=']).len() && (a + seq!['='])[i] == '&';
                if i < a.len() {
                    assert(a[i] == '&');
                    assert(a.contains('&'));
                }
            }
        },
    }
}

/// The canonical query of a non-empty query holds its parameters, each in
/// canonical form, every one of them as often as it occurs and no other, in
/// lexicographic order: split at `&`, it gives them sorted.
pub proof fn lemma_canonical_query_sorted(q: Seq<char>)
    requires
        q.len() > 0,
    ensures
        split(canonical_query(q), seq!['&']).to_multiset() == split(q, seq!['&']).map_values(
            |p: Seq<char>| canonical_param(p),
        ).to_multiset(),
        forall|i: int, j: int|
            0 <= i < j < split(canonical_query(q), seq!['&']).len() ==> lex_le(
                #[trigger] split(canonical_query(q), seq!['&'])[i],
                #[trigger] split(canonical_query(q), seq!['&'])[j],
            ),
{
    let params = canonical_params(q);
    crate::text::lemma_lex_total_ordering();
    params.lemma_sort_by_ensures(lex_order());
    let sorted = params.sort_by(lex_order());
    crate::text::lemma_split_nonempty(q, seq!['&']);
    assert(params.len() >= 1);
    params.to_multiset_ensures();
    sorted.to_multiset_ensures();
    assert(sorted.len() == params.len());
    assert forall|j: int| 0 <= j < sorted.len() implies !(#[trigger] sorted[j]).contains('&') by {
        assert(sorted.contains(sorted[j]));
        assert(sorted.to_multiset().count(sorted[j]) > 0);
        assert(params.contains(sorted[j]));
        let k = choose|k: int| 0 <= k < params.len() && params[k] == sorted[j];
        lemma_canonical_param_no_amp(split(q, seq!['&'])[k]);
    }
    lemma_split_join(sorted, '&');
    assert(split(canonical_query(q), seq!['&']) == sorted);
    assert forall|i: int, j: int| 0 <= i < j < sorted.len() implies lex_le(#[trigger] sorted[i], #[trigger] sorted[j]) by {
        assert(lex_order()(sorted[i], sorted[j]));
    }
}

/// Every `/`-separated segment of a non-empty path is URL-encoded, whatever its
/// position, and the slashes stay: split at `/`, the canonical URI gives as many
/// segments as the path, each the URL encoding of the path's segment.
pub proof fn lemma_canonical_uri_segments(uri: Seq<char>)
    requires
        uri.len() > 0,
    ensures
        split(canonical_uri(uri), seq!['/']).len() == split(uri, seq!['/']).len(),
        forall|i: int|
            0 <= i < split(uri, seq!['/']).len() ==> #[trigger] split(canonical_uri(uri), seq!['/'])[i]
                == url_encoded(split(uri, seq!['/'])[i]),
{
    let pieces = split(uri, seq!['/']);
    let enc = encoded_pieces(pieces);
    crate::text::lemma_split_nonempty(uri, seq!['/']);
    assert forall|j: int| 0 <= j < enc.len() implies !(#[trigger] enc[j]).contains('/') by {
        crate::crypto::lemma_percent_encode_lacks(encode_utf8(pieces[j]), '/');
    }
    lemma_split_join(enc, '/');
}

/// Whether two times are more than fifteen minutes apart.
pub open spec fn too_far_apart(now: UtcTime, timestamp: UtcTime) -> bool {
    let d = now.total_nanos() - timestamp.total_nanos();
    d > 900_000_000_000 || -d > 900_000_000_000
}

/// Requests are accepted for fifteen minutes either way: times whose seconds lie
/// at most 899 apart are never too far apart, times whose seconds lie 901 or
/// more apart always are, and at equal nanoseconds the limit is exactly 900
/// seconds.
pub proof fn lemma_fifteen_minute_window(now: UtcTime, timestamp: UtcTime)
    requires
        now.nanos < 1_000_000_000,
        timestamp.nanos < 1_000_000_000,
    ensures
        -899 <= now.secs - timestamp.secs <= 899 ==> !too_far_apart(now, timestamp),
        (now.secs - timestamp.secs >= 901 || timestamp.secs - now.secs >= 901) ==> too_far_apart(now, timestamp),
        now.nanos == timestamp.nanos ==> (too_far_apart(now, timestamp) <==> (now.secs - timestamp.secs > 900
            || timestamp.secs - now.secs > 900)),
{
    let ds = now.secs - timestamp.secs;
    let (a, an, b, bn) = (now.secs as int, now.nanos as int, timestamp.secs as int, timestamp.nanos as int);
    assert((a * 1_000_000_000 + an) - (b * 1_000_000_000 + bn) == (a - b) * 1_000_000_000 + (an - bn)) by (nonlinear_arith);
    assert(now.total_nanos() - timestamp.total_nanos() == ds * 1_000_000_000 + (now.nanos - timestamp.nanos));
    if -899 <= ds <= 899 {
        assert(-899_000_000_000 <= ds * 1_000_000_000 <= 899_000_000_000) by (nonlinear_arith)
            requires
                -899 <= ds <= 899,
        ;
    }
    if ds >= 901 {
        assert(ds * 1_000_000_000 >= 901_000_000_000) by (nonlinear_arith)
            requires
                ds >= 901,
        ;
    }
    if -ds >= 901 {
        assert(ds * 1_000_000_000 <= -901_000_000_000) by (nonlinear_arith)
            requires
                -ds >= 901,
        ;
    }
    if now.nanos == timestamp.nanos {
        if ds > 900 {
            assert(ds * 1_000_000_000 > 900_000_000_000) by (nonlinear_arith)
                requires
                    ds > 900,
            ;
        } else if ds < -900 {
            assert(ds * 1_000_000_000 < -900_000_000_000) by (nonlinear_arith)
                requires
                    ds < -900,
            ;
        } else {
            assert(-900_000_000_000 <= ds * 1_000_000_000 <= 900_000_000_000) by (nonlinear_arith)
                requires
                    -900 <= ds <= 900,
            ;
        }
    }
}

/// URL-encodes each piece.
fn encode_pieces(pieces: &Vec<Vec<char>>) -> (res: Vec<Vec<char>>)
    ensures
        views(res@) == encoded_pieces(views(pieces@)),
{
    let mut res: Vec<Vec<char>> = Vec::new();
    let mut i: usize = 0;
    while i < pieces.len()
        invariant
            i <= pieces.len(),
            views(res@) == encoded_pieces(views(pieces@)).take(i as int),
        decreases pieces.len() - i,
    {
        let piece = string_of(pieces[i].as_slice());
        let enc = chars_of(url_encode(piece.as_str()).as_str());
        let ghost before = views(res@);
        assert(views(pieces@)[i as int] == pieces@[i as int]@);
        res.push(enc);
        assert(views(res@) == before.push(url_encoded(views(pieces@)[i as int])));
        i = i + 1;
        assert(views(res@) =~= encoded_pieces(views(pieces@)).take(i as int));
    }
    assert(encoded_pieces(views(pieces@)).take(pieces.len() as int) =~= encoded_pieces(views(pieces@)));
    res
}

/// URL-encodes a character sequence.
fn encode_chars(v: &[char]) -> (res: Vec<char>)
    ensures
        res@ == url_encoded(v@),
{
    let s = string_of(v);
    chars_of(url_encode(s.as_str()).as_str())
}

/// The canonical form of one query parameter.
fn canonical_param_exec(p: &Vec<char>) -> (res: Vec<char>)
    ensures
        res@ == canonical_param(p@),
{
    match split_once_exec(p.as_slice(), '=') {
        Some((k, v)) => {
            let mut res = encode_chars(k.as_slice());
            res.push('=');
            let ev = encode_chars(v.as_slice());
            extend_chars(&mut res, ev.as_slice());
            res
        },
        None => {
            let mut res = encode_chars(p.as_slice());
            res.push('=');
            res
        },
    }
}

/// The unit type on which the signature functions hang.
pub struct SigV4Validator;

impl SigV4Validator {
    /// The canonical request of the given request parts.
    pub fn create_canonical_request(
        method: &str,
        uri: &str,
        query_string: &str,
        headers: &StringMap,
        payload_hash: &str,
    ) -> (res: String)
        ensures
            res@ == canonical_request(method@, uri@, query_string@, headers@, payload_hash@),
    {
        let cu = Self::canonical_uri_encode(uri);
        let cq = Self::canonical_query_string(query_string);
        let (ch, sh) = Self::canonical_headers(headers);
        let mut v: Vec<char> = Vec::new();
        push_str_chars(&mut v, method);
        v.push('\n');
        push_str_chars(&mut v, cu.as_str());
        v.push('\n');
        push_str_chars(&mut v, cq.as_str());
        v.push('\n');
        push_str_chars(&mut v, ch.as_str());
        v.push('\n');
        push_str_chars(&mut v, sh.as_str());
        v.push('\n');
        push_str_chars(&mut v, payload_hash);
        assert(v@ =~= canonical_request(method@, uri@, query_string@, headers@, payload_hash@));
        string_of(v.as_slice())
    }

    /// The string to sign for a canonical request made at `timestamp`.
    pub fn create_string_to_sign(
        canonical_request: &str,
        timestamp: UtcTime,
        region: &str,
        service: &str,
    ) -> (res: String)
        requires
            timestamp.valid(),
            encode_utf8(canonical_request@).len() < SHA256_INPUT_LIMIT,
        ensures
            res@ == string_to_sign(canonical_request@, timestamp.secs, region@, service@),
            res@.len() <= region@.len() + service@.len() + 128,
    {
        let amz = format_amz_date(timestamp.secs);
        let date = format_date_stamp(timestamp.secs);
        let digest = sha256_digest(canonical_request.as_bytes());
        let hashed = hex_encode(digest.as_slice());
        proof {
            lemma_hex_lower_len(digest@);
            reveal_strlit("AWS4-HMAC-SHA256");
            reveal_strlit("/aws4_request");
        }
        let mut v: Vec<char> = Vec::new();
        push_str_chars(&mut v, "AWS4-HMAC-SHA256");
        v.push('\n');
        push_str_chars(&mut v, amz.as_str());
        v.push('\n');
        push_str_chars(&mut v, date.as_str());
        v.push('/');
        push_str_chars(&mut v, region);
        v.push('/');
        push_str_chars(&mut v, service);
        push_str_chars(&mut v, "/aws4_request");
        v.push('\n');
        push_str_chars(&mut v, hashed.as_str());
        assert(v@ =~= string_to_sign(canonical_request@, timestamp.secs, region@, service@));
        string_of(v.as_slice())
    }

    /// The signing key for the secret, the date of `timestamp`, the region and the
    /// service.
    pub fn get_signing_key(secret_key: &str, timestamp: UtcTime, region: &str, service: &str) -> (key: Vec<u8>)
        requires
            timestamp.valid(),
            encode_utf8("AWS4"@ + secret_key@).len() < SHA256_INPUT_LIMIT,
            4 * (region@.len() + service@.len()) + 1024 < SHA256_INPUT_LIMIT,
        ensures
            key@ == signing_key(secret_key@, timestamp.secs, region@, service@),
            key@.len() == 32,
    {
        proof {
            lemma_utf8_len_bound(region@);
            lemma_utf8_len_bound(service@);
        }
        let mut ks: Vec<char> = Vec::new();
        push_str_chars(&mut ks, "AWS4");
        push_str_chars(&mut ks, secret_key);
        let k_secret = string_of(ks.as_slice());
        let date = format_date_stamp(timestamp.secs);
        proof {
            lemma_utf8_len_bound(date@);
        }
        let k_date = hmac_sha256_sign(k_secret.as_str().as_bytes(), date.as_str().as_bytes());
        let k_region = hmac_sha256_sign(k_date.as_slice(), region.as_bytes());
        let k_service = hmac_sha256_sign(k_region.as_slice(), service.as_bytes());
        let request = "aws4_request";
        proof {
            reveal_strlit("aws4_request");
            lemma_utf8_len_bound(request@);
        }
        hmac_sha256_sign(k_service.as_slice(), request.as_bytes())
    }

    /// The hexadecimal HMAC-SHA256 of the string to sign under the signing key.
    pub fn calculate_signature(signing_key: &[u8], string_to_sign: &str) -> (sig: String)
        requires
            signing_key@.len() < SHA256_INPUT_LIMIT,
            encode_utf8(string_to_sign@).len() + 64 < SHA256_INPUT_LIMIT,
        ensures
            sig@ == signature_of(signing_key@, string_to_sign@),
    {
        let tag = hmac_sha256_sign(signing_key, string_to_sign.as_bytes());
        hex_encode(tag.as_slice())
    }

    /// Checks a request signature against the time `now`: a request more than
    /// fifteen minutes away from `now` is refused; otherwise the answer is whether
    /// the signature is the one that the secret gives for this request.
    pub fn validate_signature_at(
        now: UtcTime,
        secret_key: &str,
        access_key: &str,
        method: &str,
        uri: &str,
        query_string: &str,
        headers: &StringMap,
        payload_hash: &str,
        signature: &str,
        timestamp: UtcTime,
        region: &str,
        service: &str,
    ) -> (res: Result<bool, AuthError>)
        requires
            now.valid(),
            timestamp.valid(),
            signing_fits(
                secret_key@,
                canonical_request(method@, uri@, query_string@, headers@, payload_hash@),
                region@,
                service@,
            ),
        ensures
            too_far_apart(now, timestamp) ==> res == Err::<bool, AuthError>(AuthError::RequestTimestampTooOld),
            !too_far_apart(now, timestamp) ==> res == Ok::<bool, AuthError>(
                signature@ == expected_signature(
                    secret_key@,
                    method@,
                    uri@,
                    query_string@,
                    headers@,
                    payload_hash@,
                    timestamp.secs,
                    region@,
                    service@,
                ),
            ),
    {
        let d: i128 = (now.secs as i128 - timestamp.secs as i128) * 1_000_000_000 + (now.nanos as i128
            - timestamp.nanos as i128);
        assert(d == now.total_nanos() - timestamp.total_nanos());
        if d > 900_000_000_000 || -d > 900_000_000_000 {
            return Err(AuthError::RequestTimestampTooOld);
        }
        let canonical = Self::create_canonical_request(method, uri, query_string, headers, payload_hash);
        let to_sign = Self::create_string_to_sign(canonical.as_str(), timestamp, region, service);
        let key = Self::get_signing_key(secret_key, timestamp, region, service);
        proof {
            lemma_utf8_len_bound(to_sign@);
        }
        let expected = Self::calculate_signature(key.as_slice(), to_sign.as_str());
        let given = signature.to_owned();
        Ok(expected == given)
    }

    /// Checks a request signature against the current time (see
    /// `validate_signature_at`); whatever the clock says, an `Ok` answer is whether
    /// the signature is the expected one.
    pub fn validate_signature(
        secret_key: &str,
        access_key: &str,
        method: &str,
        uri: &str,
        query_string: &str,
        headers: &StringMap,
        payload_hash: &str,
        signature: &str,
        timestamp: UtcTime,
        region: &str,
        service: &str,
    ) -> (res: Result<bool, AuthError>)
        requires
            timestamp.valid(),
            signing_fits(
                secret_key@,
                canonical_request(method@, uri@, query_string@, headers@, payload_hash@),
                region@,
                service@,
            ),
        ensures
            res is Err ==> res == Err::<bool, AuthError>(AuthError::RequestTimestampTooOld),
            res matches Ok(valid) ==> valid == (signature@ == expected_signature(
                secret_key@,
                method@,
                uri@,
                query_string@,
                headers@,
                payload_hash@,
                timestamp.secs,
                region@,
                service@,
            )),
    {
        let now = utc_now();
        Self::validate_signature_at(
            now,
            secret_key,
            access_key,
            method,
            uri,
            query_string,
            headers,
            payload_hash,
            signature,
            timestamp,
            region,
            service,
        )
    }

    /// The canonical URI of a request path.
    pub fn canonical_uri_encode(uri: &str) -> (res: String)
        ensures
            res@ == canonical_uri(uri@),
            uri@.len() == 0 ==> res@ == seq!['/'],
            uri@.len() > 0 ==> split(res@, seq!['/']).len() == split(uri@, seq!['/']).len(),
            uri@.len() > 0 ==> forall|i: int|
                0 <= i < split(uri@, seq!['/']).len() ==> #[trigger] split(res@, seq!['/'])[i] == url_encoded(
                    split(uri@, seq!['/'])[i],
                ),
    {
        proof {
            if uri@.len() > 0 {
                lemma_canonical_uri_segments(uri@);
            }
        }
        let u = chars_of(uri);
        if u.len() == 0 {
            return string_of_char('/');
        }
        let sep = one_char('/');
        let pieces = split_exec(u.as_slice(), sep.as_slice());
        let enc = encode_pieces(&pieces);
        string_of(join_exec(&enc, sep.as_slice()).as_slice())
    }

    /// The canonical query string of a raw query string.
    pub fn canonical_query_string(query: &str) -> (res: String)
        ensures
            res@ == canonical_query(query@),
    {
        let q = chars_of(query);
        if q.len() == 0 {
            return String::new();
        }
        let amp = one_char('&');
        let parts = split_exec(q.as_slice(), amp.as_slice());
        let mut params: Vec<Vec<char>> = Vec::new();
        let mut i: usize = 0;
        while i < parts.len()
            invariant
                i <= parts.len(),
                views(parts@) == split(q@, seq!['&']),
                views(params@) == canonical_params(q@).take(i as int),
            decreases parts.len() - i,
        {
            let ghost before = views(params@);
            assert(views(parts@)[i as int] == parts@[i as int]@);
            params.push(canonical_param_exec(&parts[i]));
            assert(views(params@) == before.push(canonical_param(views(parts@)[i as int])));
            i = i + 1;
            assert(views(params@) =~= canonical_params(q@).take(i as int));
        }
        assert(canonical_params(q@).take(parts.len() as int) =~= canonical_params(q@));
        let sorted = sort_strings(params);
        string_of(join_exec(&sorted, amp.as_slice()).as_slice())
    }

    /// The canonical header lines and the signed-header list of a header map.
    pub fn canonical_headers(headers: &StringMap) -> (res: (String, String))
        ensures
            res.0@ == canonical_headers_text(headers@),
            res.1@ == signed_headers_text(headers@),
    {
        let ghost normalized = headers@.map_values(|e: Entry| header_entry(e));
        let mut entries: Vec<(Vec<char>, Vec<char>)> = Vec::new();
        let mut i: usize = 0;
        while i < headers.len()
            invariant
                i <= headers@.len(),
                normalized == headers@.map_values(|e: Entry| header_entry(e)),
                entry_views(entries@) == normalized.take(i as int),
            decreases headers@.len() - i,
        {
            let (k, v) = headers.entry(i);
            let name = chars_of(to_lowercase(k.as_str()).as_str());
            let value = trim_exec(chars_of(v.as_str()).as_slice());
            let ghost before = entry_views(entries@);
            assert((name@, value@) == header_entry(headers@[i as int]));
            entries.push((name, value));
            assert(entry_views(entries@) == before.push(header_entry(headers@[i as int])));
            i = i + 1;
            assert(entry_views(entries@) =~= normalized.take(i as int));
        }
        assert(normalized.take(headers@.len() as int) =~= normalized);
        let sorted = sort_entries_by_name(entries);
        let ghost sv = entry_views(sorted@);
        let mut lines: Vec<Vec<char>> = Vec::new();
        let mut names: Vec<Vec<char>> = Vec::new();
        let mut j: usize = 0;
        while j < sorted.len()
            invariant
                j <= sorted.len(),
                sv == entry_views(sorted@),
                views(lines@) == sv.map_values(|e: Entry| e.0 + seq![':'] + e.1).take(j as int),
                views(names@) == sv.map_values(|e: Entry| e.0).take(j as int),
            decreases sorted.len() - j,
        {
            let ghost e = sv[j as int];
            assert(e == (sorted@[j as int].0@, sorted@[j as int].1@));
            let mut line: Vec<char> = Vec::new();
            extend_chars(&mut line, sorted[j].0.as_slice());
            line.push(':');
            extend_chars(&mut line, sorted[j].1.as_slice());
            assert(line@ =~= e.0 + seq![':'] + e.1);
            let mut name: Vec<char> = Vec::new();
            extend_chars(&mut name, sorted[j].0.as_slice());
            let ghost lb = views(lines@);
            let ghost nb = views(names@);
            lines.push(line);
            names.push(name);
            assert(views(lines@) == lb.push(e.0 + seq![':'] + e.1));
            assert(views(names@) == nb.push(e.0));
            j = j + 1;
            assert(views(lines@) =~= sv.map_values(|e: Entry| e.0 + seq![':'] + e.1).take(j as int));
            assert(views(names@) =~= sv.map_values(|e: Entry| e.0).take(j as int));
        }
        assert(sv.map_values(|e: Entry| e.0 + seq![':'] + e.1).take(sorted.len() as int) =~= sv.map_values(|e: Entry| e.0 + seq![':'] + e.1));
        assert(sv.map_values(|e: Entry| e.0).take(sorted.len() as int) =~= sv.map_values(|e: Entry| e.0));
        let nl = one_char('\n');
        let mut text = join_exec(&lines, nl.as_slice());
        text.push('\n');
        let semi = one_char(';');
        let signed = join_exec(&names, semi.as_slice());
        (string_of(text.as_slice()), string_of(signed.as_slice()))
    }
}


/// The value of the last `name=value` part named `name`.
pub open spec fn field_value(parts: Seq<Seq<char>>, name: Seq<char>) -> Option<Seq<char>>
    decreases parts.len(),
{
    if parts.len() == 0 {
        None
    } else {
        match split_once(parts.last(), '=') {
            Some((k, v)) => if k == name {
                Some(v)
            } else {
                field_value(parts.drop_last(), name)
            },
            None => field_value(parts.drop_last(), name),
        }
    }
}

/// The parts of an authorization header: access key id, date, region, service,
/// signed headers and signature.
pub type AuthInfoView = (Seq<char>, Seq<char>, Seq<char>, Seq<char>, Seq<Seq<char>>, Seq<char>);

/// What `parse_authorization_header` gives for a header.
pub open spec fn parse_authorization(h: Seq<char>) -> Result<AuthInfoView, AuthError> {
    let prefix = "AWS4-HMAC-SHA256 "@;
    if !starts_with(h, prefix) {
        Err(AuthError::InvalidAuthorizationHeader)
    } else {
        let parts = split(h.skip(prefix.len() as int), ", "@);
        match field_value(parts, "Credential"@) {
            None => Err(AuthError::MissingCredential),
            Some(credential) => match field_value(parts, "SignedHeaders"@) {
                None => Err(AuthError::MissingSignedHeaders),
                Some(signed) => match field_value(parts, "Signature"@) {
                    None => Err(AuthError::MissingSignature),
                    Some(signature) => {
                        let c = split(credential, seq!['/']);
                        if c.len() != 5 {
                            Err(AuthError::InvalidCredentialFormat)
                        } else {
                            Ok((c[0], c[1], c[2], c[3], split(signed, seq![';']), signature))
                        }
                    },
                },
            },
        }
    }
}

/// The parts of a SigV4 `Authorization` header.
#[derive(Debug)]
pub struct SigV4AuthInfo {
    pub access_key_id: String,
    pub date: String,
    pub region: String,
    pub service: String,
    pub signed_headers: Vec<String>,
    pub signature: String,
}

impl SigV4AuthInfo {
    /// The parts as character sequences.
    pub open spec fn parts(&self) -> AuthInfoView {
        (
            self.access_key_id@,
            self.date@,
            self.region@,
            self.service@,
            string_views(self.signed_headers@),
            self.signature@,
        )
    }
}

/// The value of the last part named `name`, looking at every part.
fn find_field(parts: &Vec<Vec<char>>, name: &str) -> (res: Option<Vec<char>>)
    ensures
        opt_view(res) == field_value(views(parts@), name@),
{
    let key = chars_of(name);
    let mut found: Option<Vec<char>> = None;
    let mut i: usize = 0;
    while i < parts.len()
        invariant
            i <= parts.len(),
            key@ == name@,
            opt_view(found) == field_value(views(parts@).take(i as int), name@),
        decreases parts.len() - i,
    {
        let ghost p = views(parts@).take(i + 1);
        assert(p.drop_last() == views(parts@).take(i as int));
        assert(p.last() == parts@[i as int]@);
        match split_once_exec(parts[i].as_slice(), '=') {
            Some((k, v)) => {
                if chars_eq(k.as_slice(), key.as_slice()) {
                    found = Some(v);
                }
            },
            None => {},
        }
        i = i + 1;
    }
    assert(views(parts@).take(parts.len() as int) == views(parts@));
    found
}

/// Parses a SigV4 `Authorization` header of the form
/// `AWS4-HMAC-SHA256 Credential=id/date/region/service/aws4_request, SignedHeaders=a;b, Signature=hex`.
pub fn parse_authorization_header(auth_header: &str) -> (res: Result<SigV4AuthInfo, AuthError>)
    ensures
        match (res, parse_authorization(auth_header@)) {
            (Ok(info), Ok(parts)) => info.parts() == parts,
            (Err(e), Err(f)) => e == f,
            _ => false,
        },
{
    let h = chars_of(auth_header);
    let prefix_str = "AWS4-HMAC-SHA256 ";
    let prefix = chars_of(prefix_str);
    proof {
        reveal_strlit("AWS4-HMAC-SHA256 ");
    }
    if !occurs_at_exec(h.as_slice(), 0, prefix.as_slice()) {
        return Err(AuthError::InvalidAuthorizationHeader);
    }
    let rest = skip_chars(h.as_slice(), prefix.len());
    let sep = chars_of(", ");
    proof {
        reveal_strlit(", ");
    }
    let parts = split_exec(rest.as_slice(), sep.as_slice());
    let credential = match find_field(&parts, "Credential") {
        Some(c) => c,
        None => return Err(AuthError::MissingCredential),
    };
    let signed = match find_field(&parts, "SignedHeaders") {
        Some(c) => c,
        None => return Err(AuthError::MissingSignedHeaders),
    };
    let signature = match find_field(&parts, "Signature") {
        Some(c) => c,
        None => return Err(AuthError::MissingSignature),
    };
    let slash = one_char('/');
    let c = split_exec(credential.as_slice(), slash.as_slice());
    if c.len() != 5 {
        return Err(AuthError::InvalidCredentialFormat);
    }
    let semi = one_char(';');
    let headers = split_exec(signed.as_slice(), semi.as_slice());
    let info = SigV4AuthInfo {
        access_key_id: string_of(c[0].as_slice()),
        date: string_of(c[1].as_slice()),
        region: string_of(c[2].as_slice()),
        service: string_of(c[3].as_slice()),
        signed_headers: strings_of(&headers),
        signature: string_of(signature.as_slice()),
    };
    assert(views(c@)[0] == c@[0]@ && views(c@)[1] == c@[1]@ && views(c@)[2] == c@[2]@ && views(c@)[3] == c@[3]@);
    Ok(info)
}


/// The credential field of an authorization header:
/// `Credential=id/date/region/service/aws4_request`.
pub open spec fn credential_field(p: AuthInfoView) -> Seq<char> {
    "Credential="@ + p.0 + seq!['/'] + p.1 + seq!['/'] + p.2 + seq!['/'] + p.3 + "/aws4_request"@
}

/// The `Authorization` header that carries the given parts:
/// `AWS4-HMAC-SHA256 Credential=id/date/region/service/aws4_request, SignedHeaders=h1;h2, Signature=sig`.
pub open spec fn authorization_header_text(p: AuthInfoView) -> Seq<char> {
    "AWS4-HMAC-SHA256 "@ + credential_field(p) + ", "@ + ("SignedHeaders="@ + join(p.4, seq![';'])) + ", "@
        + ("Signature="@ + p.5)
}

/// Whether `s` holds `, `, which separates the fields of an authorization header.
pub open spec fn holds_field_separator(s: Seq<char>) -> bool {
    exists|i: int| 0 <= i < s.len() - 1 && #[trigger] s[i] == ',' && s[i + 1] == ' '
}

proof fn lemma_no_separator_concat(x: Seq<char>, y: Seq<char>)
    requires
        !holds_field_separator(x),
        !holds_field_separator(y),
        x.len() > 0 && y.len() > 0 ==> !(x.last() == ',' && y[0] == ' '),
    ensures
        !holds_field_separator(x + y),
{
    let s = x + y;
    if holds_field_separator(s) {
        let i = choose|i: int| 0 <= i < s.len() - 1 && #[trigger] s[i] == ',' && s[i + 1] == ' ';
        if i + 1 < x.len() {
            assert(x[i] == ',' && x[i + 1] == ' ');
        } else if i >= x.len() {
            assert(y[i - x.len()] == ',' && y[i - x.len() + 1] == ' ');
        } else {
            assert(x.last() == s[i]);
            assert(y[0] == s[i + 1]);
        }
    }
}

proof fn lemma_no_separator_chars(s: Seq<char>)
    requires
        !s.contains(','),
    ensures
        !holds_field_separator(s),
{
    if holds_field_separator(s) {
        let i = choose|i: int| 0 <= i < s.len() - 1 && #[trigger] s[i] == ',' && s[i + 1] == ' ';
        assert(s.contains(','));
    }
}

proof fn lemma_free_of_separator(a: Seq<char>, b: Seq<char>)
    requires
        !holds_field_separator(a),
        b.len() == 0 || b[0] != ' ',
    ensures
        free_before(a + b, a.len() as int, ", "@),
{
    reveal_strlit(", ");
    let s = a + b;
    assert forall|i: int| 0 <= i < a.len() implies !#[trigger] crate::text::occurs_at(s, i, ", "@) by {
        if crate::text::occurs_at(s, i, ", "@) {
            assert(s.subrange(i, i + 2)[0] == s[i]);
            assert(s.subrange(i, i + 2)[1] == s[i + 1]);
            assert(s[i] == ',' && s[i + 1] == ' ');
            if i + 1 < a.len() {
                assert(a[i] == ',' && a[i + 1] == ' ');
                assert(holds_field_separator(a));
            } else {
                assert(s[i + 1] == b[0]);
            }
        }
    }
}

proof fn lemma_join_no_separator(p: Seq<Seq<char>>)
    requires
        forall|j: int| 0 <= j < p.len() ==> !holds_field_separator(#[trigger] p[j]),
    ensures
        !holds_field_separator(join(p, seq![';'])),
    decreases p.len(),
{
    if p.len() == 0 {
    } else if p.len() == 1 {
        assert(!holds_field_separator(p[0]));
    } else {
        let q = p.drop_last();
        assert forall|j: int| 0 <= j < q.len() implies !holds_field_separator(#[trigger] q[j]) by {
            assert(q[j] == p[j]);
        }
        lemma_join_no_separator(q);
        lemma_no_separator_chars(seq![';']);
        lemma_no_separator_concat(join(q, seq![';']), seq![';']);
        assert(!holds_field_separator(p[p.len() - 1]));
        lemma_no_separator_concat(join(q, seq![';']) + seq![';'], p.last());
    }
}

proof fn lemma_no_char_in(s: Seq<char>, c: char)
    requires
        forall|i: int| 0 <= i < s.len() ==> s[i] != c,
    ensures
        !s.contains(c),
{
}

proof fn lemma_credential_free(p: AuthInfoView)
    requires
        !holds_field_separator(p.0),
        !holds_field_separator(p.1),
        !holds_field_separator(p.2),
        !holds_field_separator(p.3),
    ensures
        !holds_field_separator(credential_field(p)),
{
    reveal_strlit("Credential=");
    reveal_strlit("/aws4_request");
    let slash = seq!['/'];
    lemma_no_separator_chars("Credential="@);
    lemma_no_separator_chars(slash);
    lemma_no_separator_chars("/aws4_request"@);
    let a1 = "Credential="@ + p.0;
    lemma_no_separator_concat("Credential="@, p.0);
    lemma_no_separator_concat(a1, slash);
    let a2 = a1 + slash + p.1;
    lemma_no_separator_concat(a1 + slash, p.1);
    lemma_no_separator_concat(a2, slash);
    let a3 = a2 + slash + p.2;
    lemma_no_separator_concat(a2 + slash, p.2);
    lemma_no_separator_concat(a3, slash);
    let a4 = a3 + slash + p.3;
    lemma_no_separator_concat(a3 + slash, p.3);
    lemma_no_separator_concat(a4, "/aws4_request"@);
    assert(credential_field(p) == a4 + "/aws4_request"@);
}

proof fn lemma_labelled_free(label: Seq<char>, v: Seq<char>)
    requires
        !label.contains(','),
        label.len() > 0,
        label.last() == '=',
        !holds_field_separator(v),
    ensures
        !holds_field_separator(label + v),
{
    lemma_no_separator_chars(label);
    lemma_no_separator_concat(label, v);
}

proof fn lemma_header_splits(a: Seq<char>, b: Seq<char>, c: Seq<char>)
    requires
        !holds_field_separator(a),
        !holds_field_separator(b),
        !holds_field_separator(c),
    ensures
        split(a + ", "@ + b + ", "@ + c, ", "@) == seq![a, b, c],
{
    reveal_strlit(", ");
    let sep = ", "@;
    lemma_free_of_separator(a, sep + (b + sep + c));
    assert(a + sep + b + sep + c =~= a + sep + (b + sep + c));
    assert(a + sep + (b + sep + c) =~= a + (sep + (b + sep + c)));
    lemma_split_at_free(a, b + sep + c, sep);
    lemma_free_of_separator(b, sep + c);
    assert(b + sep + c =~= b + (sep + c));
    lemma_split_at_free(b, c, sep);
    lemma_free_of_separator(c, Seq::empty());
    assert(c + Seq::<char>::empty() =~= c);
    lemma_split_free(c, sep);
    assert(seq![a] + (seq![b] + seq![c]) =~= seq![a, b, c]);
}

proof fn lemma_field_step(parts: Seq<Seq<char>>, name: Seq<char>, k: Seq<char>, v: Seq<char>)
    requires
        parts.len() > 0,
        split_once(parts.last(), '=') == Some((k, v)),
    ensures
        field_value(parts, name) == (if k == name { Some(v) } else { field_value(parts.drop_last(), name) }),
{
}

proof fn lemma_three_fields(
    a: Seq<char>, b: Seq<char>, c: Seq<char>,
    na: Seq<char>, nb: Seq<char>, nc: Seq<char>,
    va: Seq<char>, vb: Seq<char>, vc: Seq<char>,
)
    requires
        split_once(a, '=') == Some((na, va)),
        split_once(b, '=') == Some((nb, vb)),
        split_once(c, '=') == Some((nc, vc)),
        na != nb,
        na != nc,
        nb != nc,
    ensures
        field_value(seq![a, b, c], na) == Some(va),
        field_value(seq![a, b, c], nb) == Some(vb),
        field_value(seq![a, b, c], nc) == Some(vc),
{
    let p3 = seq![a, b, c];
    let p2 = seq![a, b];
    let p1 = seq![a];
    assert(p3.last() == c && p3.drop_last() =~= p2);
    assert(p2.last() == b && p2.drop_last() =~= p1);
    assert(p1.last() == a);
    lemma_field_step(p1, na, na, va);
    lemma_field_step(p2, na, nb, vb);
    lemma_field_step(p2, nb, nb, vb);
    lemma_field_step(p3, na, nc, vc);
    lemma_field_step(p3, nb, nc, vc);
    lemma_field_step(p3, nc, nc, vc);
}

proof fn lemma_header_fields(p: AuthInfoView)
    ensures
        ({
            let parts = seq![credential_field(p), "SignedHeaders="@ + join(p.4, seq![';']), "Signature="@ + p.5];
            &&& field_value(parts, "Credential"@) == Some(credential_value(p))
            &&& field_value(parts, "SignedHeaders"@) == Some(join(p.4, seq![';']))
            &&& field_value(parts, "Signature"@) == Some(p.5)
        }),
{
    let joined = join(p.4, seq![';']);
    lemma_credential_field_named(p);
    reveal_strlit("Credential");
    reveal_strlit("SignedHeaders");
    reveal_strlit("Signature");
    reveal_strlit("SignedHeaders=");
    reveal_strlit("Signature=");
    assert("SignedHeaders="@ =~= "SignedHeaders"@.push('='));
    assert("Signature="@ =~= "Signature"@.push('='));
    lemma_labelled_field("SignedHeaders"@, "SignedHeaders="@, joined);
    lemma_labelled_field("Signature"@, "Signature="@, p.5);
    assert("Credential"@.len() == 10 && "SignedHeaders"@.len() == 13 && "Signature"@.len() == 9);
    lemma_three_fields(
        credential_field(p), "SignedHeaders="@ + joined, "Signature="@ + p.5,
        "Credential"@, "SignedHeaders"@, "Signature"@,
        credential_value(p), joined, p.5,
    );
}

proof fn lemma_credential_field_named(p: AuthInfoView)
    ensures
        split_once(credential_field(p), '=') == Some(("Credential"@, credential_value(p))),
{
    reveal_strlit("Credential=");
    reveal_strlit("Credential");
    lemma_no_char_in("Credential"@, '=');
    assert(credential_field(p) =~= "Credential"@ + seq!['='] + credential_value(p));
    lemma_split_once_after("Credential"@, '=', credential_value(p));
}

proof fn lemma_labelled_field(name: Seq<char>, label: Seq<char>, v: Seq<char>)
    requires
        label == name.push('='),
        forall|i: int| 0 <= i < name.len() ==> name[i] != '=',
    ensures
        split_once(label + v, '=') == Some((name, v)),
{
    assert(label + v =~= name + seq!['='] + v);
    lemma_split_once_after(name, '=', v);
}

/// The value of the credential field: `id/date/region/service/aws4_request`.
pub open spec fn credential_value(p: AuthInfoView) -> Seq<char> {
    p.0 + seq!['/'] + p.1 + seq!['/'] + p.2 + seq!['/'] + p.3 + "/aws4_request"@
}

proof fn lemma_no_slash(s: Seq<char>)
    requires
        !s.contains('/'),
    ensures
        forall|i: int| 0 <= i < s.len() ==> s[i] != seq!['/'][0],
{
    assert forall|i: int| 0 <= i < s.len() implies s[i] != seq!['/'][0] by {
        if s[i] == '/' {
            assert(s.contains('/'));
        }
    }
}

proof fn lemma_credential_splits(p: AuthInfoView)
    requires
        !p.0.contains('/'),
        !p.1.contains('/'),
        !p.2.contains('/'),
        !p.3.contains('/'),
    ensures
        split(credential_value(p), seq!['/']) == seq![p.0, p.1, p.2, p.3, "aws4_request"@],
{
    reveal_strlit("/aws4_request");
    reveal_strlit("aws4_request");
    let slash = seq!['/'];
    let aws = "aws4_request"@;
    lemma_no_slash(p.0);
    lemma_no_slash(p.1);
    lemma_no_slash(p.2);
    lemma_no_slash(p.3);
    assert(credential_value(p) =~= p.0 + slash + (p.1 + slash + (p.2 + slash + (p.3 + slash + aws))));
    lemma_split_at_pattern(p.0, p.1 + slash + (p.2 + slash + (p.3 + slash + aws)), slash);
    assert(p.1 + slash + (p.2 + slash + (p.3 + slash + aws)) =~= p.1 + slash + (p.2 + slash + (p.3 + slash + aws)));
    lemma_split_at_pattern(p.1, p.2 + slash + (p.3 + slash + aws), slash);
    lemma_split_at_pattern(p.2, p.3 + slash + aws, slash);
    lemma_split_at_pattern(p.3, aws, slash);
    assert forall|i: int| 0 <= i < aws.len() implies aws[i] != slash[0] by {}
    lemma_split_plain(aws, slash);
    assert(split(credential_value(p), slash) =~= seq![p.0, p.1, p.2, p.3, aws]);
}

proof fn lemma_skip_prefix(prefix: Seq<char>, rest: Seq<char>)
    ensures
        starts_with(prefix + rest, prefix),
        (prefix + rest).skip(prefix.len() as int) == rest,
{
    assert((prefix + rest).subrange(0, prefix.len() as int) =~= prefix);
    assert((prefix + rest).skip(prefix.len() as int) =~= rest);
}

/// A header written from its parts parses back to them, as long as no part holds
/// `, `, no part of the credential holds `/`, no signed header holds `;`, and at
/// least one header is signed.
pub proof fn lemma_authorization_header_roundtrip(p: AuthInfoView)
    requires
        !holds_field_separator(p.0),
        !holds_field_separator(p.1),
        !holds_field_separator(p.2),
        !holds_field_separator(p.3),
        !holds_field_separator(p.5),
        !p.0.contains('/'),
        !p.1.contains('/'),
        !p.2.contains('/'),
        !p.3.contains('/'),
        p.4.len() >= 1,
        forall|j: int| 0 <= j < p.4.len() ==> !holds_field_separator(#[trigger] p.4[j]) && !p.4[j].contains(';'),
    ensures
        parse_authorization(authorization_header_text(p)) == Ok::<AuthInfoView, AuthError>(p),
{
    reveal_strlit("AWS4-HMAC-SHA256 ");
    reveal_strlit("SignedHeaders=");
    reveal_strlit("Signature=");
    let prefix = "AWS4-HMAC-SHA256 "@;
    let joined = join(p.4, seq![';']);
    let a = credential_field(p);
    let b = "SignedHeaders="@ + joined;
    let c = "Signature="@ + p.5;
    let h = authorization_header_text(p);
    let rest = a + ", "@ + b + ", "@ + c;
    assert(h =~= prefix + rest);
    lemma_skip_prefix(prefix, rest);
    lemma_credential_free(p);
    assert forall|j: int| 0 <= j < p.4.len() implies !holds_field_separator(#[trigger] p.4[j]) by {}
    lemma_join_no_separator(p.4);
    lemma_labelled_free("SignedHeaders="@, joined);
    lemma_labelled_free("Signature="@, p.5);
    lemma_header_splits(a, b, c);
    lemma_header_fields(p);
    lemma_credential_splits(p);
    assert forall|j: int| 0 <= j < p.4.len() implies !(#[trigger] p.4[j]).contains(';') by {}
    lemma_split_join(p.4, ';');
}

/// Whether `s` is a field named `name`: its text before the first `=` is `name`.
pub open spec fn names_field(s: Seq<char>, name: Seq<char>) -> bool {
    split_once(s, '=') matches Some((k, _)) && k == name
}

/// Whether `s` is one of the fields that an authorization header is read for.
pub open spec fn is_auth_field(s: Seq<char>) -> bool {
    names_field(s, "Credential"@) || names_field(s, "SignedHeaders"@) || names_field(s, "Signature"@)
}

/// The pieces that splitting joined fields at `, ` gives back: the fields, or
/// one empty piece when there are none.
pub open spec fn joined_pieces(p: Seq<Seq<char>>) -> Seq<Seq<char>> {
    if p.len() == 0 {
        seq![Seq::<char>::empty()]
    } else {
        p
    }
}

proof fn lemma_split_join_fields(p: Seq<Seq<char>>)
    requires
        forall|i: int| 0 <= i < p.len() ==> !holds_field_separator(#[trigger] p[i]),
    ensures
        split(join(p, ", "@), ", "@) == joined_pieces(p),
    decreases p.len(),
{
    reveal_strlit(", ");
    let sep = ", "@;
    if p.len() == 0 {
        assert(split(Seq::<char>::empty(), sep) == seq![Seq::<char>::empty()]);
    } else if p.len() == 1 {
        assert(!holds_field_separator(p[0]));
        lemma_free_of_separator(p[0], Seq::empty());
        assert(p[0] + Seq::<char>::empty() =~= p[0]);
        lemma_split_free(p[0], sep);
        assert(p =~= seq![p[0]]);
    } else {
        let rest = p.drop_first();
        crate::text::lemma_join_first(p, sep);
        assert(!holds_field_separator(p[0]));
        lemma_free_of_separator(p[0], sep + join(rest, sep));
        assert(p[0] + sep + join(rest, sep) =~= p[0] + (sep + join(rest, sep)));
        lemma_split_at_free(p[0], join(rest, sep), sep);
        assert forall|i: int| 0 <= i < rest.len() implies !holds_field_separator(#[trigger] rest[i]) by {
            assert(rest[i] == p[i + 1]);
        }
        lemma_split_join_fields(rest);
        assert(seq![p[0]] + rest =~= p);
    }
}

proof fn lemma_empty_names_no_field(name: Seq<char>)
    ensures
        !names_field(Seq::<char>::empty(), name),
{
    reveal(crate::text::first_index);
}

proof fn lemma_field_value_unique(parts: Seq<Seq<char>>, name: Seq<char>, v: Seq<char>)
    requires
        forall|i: int| 0 <= i < parts.len() && names_field(#[trigger] parts[i], name) ==> split_once(parts[i], '=') == Some((name, v)),
    ensures
        field_value(parts, name) == (if exists|i: int| 0 <= i < parts.len() && names_field(#[trigger] parts[i], name) {
            Some(v)
        } else {
            None
        }),
    decreases parts.len(),
{
    if parts.len() > 0 {
        let q = parts.drop_last();
        let n = parts.len() - 1;
        assert(parts.last() == parts[n]);
        assert forall|i: int| 0 <= i < q.len() && names_field(#[trigger] q[i], name) implies split_once(q[i], '=') == Some((name, v)) by {
            assert(q[i] == parts[i]);
        }
        lemma_field_value_unique(q, name, v);
        if names_field(parts[n], name) {
            assert(split_once(parts[n], '=') == Some((name, v)));
        } else {
            assert((exists|i: int| 0 <= i < parts.len() && names_field(#[trigger] parts[i], name)) == (exists|i: int|
                0 <= i < q.len() && names_field(#[trigger] q[i], name))) by {
                if exists|i: int| 0 <= i < parts.len() && names_field(#[trigger] parts[i], name) {
                    let i = choose|i: int| 0 <= i < parts.len() && names_field(#[trigger] parts[i], name);
                    assert(i < n);
                    assert(q[i] == parts[i]);
                }
                if exists|i: int| 0 <= i < q.len() && names_field(#[trigger] q[i], name) {
                    let i = choose|i: int| 0 <= i < q.len() && names_field(#[trigger] q[i], name);
                    assert(q[i] == parts[i]);
                }
            }
            match split_once(parts[n], '=') {
                Some((k, w)) => {
                    assert(k != name);
                },
                None => {},
            }
        }
    }
}

proof fn lemma_same_field(segs: Seq<Seq<char>>, t: Seq<Seq<char>>, name: Seq<char>)
    requires
        forall|i: int, j: int|
            0 <= i < segs.len() && 0 <= j < segs.len() && i != j && names_field(#[trigger] segs[i], name)
                ==> !names_field(#[trigger] segs[j], name),
        forall|i: int| 0 <= i < segs.len() ==> t.contains(#[trigger] segs[i]),
        forall|j: int| 0 <= j < t.len() ==> segs.contains(#[trigger] t[j]) || !names_field(t[j], name),
    ensures
        field_value(joined_pieces(segs), name) == field_value(joined_pieces(t), name),
{
    lemma_empty_names_no_field(name);
    let p1 = joined_pieces(segs);
    let p2 = joined_pieces(t);
    if exists|i: int| 0 <= i < segs.len() && names_field(#[trigger] segs[i], name) {
        let i0 = choose|i: int| 0 <= i < segs.len() && names_field(#[trigger] segs[i], name);
        let v = match split_once(segs[i0], '=') {
            Some((_, w)) => w,
            None => Seq::<char>::empty(),
        };
        assert(split_once(segs[i0], '=') == Some((name, v)));
        assert forall|i: int| 0 <= i < p1.len() && names_field(#[trigger] p1[i], name) implies split_once(p1[i], '=') == Some((name, v)) by {
            assert(p1 == segs);
            if i != i0 {
                assert(!names_field(segs[i], name));
            }
        }
        assert forall|j: int| 0 <= j < p2.len() && names_field(#[trigger] p2[j], name) implies split_once(p2[j], '=') == Some((name, v)) by {
            if t.len() == 0 {
                assert(p2[j] == Seq::<char>::empty());
            } else {
                assert(p2 == t);
                assert(segs.contains(t[j]));
                let k = choose|k: int| 0 <= k < segs.len() && segs[k] == t[j];
                if k != i0 {
                    assert(!names_field(segs[k], name));
                }
            }
        }
        lemma_field_value_unique(p1, name, v);
        lemma_field_value_unique(p2, name, v);
        assert(p1 == segs && 0 <= i0 < p1.len() && names_field(p1[i0], name));
        assert(t.contains(segs[i0]));
        let j0 = choose|j: int| 0 <= j < t.len() && t[j] == segs[i0];
        assert(p2 == t && names_field(p2[j0], name));
    } else {
        let v = Seq::<char>::empty();
        assert forall|i: int| 0 <= i < p1.len() implies !names_field(#[trigger] p1[i], name) by {
            if segs.len() == 0 {
                assert(p1[i] == Seq::<char>::empty());
            } else {
                assert(p1[i] == segs[i]);
            }
        }
        assert forall|j: int| 0 <= j < p2.len() implies !names_field(#[trigger] p2[j], name) by {
            if t.len() == 0 {
                assert(p2[j] == Seq::<char>::empty());
            } else {
                assert(p2[j] == t[j]);
                if segs.contains(t[j]) {
                    let k = choose|k: int| 0 <= k < segs.len() && segs[k] == t[j];
                    assert(!names_field(segs[k], name));
                }
            }
        }
        lemma_field_value_unique(p1, name, v);
        lemma_field_value_unique(p2, name, v);
    }
}

/// Of two fields with the same name, the later one counts: a field named `name`
/// appended after any fields gives its value, and a field with another name (or
/// none) leaves the value as it was.
pub proof fn lemma_later_field_wins(parts: Seq<Seq<char>>, x: Seq<char>, name: Seq<char>)
    ensures
        match split_once(x, '=') {
            Some((k, v)) => k == name ==> field_value(parts.push(x), name) == Some(v),
            None => true,
        },
        !names_field(x, name) ==> field_value(parts.push(x), name) == field_value(parts, name),
{
    assert(parts.push(x).last() == x);
    assert(parts.push(x).drop_last() =~= parts);
}

/// The fields of an authorization header may come in any order, and fields that
/// are not read (nor further copies of the fields that are) change nothing: two
/// headers whose fields hold no `, `, the second holding every field of the
/// first and otherwise only fields that are not read, parse alike, when no two
/// fields of the first share a name.
pub proof fn lemma_authorization_fields_any_order(segs: Seq<Seq<char>>, t: Seq<Seq<char>>)
    requires
        forall|i: int| 0 <= i < segs.len() ==> !holds_field_separator(#[trigger] segs[i]),
        forall|j: int| 0 <= j < t.len() ==> !holds_field_separator(#[trigger] t[j]),
        forall|i: int, j: int, name: Seq<char>|
            0 <= i < segs.len() && 0 <= j < segs.len() && i != j && #[trigger] names_field(segs[i], name)
                ==> !#[trigger] names_field(segs[j], name),
        forall|i: int| 0 <= i < segs.len() ==> t.contains(#[trigger] segs[i]),
        forall|j: int| 0 <= j < t.len() ==> segs.contains(#[trigger] t[j]) || !is_auth_field(t[j]),
    ensures
        parse_authorization("AWS4-HMAC-SHA256 "@ + join(segs, ", "@)) == parse_authorization(
            "AWS4-HMAC-SHA256 "@ + join(t, ", "@),
        ),
{
    reveal_strlit("AWS4-HMAC-SHA256 ");
    let prefix = "AWS4-HMAC-SHA256 "@;
    lemma_skip_prefix(prefix, join(segs, ", "@));
    lemma_skip_prefix(prefix, join(t, ", "@));
    lemma_split_join_fields(segs);
    lemma_split_join_fields(t);
    lemma_same_field(segs, t, "Credential"@);
    lemma_same_field(segs, t, "SignedHeaders"@);
    lemma_same_field(segs, t, "Signature"@);
}

/// One query parameter as `build_query_string` writes it: name and value
/// URL-encoded and joined by `=`.
pub open spec fn query_pair(e: Entry) -> Seq<char> {
    url_encoded(e.0) + seq!['='] + url_encoded(e.1)
}

/// The query string of a parameter map: its entries sorted by name, each written
/// as `name=value`, joined by `&`.
pub open spec fn query_from_params(params: Seq<Entry>) -> Seq<char> {
    join(sort_by_name(params).map_values(|e: Entry| query_pair(e)), seq!['&'])
}

/// The parameters of a presigned URL, in the order in which they are inserted.
pub open spec fn presign_params(
    access_key: Seq<char>,
    secs: i64,
    region: Seq<char>,
    service: Seq<char>,
    expires_in_seconds: u64,
) -> Seq<Entry> {
    seq![
        ("X-Amz-Algorithm"@, "AWS4-HMAC-SHA256"@),
        ("X-Amz-Credential"@, access_key + seq!['/'] + credential_scope(secs, region, service)),
        ("X-Amz-Date"@, utc_amz_date(secs)),
        ("X-Amz-Expires"@, decimal(expires_in_seconds as nat)),
        ("X-Amz-SignedHeaders"@, "host"@),
    ]
}

/// The path of an object: `/bucket/key`.
pub open spec fn object_uri(bucket: Seq<char>, key: Seq<char>) -> Seq<char> {
    seq!['/'] + bucket + seq!['/'] + key
}

/// The query string of a presigned URL (without its signature).
pub open spec fn presign_query(
    access_key: Seq<char>,
    secs: i64,
    region: Seq<char>,
    service: Seq<char>,
    expires_in_seconds: u64,
) -> Seq<char> {
    query_from_params(presign_params(access_key, secs, region, service, expires_in_seconds))
}

/// The canonical request that a presigned URL signs.
pub open spec fn presign_canonical_request(
    access_key: Seq<char>,
    method: Seq<char>,
    bucket: Seq<char>,
    key: Seq<char>,
    expires_in_seconds: u64,
    secs: i64,
    region: Seq<char>,
    service: Seq<char>,
    host: Seq<char>,
) -> Seq<char> {
    canonical_request(
        method,
        object_uri(bucket, key),
        presign_query(access_key, secs, region, service, expires_in_seconds),
        seq![("host"@, host)],
        "UNSIGNED-PAYLOAD"@,
    )
}

/// The presigned URL made at `secs`.
pub open spec fn presigned_url(
    secret: Seq<char>,
    access_key: Seq<char>,
    method: Seq<char>,
    bucket: Seq<char>,
    key: Seq<char>,
    expires_in_seconds: u64,
    secs: i64,
    region: Seq<char>,
    service: Seq<char>,
    host: Seq<char>,
) -> Seq<char> {
    let canonical = presign_canonical_request(
        access_key,
        method,
        bucket,
        key,
        expires_in_seconds,
        secs,
        region,
        service,
        host,
    );
    let signature = signature_of(
        signing_key(secret, secs, region, service),
        string_to_sign(canonical, secs, region, service),
    );
    "https://"@ + host + seq!['/'] + trim_leading(object_uri(bucket, key), '/') + seq!['?']
        + presign_query(access_key, secs, region, service, expires_in_seconds)
        + "&X-Amz-Signature="@ + signature
}

/// Whether `now` plus the expiry, as a whole number of seconds, stays within
/// the range of time spans and of UTC date-times (beyond it the expiry
/// computation panics).
pub open spec fn expiry_in_range(now: UtcTime, expires_in_seconds: u64) -> bool {
    let s = expires_in_seconds as i64;
    -9_223_372_036_854_775 <= s <= 9_223_372_036_854_775 && MIN_UTC_SECS <= now.secs + s
        <= MAX_UTC_SECS
}

impl SigV4Validator {
    /// The query string of a parameter map: entries sorted by name, each as
    /// `name=value` with both URL-encoded, joined by `&`.
    pub fn build_query_string(params: &StringMap) -> (res: String)
        ensures
            res@ == query_from_params(params@),
    {
        let mut entries: Vec<(Vec<char>, Vec<char>)> = Vec::new();
        let mut i: usize = 0;
        while i < params.len()
            invariant
                i <= params@.len(),
                entry_views(entries@) == params@.take(i as int),
            decreases params@.len() - i,
        {
            let (k, v) = params.entry(i);
            let ghost before = entry_views(entries@);
            entries.push((chars_of(k.as_str()), chars_of(v.as_str())));
            assert(entry_views(entries@) == before.push(params@[i as int]));
            i = i + 1;
            assert(entry_views(entries@) =~= params@.take(i as int));
        }
        assert(params@.take(params@.len() as int) =~= params@);
        let sorted = sort_entries_by_name(entries);
        let ghost sv = entry_views(sorted@);
        let mut pairs: Vec<Vec<char>> = Vec::new();
        let mut j: usize = 0;
        while j < sorted.len()
            invariant
                j <= sorted.len(),
                sv == entry_views(sorted@),
                views(pairs@) == sv.map_values(|e: Entry| query_pair(e)).take(j as int),
            decreases sorted.len() - j,
        {
            let ghost e = sv[j as int];
            assert(e == (sorted@[j as int].0@, sorted@[j as int].1@));
            let mut pair = encode_chars(sorted[j].0.as_slice());
            pair.push('=');
            let ev = encode_chars(sorted[j].1.as_slice());
            extend_chars(&mut pair, ev.as_slice());
            assert(pair@ =~= query_pair(e));
            let ghost before = views(pairs@);
            pairs.push(pair);
            assert(views(pairs@) == before.push(query_pair(e)));
            j = j + 1;
            assert(views(pairs@) =~= sv.map_values(|e: Entry| query_pair(e)).take(j as int));
        }
        assert(sv.map_values(|e: Entry| query_pair(e)).take(sorted.len() as int) =~= sv.map_values(|e: Entry| query_pair(e)));
        let amp = one_char('&');
        string_of(join_exec(&pairs, amp.as_slice()).as_slice())
    }

    /// The query string, the canonical request and the path of a presigned URL
    /// made at `now`.
    fn presign_parts(
        now: UtcTime,
        access_key: &str,
        method: &str,
        bucket: &str,
        key: &str,
        expires_in_seconds: u64,
        region: &str,
        service: &str,
        host: &str,
    ) -> (res: (String, String, Vec<char>))
        requires
            now.valid(),
        ensures
            res.0@ == presign_query(access_key@, now.secs, region@, service@, expires_in_seconds),
            res.1@ == presign_canonical_request(
                access_key@,
                method@,
                bucket@,
                key@,
                expires_in_seconds,
                now.secs,
                region@,
                service@,
                host@,
            ),
            res.2@ == object_uri(bucket@, key@),
    {
        let date = format_date_stamp(now.secs);
        let amz = format_amz_date(now.secs);
        let mut credential: Vec<char> = Vec::new();
        push_str_chars(&mut credential, access_key);
        credential.push('/');
        push_str_chars(&mut credential, date.as_str());
        credential.push('/');
        push_str_chars(&mut credential, region);
        credential.push('/');
        push_str_chars(&mut credential, service);
        push_str_chars(&mut credential, "/aws4_request");
        assert(credential@ =~= access_key@ + seq!['/'] + credential_scope(now.secs, region@, service@));
        let expires = decimal_exec(expires_in_seconds);
        proof {
            reveal_strlit("X-Amz-Algorithm");
            reveal_strlit("X-Amz-Credential");
            reveal_strlit("X-Amz-Date");
            reveal_strlit("X-Amz-Expires");
            reveal_strlit("X-Amz-SignedHeaders");
        }
        assert("X-Amz-Algorithm"@.len() == 15 && "X-Amz-Credential"@.len() == 16 && "X-Amz-Date"@.len() == 10
            && "X-Amz-Expires"@.len() == 13 && "X-Amz-SignedHeaders"@.len() == 19);
        let mut params = StringMap::new();
        params.insert(String::from_str("X-Amz-Algorithm"), String::from_str("AWS4-HMAC-SHA256"));
        let ghost p1 = params@;
        assert(!(exists|i: int| 0 <= i < p1.len() && p1[i].0 == "X-Amz-Credential"@));
        params.insert(String::from_str("X-Amz-Credential"), string_of(credential.as_slice()));
        let ghost p2 = params@;
        assert(!(exists|i: int| 0 <= i < p2.len() && p2[i].0 == "X-Amz-Date"@));
        params.insert(String::from_str("X-Amz-Date"), amz);
        let ghost p3 = params@;
        assert(!(exists|i: int| 0 <= i < p3.len() && p3[i].0 == "X-Amz-Expires"@));
        params.insert(String::from_str("X-Amz-Expires"), string_of(expires.as_slice()));
        let ghost p4 = params@;
        assert(!(exists|i: int| 0 <= i < p4.len() && p4[i].0 == "X-Amz-SignedHeaders"@));
        params.insert(String::from_str("X-Amz-SignedHeaders"), String::from_str("host"));
        assert(params@ =~= presign_params(access_key@, now.secs, region@, service@, expires_in_seconds));
        let mut uri: Vec<char> = Vec::new();
        uri.push('/');
        push_str_chars(&mut uri, bucket);
        uri.push('/');
        push_str_chars(&mut uri, key);
        assert(uri@ =~= object_uri(bucket@, key@));
        let uri_str = string_of(uri.as_slice());
        let query_string = Self::build_query_string(&params);
        let mut headers = StringMap::new();
        headers.insert(String::from_str("host"), host.to_owned());
        assert(headers@ =~= seq![("host"@, host@)]);
        let canonical = Self::create_canonical_request(
            method,
            uri_str.as_str(),
            query_string.as_str(),
            &headers,
            "UNSIGNED-PAYLOAD",
        );
        (query_string, canonical, uri)
    }

    /// The URL for the parts of a presigned URL, signed at `now`.
    fn sign_presigned_url(
        now: UtcTime,
        secret_key: &str,
        host: &str,
        region: &str,
        service: &str,
        uri: &Vec<char>,
        query_string: &String,
        canonical: &String,
    ) -> (url: String)
        requires
            now.valid(),
            signing_fits(secret_key@, canonical@, region@, service@),
        ensures
            url@ == "https://"@ + host@ + seq!['/'] + trim_leading(uri@, '/') + seq!['?'] + query_string@
                + "&X-Amz-Signature="@ + signature_of(
                signing_key(secret_key@, now.secs, region@, service@),
                string_to_sign(canonical@, now.secs, region@, service@),
            ),
    {
        let to_sign = Self::create_string_to_sign(canonical.as_str(), now, region, service);
        let signing_key = Self::get_signing_key(secret_key, now, region, service);
        proof {
            lemma_utf8_len_bound(to_sign@);
        }
        let signature = Self::calculate_signature(signing_key.as_slice(), to_sign.as_str());
        let path = trim_leading_exec(uri.as_slice(), '/');
        let mut out: Vec<char> = Vec::new();
        push_str_chars(&mut out, "https://");
        push_str_chars(&mut out, host);
        out.push('/');
        extend_chars(&mut out, path.as_slice());
        out.push('?');
        push_str_chars(&mut out, query_string.as_str());
        push_str_chars(&mut out, "&X-Amz-Signature=");
        push_str_chars(&mut out, signature.as_str());
        string_of(out.as_slice())
    }

    /// A presigned URL made at `now`, valid for `expires_in_seconds`, for
    /// `method` on `/bucket/key` at `host`.
    pub fn generate_presigned_url_at(
        now: UtcTime,
        secret_key: &str,
        access_key: &str,
        method: &str,
        bucket: &str,
        key: &str,
        expires_in_seconds: u64,
        region: &str,
        service: &str,
        host: &str,
    ) -> (url: String)
        requires
            now.valid(),
            expiry_in_range(now, expires_in_seconds),
            signing_fits(
                secret_key@,
                presign_canonical_request(
                    access_key@,
                    method@,
                    bucket@,
                    key@,
                    expires_in_seconds,
                    now.secs,
                    region@,
                    service@,
                    host@,
                ),
                region@,
                service@,
            ),
        ensures
            url@ == presigned_url(
                secret_key@,
                access_key@,
                method@,
                bucket@,
                key@,
                expires_in_seconds,
                now.secs,
                region@,
                service@,
                host@,
            ),
    {
        let (query_string, canonical, uri) = Self::presign_parts(
            now,
            access_key,
            method,
            bucket,
            key,
            expires_in_seconds,
            region,
            service,
            host,
        );
        Self::sign_presigned_url(now, secret_key, host, region, service, &uri, &query_string, &canonical)
    }

    /// A presigned URL made at `now` (see `generate_presigned_url_at`), when its
    /// canonical request, the secret, the region and the service stay within
    /// SHA-256's input limit; none otherwise.
    pub fn try_generate_presigned_url_at(
        now: UtcTime,
        secret_key: &str,
        access_key: &str,
        method: &str,
        bucket: &str,
        key: &str,
        expires_in_seconds: u64,
        region: &str,
        service: &str,
        host: &str,
    ) -> (url: Option<String>)
        requires
            now.valid(),
            expiry_in_range(now, expires_in_seconds),
        ensures
            ({
                let fits = signing_fits(
                    secret_key@,
                    presign_canonical_request(
                        access_key@,
                        method@,
                        bucket@,
                        key@,
                        expires_in_seconds,
                        now.secs,
                        region@,
                        service@,
                        host@,
                    ),
                    region@,
                    service@,
                );
                &&& fits ==> (url matches Some(u) && u@ == presigned_url(
                    secret_key@,
                    access_key@,
                    method@,
                    bucket@,
                    key@,
                    expires_in_seconds,
                    now.secs,
                    region@,
                    service@,
                    host@,
                ))
                &&& !fits ==> url is None
            }),
    {
        let (query_string, canonical, uri) = Self::presign_parts(
            now,
            access_key,
            method,
            bucket,
            key,
            expires_in_seconds,
            region,
            service,
            host,
        );
        let limit: u64 = 0x2000_0000_0000_0000;
        let canonical_bytes = canonical.as_str().as_bytes().len() as u64;
        let secret_bytes = secret_key.as_bytes().len() as u64;
        let region_chars = region.unicode_len() as u128;
        let service_chars = service.unicode_len() as u128;
        proof {
            reveal_strlit("AWS4");
            lemma_encode_utf8_concat("AWS4"@, secret_key@);
            vstd::utf8::is_ascii_chars_encode_utf8("AWS4"@);
        }
        if canonical_bytes >= limit || secret_bytes >= limit - 4
            || 4 * (region_chars + service_chars) + 1024 >= limit as u128 {
            return None;
        }
        Some(Self::sign_presigned_url(now, secret_key, host, region, service, &uri, &query_string, &canonical))
    }

    /// A presigned URL made at `now` (see `generate_presigned_url_at`), or
    /// `ExpiryOutOfRange` when the expiry added to `now` would leave the range of
    /// time spans or of date-times.
    pub fn presigned_url_at(
        now: UtcTime,
        secret_key: &str,
        access_key: &str,
        method: &str,
        bucket: &str,
        key: &str,
        expires_in_seconds: u64,
        region: &str,
        service: &str,
        host: &str,
    ) -> (res: Result<String, AuthError>)
        requires
            now.valid(),
            signing_fits(
                secret_key@,
                presign_canonical_request(
                    access_key@,
                    method@,
                    bucket@,
                    key@,
                    expires_in_seconds,
                    now.secs,
                    region@,
                    service@,
                    host@,
                ),
                region@,
                service@,
            ),
        ensures
            res is Ok <==> expiry_in_range(now, expires_in_seconds),
            res matches Ok(url) ==> url@ == presigned_url(
                        secret_key@,
                        access_key@,
                        method@,
                        bucket@,
                        key@,
                        expires_in_seconds,
                        now.secs,
                        region@,
                        service@,
                        host@,
                    ),
            res is Err ==> res == Err::<String, AuthError>(AuthError::ExpiryOutOfRange),
    {
        let s = expires_in_seconds as i64;
        if s < -9_223_372_036_854_775 || s > 9_223_372_036_854_775 {
            return Err(AuthError::ExpiryOutOfRange);
        }
        let end = now.secs as i128 + s as i128;
        if end < MIN_UTC_SECS as i128 || end > MAX_UTC_SECS as i128 {
            return Err(AuthError::ExpiryOutOfRange);
        }
        Ok(
            Self::generate_presigned_url_at(
                now,
                secret_key,
                access_key,
                method,
                bucket,
                key,
                expires_in_seconds,
                region,
                service,
                host,
            ),
        )
    }

    /// A presigned URL made now (see `presigned_url_at`). An expiry that no time
    /// span holds is refused whatever the clock says; an expiry of zero always
    /// gives a URL; otherwise whether the expiry added to the current time stays
    /// within the range of date-times depends on the clock.
    pub fn generate_presigned_url(
        secret_key: &str,
        access_key: &str,
        method: &str,
        bucket: &str,
        key: &str,
        expires_in_seconds: u64,
        region: &str,
        service: &str,
        host: &str,
    ) -> (res: Result<String, AuthError>)
        requires
            forall|secs: i64|
                MIN_UTC_SECS <= secs <= MAX_UTC_SECS ==> #[trigger] signing_fits(
                    secret_key@,
                    presign_canonical_request(
                        access_key@,
                        method@,
                        bucket@,
                        key@,
                        expires_in_seconds,
                        secs,
                        region@,
                        service@,
                        host@,
                    ),
                    region@,
                    service@,
                ),
        ensures
            match res {
                Ok(url) => exists|secs: i64|
                    MIN_UTC_SECS <= secs <= MAX_UTC_SECS && url@ == #[trigger] presigned_url(
                        secret_key@,
                        access_key@,
                        method@,
                        bucket@,
                        key@,
                        expires_in_seconds,
                        secs,
                        region@,
                        service@,
                        host@,
                    ),
                Err(e) => e == AuthError::ExpiryOutOfRange,
            },
            ((expires_in_seconds as i64) < -9_223_372_036_854_775 || (expires_in_seconds as i64)
                > 9_223_372_036_854_775) ==> res == Err::<String, AuthError>(AuthError::ExpiryOutOfRange),
            expires_in_seconds == 0 ==> res is Ok,
    {
        let now = utc_now();
        assert(signing_fits(
            secret_key@,
            presign_canonical_request(
                access_key@,
                method@,
                bucket@,
                key@,
                expires_in_seconds,
                now.secs,
                region@,
                service@,
                host@,
            ),
            region@,
            service@,
        ));
        Self::presigned_url_at(
            now,
            secret_key,
            access_key,
            method,
            bucket,
            key,
            expires_in_seconds,
            region,
            service,
            host,
        )
    }
}

/// The hexadecimal SHA-256 of a payload.
pub fn hash_payload(payload: &[u8]) -> (h: String)
    requires
        payload@.len() < SHA256_INPUT_LIMIT,
    ensures
        h@ == hex_lower(sha256(payload@)),
{
    let digest = sha256_digest(payload);
    hex_encode(digest.as_slice())
}


/// Laws of request canonicalization.
///
/// The canonical query string does not depend on the order of the parameters:
/// two non-empty queries whose `&`-separated parameters are the same, counted
/// with repetition, have the same canonical query string.
pub proof fn lemma_canonical_query_order_independent(q1: Seq<char>, q2: Seq<char>)
    requires
        q1.len() > 0,
        q2.len() > 0,
        split(q1, seq!['&']).to_multiset() == split(q2, seq!['&']).to_multiset(),
    ensures
        canonical_query(q1) == canonical_query(q2),
{
    crate::text::lemma_map_values_multiset(
        split(q1, seq!['&']),
        split(q2, seq!['&']),
        |p: Seq<char>| canonical_param(p),
    );
    let p1 = canonical_params(q1);
    let p2 = canonical_params(q2);
    crate::text::lemma_lex_total_ordering();
    p1.lemma_sort_by_ensures(lex_order());
    p2.lemma_sort_by_ensures(lex_order());
    vstd::seq_lib::lemma_sorted_unique(p1.sort_by(lex_order()), p2.sort_by(lex_order()), lex_order());
}


/// The canonical headers and the signed-header list do not depend on the order in
/// which the headers are held: two header maps with the same entries, whose names
/// stay distinct once lower-cased, canonicalize alike.
pub proof fn lemma_canonical_headers_order_independent(h1: Seq<Entry>, h2: Seq<Entry>)
    requires
        h1.to_multiset() == h2.to_multiset(),
        crate::string_map::names_distinct(h1.map_values(|e: Entry| header_entry(e))),
        crate::string_map::names_distinct(h2.map_values(|e: Entry| header_entry(e))),
    ensures
        canonical_headers_text(h1) == canonical_headers_text(h2),
        signed_headers_text(h1) == signed_headers_text(h2),
{
    let n1 = h1.map_values(|e: Entry| header_entry(e));
    let n2 = h2.map_values(|e: Entry| header_entry(e));
    crate::text::lemma_map_values_multiset(h1, h2, |e: Entry| header_entry(e));
    crate::text::lemma_sort_by_name(n1);
    crate::text::lemma_sort_by_name(n2);
    crate::text::lemma_sorted_by_name_distinct(sort_by_name(n1));
    crate::text::lemma_sorted_by_name_distinct(sort_by_name(n2));
    crate::text::lemma_entry_total_ordering();
    vstd::seq_lib::lemma_sorted_unique(sort_by_name(n1), sort_by_name(n2), crate::text::entry_order());
    assert(sorted_headers(h1) == sorted_headers(h2));
}


/// A presigned URL carries, after `&X-Amz-Signature=`, exactly the signature that
/// signature validation expects for the request that the URL describes: its
/// method, the path `/bucket/key`, the URL's query string without the signature,
/// the `host` header, the `UNSIGNED-PAYLOAD` hash, signed at the time the URL was
/// made.
pub proof fn lemma_presigned_url_carries_expected_signature(
    secret: Seq<char>,
    access_key: Seq<char>,
    method: Seq<char>,
    bucket: Seq<char>,
    key: Seq<char>,
    expires_in_seconds: u64,
    secs: i64,
    region: Seq<char>,
    service: Seq<char>,
    host: Seq<char>,
)
    ensures
        presigned_url(secret, access_key, method, bucket, key, expires_in_seconds, secs, region, service, host)
            == "https://"@ + host + seq!['/'] + trim_leading(object_uri(bucket, key), '/') + seq!['?']
            + presign_query(access_key, secs, region, service, expires_in_seconds) + "&X-Amz-Signature="@
            + expected_signature(
            secret,
            method,
            object_uri(bucket, key),
            presign_query(access_key, secs, region, service, expires_in_seconds),
            seq![("host"@, host)],
            "UNSIGNED-PAYLOAD"@,
            secs,
            region,
            service,
        ),
{
}

} // verus!
