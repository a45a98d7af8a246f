use md5::Digest;
use rand::Rng;
use vstd::prelude::*;

verus! {

/// Inputs to SHA-256 must be shorter than this many bytes (their length in bits
/// must fit in 64 bits).
pub const SHA256_INPUT_LIMIT: u64 = 0x2000_0000_0000_0000;

/// The lower-case hexadecimal digit of a value below sixteen.
pub open spec fn hex_lower_digit(n: nat) -> char {
    if n < 10 {
        ((n + '0' as u32) as u32) as char
    } else {
        ((n - 10 + 'a' as u32) as u32) as char
    }
}

/// The upper-case hexadecimal digit of a value below sixteen.
pub open spec fn hex_upper_digit(n: nat) -> char {
    if n < 10 {
        ((n + '0' as u32) as u32) as char
    } else {
        ((n - 10 + 'A' as u32) as u32) as char
    }
}

/// Two lower-case hexadecimal digits per byte, most significant digit first.
pub open spec fn hex_lower(bytes: Seq<u8>) -> Seq<char>
    decreases bytes.len(),
{
    if bytes.len() == 0 {
        Seq::empty()
    } else {
        seq![hex_lower_digit(bytes[0] as nat / 16), hex_lower_digit(bytes[0] as nat % 16)]
            + hex_lower(bytes.drop_first())
    }
}

/// Hexadecimal text has two digits per byte.
pub proof fn lemma_hex_lower_len(bytes: Seq<u8>)
    ensures
        hex_lower(bytes).len() == 2 * bytes.len(),
    decreases bytes.len(),
{
    if bytes.len() > 0 {
        lemma_hex_lower_len(bytes.drop_first());
    }
}

/// The bytes that percent-encoding leaves as they are: ASCII letters and digits
/// and `-`, `.`, `_`, `~`.
pub open spec fn is_unreserved(b: u8) -> bool {
    ||| (0x30 <= b && b <= 0x39)
    ||| (0x41 <= b && b <= 0x5A)
    ||| (0x61 <= b && b <= 0x7A)
    ||| b == 0x2D
    ||| b == 0x2E
    ||| b == 0x5F
    ||| b == 0x7E
}

/// One byte, percent-encoded.
pub open spec fn percent_encode_byte(b: u8) -> Seq<char> {
    if is_unreserved(b) {
        seq![(b as u32) as char]
    } else {
        seq!['%', hex_upper_digit(b as nat / 16), hex_upper_digit(b as nat % 16)]
    }
}

/// Every byte percent-encoded but the unreserved ones.
pub open spec fn percent_encode(bytes: Seq<u8>) -> Seq<char>
    decreases bytes.len(),
{
    if bytes.len() == 0 {
        Seq::empty()
    } else {
        percent_encode_byte(bytes[0]) + percent_encode(bytes.drop_first())
    }
}

/// Percent-encoding never writes a `/` or a `&`: neither is unreserved, so each
/// is written as `%` and two hexadecimal digits.
pub proof fn lemma_percent_encode_lacks(bytes: Seq<u8>, c: char)
    requires
        c == '/' || c == '&',
    ensures
        !percent_encode(bytes).contains(c),
    decreases bytes.len(),
{
    if bytes.len() > 0 {
        lemma_percent_encode_lacks(bytes.drop_first(), c);
        let b = bytes[0];
        let first = percent_encode_byte(b);
        assert(!first.contains(c)) by {
            if is_unreserved(b) {
                assert(first[0] == (b as u32) as char);
                assert((b as u32) != 47 && (b as u32) != 38);
            } else {
                let hi = b as nat / 16;
                let lo = b as nat % 16;
                assert(hex_upper_digit(hi) != c);
                assert(hex_upper_digit(lo) != c);
                assert(first =~= seq!['%', hex_upper_digit(hi), hex_upper_digit(lo)]);
            }
        }
        let rest = percent_encode(bytes.drop_first());
        assert(percent_encode(bytes) == first + rest);
        if (first + rest).contains(c) {
            let i = choose|i: int| 0 <= i < (first + rest).len() && (first + rest)[i] == c;
            if i < first.len() {
                assert(first.contains(c));
            } else {
                assert(rest[i - first.len()] == c);
                assert(rest.contains(c));
            }
        }
    }
}

/// The URL encoding of the UTF-8 bytes of a string.
pub open spec fn url_encoded(s: Seq<char>) -> Seq<char> {
    percent_encode(vstd::utf8::encode_utf8(s))
}

/// The SHA-256 digest of the given bytes.
pub uninterp spec fn sha256(data: Seq<u8>) -> Seq<u8>;

/// HMAC-SHA256 of `data` under `key`.
pub uninterp spec fn hmac_sha256(key: Seq<u8>, data: Seq<u8>) -> Seq<u8>;

/// The MD5 digest of the given bytes.
pub uninterp spec fn md5(data: Seq<u8>) -> Seq<u8>;

/// `ring::digest::digest` with `SHA256`: the digest is named `sha256`, and its
/// length is 32 bytes, as the algorithm's output length says. Ring panics on an
/// input of `SHA256_INPUT_LIMIT` bytes or more, which `requires` leaves out.
#[verifier::external_body]
pub(crate) fn sha256_digest(data: &[u8]) -> (d: Vec<u8>)
    requires
        data@.len() < SHA256_INPUT_LIMIT,
    ensures
        d@ == sha256(data@),
        d@.len() == 32,
{
    ring::digest::digest(&ring::digest::SHA256, data).as_ref().to_vec()
}

/// `ring::hmac::sign` under `ring::hmac::Key::new(HMAC_SHA256, key)`: the tag is
/// named `hmac_sha256` and is 32 bytes long. A key longer than a block is first
/// hashed, and the message is hashed after one 64-byte block, so ring panics unless
/// `key` is below `SHA256_INPUT_LIMIT` bytes and `data` below that limit less 64.
#[verifier::external_body]
pub(crate) fn hmac_sha256_sign(key: &[u8], data: &[u8]) -> (tag: Vec<u8>)
    requires
        key@.len() < SHA256_INPUT_LIMIT,
        data@.len() + 64 < SHA256_INPUT_LIMIT,
    ensures
        tag@ == hmac_sha256(key@, data@),
        tag@.len() == 32,
{
    ring::hmac::sign(&ring::hmac::Key::new(ring::hmac::HMAC_SHA256, key), data).as_ref().to_vec()
}

/// `hex::encode`: each byte as two lower-case hexadecimal digits.
#[verifier::external_body]
pub(crate) fn hex_encode(data: &[u8]) -> (s: String)
    ensures
        s@ == hex_lower(data@),
{
    hex::encode(data)
}

/// `urlencoding::encode`: every byte of the UTF-8 encoding of `s` is
/// percent-encoded with upper-case hexadecimal digits, except ASCII letters,
/// digits and `-`, `.`, `_`, `~`, which stay as they are.
#[verifier::external_body]
pub(crate) fn url_encode(s: &str) -> (r: String)
    ensures
        r@ == url_encoded(s@),
{
    urlencoding::encode(s).into_owned()
}

/// `md5::Md5::digest` formatted with `{:x}`: the digest is named `md5`, and the
/// formatting gives two lower-case hexadecimal digits per byte.
#[verifier::external_body]
pub(crate) fn md5_lower_hex(data: &[u8]) -> (s: String)
    ensures
        s@ == hex_lower(md5(data@)),
{
    format!("{:x}", md5::Md5::digest(data))
}

/// `rand::thread_rng().gen_range(0..n)`: some number below `n`; the range must
/// not be empty.
#[verifier::external_body]
pub(crate) fn random_below(n: usize) -> (r: usize)
    requires
        n > 0,
    ensures
        r < n,
{
    rand::thread_rng().gen_range(0..n)
}

/// `uuid::Uuid::new_v4`, as its 128-bit value; nothing is promised of it.
#[verifier::external_body]
pub(crate) fn random_uuid() -> (id: u128) {
    uuid::Uuid::new_v4().as_u128()
}

} // verus!
