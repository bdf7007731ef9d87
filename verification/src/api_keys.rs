//! API keys: how keys are made, hashed with a server pepper, checked in
//! constant time, and which custom keys are accepted.
//!
//! A key is stored only as the lowercase hex HMAC-SHA256 of its UTF-8 bytes,
//! keyed with the server pepper.
use vstd::prelude::*;
use hmac::{Hmac, Mac};
use sha2::Sha256;
use subtle::ConstantTimeEq;
use vstd::utf8::{decode_utf8, encode_utf8};
use crate::digits::{utf8_len, utf8_len_capped};
use crate::error::{is_validation_error, GscholarError};
use crate::text::{
    chars_of, concat, copy_range, find, find_from, is_white_space, is_whitespace,
    lemma_find_from, occurs_at, replace_all, replace_chars, string_of, trim, trimmed_chars,
};

verus! {

broadcast use vstd::string::group_string_axioms;

// ---------------------------------------------------------------------------
// Outside primitives
// ---------------------------------------------------------------------------

/// What HMAC-SHA256 (`hmac::Hmac<sha2::Sha256>`) computes for a key and a
/// message.
pub uninterp spec fn hmac_sha256(key: Seq<u8>, message: Seq<u8>) -> Seq<u8>;

/// HMAC-SHA256 of `message` under `key`: `Mac::new_from_slice`, `update`,
/// `finalize` of `hmac::Hmac<sha2::Sha256>`. The contract names the result
/// and states its length, the 32 bytes of a SHA-256 digest. The crate's
/// `new_from_slice` for `Hmac` returns `Ok` for keys of any length, so the
/// `expect` never fires.
#[verifier::external_body]
fn hmac_sha256_digest(key: &[u8], message: &[u8]) -> (r: Vec<u8>)
    ensures
        r@ == hmac_sha256(key@, message@),
        r@.len() == 32,
{
    let mut mac = <Hmac<Sha256> as Mac>::new_from_slice(key).expect("HMAC accepts any key length");
    mac.update(message);
    mac.finalize().into_bytes().to_vec()
}

/// The lowercase hexadecimal digit for `n` in `0..16`.
pub open spec fn hex_digit(n: int) -> char {
    if n < 10 {
        (48 + n) as char
    } else {
        (87 + n) as char
    }
}

/// Two lowercase hexadecimal digits per byte, high nibble first.
pub open spec fn hex_of(bytes: Seq<u8>) -> Seq<char>
    decreases bytes.len(),
{
    if bytes.len() == 0 {
        Seq::empty()
    } else {
        seq![hex_digit(bytes[0] as int / 16), hex_digit(bytes[0] as int % 16)] + hex_of(bytes.drop_first())
    }
}

/// `hex::encode`: two lowercase hexadecimal digits per byte, high nibble first.
#[verifier::external_body]
pub(crate) fn hex_encode(bytes: &[u8]) -> (r: String)
    ensures
        r@ == hex_of(bytes@),
{
    hex::encode(bytes)
}

/// `subtle::ConstantTimeEq::ct_eq` on byte slices, turned into a `bool`: true
/// exactly when the slices are equal (different lengths give false at once).
#[verifier::external_body]
pub(crate) fn bytes_ct_eq(a: &[u8], b: &[u8]) -> (r: bool)
    ensures
        r == (a@ == b@),
{
    a.ct_eq(b).into()
}

/// A lowercase hexadecimal digit.
pub open spec fn is_lower_hex(c: char) -> bool {
    ('0' <= c && c <= '9') || ('a' <= c && c <= 'f')
}

/// The text of a version-4 UUID as `Uuid`'s `Display` writes it: 36
/// characters, `-` at 8, 13, 18 and 23, lowercase hexadecimal digits
/// elsewhere, the version digit `4` at 14.
pub open spec fn uuid_text(u: Seq<char>) -> bool {
    &&& u.len() == 36
    &&& forall|i: int|
        0 <= i < 36 ==> if i == 8 || i == 13 || i == 18 || i == 23 {
            u[i] == '-'
        } else {
            is_lower_hex(#[trigger] u[i])
        }
    &&& u[14] == '4'
}

/// A fresh random UUID (`uuid::Uuid::new_v4`), as text. Of a random value the
/// contract states the format only. `new_v4` panics only when the operating
/// system's random source fails.
#[verifier::external_body]
fn new_uuid_v4() -> (r: String)
    ensures
        uuid_text(r@),
{
    uuid::Uuid::new_v4().to_string()
}

// ---------------------------------------------------------------------------
// Hashing and checking keys
// ---------------------------------------------------------------------------

/// The stored hash of `key` under `pepper`: the lowercase hex HMAC-SHA256 of
/// the key's UTF-8 bytes, keyed with the pepper's UTF-8 bytes.
pub open spec fn key_hash_spec(pepper: Seq<char>, key: Seq<char>) -> Seq<char> {
    hex_of(hmac_sha256(encode_utf8(pepper), encode_utf8(key)))
}

/// Hashes `key` with the server `pepper` (`key_hash_spec`).
pub fn hash_key_with_pepper(pepper: &str, key: &str) -> (r: String)
    ensures
        r@ == key_hash_spec(pepper@, key@),
{
    let digest = hmac_sha256_digest(pepper.as_bytes(), key.as_bytes());
    hex_encode(digest.as_slice())
}

/// Whether `plaintext_key` hashes, under `pepper`, to `stored_hash`. The
/// comparison takes the same time wherever the hashes differ.
pub fn verify_key_hash(pepper: &str, plaintext_key: &str, stored_hash: &str) -> (r: bool)
    ensures
        r == key_verifies(pepper@, plaintext_key@, stored_hash@),
{
    let computed = hash_key_with_pepper(pepper, plaintext_key);
    let same = bytes_ct_eq(computed.as_str().as_bytes(), stored_hash.as_bytes());
    proof {
        broadcast use vstd::utf8::encode_utf8_decode_utf8;

        if encode_utf8(computed@) == encode_utf8(stored_hash@) {
            assert(decode_utf8(encode_utf8(computed@)) == decode_utf8(encode_utf8(stored_hash@)));
        }
    }
    same
}

/// Whether `key` verifies, under `pepper`, against the stored hash `stored`.
pub open spec fn key_verifies(pepper: Seq<char>, key: Seq<char>, stored: Seq<char>) -> bool {
    key_hash_spec(pepper, key) == stored
}

/// A key always verifies against the hash that `hash_key_with_pepper` stores
/// for it under the same pepper.
pub proof fn lemma_own_hash_verifies(pepper: Seq<char>, key: Seq<char>)
    ensures
        key_verifies(pepper, key, key_hash_spec(pepper, key)),
{
}

/// The key made from the text of a UUID: `rgs_` and the UUID without its
/// hyphens, with its hash under `pepper`.
pub fn key_from_uuid(pepper: &str, uuid: &str) -> (r: (String, String))
    ensures
        r.0@ == "rgs_"@ + replace_all(uuid@, seq!['-'], Seq::empty()),
        r.1@ == key_hash_spec(pepper@, r.0@),
{
    let uc = chars_of(uuid);
    let dash = vec!['-'];
    let nothing: Vec<char> = Vec::new();
    assert(dash@ =~= seq!['-']);
    assert(nothing@ =~= Seq::<char>::empty());
    let bare = replace_chars(&uc, &dash, &nothing);
    let key = string_of(&concat(&chars_of("rgs_"), &bare));
    let hash = hash_key_with_pepper(pepper, key.as_str());
    (key, hash)
}

/// Makes a new key from a random UUID (`key_from_uuid`).
pub fn generate_key(pepper: &str) -> (r: (String, String))
    ensures
        exists|u: Seq<char>|
            uuid_text(u) && r.0@ == "rgs_"@ + #[trigger] replace_all(u, seq!['-'], Seq::empty()),
        r.1@ == key_hash_spec(pepper@, r.0@),
{
    let u = new_uuid_v4();
    let r = key_from_uuid(pepper, u.as_str());
    assert(uuid_text(u@));
    r
}

/// The text of a UUID before its first `-` (all of it when there is none).
pub open spec fn first_group(u: Seq<char>) -> Seq<char> {
    match find_from(u, seq!['-'], 0) {
        Some(i) => u.take(i),
        None => u,
    }
}

/// The first group of a UUID's text is its first 8 characters.
pub proof fn lemma_uuid_first_group(u: Seq<char>)
    requires
        uuid_text(u),
    ensures
        first_group(u) == u.take(8),
{
    lemma_find_from(u, seq!['-'], 0);
    assert(u.subrange(8, 9) =~= seq!['-']);
    assert(occurs_at(u, 8, seq!['-']));
    match find_from(u, seq!['-'], 0) {
        Some(i) => {
            if i < 8 {
                assert(u.subrange(i, i + 1)[0] == u[i]);
                assert(is_lower_hex(u[i]));
            }
        },
        None => {},
    }
}

/// The key id made from the text of a UUID: `key_` and its first group.
pub fn key_id_from_uuid(uuid: &str) -> (r: String)
    ensures
        r@ == "key_"@ + first_group(uuid@),
{
    let uc = chars_of(uuid);
    let dash = vec!['-'];
    assert(dash@ =~= seq!['-']);
    let head = match find(&uc, &dash, 0) {
        Some(i) => {
            proof {
                lemma_find_from(uc@, dash@, 0);
            }
            let h = copy_range(&uc, 0, i);
            assert(h@ =~= uc@.take(i as int));
            h
        },
        None => uc,
    };
    string_of(&concat(&chars_of("key_"), &head))
}

/// A new key id: `key_` and the first group (8 hex digits) of a random UUID.
pub fn new_key_id() -> (r: String)
    ensures
        exists|u: Seq<char>| uuid_text(u) && r@ == "key_"@ + #[trigger] u.take(8),
{
    let u = new_uuid_v4();
    let id = key_id_from_uuid(u.as_str());
    proof {
        lemma_uuid_first_group(u@);
    }
    id
}

// ---------------------------------------------------------------------------
// Custom keys
// ---------------------------------------------------------------------------

/// `char::is_control`: the general category `Cc`, U+0000..U+001F and
/// U+007F..U+009F.
pub open spec fn is_control_char(c: char) -> bool {
    c <= '\u{1f}' || ('\u{7f}' <= c && c <= '\u{9f}')
}

/// `char::is_control`.
pub fn is_control(c: char) -> (b: bool)
    ensures
        b == is_control_char(c),
{
    c <= '\u{1f}' || ('\u{7f}' <= c && c <= '\u{9f}')
}

/// The message for a custom key shorter than 6 bytes.
pub open spec fn key_too_short() -> Seq<char> {
    "New Admin API Key must be at least 6 characters."@
}

/// The message for a custom key longer than 128 bytes.
pub open spec fn key_too_long() -> Seq<char> {
    "New Admin API Key must be 128 characters or fewer."@
}

/// The message for a custom key holding white space or control characters.
pub open spec fn key_bad_chars() -> Seq<char> {
    "New Admin API Key cannot contain whitespace or control characters."@
}

/// Why a custom key is refused, if it is: its trimmed UTF-8 length must be
/// 6 to 128 bytes, and it may hold no white space or control character.
pub open spec fn custom_key_error(value: Seq<char>) -> Option<Seq<char>> {
    let t = trim(value);
    if utf8_len(t) < 6 {
        Some(key_too_short())
    } else if utf8_len(t) > 128 {
        Some(key_too_long())
    } else if exists|i: int| 0 <= i < t.len() && (is_control_char(t[i]) || is_white_space(t[i])) {
        Some(key_bad_chars())
    } else {
        None
    }
}

/// Checks a custom key (`custom_key_error`).
pub fn validate_custom_key(value: &str) -> (r: Result<(), GscholarError>)
    ensures
        match custom_key_error(value@) {
            Some(m) => is_validation_error(r, m),
            None => r is Ok,
        },
{
    let t = trimmed_chars(value);
    let n = utf8_len_capped(&t, 128);
    if n < 6 {
        return Err(GscholarError::Validation(
            String::from_str("New Admin API Key must be at least 6 characters."),
        ));
    }
    if n > 128 {
        return Err(GscholarError::Validation(
            String::from_str("New Admin API Key must be 128 characters or fewer."),
        ));
    }
    let mut i: usize = 0;
    while i < t.len()
        invariant
            i <= t.len(),
            t@ == trim(value@),
            6 <= n <= 128,
            n == utf8_len(t@),
            forall|j: int| 0 <= j < i ==> !(is_control_char(t@[j]) || is_white_space(t@[j])),
        decreases t.len() - i,
    {
        if is_control(t[i]) || is_whitespace(t[i]) {
            assert(is_control_char(t@[i as int]) || is_white_space(t@[i as int]));
            return Err(GscholarError::Validation(
                String::from_str("New Admin API Key cannot contain whitespace or control characters."),
            ));
        }
        i = i + 1;
    }
    Ok(())
}

/// A custom key made ready to store: the trimmed key and its hash under
/// `pepper`, or the reason it is refused.
pub fn prepare_custom_key(pepper: &str, plaintext_key: &str) -> (r: Result<(String, String), GscholarError>)
    ensures
        match custom_key_error(trim(plaintext_key@)) {
            Some(m) => is_validation_error(r, m),
            None => r matches Ok(p) && p.0@ == trim(plaintext_key@) && p.1@ == key_hash_spec(
                pepper@,
                trim(plaintext_key@),
            ),
        },
{
    let normalized = string_of(&trimmed_chars(plaintext_key));
    match validate_custom_key(normalized.as_str()) {
        Err(e) => Err(e),
        Ok(()) => {
            let hash = hash_key_with_pepper(pepper, normalized.as_str());
            Ok((normalized, hash))
        },
    }
}

// ---------------------------------------------------------------------------
// Stored keys
// ---------------------------------------------------------------------------

/// A stored API key.
#[derive(Debug, Clone)]
pub struct ApiKey {
    pub id: String,
    pub key_hash: String,
    pub name: String,
    pub is_admin: bool,
    pub rate_limit_rps: u32,
    pub request_count: i64,
    pub last_used_at: Option<i64>,
    pub created_at: i64,
}

/// The key found by looking up the hash of `plaintext_key`, kept only when the
/// plaintext verifies against its stored hash.
pub fn confirm_found_key(pepper: &str, plaintext_key: &str, found: Option<ApiKey>) -> (r: Option<ApiKey>)
    ensures
        match found {
            Some(k) => if key_hash_spec(pepper@, plaintext_key@) == k.key_hash@ {
                r == Some(k)
            } else {
                r is None
            },
            None => r is None,
        },
{
    match found {
        Some(k) => {
            if verify_key_hash(pepper, plaintext_key, k.key_hash.as_str()) {
                Some(k)
            } else {
                None
            }
        },
        None => None,
    }
}

/// The key that a replacement may change: only an administrator's.
pub fn replaceable_key(current: Option<ApiKey>) -> (r: Option<ApiKey>)
    ensures
        match current {
            Some(k) => if k.is_admin {
                r == Some(k)
            } else {
                r is None
            },
            None => r is None,
        },
{
    match current {
        Some(k) => {
            if k.is_admin {
                Some(k)
            } else {
                None
            }
        },
        None => None,
    }
}

/// The number of keys before page `page` (counted from 1; page 0 is page 1)
/// of `limit` keys each.
pub fn page_offset(page: u32, limit: u32) -> (r: u32)
    requires
        (if page == 0 {
            0
        } else {
            page - 1
        }) * limit <= u32::MAX,
    ensures
        r == (if page == 0 {
            0
        } else {
            page - 1
        }) * limit,
{
    let before: u32 = if page == 0 {
        0
    } else {
        page - 1
    };
    before * limit
}

} // verus!
