//! Key derivation, authenticated field encryption, content hashing and
//! random identifiers.
use vstd::prelude::*;
use aes_gcm::aead::{Aead, NewAead};
use base64::Engine;
use rand::RngCore;
use sha2::Digest;
use vstd::utf8::{encode_utf8, decode_utf8, valid_utf8};
use argon2::PasswordVerifier;

verus! {

broadcast use vstd::utf8::group_utf8_lib;

/// Salt shared by every store; the key must be the same across restarts.
pub const KDF_SALT: &'static str = "finance_app_salt_2024";

/// PBKDF2-HMAC-SHA256 iteration count.
pub const KDF_ROUNDS: u32 = 200000;

/// Length of the random nonce that starts every token.
pub const NONCE_LEN: usize = 12;

/// Longest plaintext, in bytes, that AES-GCM's 32-bit block counter covers
/// (2^36 - 32).
pub const GCM_MAX_PLAINTEXT: u64 = 68719476704;

/// What PBKDF2-HMAC-SHA256 yields for a password, a salt and a round count.
pub uninterp spec fn pbkdf2_sha256_of(password: Seq<char>, salt: Seq<char>, rounds: int) -> Seq<u8>;

/// AES-256-GCM ciphertext with its tag, for a key, a nonce and a plaintext.
pub uninterp spec fn gcm_seal(key: Seq<u8>, nonce: Seq<u8>, plaintext: Seq<u8>) -> Seq<u8>;

/// The standard base64 alphabet.
pub open spec fn base64_digit(v: int) -> char {
    seq!['A', 'B', 'C', 'D', 'E', 'F', 'G', 'H', 'I', 'J', 'K', 'L', 'M', 'N', 'O', 'P', 'Q', 'R', 'S', 'T', 'U', 'V', 'W', 'X', 'Y', 'Z', 'a', 'b', 'c', 'd', 'e', 'f', 'g', 'h', 'i', 'j', 'k', 'l', 'm', 'n', 'o', 'p', 'q', 'r', 's', 't', 'u', 'v', 'w', 'x', 'y', 'z', '0', '1', '2', '3', '4', '5', '6', '7', '8', '9', '+', '/'][v]
}

/// Standard padded base64 text of a byte sequence (RFC 4648): each group
/// of three bytes gives four digits, and a last group of one or two bytes
/// is padded with `=`.
pub open spec fn base64_of(b: Seq<u8>) -> Seq<char>
    decreases b.len(),
{
    if b.len() == 0 {
        seq![]
    } else if b.len() == 1 {
        let x = b[0] as int;
        seq![base64_digit(x / 4), base64_digit((x % 4) * 16), '=', '=']
    } else if b.len() == 2 {
        let x = b[0] as int;
        let y = b[1] as int;
        seq![base64_digit(x / 4), base64_digit((x % 4) * 16 + y / 16), base64_digit((y % 16) * 4), '=']
    } else {
        let x = b[0] as int;
        let y = b[1] as int;
        let z = b[2] as int;
        seq![
            base64_digit(x / 4),
            base64_digit((x % 4) * 16 + y / 16),
            base64_digit((y % 16) * 4 + z / 64),
            base64_digit(z % 64),
        ] + base64_of(b.subrange(3, b.len() as int))
    }
}

/// SHA-256 digest of a byte sequence.
pub uninterp spec fn sha256_of(bytes: Seq<u8>) -> Seq<u8>;

/// Verdict of Argon2 on a password against a PHC hash string; `None` when
/// the string does not parse.
pub uninterp spec fn argon2_verdict(password: Seq<char>, phc: Seq<char>) -> Option<bool>;

pub open spec fn hex_digit(v: int) -> char {
    seq!['0', '1', '2', '3', '4', '5', '6', '7', '8', '9', 'a', 'b', 'c', 'd', 'e', 'f'][v]
}

/// Lower-case hexadecimal text of bytes, two digits per byte.
pub open spec fn hex_lower(b: Seq<u8>) -> Seq<char>
    decreases b.len(),
{
    if b.len() == 0 {
        seq![]
    } else {
        hex_lower(b.drop_last()) + seq![
            hex_digit(b.last() as int / 16),
            hex_digit(b.last() as int % 16),
        ]
    }
}

pub open spec fn is_lower_hex(c: char) -> bool {
    ('0' <= c && c <= '9') || ('a' <= c && c <= 'f')
}

/// Hyphenated text of a version-4 UUID: 8-4-4-4-12 lower-case hex digits,
/// version digit 4, variant digit one of 8, 9, a, b.
pub open spec fn uuid_v4_shape(s: Seq<char>) -> bool {
    &&& s.len() == 36
    &&& forall|i: int|
        0 <= i < 36 ==> if i == 8 || i == 13 || i == 18 || i == 23 {
            #[trigger] s[i] == '-'
        } else {
            is_lower_hex(s[i])
        }
    &&& s[14] == '4'
    &&& (s[19] == '8' || s[19] == '9' || s[19] == 'a' || s[19] == 'b')
}

/// Sealing with nonce `n` puts the 12 nonce bytes, the ciphertext and a
/// 16-byte tag in the token.
pub open spec fn fresh_token(tok: Seq<char>, key: Seq<u8>, text: Seq<char>) -> bool {
    exists|n: Seq<u8>|
        n.len() == NONCE_LEN && gcm_seal(key, n, encode_utf8(text)).len() == encode_utf8(text).len()
            + 16 && #[trigger] base64_of(n + gcm_seal(key, n, encode_utf8(text))) == tok
}

proof fn lemma_hex_len(b: Seq<u8>)
    ensures
        hex_lower(b).len() == 2 * b.len(),
    decreases b.len(),
{
    if b.len() > 0 {
        lemma_hex_len(b.drop_last());
    }
}

/// The key that `derive_key` yields for a password.
pub open spec fn key_for(password: Seq<char>) -> Seq<u8> {
    pbkdf2_sha256_of(password, KDF_SALT@, KDF_ROUNDS as int)
}

/// `tok` is the token of `text` sealed under `key` with some 12-byte nonce:
/// base64 of nonce followed by the AES-GCM output.
pub open spec fn sealed_token(tok: Seq<char>, key: Seq<u8>, text: Seq<char>) -> bool {
    exists|n: Seq<u8>|
        n.len() == NONCE_LEN && #[trigger] base64_of(n + gcm_seal(key, n, encode_utf8(text)))
            == tok
}

/// Deriving a key twice from one password gives one key.
pub proof fn derive_key_is_deterministic(p: Seq<char>, q: Seq<char>)
    requires
        p == q,
    ensures
        key_for(p) == key_for(q),
{
}

/// The token decodes to at least a nonce's worth of bytes.
pub open spec fn well_framed(tok: Seq<char>) -> bool {
    exists|b: Seq<u8>| b.len() >= NONCE_LEN && #[trigger] base64_of(b) == tok
}

/// The hex digest used to detect duplicate content.
pub open spec fn content_hash(text: Seq<char>) -> Seq<char> {
    hex_lower(sha256_of(encode_utf8(text)))
}

#[derive(Debug, Clone, Copy, PartialEq, Eq, Structural)]
pub enum CryptoError {
    /// The plaintext is longer than AES-GCM accepts.
    EncryptionFailed,
    /// The token is not base64, or too short to hold a nonce.
    InvalidFormat,
    /// The tag does not verify: wrong key or altered data.
    AuthenticationFailed,
    /// The decrypted bytes are not UTF-8 text.
    InvalidText,
    /// The operating system's random generator failed.
    RandomnessUnavailable,
    /// A password hash string that does not parse.
    InvalidHash,
}

/// Relies on pbkdf2::pbkdf2_hmac with sha2::Sha256: fills a 32-byte key from
/// the password's and the salt's bytes; it depends on its arguments alone.
#[verifier::external_body]
fn pbkdf2_sha256(password: &str, salt: &str, rounds: u32) -> (r: [u8; 32])
    ensures
        r@ == pbkdf2_sha256_of(password@, salt@, rounds as int),
{
    let mut key = [0u8; 32];
    pbkdf2::pbkdf2_hmac::<sha2::Sha256>(password.as_bytes(), salt.as_bytes(), rounds, &mut key);
    key
}

/// Relies on rand's OsRng::try_fill_bytes: `n` bytes from the operating
/// system's generator, or `None` when the generator fails. Nothing is known
/// of their values.
#[verifier::external_body]
fn random_bytes(n: usize) -> (r: Option<Vec<u8>>)
    ensures
        r matches Some(v) ==> v@.len() == n,
{
    let mut bytes = vec![0u8; n];
    rand::rngs::OsRng.try_fill_bytes(&mut bytes).ok()?;
    Some(bytes)
}

/// Relies on aes_gcm's Aes256Gcm::encrypt: the ciphertext, as long as the
/// plaintext, then the 16-byte tag. Within the counter's range it does not
/// fail.
#[verifier::external_body]
fn gcm_encrypt(key: &[u8; 32], nonce: &[u8], plaintext: &[u8]) -> (r: Vec<u8>)
    requires
        nonce@.len() == NONCE_LEN,
        plaintext@.len() <= GCM_MAX_PLAINTEXT,
    ensures
        r@ == gcm_seal(key@, nonce@, plaintext@),
        r@.len() == plaintext@.len() + 16,
{
    let cipher = aes_gcm::Aes256Gcm::new(aes_gcm::Key::from_slice(key));
    cipher.encrypt(aes_gcm::Nonce::from_slice(nonce), plaintext).unwrap_or_default()
}

/// Relies on aes_gcm's Aes256Gcm::decrypt: it returns the plaintext exactly
/// when the tag verifies, that is when sealing that plaintext under the same
/// key and nonce gives the input back; that plaintext is the input XOR the
/// key stream, so there is only one.
#[verifier::external_body]
fn gcm_decrypt(key: &[u8; 32], nonce: &[u8], sealed: &[u8]) -> (r: Option<Vec<u8>>)
    requires
        nonce@.len() == NONCE_LEN,
        sealed@.len() <= GCM_MAX_PLAINTEXT + 16,
    ensures
        r matches Some(p) ==> gcm_seal(key@, nonce@, p@) == sealed@,
        r matches Some(p) ==> forall|q: Seq<u8>| #[trigger] gcm_seal(key@, nonce@, q) == sealed@ ==> q == p@,
        r is None ==> !exists|p: Seq<u8>|
            p.len() <= GCM_MAX_PLAINTEXT && #[trigger] gcm_seal(key@, nonce@, p) == sealed@,
{
    let cipher = aes_gcm::Aes256Gcm::new(aes_gcm::Key::from_slice(key));
    cipher.decrypt(aes_gcm::Nonce::from_slice(nonce), sealed).ok()
}

/// Relies on base64's STANDARD engine, encode: padded base64 text.
#[verifier::external_body]
fn base64_encode(bytes: &[u8]) -> (r: String)
    ensures
        r@ == base64_of(bytes@),
{
    base64::engine::general_purpose::STANDARD.encode(bytes)
}

/// Relies on base64's STANDARD engine, decode: it requires canonical padding
/// and no trailing bits, so it accepts exactly the texts that encode yields,
/// and returns the bytes they encode.
#[verifier::external_body]
fn base64_decode(text: &str) -> (r: Option<Vec<u8>>)
    ensures
        r matches Some(b) ==> base64_of(b@) == text@,
        r matches Some(b) ==> forall|c: Seq<u8>| #[trigger] base64_of(c) == text@ ==> c == b@,
        r is None ==> !exists|c: Seq<u8>| #[trigger] base64_of(c) == text@,
{
    base64::engine::general_purpose::STANDARD.decode(text).ok()
}

/// Relies on String::from_utf8: the text that the bytes encode, if they are
/// valid UTF-8.
#[verifier::external_body]
fn utf8_text(bytes: Vec<u8>) -> (r: Option<String>)
    ensures
        r is Some <==> valid_utf8(bytes@),
        r matches Some(s) ==> s@ == decode_utf8(bytes@),
{
    String::from_utf8(bytes).ok()
}

/// Relies on sha2's Sha256::digest over the text's UTF-8 bytes.
#[verifier::external_body]
fn sha256_digest(text: &str) -> (r: Vec<u8>)
    ensures
        r@ == sha256_of(encode_utf8(text@)),
        r@.len() == 32,
{
    sha2::Sha256::digest(text.as_bytes()).to_vec()
}

/// Relies on hex::encode: two lower-case digits per byte.
#[verifier::external_body]
pub(crate) fn hex_text(bytes: &[u8]) -> (r: String)
    ensures
        r@ == hex_lower(bytes@),
{
    hex::encode(bytes)
}

/// Relies on argon2's PasswordHash::new and Argon2::verify_password with the
/// default parameters; `None` when the hash string does not parse.
#[verifier::external_body]
fn argon2_check(password: &str, phc: &str) -> (r: Option<bool>)
    ensures
        r == argon2_verdict(password@, phc@),
{
    match argon2::PasswordHash::new(phc) {
        Ok(parsed) => Some(argon2::Argon2::default().verify_password(password.as_bytes(), &parsed).is_ok()),
        Err(_) => None,
    }
}

/// Relies on uuid's Builder::from_random_bytes, which sets the version and
/// variant bits, and on the hyphenated lower-case text of the UUID.
#[verifier::external_body]
fn uuid_v4_text(bytes: &[u8]) -> (r: String)
    requires
        bytes@.len() == 16,
    ensures
        uuid_v4_shape(r@),
{
    let raw: [u8; 16] = bytes.try_into().unwrap_or_default();
    uuid::Builder::from_random_bytes(raw).into_uuid().to_string()
}

/// A fresh token splits into its nonce and a sealed part of plaintext
/// length plus the tag.
proof fn lemma_fresh_frame(tok: Seq<char>, key: Seq<u8>, text: Seq<char>) -> (n: Seq<u8>)
    requires
        fresh_token(tok, key, text),
    ensures
        n.len() == NONCE_LEN,
        base64_of(n + gcm_seal(key, n, encode_utf8(text))) == tok,
        gcm_seal(key, n, encode_utf8(text)).len() == encode_utf8(text).len() + 16,
        (n + gcm_seal(key, n, encode_utf8(text))).subrange(0, NONCE_LEN as int) == n,
        (n + gcm_seal(key, n, encode_utf8(text))).subrange(NONCE_LEN as int, (n + gcm_seal(key, n, encode_utf8(text))).len() as int) == gcm_seal(key, n, encode_utf8(text)),
{
    let n = choose|n: Seq<u8>|
        n.len() == NONCE_LEN && gcm_seal(key, n, encode_utf8(text)).len() == encode_utf8(text).len()
            + 16 && #[trigger] base64_of(n + gcm_seal(key, n, encode_utf8(text))) == tok;
    let b = n + gcm_seal(key, n, encode_utf8(text));
    assert(b.subrange(0, NONCE_LEN as int) =~= n);
    assert(b.subrange(NONCE_LEN as int, b.len() as int) =~= gcm_seal(key, n, encode_utf8(text)));
    n
}

/// The cryptographic operations of the ledger. It holds no secret itself:
/// keys are passed in.
pub struct SecurityManager {}

impl SecurityManager {
    pub fn new() -> (r: SecurityManager) {
        SecurityManager {  }
    }

    /// PBKDF2-HMAC-SHA256 of the password with the fixed salt.
    pub fn derive_key(&self, password: &str) -> (r: Result<[u8; 32], CryptoError>)
        ensures
            r matches Ok(k) && k@ == key_for(password@),
    {
        Ok(pbkdf2_sha256(password, KDF_SALT, KDF_ROUNDS))
    }

    /// Seals `data` under `key` with the given nonce and returns base64 of
    /// nonce, ciphertext and tag.
    pub fn seal_with_nonce(&self, data: &str, key: &[u8; 32], nonce: &Vec<u8>) -> (r: Result<
        String,
        CryptoError,
    >)
        requires
            nonce@.len() == NONCE_LEN,
        ensures
            encode_utf8(data@).len() <= GCM_MAX_PLAINTEXT ==> (r matches Ok(tok) && tok@ == base64_of(
                nonce@ + gcm_seal(key@, nonce@, encode_utf8(data@)),
            ) && gcm_seal(key@, nonce@, encode_utf8(data@)).len() == encode_utf8(data@).len() + 16
                && sealed_token(tok@, key@, data@) && fresh_token(tok@, key@, data@)),
            encode_utf8(data@).len() > GCM_MAX_PLAINTEXT ==> r == Err::<String, CryptoError>(
                CryptoError::EncryptionFailed,
            ),
    {
        let plain = data.as_bytes();
        if plain.len() as u64 > GCM_MAX_PLAINTEXT {
            return Err(CryptoError::EncryptionFailed);
        }
        let sealed = gcm_encrypt(key, nonce.as_slice(), plain);
        let mut framed: Vec<u8> = Vec::new();
        let mut i: usize = 0;
        while i < NONCE_LEN
            invariant
                i <= NONCE_LEN,
                nonce@.len() == NONCE_LEN,
                framed@ == nonce@.subrange(0, i as int),
            decreases NONCE_LEN - i,
        {
            framed.push(nonce[i]);
            i = i + 1;
        }
        let mut rest = sealed;
        framed.append(&mut rest);
        let tok = base64_encode(framed.as_slice());
        proof {
            assert(framed@ =~= nonce@ + gcm_seal(key@, nonce@, encode_utf8(data@)));
            assert(base64_of(nonce@ + gcm_seal(key@, nonce@, encode_utf8(data@))) == tok@);
        }
        Ok(tok)
    }

    /// A nonce from the operating system's generator.
    pub fn fresh_nonce(&self) -> (r: Result<Vec<u8>, CryptoError>)
        ensures
            r matches Ok(n) ==> n@.len() == NONCE_LEN,
            r matches Err(e) ==> e == CryptoError::RandomnessUnavailable,
    {
        match random_bytes(NONCE_LEN) {
            Some(n) => Ok(n),
            None => Err(CryptoError::RandomnessUnavailable),
        }
    }

    /// Seals `data` under `key` with a fresh random nonce; see
    /// `seal_with_nonce`.
    pub fn encrypt(&self, data: &str, key: &[u8; 32]) -> (r: Result<String, CryptoError>)
        ensures
            encode_utf8(data@).len() <= GCM_MAX_PLAINTEXT ==> (r matches Ok(tok) && sealed_token(
                tok@,
                key@,
                data@,
            ) && fresh_token(tok@, key@, data@)) || r == Err::<String, CryptoError>(
                CryptoError::RandomnessUnavailable,
            ),
            encode_utf8(data@).len() > GCM_MAX_PLAINTEXT ==> r == Err::<String, CryptoError>(
                CryptoError::EncryptionFailed,
            ),
    {
        if data.as_bytes().len() as u64 > GCM_MAX_PLAINTEXT {
            return Err(CryptoError::EncryptionFailed);
        }
        match self.fresh_nonce() {
            Ok(nonce) => self.seal_with_nonce(data, key, &nonce),
            Err(e) => Err(e),
        }
    }

    /// Opens a token made by `encrypt`.
    pub fn decrypt(&self, encrypted_data: &str, key: &[u8; 32]) -> (r: Result<String, CryptoError>)
        ensures
            forall|s: Seq<char>|
                encode_utf8(s).len() <= GCM_MAX_PLAINTEXT && #[trigger] fresh_token(
                    encrypted_data@,
                    key@,
                    s,
                ) ==> (r matches Ok(p) && p@ == s),
            r matches Ok(p) ==> sealed_token(encrypted_data@, key@, p@),
            r == Err::<String, CryptoError>(CryptoError::InvalidFormat) <==> !well_framed(
                encrypted_data@,
            ),
            r is Err ==> r == Err::<String, CryptoError>(CryptoError::InvalidFormat) || r == Err::<
                String,
                CryptoError,
            >(CryptoError::AuthenticationFailed) || r == Err::<String, CryptoError>(
                CryptoError::InvalidText,
            ),
    {
        let data = match base64_decode(encrypted_data) {
            Some(d) => d,
            None => {
                assert forall|s: Seq<char>| !#[trigger] fresh_token(encrypted_data@, key@, s) by {
                    if fresh_token(encrypted_data@, key@, s) {
                        let n = lemma_fresh_frame(encrypted_data@, key@, s);
                    }
                }
                return Err(CryptoError::InvalidFormat);
            },
        };
        if data.len() < NONCE_LEN {
            assert forall|s: Seq<char>| !#[trigger] fresh_token(encrypted_data@, key@, s) by {
                if fresh_token(encrypted_data@, key@, s) {
                    let n = lemma_fresh_frame(encrypted_data@, key@, s);
                }
            }
            assert(!well_framed(encrypted_data@));
            return Err(CryptoError::InvalidFormat);
        }
        let (nonce, sealed) = data.as_slice().split_at(NONCE_LEN);
        assert(data@ == nonce@ + sealed@);
        if sealed.len() as u64 > GCM_MAX_PLAINTEXT + 16 {
            assert forall|s: Seq<char>|
                encode_utf8(s).len() <= GCM_MAX_PLAINTEXT implies !#[trigger] fresh_token(
                    encrypted_data@,
                    key@,
                    s,
                ) by {
                if fresh_token(encrypted_data@, key@, s) {
                    let n = lemma_fresh_frame(encrypted_data@, key@, s);
                    assert(data@ == n + gcm_seal(key@, n, encode_utf8(s)));
                    assert(sealed@ == data@.subrange(NONCE_LEN as int, data@.len() as int));
                }
            }
            return Err(CryptoError::AuthenticationFailed);
        }
        let plain = match gcm_decrypt(key, nonce, sealed) {
            Some(p) => p,
            None => {
                assert forall|s: Seq<char>|
                    encode_utf8(s).len() <= GCM_MAX_PLAINTEXT implies !#[trigger] fresh_token(
                        encrypted_data@,
                        key@,
                        s,
                    ) by {
                    if fresh_token(encrypted_data@, key@, s) {
                        let n = lemma_fresh_frame(encrypted_data@, key@, s);
                        assert(data@ == n + gcm_seal(key@, n, encode_utf8(s)));
                        assert(nonce@ == data@.subrange(0, NONCE_LEN as int));
                        assert(sealed@ == data@.subrange(NONCE_LEN as int, data@.len() as int));
                    }
                }
                return Err(CryptoError::AuthenticationFailed);
            },
        };
        let ghost pb = plain@;
        assert forall|s: Seq<char>|
            encode_utf8(s).len() <= GCM_MAX_PLAINTEXT && #[trigger] fresh_token(encrypted_data@, key@, s)
                implies encode_utf8(s) == pb by {
            let n = lemma_fresh_frame(encrypted_data@, key@, s);
            assert(data@ == n + gcm_seal(key@, n, encode_utf8(s)));
            assert(nonce@ == data@.subrange(0, NONCE_LEN as int));
            assert(sealed@ == data@.subrange(NONCE_LEN as int, data@.len() as int));
        }
        match utf8_text(plain) {
            Some(s) => {
                assert(encode_utf8(s@) == pb);
                assert(base64_of(nonce@ + gcm_seal(key@, nonce@, encode_utf8(s@))) == encrypted_data@);
                Ok(s)
            },
            None => {
                Err(CryptoError::InvalidText)
            },
        }
    }

    /// Hex SHA-256 digest of the text.
    pub fn create_hash(&self, data: &str) -> (r: Result<String, CryptoError>)
        ensures
            r matches Ok(h) && h@ == content_hash(data@) && h@.len() == 64,
    {
        let digest = sha256_digest(data);
        proof {
            lemma_hex_len(digest@);
        }
        Ok(hex_text(digest.as_slice()))
    }

    /// Checks a password against an Argon2 PHC hash string.
    pub fn verify_password(&self, password: &str, hash: &str) -> (r: Result<bool, CryptoError>)
        ensures
            match argon2_verdict(password@, hash@) {
                Some(v) => r == Ok::<bool, CryptoError>(v),
                None => r == Err::<bool, CryptoError>(CryptoError::InvalidHash),
            },
    {
        match argon2_check(password, hash) {
            Some(v) => Ok(v),
            None => Err(CryptoError::InvalidHash),
        }
    }

    /// A random version-4 UUID in hyphenated text form.
    pub fn generate_secure_id(&self) -> (r: Result<String, CryptoError>)
        ensures
            r matches Ok(id) ==> uuid_v4_shape(id@),
            r matches Err(e) ==> e == CryptoError::RandomnessUnavailable,
    {
        match random_bytes(16) {
            Some(bytes) => Ok(uuid_v4_text(bytes.as_slice())),
            None => Err(CryptoError::RandomnessUnavailable),
        }
    }
}

} // verus!
