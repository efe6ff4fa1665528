//! Digests and the encryption of stored credentials.

use vstd::prelude::*;
use vstd::slice::slice_subrange;

verus! {

/// What SHA-256 gives for a byte string.
pub uninterp spec fn sha256(data: Seq<u8>) -> Seq<u8>;

/// `sha2`'s `Sha256::digest`: the 32-byte SHA-256 digest of `data`, which
/// depends on nothing but the bytes.
#[verifier::external_body]
fn sha256_digest(data: &[u8]) -> (r: [u8; 32])
    ensures
        r@ == sha256(data@),
{
    <sha2::Sha256 as sha2::Digest>::digest(data).into()
}

/// The lower-case hexadecimal digit for a value below sixteen.
pub open spec fn hex_digit(n: int) -> char {
    if n < 10 {
        (48 + n) as char
    } else {
        (87 + n) as char
    }
}

/// Two lower-case hexadecimal digits per byte, the high half first.
pub open spec fn hex(bytes: Seq<u8>) -> Seq<char> {
    Seq::new(
        2 * bytes.len(),
        |i: int|
            if i % 2 == 0 {
                hex_digit(bytes[i / 2] as int / 16)
            } else {
                hex_digit(bytes[i / 2] as int % 16)
            },
    )
}

/// One hexadecimal digit.
fn hex_char(n: u8) -> (c: char)
    requires
        n < 16,
    ensures
        c == hex_digit(n as int),
{
    if n < 10 {
        (48 + n) as char
    } else {
        (87 + n) as char
    }
}

/// Writes bytes as lower-case hexadecimal.
pub fn hex_encode(bytes: &[u8]) -> (r: String)
    ensures
        r@ == hex(bytes@),
{
    let mut s = String::new();
    let mut i: usize = 0;
    while i < bytes.len()
        invariant
            i <= bytes@.len(),
            s@ == hex(bytes@.take(i as int)),
        decreases bytes@.len() - i,
    {
        let b: u8 = bytes[i];
        s.push(hex_char(b / 16));
        s.push(hex_char(b % 16));
        assert(s@ =~= hex(bytes@.take(i + 1)));
        i += 1;
    }
    assert(bytes@.take(i as int) =~= bytes@);
    s
}

/// The hexadecimal SHA-256 digest of a text's UTF-8 form.
pub open spec fn sha256_text(s: Seq<char>) -> Seq<char> {
    hex(sha256(vstd::utf8::encode_utf8(s)))
}

/// The SHA-256 digest of a text, in lower-case hexadecimal.
pub fn sha256_hex(s: &str) -> (r: String)
    ensures
        r@ == sha256_text(s@),
        r@.len() == 64,
{
    let digest = sha256_digest(s.as_bytes());
    hex_encode(digest.as_slice())
}

/// Different values below sixteen have different digits.
proof fn lemma_hex_digit_injective(m: int, n: int)
    requires
        0 <= m < 16,
        0 <= n < 16,
    ensures
        hex_digit(m) == hex_digit(n) ==> m == n,
{
    assert(hex_digit(m) as int == if m < 10 { 48 + m } else { 87 + m });
    assert(hex_digit(n) as int == if n < 10 { 48 + n } else { 87 + n });
}

/// Hexadecimal form is faithful: different byte strings have different forms.
pub proof fn law_hex_injective(a: Seq<u8>, b: Seq<u8>)
    requires
        hex(a) == hex(b),
    ensures
        a == b,
{
    assert(hex(a).len() == 2 * a.len());
    assert(hex(b).len() == 2 * b.len());
    assert forall|i: int| 0 <= i < a.len() implies a[i] == b[i] by {
        assert(hex(a)[2 * i] == hex_digit(a[i] as int / 16));
        assert(hex(b)[2 * i] == hex_digit(b[i] as int / 16));
        assert(hex(a)[2 * i + 1] == hex_digit(a[i] as int % 16));
        assert(hex(b)[2 * i + 1] == hex_digit(b[i] as int % 16));
        lemma_hex_digit_injective(a[i] as int / 16, b[i] as int / 16);
        lemma_hex_digit_injective(a[i] as int % 16, b[i] as int % 16);
    }
    assert(a =~= b);
}

// --- Encryption ---

/// What AES-256-GCM makes of a text under a key and a nonce: the encrypted bytes
/// and behind them the tag.
pub uninterp spec fn sealed(key: Seq<u8>, nonce: Seq<u8>, plain: Seq<u8>) -> Seq<u8>;

/// What AES-256-GCM reads from encrypted bytes with their tag; nothing where the
/// tag does not fit.
pub uninterp spec fn opened(key: Seq<u8>, nonce: Seq<u8>, data: Seq<u8>) -> Option<Seq<u8>>;

/// The most bytes that AES-256-GCM encrypts at once.
pub const MAX_PLAIN_LEN: u64 = 68719476736;

/// `aes_gcm`'s `Aes256Gcm` as `Aead::encrypt`: sixteen bytes are added, and
/// decrypting with the same key and nonce gives the bytes back. It fails above
/// the limit only, and then nothing comes back.
#[verifier::external_body]
fn seal(key: &[u8; 32], nonce: &[u8; 12], plain: &[u8]) -> (r: Vec<u8>)
    requires
        plain@.len() <= MAX_PLAIN_LEN,
        plain@.len() + 16 <= isize::MAX,
    ensures
        r@ == sealed(key@, nonce@, plain@),
        r@.len() == plain@.len() + 16,
        opened(key@, nonce@, r@) == Some(plain@),
{
    let cipher = <aes_gcm::Aes256Gcm as aes_gcm::KeyInit>::new(key.into());
    aes_gcm::aead::Aead::encrypt(&cipher, nonce.into(), plain).unwrap_or_default()
}

/// `aes_gcm`'s `Aes256Gcm` as `Aead::decrypt`: the bytes, where the tag fits the
/// key, the nonce and the encrypted bytes.
#[verifier::external_body]
fn open_sealed(key: &[u8; 32], nonce: &[u8], data: &[u8]) -> (r: Option<Vec<u8>>)
    requires
        nonce@.len() == 12,
    ensures
        match r {
            Some(v) => opened(key@, nonce@, data@) == Some(v@),
            None => opened(key@, nonce@, data@) is None,
        },
{
    let cipher = <aes_gcm::Aes256Gcm as aes_gcm::KeyInit>::new(key.into());
    aes_gcm::aead::Aead::decrypt(&cipher, aes_gcm::Nonce::from_slice(nonce), data).ok()
}

/// Twelve bytes from `aes_gcm`'s `AeadCore::generate_nonce` with the system's
/// random source. Nothing is stated of them: they are random. It panics where
/// the system has no random bytes to give.
#[verifier::external_body]
fn random_nonce() -> [u8; 12] {
    <aes_gcm::Aes256Gcm as aes_gcm::AeadCore>::generate_nonce(&mut aes_gcm::aead::OsRng).into()
}

/// The base64 form of bytes, in the standard alphabet and with padding.
pub uninterp spec fn base64_text(data: Seq<u8>) -> Seq<char>;

/// The bytes that a text is the base64 form of; nothing where it is none.
pub uninterp spec fn base64_bytes(s: Seq<char>) -> Option<Seq<u8>>;

/// `base64`'s `Engine::encode` for the standard engine: the base64 form of the
/// bytes, from which decoding gives them back.
#[verifier::external_body]
fn encode_base64(data: &[u8]) -> (r: String)
    requires
        data@.len() <= isize::MAX / 2,
    ensures
        r@ == base64_text(data@),
        base64_bytes(r@) == Some(data@),
{
    base64::Engine::encode(&base64::engine::general_purpose::STANDARD, data)
}

/// `base64`'s `Engine::decode` for the standard engine.
#[verifier::external_body]
fn decode_base64(s: &str) -> (r: Option<Vec<u8>>)
    ensures
        match r {
            Some(v) => base64_bytes(s@) == Some(v@),
            None => base64_bytes(s@) is None,
        },
{
    base64::Engine::decode(&base64::engine::general_purpose::STANDARD, s).ok()
}

/// The text that bytes are the UTF-8 form of.
pub open spec fn utf8_text(bytes: Seq<u8>) -> Option<Seq<char>> {
    if vstd::utf8::valid_utf8(bytes) {
        Some(vstd::utf8::decode_utf8(bytes))
    } else {
        None
    }
}

/// The standard library's `String::from_utf8`: the text that the bytes are the
/// UTF-8 form of, if they are.
#[verifier::external_body]
fn text_from_bytes(bytes: Vec<u8>) -> (r: Option<String>)
    ensures
        match r {
            Some(s) => utf8_text(bytes@) == Some(s@),
            None => utf8_text(bytes@) is None,
        },
{
    String::from_utf8(bytes).ok()
}

/// `zeroize`'s `Zeroize` for an array of bytes: all are zero.
#[verifier::external_body]
fn zeroize_key(key: &mut [u8; 32])
    ensures
        final(key)@ == Seq::new(32, |i: int| 0u8),
{
    zeroize::Zeroize::zeroize(key);
}

/// The text can be encrypted: it is not too long.
pub open spec fn can_encrypt(s: Seq<char>) -> bool {
    let n = vstd::utf8::encode_utf8(s).len();
    n <= MAX_PLAIN_LEN && n + 28 <= isize::MAX / 2
}

/// The stored form of a text under a key and a nonce: the nonce and the sealed
/// bytes in base64.
pub open spec fn encrypted(key: Seq<u8>, nonce: Seq<u8>, s: Seq<char>) -> Seq<char> {
    base64_text(nonce + sealed(key, nonce, vstd::utf8::encode_utf8(s)))
}

/// The text that a stored form holds under a key, if it is one.
pub open spec fn decrypted(key: Seq<u8>, stored: Seq<char>) -> Option<Seq<char>> {
    match base64_bytes(stored) {
        Some(data) => if data.len() < 12 {
            None
        } else {
            match opened(key, data.take(12), data.skip(12)) {
                Some(plain) => utf8_text(plain),
                None => None,
            }
        },
        None => None,
    }
}

/// Encrypts what is stored of credentials.
pub struct TokenCipher {
    key: [u8; 32],
}

impl TokenCipher {
    /// The key.
    pub closed spec fn key(self) -> Seq<u8> {
        self.key@
    }

    /// The cipher for a secret, whose digest is the key.
    pub fn new(secret: &str) -> (r: Self)
        ensures
            r.key() == sha256(vstd::utf8::encode_utf8(secret@)),
    {
        TokenCipher { key: sha256_digest(secret.as_bytes()) }
    }

    /// Encrypts a text under the given nonce.
    pub fn encrypt_with(&self, nonce: &[u8; 12], plaintext: &str) -> (r: String)
        requires
            can_encrypt(plaintext@),
        ensures
            r@ == encrypted(self.key(), nonce@, plaintext@),
            decrypted(self.key(), r@) == Some(plaintext@),
    {
        let data = seal(&self.key, nonce, plaintext.as_bytes());
        let mut combined: Vec<u8> = Vec::new();
        push_bytes(&mut combined, nonce.as_slice());
        push_bytes(&mut combined, data.as_slice());
        assert(combined@ =~= nonce@ + data@);
        assert(combined@.take(12) =~= nonce@);
        assert(combined@.skip(12) =~= data@);
        proof {
            vstd::utf8::encode_utf8_valid_utf8(plaintext@);
            vstd::utf8::encode_utf8_decode_utf8(plaintext@);
        }
        encode_base64(combined.as_slice())
    }

    /// Encrypts a text under a fresh nonce.
    pub fn encrypt(&self, plaintext: &str) -> (r: String)
        requires
            can_encrypt(plaintext@),
        ensures
            decrypted(self.key(), r@) == Some(plaintext@),
            exists|nonce: Seq<u8>|
                nonce.len() == 12 && r@ == #[trigger] encrypted(self.key(), nonce, plaintext@),
    {
        let nonce: [u8; 12] = random_nonce();
        self.encrypt_with(&nonce, plaintext)
    }

    /// Decrypts a stored form. Nothing comes of a text that is none.
    pub fn decrypt(&self, stored: &str) -> (r: Option<String>)
        ensures
            match r {
                Some(s) => decrypted(self.key(), stored@) == Some(s@),
                None => decrypted(self.key(), stored@) is None,
            },
    {
        match decode_base64(stored) {
            Some(data) => {
                if data.len() < 12 {
                    return None;
                }
                let nonce = slice_subrange(data.as_slice(), 0, 12);
                let rest = slice_subrange(data.as_slice(), 12, data.len());
                assert(nonce@ =~= data@.take(12));
                assert(rest@ =~= data@.skip(12));
                match open_sealed(&self.key, nonce, rest) {
                    Some(plain) => text_from_bytes(plain),
                    None => None,
                }
            },
            None => None,
        }
    }

    /// Overwrites the key with zeros.
    pub fn wipe(&mut self)
        ensures
            final(self).key() == Seq::new(32, |i: int| 0u8),
    {
        zeroize_key(&mut self.key);
    }
}

/// Adds bytes at the end.
fn push_bytes(out: &mut Vec<u8>, more: &[u8])
    ensures
        final(out)@ == old(out)@ + more@,
{
    let ghost start = out@;
    let mut i: usize = 0;
    assert(out@ =~= start + more@.take(0));
    while i < more.len()
        invariant
            i <= more@.len(),
            out@ == start + more@.take(i as int),
        decreases more@.len() - i,
    {
        out.push(more[i]);
        assert(out@ =~= start + more@.take(i + 1));
        i += 1;
    }
    assert(more@.take(i as int) =~= more@);
}

} // verus!
