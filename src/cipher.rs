//! Authenticated symmetric encryption of the stored webhook token.

use vstd::prelude::*;
use vstd::string::*;
use vstd::utf8::*;

verus! {

#[verifier::external_type_specification]
#[verifier::external_body]
pub struct ExFernet(fernet::Fernet);

#[verifier::external_type_specification]
#[verifier::external_body]
pub struct ExDecryptionError(fernet::DecryptionError);

/// Whether `fernet::Fernet::new` accepts `key`: url-safe base64 (final `=`
/// ignored) that decodes to exactly 32 bytes. It depends on the key alone.
pub uninterp spec fn fernet_key_ok(key: Seq<char>) -> bool;

/// Builds a cipher from a url-safe base64 key; `None` exactly when the key
/// is not 32 bytes of such base64.
pub assume_specification[ fernet::Fernet::new ](key: &str) -> (r: Option<fernet::Fernet>)
    ensures
        r is Some <==> fernet_key_ok(key@),
;

/// Whether `c` belongs to the url-safe base64 alphabet, padding included.
pub open spec fn is_url_safe_base64(c: char) -> bool {
    ('A' <= c && c <= 'Z') || ('a' <= c && c <= 'z') || ('0' <= c && c <= '9') || c == '-' || c
        == '_' || c == '='
}

/// The plaintext that `token` authenticates to under `key`, or `None` when
/// the token is malformed or fails authentication: what
/// `fernet::Fernet::decrypt` returns for a cipher built from `key`, leaving
/// out its check that the token is not dated too far in the future. It
/// depends on the key and the token alone (HMAC-SHA256, then AES-128-CBC).
pub uninterp spec fn fernet_plaintext(key: Seq<char>, token: Seq<char>) -> Option<Seq<u8>>;

/// Why a token could not be decrypted.
#[derive(Clone, Copy, Debug, PartialEq, Eq, Structural)]
pub enum CryptoError {
    /// The token is malformed, lies too far in the future, or fails
    /// authentication under the key.
    Rejected,
    /// The authenticated plaintext is not UTF-8 text.
    NotText,
}

/// A cipher for the webhook token, built once from the configured key and
/// passed to every call that encrypts or decrypts. The fields are private
/// and `new` is the only constructor, so `fernet` is always the cipher that
/// `fernet::Fernet::new` built from `key`.
pub struct TokenCipher {
    key: String,
    fernet: fernet::Fernet,
}

/// Whether `token` authenticates, under `key`, to the UTF-8 bytes of `text`.
pub open spec fn seals(key: Seq<char>, token: Seq<char>, text: Seq<char>) -> bool {
    fernet_plaintext(key, token) == Some(encode_utf8(text))
}

impl TokenCipher {
    /// The key the cipher was built from.
    pub closed spec fn key(&self) -> Seq<char> {
        self.key@
    }

    /// Builds the cipher for `key`, a url-safe base64 text of 32 bytes;
    /// `None` when the key is not of that form.
    pub fn new(key: &str) -> (r: Option<TokenCipher>)
        ensures
            r is Some <==> fernet_key_ok(key@),
            r matches Some(c) ==> c.key() == key@,
    {
        match fernet::Fernet::new(key) {
            Some(f) => Some(TokenCipher { key: String::from_str(key), fernet: f }),
            None => None,
        }
    }
}

/// Relies on fernet::Fernet::encrypt: the token it returns authenticates and
/// decrypts, under the cipher's key, to exactly the bytes given, and is
/// written in url-safe base64 with padding.
#[verifier::external_body]
fn fernet_encrypt(cipher: &TokenCipher, data: &[u8]) -> (r: String)
    ensures
        fernet_plaintext(cipher.key(), r@) == Some(data@),
        forall|i: int| 0 <= i < r@.len() ==> is_url_safe_base64(#[trigger] r@[i]),
{
    cipher.fernet.encrypt(data)
}

/// Relies on fernet::Fernet::decrypt: it yields bytes only for a token that
/// authenticates under the cipher's key, and those bytes are its plaintext.
#[verifier::external_body]
fn fernet_decrypt(cipher: &TokenCipher, token: &str) -> (r: Result<Vec<u8>, fernet::DecryptionError>)
    ensures
        r matches Ok(b) ==> fernet_plaintext(cipher.key(), token@) == Some(b@),
        fernet_plaintext(cipher.key(), token@) is None ==> r is Err,
{
    cipher.fernet.decrypt(token)
}

/// Relies on String::from_utf8: it succeeds exactly on valid UTF-8 and keeps
/// the bytes.
#[verifier::external_body]
fn utf8_text(bytes: Vec<u8>) -> (r: Option<String>)
    ensures
        r is Some <==> valid_utf8(bytes@),
        r matches Some(s) ==> s@ == decode_utf8(bytes@),
{
    String::from_utf8(bytes).ok()
}

/// Encrypts `s` into a token that authenticates to its UTF-8 bytes.
pub fn encrypt(cipher: &TokenCipher, s: &str) -> (r: String)
    ensures
        seals(cipher.key(), r@, s@),
        forall|i: int| 0 <= i < r@.len() ==> is_url_safe_base64(#[trigger] r@[i]),
{
    fernet_encrypt(cipher, s.as_bytes())
}

/// Turns what the cipher authenticated into text: no plaintext means the
/// token was rejected; bytes that are not UTF-8 are not text.
pub fn plaintext_to_text(p: Option<Vec<u8>>) -> (r: Result<String, CryptoError>)
    ensures
        match p {
            None => r == Err::<String, CryptoError>(CryptoError::Rejected),
            Some(b) => if valid_utf8(b@) {
                r matches Ok(s) && s@ == decode_utf8(b@)
            } else {
                r == Err::<String, CryptoError>(CryptoError::NotText)
            },
        },
{
    match p {
        None => Err(CryptoError::Rejected),
        Some(bytes) => match utf8_text(bytes) {
            Some(text) => Ok(text),
            None => Err(CryptoError::NotText),
        },
    }
}

/// Decrypts a token made by `encrypt` under the same key. A token that is
/// malformed or fails authentication is rejected; nothing but the sealed
/// text ever comes back.
pub fn decrypt(cipher: &TokenCipher, token: &str) -> (r: Result<String, CryptoError>)
    ensures
        r matches Ok(p) ==> seals(cipher.key(), token@, p@),
        fernet_plaintext(cipher.key(), token@) is None ==> r == Err::<String, CryptoError>(
            CryptoError::Rejected,
        ),
        (fernet_plaintext(cipher.key(), token@) matches Some(b) && !valid_utf8(b)) ==> r is Err,
        r == Err::<String, CryptoError>(CryptoError::NotText) ==> (fernet_plaintext(
            cipher.key(),
            token@,
        ) matches Some(b) && !valid_utf8(b)),
{
    let opened = fernet_decrypt(cipher, token).ok();
    let ghost seen = opened;
    let r = plaintext_to_text(opened);
    proof {
        if let Some(b) = seen {
            if valid_utf8(b@) {
                decode_utf8_encode_utf8(b@);
            }
        }
    }
    r
}

/// Decrypting a token can only give back the text it was made from: two
/// texts sealed by one token under one key are equal.
pub proof fn lemma_round_trip(key: Seq<char>, token: Seq<char>, s: Seq<char>, p: Seq<char>)
    requires
        seals(key, token, s),
        seals(key, token, p),
    ensures
        p == s,
{
    encode_utf8_decode_utf8(s);
    encode_utf8_decode_utf8(p);
}

/// The UTF-8 bytes of any text are valid UTF-8, so a token that seals a text
/// is never refused as non-text.
pub proof fn lemma_sealed_text_is_utf8(key: Seq<char>, token: Seq<char>, s: Seq<char>)
    requires
        seals(key, token, s),
    ensures
        fernet_plaintext(key, token) matches Some(b) && valid_utf8(b),
{
    encode_utf8_valid_utf8(s);
}

} // verus!
