//! The authenticated-request signing protocol.
//!
//! A signer holds the API key, the base64-decoded API secret and the last
//! nonce handed out.  Signing url-encodes the field list with a fresh,
//! strictly increasing nonce appended, hashes nonce and body with SHA-256,
//! and signs path and digest with HMAC-SHA-512 under the secret, base64
//! encoded.  The cryptographic primitives are outside calls; their results
//! are named, so the signature is pinned as a function of secret, path,
//! fields and nonce alone.

use base64::Engine;
use hmac::KeyInit;
use hmac::Mac;
use sha2::Digest;
use vstd::prelude::*;

verus! {

use vstd::utf8::encode_utf8;
use crate::decimal::dec_str;

/// What SHA-256 returns for a byte sequence.
pub uninterp spec fn sha256_of(data: Seq<u8>) -> Seq<u8>;

/// What HMAC-SHA-512 returns for a key and a message.
pub uninterp spec fn hmac_sha512_of(key: Seq<u8>, msg: Seq<u8>) -> Seq<u8>;

/// The standard base64 encoding of a byte sequence.
pub uninterp spec fn base64_of(data: Seq<u8>) -> Seq<char>;

/// The bytes a standard base64 string decodes to, or nothing when it is
/// not valid base64.
pub uninterp spec fn base64_decoded(s: Seq<char>) -> Option<Seq<u8>>;

/// The www-form-urlencoding of a field list.
pub uninterp spec fn form_encoded(fields: Seq<(Seq<char>, Seq<char>)>) -> Seq<char>;

/// A field list as the character sequences it carries.
pub open spec fn fields_view(s: Seq<(String, String)>) -> Seq<(Seq<char>, Seq<char>)> {
    s.map_values(|e: (String, String)| (e.0@, e.1@))
}

/// Relies on sha2::Sha256: a 32-byte digest, a function of the input alone.
#[verifier::external_body]
fn sha256(data: &[u8]) -> (r: Vec<u8>)
    ensures
        r@ == sha256_of(data@),
        r@.len() == 32,
{
    let mut h = sha2::Sha256::new();
    h.update(data);
    h.finalize().to_vec()
}

/// Relies on hmac::Hmac over sha2::Sha512: a 64-byte tag, a function of key
/// and message alone; any key length is accepted.
#[verifier::external_body]
fn hmac_sha512(key: &[u8], msg: &[u8]) -> (r: Vec<u8>)
    ensures
        r@ == hmac_sha512_of(key@, msg@),
        r@.len() == 64,
{
    let mut mac = hmac::Hmac::<sha2::Sha512>::new_from_slice(key).expect(
        "HMAC accepts keys of any length",
    );
    mac.update(msg);
    mac.finalize().into_bytes().to_vec()
}

/// Relies on base64's standard engine: the encoding of the input alone.
#[verifier::external_body]
fn b64_encode(data: &[u8]) -> (r: String)
    ensures
        r@ == base64_of(data@),
{
    base64::engine::general_purpose::STANDARD.encode(data)
}

/// Relies on base64's standard engine: decoding succeeds or fails on the
/// input alone, and yields its decoding.
#[verifier::external_body]
fn b64_decode(s: &str) -> (r: Option<Vec<u8>>)
    ensures
        r.is_some() == base64_decoded(s@).is_some(),
        r.is_some() ==> r.unwrap()@ == base64_decoded(s@).unwrap(),
{
    base64::engine::general_purpose::STANDARD.decode(s).ok()
}

/// Relies on serde_urlencoded::to_string: the body is the urlencoding of
/// the field list, a function of the fields alone.  The serializer fails
/// only on data shapes it does not support; a sequence of string pairs is
/// its documented happy path, with no error path in its source, so the
/// `expect` can never fire.
#[verifier::external_body]
fn form_encode(fields: &Vec<(String, String)>) -> (r: String)
    ensures
        r@ == form_encoded(fields_view(fields@)),
{
    serde_urlencoded::to_string(fields).expect("string pairs always urlencode")
}

/// Why a signer could not be built.
#[derive(PartialEq, Eq, Structural, Clone, Copy, Debug)]
pub enum AuthError {
    /// The configured secret is not base64 of a 64-byte key.
    BadSecret,
}

/// The POST body of a signed request: the fields with the nonce appended,
/// urlencoded.
pub open spec fn spec_post_body(fields: Seq<(Seq<char>, Seq<char>)>, nonce: int) -> Seq<char> {
    form_encoded(fields.push(("nonce"@, dec_str(nonce))))
}

/// The request signature: HMAC-SHA-512 under the decoded secret of the
/// path followed by SHA-256 of nonce and body, base64 encoded.
pub open spec fn spec_signature(
    secret: Seq<u8>,
    path: Seq<char>,
    body: Seq<char>,
    nonce: int,
) -> Seq<char> {
    base64_of(
        hmac_sha512_of(
            secret,
            encode_utf8(path) + sha256_of(encode_utf8(dec_str(nonce)) + encode_utf8(body)),
        ),
    )
}

/// Signs exchange requests and keeps the nonce strictly increasing.
pub struct Signer {
    key: String,
    secret_key: Vec<u8>,
    last_nonce: u64,
}

impl Signer {
    /// The decoded API secret.
    pub closed spec fn secret_bytes(self) -> Seq<u8> {
        self.secret_key@
    }

    /// The API key, as configured.
    pub closed spec fn key_str(self) -> Seq<char> {
        self.key@
    }

    /// The last nonce handed out; later requests use strictly larger ones.
    pub closed spec fn nonce_mark(self) -> int {
        self.last_nonce as int
    }

    /// Builds a signer from the configured credentials; fails exactly when
    /// the secret is not valid base64 of a 64-byte key.
    pub fn new(key: String, secret: &str) -> (r: Result<Signer, AuthError>)
        ensures
            r.is_ok() <==> (base64_decoded(secret@).is_some() && base64_decoded(
                secret@,
            ).unwrap().len() == 64),
            r.is_ok() ==> {
                &&& r.unwrap().secret_bytes() == base64_decoded(secret@).unwrap()
                &&& r.unwrap().key_str() == key@
                &&& r.unwrap().nonce_mark() == 0
            },
            r.is_err() ==> r == Err::<Signer, AuthError>(AuthError::BadSecret),
    {
        match b64_decode(secret) {
            None => Err(AuthError::BadSecret),
            Some(bytes) => {
                if bytes.len() == 64 {
                    Ok(Signer { key, secret_key: bytes, last_nonce: 0 })
                } else {
                    Err(AuthError::BadSecret)
                }
            },
        }
    }

    /// The last nonce handed out, for callers that must check headroom.
    pub fn last_nonce(&self) -> (r: u64)
        ensures
            r as int == self.nonce_mark(),
    {
        self.last_nonce
    }

    /// The key to send in the API-Key header.
    pub fn api_key(&self) -> (r: &String)
        ensures
            r@ == self.key_str(),
    {
        &self.key
    }

    /// Draws the next nonce: at least the current clock reading, and
    /// strictly above every nonce drawn before, whatever the clock said.
    pub fn next_nonce(&mut self, now_ms: u64) -> (n: u64)
        requires
            old(self).nonce_mark() < u64::MAX,
        ensures
            n as int == if now_ms as int > old(self).nonce_mark() + 1 {
                now_ms as int
            } else {
                old(self).nonce_mark() + 1
            },
            n > old(self).nonce_mark(),
            n >= now_ms,
            final(self).nonce_mark() == n,
            final(self).secret_bytes() == old(self).secret_bytes(),
            final(self).key_str() == old(self).key_str(),
    {
        let n = if now_ms > self.last_nonce.wrapping_add(1) {
            now_ms
        } else {
            self.last_nonce + 1
        };
        self.last_nonce = n;
        n
    }

    /// Returns the POST body and signature for a request, under a caller-
    /// chosen nonce: both are functions of secret, path, fields and nonce
    /// alone, so recomputing with the same inputs gives identical bytes.
    pub fn sign_with_nonce(&self, path: &str, fields: &Vec<(String, String)>, nonce: u64) -> (r: (
        String,
        String,
    ))
        ensures
            r.0@ == spec_post_body(fields_view(fields@), nonce as int),
            r.1@ == spec_signature(self.secret_bytes(), path@, r.0@, nonce as int),
    {
        let nonce_str = crate::decimal::u64_to_string(nonce);

        let mut stamped: Vec<(String, String)> = Vec::new();
        let n = fields.len();
        let mut i: usize = 0;
        while i < n
            invariant
                n == fields@.len(),
                0 <= i <= n,
                stamped@.len() == i,
                forall|j: int|
                    0 <= j < i ==> (#[trigger] stamped@[j]).0@ == fields@[j].0@
                        && stamped@[j].1@ == fields@[j].1@,
            decreases n - i,
        {
            stamped.push((fields[i].0.clone(), fields[i].1.clone()));
            i += 1;
        }
        stamped.push(("nonce".to_owned(), nonce_str.clone()));
        proof {
            assert(fields_view(stamped@) =~= fields_view(fields@).push(
                ("nonce"@, dec_str(nonce as int)),
            ));
        }

        let body = form_encode(&stamped);

        let mut hashed: Vec<u8> = nonce_str.as_str().as_bytes_vec();
        let mut body_bytes: Vec<u8> = body.as_str().as_bytes_vec();
        hashed.append(&mut body_bytes);
        let digest = sha256(hashed.as_slice());

        let mut mac_input: Vec<u8> = path.as_bytes_vec();
        let mut digest_tail = digest;
        mac_input.append(&mut digest_tail);

        let tag = hmac_sha512(self.secret_key.as_slice(), mac_input.as_slice());
        let sig = b64_encode(tag.as_slice());
        (body, sig)
    }

    /// Signs a request, drawing a fresh strictly increasing nonce from the
    /// clock reading.
    pub fn sign(&mut self, path: &str, fields: &Vec<(String, String)>, now_ms: u64) -> (r: (
        String,
        String,
    ))
        requires
            old(self).nonce_mark() < u64::MAX,
        ensures
            final(self).nonce_mark() > old(self).nonce_mark(),
            final(self).secret_bytes() == old(self).secret_bytes(),
            final(self).key_str() == old(self).key_str(),
            r.0@ == spec_post_body(fields_view(fields@), final(self).nonce_mark()),
            r.1@ == spec_signature(
                final(self).secret_bytes(),
                path@,
                r.0@,
                final(self).nonce_mark(),
            ),
    {
        let nonce = self.next_nonce(now_ms);
        self.sign_with_nonce(path, fields, nonce)
    }
}

} // verus!
