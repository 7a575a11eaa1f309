//! Envelope encryption of stored secret values: AES-256-GCM under a locally
//! held 256-bit key, a fresh random 96-bit nonce per value, and nonce plus
//! ciphertext stored as one base64 string.

use vstd::prelude::*;

use aes_gcm::aead::{Aead, KeyInit};
use base64::Engine;

verus! {

use vstd::utf8::{decode_utf8, encode_utf8, valid_utf8};

/// The longest plaintext AES-GCM seals (2^36 - 32 bytes).
pub const GCM_P_MAX: u64 = 68_719_476_704;

/// The base64 text that encodes a byte string, as base64's standard
/// padded alphabet produces it; a function of the bytes alone.
pub uninterp spec fn b64_of(data: Seq<u8>) -> Seq<char>;

/// The AES-256-GCM sealing (ciphertext then 16-byte tag) of a plaintext
/// under a key and nonce; a function of the three alone.
pub uninterp spec fn gcm_seal(key: Seq<u8>, nonce: Seq<u8>, plaintext: Seq<u8>) -> Seq<u8>;

/// Relies on base64's STANDARD engine (Engine::encode): the base64 text of
/// the bytes; an empty input encodes to an empty text.
#[verifier::external_body]
fn b64_encode(data: &[u8]) -> (r: String)
    ensures
        r@ == b64_of(data@),
        data@.len() == 0 ==> r@.len() == 0,
{
    base64::engine::general_purpose::STANDARD.encode(data)
}

/// Relies on base64's STANDARD engine (Engine::decode), which accepts only
/// canonical padded encodings: decoding inverts encoding, and anything it
/// accepts is the encoding of what it returns.
#[verifier::external_body]
fn b64_decode(text: &str) -> (r: Option<Vec<u8>>)
    ensures
        forall|b: Seq<u8>| text@ == b64_of(b) ==> r is Some && r.unwrap()@ == b,
        r is Some ==> b64_of(r.unwrap()@) == text@,
{
    base64::engine::general_purpose::STANDARD.decode(text).ok()
}

/// Relies on rand::fill over thread-local randomness: only the length of
/// the result is promised.
#[verifier::external_body]
fn random_bytes(n: usize) -> (r: Vec<u8>)
    ensures
        r@.len() == n,
{
    let mut buf = vec![0u8; n];
    rand::fill(&mut buf[..]);
    buf
}

/// Relies on aes_gcm's Aes256Gcm (Aead::encrypt): sealing is deterministic
/// in key, nonce and plaintext, and appends a 16-byte tag to the ciphertext.
#[verifier::external_body]
fn gcm_encrypt(key: &[u8], nonce: &[u8], plaintext: &[u8]) -> (r: Vec<u8>)
    requires
        key@.len() == 32,
        nonce@.len() == 12,
        plaintext@.len() <= GCM_P_MAX,
    ensures
        r@ == gcm_seal(key@, nonce@, plaintext@),
        r@.len() == plaintext@.len() + 16,
{
    let cipher = aes_gcm::Aes256Gcm::new_from_slice(key).unwrap();
    let nonce_arr: &aes_gcm::Nonce<aes_gcm::aead::consts::U12> = nonce.try_into().unwrap();
    cipher.encrypt(nonce_arr, plaintext).unwrap()
}

/// Relies on aes_gcm's Aes256Gcm (Aead::decrypt): opening inverts sealing
/// under the same key and nonce, and anything it accepts is the sealing of
/// what it returns.
#[verifier::external_body]
fn gcm_decrypt(key: &[u8], nonce: &[u8], ciphertext: &[u8]) -> (r: Option<Vec<u8>>)
    requires
        key@.len() == 32,
        nonce@.len() == 12,
    ensures
        forall|pt: Seq<u8>|
            pt.len() <= GCM_P_MAX && ciphertext@ == gcm_seal(key@, nonce@, pt) ==> r is Some
                && r.unwrap()@ == pt,
        r is Some ==> ciphertext@ == gcm_seal(key@, nonce@, r.unwrap()@),
{
    let cipher = aes_gcm::Aes256Gcm::new_from_slice(key).unwrap();
    let nonce_arr: &aes_gcm::Nonce<aes_gcm::aead::consts::U12> = nonce.try_into().unwrap();
    cipher.decrypt(nonce_arr, ciphertext).ok()
}

/// Relies on String::from_utf8: it succeeds exactly on valid UTF-8 and
/// returns the decoded characters.
#[verifier::external_body]
fn string_from_utf8(bytes: Vec<u8>) -> (r: Option<String>)
    ensures
        r is Some <==> valid_utf8(bytes@),
        r is Some ==> r.unwrap()@ == decode_utf8(bytes@),
{
    String::from_utf8(bytes).ok()
}

/// The UTF-8 bytes of a string, as an owned vector.
fn str_bytes(s: &str) -> (r: Vec<u8>)
    ensures
        r@ == encode_utf8(s@),
{
    vstd::slice::slice_to_vec(s.as_bytes())
}

/// How a shown value relates to a stored one after a decryption attempt: a
/// well-formed envelope is shown as its plaintext, and anything shown is
/// either a decrypted envelope or the stored text unchanged (the silent
/// fallback the callers apply when the cipher refuses a value).
pub open spec fn spec_reveals(key: Seq<u8>, stored: Seq<char>, shown: Seq<char>) -> bool {
    &&& forall|nonce: Seq<u8>, pt: Seq<char>|
        is_envelope_for(key, nonce, pt, stored) && encode_utf8(pt).len() <= GCM_P_MAX
            ==> shown == pt
    &&& (shown == stored || exists|nonce: Seq<u8>, ptb: Seq<u8>|
        nonce.len() == 12 && stored == b64_of(nonce + gcm_seal(key, nonce, ptb)) && valid_utf8(
            ptb,
        ) && shown == decode_utf8(ptb))
}

/// The holder of the 256-bit vault key.
pub struct Vault {
    key: Vec<u8>,
}

/// True of an envelope a vault with key `key` may store for the characters
/// `pt`: base64 over a 12-byte nonce followed by the sealed UTF-8 bytes.
pub open spec fn is_envelope_for(key: Seq<u8>, nonce: Seq<u8>, pt: Seq<char>, enc: Seq<char>) -> bool {
    nonce.len() == 12 && enc == b64_of(nonce + gcm_seal(key, nonce, encode_utf8(pt)))
}

impl Vault {
    /// The key has the length AES-256 asks for.
    pub closed spec fn wf(&self) -> bool {
        self.key@.len() == 32
    }

    /// The key this vault encrypts under.
    pub closed spec fn spec_key(&self) -> Seq<u8> {
        self.key@
    }

    /// Wraps an existing 32-byte key.
    pub fn new(key: Vec<u8>) -> (r: Vault)
        requires
            key@.len() == 32,
        ensures
            r.wf(),
            r.spec_key() == key@,
    {
        Vault { key }
    }

    /// Draws a fresh random 256-bit key.
    pub fn generate() -> (r: Vault)
        ensures
            r.wf(),
    {
        Vault { key: random_bytes(32) }
    }

    /// The stored base64 form of the key, for persisting beside the data it
    /// protects.
    pub fn export_key(&self) -> (r: String)
        requires
            self.wf(),
        ensures
            r@ == b64_of(self.spec_key()),
    {
        b64_encode(self.key.as_slice())
    }

    /// Restores a vault from the stored base64 form of a 32-byte key.
    pub fn import_key(stored: &str) -> (r: Option<Vault>)
        ensures
            forall|k: Seq<u8>|
                k.len() == 32 && stored@ == b64_of(k) ==> r is Some && r.unwrap().spec_key() == k,
            r is Some ==> r.unwrap().wf(),
    {
        match b64_decode(stored) {
            None => None,
            Some(bytes) => {
                if bytes.len() == 32 {
                    Some(Vault { key: bytes })
                } else {
                    None
                }
            },
        }
    }

    /// Encrypts a value for storage: a fresh random 12-byte nonce, the
    /// AES-256-GCM sealing of the value's UTF-8 bytes under it, and the two
    /// concatenated and base64-encoded.
    pub fn encrypt_value(&self, plaintext: &str) -> (r: String)
        requires
            self.wf(),
            encode_utf8(plaintext@).len() <= GCM_P_MAX,
        ensures
            exists|nonce: Seq<u8>| is_envelope_for(self.spec_key(), nonce, plaintext@, r@),
    {
        let nonce = random_bytes(12);
        let pt_bytes = str_bytes(plaintext);
        let sealed = gcm_encrypt(self.key.as_slice(), nonce.as_slice(), pt_bytes.as_slice());
        let mut combined = nonce;
        let ghost nonce_view = combined@;
        combined.append(&mut { sealed });
        let out = b64_encode(combined.as_slice());
        proof {
            assert(is_envelope_for(self.spec_key(), nonce_view, plaintext@, out@));
        }
        out
    }

    /// Decrypts a stored envelope: base64-decode, split nonce from sealed
    /// bytes, open, and decode the UTF-8. Every envelope this vault's
    /// `encrypt_value` can produce for a string is returned as that string;
    /// anything else the cipher accepts is returned as the text its sealed
    /// bytes decode to, and the rest is refused.
    pub fn decrypt_value(&self, encrypted: &str) -> (r: Option<String>)
        requires
            self.wf(),
        ensures
            forall|nonce: Seq<u8>, pt: Seq<char>|
                is_envelope_for(self.spec_key(), nonce, pt, encrypted@) && encode_utf8(pt).len()
                    <= GCM_P_MAX ==> r is Some && r.unwrap()@ == pt,
            r is Some ==> exists|nonce: Seq<u8>, ptb: Seq<u8>|
                nonce.len() == 12 && encrypted@ == b64_of(nonce + gcm_seal(self.spec_key(), nonce, ptb))
                    && valid_utf8(ptb) && r.unwrap()@ == decode_utf8(ptb),
    {
        broadcast use vstd::utf8::encode_utf8_valid_utf8, vstd::utf8::encode_utf8_decode_utf8;

        let combined = match b64_decode(encrypted) {
            None => {
                return None;
            },
            Some(c) => c,
        };
        if combined.len() < 12 {
            proof {
                assert forall|nonce: Seq<u8>, pt: Seq<char>|
                    is_envelope_for(self.spec_key(), nonce, pt, encrypted@) implies false by {
                    assert(combined@ == nonce + gcm_seal(self.spec_key(), nonce, encode_utf8(pt)));
                }
            }
            return None;
        }
        let cl: usize = combined.len();
        let nonce_part = vstd::slice::slice_subrange(combined.as_slice(), 0, 12);
        let ct_part = vstd::slice::slice_subrange(combined.as_slice(), 12, cl);
        let opened = match gcm_decrypt(self.key.as_slice(), nonce_part, ct_part) {
            None => {
                proof {
                    assert forall|nonce: Seq<u8>, pt: Seq<char>|
                        is_envelope_for(self.spec_key(), nonce, pt, encrypted@) && encode_utf8(
                            pt,
                        ).len() <= GCM_P_MAX implies false by {
                        let sealed = gcm_seal(self.spec_key(), nonce, encode_utf8(pt));
                        assert(combined@ == nonce + sealed);
                        assert(nonce_part@ =~= nonce);
                        assert(ct_part@ =~= sealed);
                    }
                }
                return None;
            },
            Some(p) => p,
        };
        let ghost opened_view = opened@;
        let r = string_from_utf8(opened);
        proof {
            if r is Some {
                assert(combined@ =~= nonce_part@ + ct_part@);
                assert(nonce_part@.len() == 12 && encrypted@ == b64_of(nonce_part@ + gcm_seal(
                    self.spec_key(),
                    nonce_part@,
                    opened_view,
                )) && valid_utf8(opened_view) && r.unwrap()@ == decode_utf8(opened_view));
                assert forall|nonce: Seq<u8>, pt: Seq<char>|
                    is_envelope_for(self.spec_key(), nonce, pt, encrypted@) && encode_utf8(
                        pt,
                    ).len() <= GCM_P_MAX implies r is Some && r.unwrap()@ == pt by {
                    let sealed = gcm_seal(self.spec_key(), nonce, encode_utf8(pt));
                    assert(combined@ == nonce + sealed);
                    assert(nonce_part@ =~= nonce);
                    assert(ct_part@ =~= sealed);
                    assert(opened_view == encode_utf8(pt));
                    assert(decode_utf8(encode_utf8(pt)) == pt);
                }
            } else {
                assert forall|nonce: Seq<u8>, pt: Seq<char>|
                    is_envelope_for(self.spec_key(), nonce, pt, encrypted@) && encode_utf8(
                        pt,
                    ).len() <= GCM_P_MAX implies false by {
                    let sealed = gcm_seal(self.spec_key(), nonce, encode_utf8(pt));
                    assert(combined@ == nonce + sealed);
                    assert(nonce_part@ =~= nonce);
                    assert(ct_part@ =~= sealed);
                    assert(opened_view == encode_utf8(pt));
                }
            }
        }
        r
    }

    /// Encrypt-then-decrypt round-trip: decrypting the stored encryption of
    /// any string yields that string again.
    pub fn encrypt_decrypt_round_trip(&self, plaintext: &str) -> (r: Option<String>)
        requires
            self.wf(),
            encode_utf8(plaintext@).len() <= GCM_P_MAX,
        ensures
            r is Some,
            r.unwrap()@ == plaintext@,
    {
        broadcast use vstd::utf8::encode_utf8_valid_utf8, vstd::utf8::encode_utf8_decode_utf8;

        let stored = self.encrypt_value(plaintext);
        let back = self.decrypt_value(stored.as_str());
        proof {
            let nonce = choose|nonce: Seq<u8>|
                is_envelope_for(self.spec_key(), nonce, plaintext@, stored@);
            assert(back is Some && back.unwrap()@ == plaintext@);
        }
        back
    }
}

} // verus!
