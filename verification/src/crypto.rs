//! AES-128-GCM sealing of datagrams with a key derived from the shared token.
//!
//! Wire format: `nonce(12) || ciphertext || tag(16)`.  The key is the first
//! 16 bytes of SHA-256 of the token.
use vstd::prelude::*;
use vstd::slice::slice_subrange;
use vstd::string::StringSliceAdditionalSpecFns;
use aes_gcm::aead::{Aead, KeyInit, Error as AeadError};
use aes_gcm::{Aes128Gcm, Key, Nonce};
use sha2::{Digest, Sha256};

verus! {

/// AES-128 key length.
pub const KEY_LEN: usize = 16;
/// AES-GCM nonce length.
pub const NONCE_LEN: usize = 12;
/// Authentication tag length.
pub const TAG_LEN: usize = 16;
/// Longest plaintext AES-GCM accepts (2^36 bytes).
pub const P_MAX: u64 = 0x10_0000_0000;

#[verifier::external_type_specification]
#[verifier::external_body]
pub struct ExAeadError(aes_gcm::aead::Error);

/// SHA-256 digest of a byte string.
pub uninterp spec fn sha256_digest(data: Seq<u8>) -> Seq<u8>;

/// AES-128-GCM ciphertext-with-tag of `pt` under `key` and `nonce` (no associated data).
pub uninterp spec fn aes128gcm_seal(key: Seq<u8>, nonce: Seq<u8>, pt: Seq<u8>) -> Seq<u8>;

/// AES-128-GCM opening of `ct` (ciphertext with tag): the plaintext when the tag checks.
pub uninterp spec fn aes128gcm_open(key: Seq<u8>, nonce: Seq<u8>, ct: Seq<u8>) -> Option<Seq<u8>>;

/// `ct` is what sealing `p` under `key` and `nonce` produces.
pub open spec fn is_sealing_of(key: Seq<u8>, nonce: Seq<u8>, ct: Seq<u8>, p: Seq<u8>) -> bool {
    p.len() <= P_MAX && ct == aes128gcm_seal(key, nonce, p)
}

/// `sha2::Sha256::digest`: the 32-byte SHA-256 digest of `data`.
#[verifier::external_body]
fn sha256(data: &[u8]) -> (res: [u8; 32])
    ensures
        res@ == sha256_digest(data@),
{
    Sha256::digest(data).into()
}

/// `aes_gcm::Aes128Gcm::encrypt` (after building the cipher from `key`):
/// the ciphertext followed by the 16-byte tag.  It fails only for
/// plaintexts longer than `P_MAX`, which `requires` excludes.
#[verifier::external_body]
fn aes_gcm_encrypt(key: &[u8; 16], nonce: &[u8; 12], pt: &[u8]) -> (res: Vec<u8>)
    requires
        pt@.len() <= P_MAX,
    ensures
        res@ == aes128gcm_seal(key@, nonce@, pt@),
        res@.len() == pt@.len() + TAG_LEN,
{
    Aes128Gcm::new(Key::<Aes128Gcm>::from_slice(key)).encrypt(Nonce::from_slice(nonce), pt).unwrap()
}

/// `aes_gcm::Aes128Gcm::decrypt` (after building the cipher from `key`).
/// It rejects inputs shorter than a tag, and it returns the plaintext of
/// anything `encrypt` produced under the same key and nonce.
#[verifier::external_body]
fn aes_gcm_decrypt(key: &[u8; 16], nonce: &[u8; 12], ct: &[u8]) -> (res: Result<Vec<u8>, AeadError>)
    ensures
        res is Ok <==> aes128gcm_open(key@, nonce@, ct@) is Some,
        res matches Ok(p) ==> aes128gcm_open(key@, nonce@, ct@) == Some(p@),
        ct@.len() < TAG_LEN ==> res is Err,
        res is Err ==> forall|p: Seq<u8>| !#[trigger] is_sealing_of(key@, nonce@, ct@, p),
        res matches Ok(q) ==> forall|p: Seq<u8>| #[trigger] is_sealing_of(key@, nonce@, ct@, p) ==> q@ == p,
{
    Aes128Gcm::new(Key::<Aes128Gcm>::from_slice(key)).decrypt(Nonce::from_slice(nonce), ct)
}

/// Why a datagram could not be opened.
#[derive(Debug, Clone, PartialEq, Eq)]
pub enum CryptoError {
    /// Shorter than nonce plus tag (the minimum is given).
    CiphertextTooShort(usize),
    /// The tag did not authenticate the ciphertext.
    DecryptFailed,
}

/// An AES-128-GCM key.
#[derive(Clone, Copy)]
pub struct AeadKey {
    key: [u8; 16],
}

/// The bytes a sealed message carries: the nonce, then ciphertext and tag.
pub open spec fn sealed_wire(key: Seq<u8>, nonce: Seq<u8>, pt: Seq<u8>) -> Seq<u8> {
    nonce + aes128gcm_seal(key, nonce, pt)
}

/// The outcome of opening `wire` under `key`.
pub open spec fn spec_open(key: Seq<u8>, wire: Seq<u8>) -> Result<Seq<u8>, CryptoError> {
    if wire.len() < NONCE_LEN + TAG_LEN {
        Err(CryptoError::CiphertextTooShort((NONCE_LEN + TAG_LEN) as usize))
    } else {
        match aes128gcm_open(key, wire.subrange(0, 12), wire.subrange(12, wire.len() as int)) {
            Some(p) => Ok(p),
            None => Err(CryptoError::DecryptFailed),
        }
    }
}

impl AeadKey {
    /// The raw key.
    pub closed spec fn key_bytes(&self) -> Seq<u8> {
        self.key@
    }

    /// A key from its 16 raw bytes.
    pub fn from_bytes(raw: &[u8; 16]) -> (k: Self)
        ensures
            k.key_bytes() == raw@,
    {
        AeadKey { key: *raw }
    }

    /// Seals `plaintext`: returns `nonce || ciphertext || tag`.
    pub fn seal(&self, nonce: &[u8; 12], plaintext: &[u8]) -> (wire: Vec<u8>)
        requires
            plaintext@.len() <= P_MAX,
        ensures
            wire@ == sealed_wire(self.key_bytes(), nonce@, plaintext@),
            wire@.len() == NONCE_LEN + plaintext@.len() + TAG_LEN,
    {
        let ct = aes_gcm_encrypt(&self.key, nonce, plaintext);
        let mut out: Vec<u8> = Vec::new();
        out.extend_from_slice(nonce.as_slice());
        out.extend_from_slice(ct.as_slice());
        out
    }

    /// Opens `nonce || ciphertext || tag`.  A message sealed under this key
    /// opens to its plaintext.
    pub fn open(&self, wire: &[u8]) -> (res: Result<Vec<u8>, CryptoError>)
        ensures
            match res {
                Ok(p) => spec_open(self.key_bytes(), wire@) == Ok::<Seq<u8>, CryptoError>(p@),
                Err(e) => spec_open(self.key_bytes(), wire@) == Err::<Seq<u8>, CryptoError>(e),
            },
            forall|n: Seq<u8>, p: Seq<u8>|
                n.len() == NONCE_LEN && p.len() <= P_MAX && wire@.len() >= NONCE_LEN + TAG_LEN
                    && wire@ == #[trigger] sealed_wire(
                    self.key_bytes(),
                    n,
                    p,
                ) ==> (res matches Ok(q) && q@ == p),
    {
        if wire.len() < NONCE_LEN + TAG_LEN {
            return Err(CryptoError::CiphertextTooShort(NONCE_LEN + TAG_LEN));
        }
        let nonce: [u8; 12] = [
            wire[0],
            wire[1],
            wire[2],
            wire[3],
            wire[4],
            wire[5],
            wire[6],
            wire[7],
            wire[8],
            wire[9],
            wire[10],
            wire[11],
        ];
        assert(nonce@ =~= wire@.subrange(0, 12));
        let ct = slice_subrange(wire, 12, wire.len());
        assert forall|n: Seq<u8>, p: Seq<u8>|
            n.len() == NONCE_LEN && p.len() <= P_MAX && wire@.len() >= NONCE_LEN + TAG_LEN
                    && wire@ == #[trigger] sealed_wire(
                self.key_bytes(),
                n,
                p,
            ) implies is_sealing_of(self.key@, nonce@, ct@, p) by {
            assert(wire@.subrange(0, 12) =~= n);
            assert(wire@.subrange(12, wire@.len() as int) =~= aes128gcm_seal(self.key@, n, p));
        }
        match aes_gcm_decrypt(&self.key, &nonce, ct) {
            Ok(p) => Ok(p),
            Err(_) => Err(CryptoError::DecryptFailed),
        }
    }
}

/// The key derived from a token: the first 16 bytes of SHA-256 of its UTF-8 bytes.
pub fn derive_key(token: &str) -> (k: AeadKey)
    ensures
        k.key_bytes() == sha256_digest(token.spec_bytes()).subrange(0, 16),
{
    let d = sha256(token.as_bytes());
    let raw: [u8; 16] = [
        d[0],
        d[1],
        d[2],
        d[3],
        d[4],
        d[5],
        d[6],
        d[7],
        d[8],
        d[9],
        d[10],
        d[11],
        d[12],
        d[13],
        d[14],
        d[15],
    ];
    assert(raw@ =~= d@.subrange(0, 16));
    AeadKey::from_bytes(&raw)
}

/// Seals `plain` under `key` with `nonce` (see `AeadKey::seal`).
pub fn seal(plain: &[u8], key: &AeadKey, nonce: &[u8; 12]) -> (wire: Vec<u8>)
    requires
        plain@.len() <= P_MAX,
    ensures
        wire@ == sealed_wire(key.key_bytes(), nonce@, plain@),
        wire@.len() == NONCE_LEN + plain@.len() + TAG_LEN,
{
    key.seal(nonce, plain)
}

/// Opens `wire` under `key` (see `AeadKey::open`).
pub fn open(wire: &[u8], key: &AeadKey) -> (res: Result<Vec<u8>, CryptoError>)
    ensures
        match res {
            Ok(p) => spec_open(key.key_bytes(), wire@) == Ok::<Seq<u8>, CryptoError>(p@),
            Err(e) => spec_open(key.key_bytes(), wire@) == Err::<Seq<u8>, CryptoError>(e),
        },
        forall|n: Seq<u8>, p: Seq<u8>|
            n.len() == NONCE_LEN && p.len() <= P_MAX && wire@.len() >= NONCE_LEN + TAG_LEN
                    && wire@ == #[trigger] sealed_wire(
                key.key_bytes(),
                n,
                p,
            ) ==> (res matches Ok(q) && q@ == p),
{
    key.open(wire)
}

} // verus!
