//! Key pairs, SHA-256 digests and ECDSA signatures over secp256k1.
//!
//! Keys and signatures travel as lowercase hex text.  The curve arithmetic and the
//! hash come from the `secp256k1` and `sha2` crates; what they compute is named by
//! the uninterpreted functions below, and the wrappers say what the crates guarantee.

use vstd::prelude::*;
use crate::hexcode::{hex_bytes, hex_decode, hex_encode, hex_text, is_hex_text, lemma_hex_roundtrip};
use sha2::Digest;

verus! {

/// The order of the secp256k1 group.
pub open spec fn curve_order() -> nat {
    0xFFFF_FFFF_FFFF_FFFF_FFFF_FFFF_FFFF_FFFE_BAAE_DCE6_AF48_A03B_BFD2_5E8C_D036_4141nat
}

/// A byte string read as a big-endian unsigned integer.
pub open spec fn big_endian(bytes: Seq<u8>) -> nat
    decreases bytes.len(),
{
    if bytes.len() == 0 {
        0
    } else {
        big_endian(bytes.drop_last()) * 256 + bytes.last() as nat
    }
}

/// A secret key: 32 bytes, read big-endian, neither zero nor below the group order.
pub open spec fn is_secret_key(bytes: Seq<u8>) -> bool {
    &&& bytes.len() == 32
    &&& 0 < big_endian(bytes)
    &&& big_endian(bytes) < curve_order()
}

/// A compact signature: 64 bytes, both 32-byte halves below the group order.
pub open spec fn is_compact_signature(bytes: Seq<u8>) -> bool {
    &&& bytes.len() == 64
    &&& big_endian(bytes.subrange(0, 32)) < curve_order()
    &&& big_endian(bytes.subrange(32, 64)) < curve_order()
}

/// The shape of a compressed public key: 33 bytes, the first of them 0x02 (even y) or
/// 0x03 (odd y).
pub open spec fn is_compressed_key(bytes: Seq<u8>) -> bool {
    &&& bytes.len() == 33
    &&& (bytes[0] == 2 || bytes[0] == 3)
}

/// SHA-256 of a byte string.
pub uninterp spec fn sha256_of(data: Seq<u8>) -> Seq<u8>;

/// The compressed (33-byte) encoding of the public key of a secret key.
pub uninterp spec fn public_key_of(secret: Seq<u8>) -> Seq<u8>;

/// Whether bytes are the encoding of a point of the curve, compressed or not.
pub uninterp spec fn parses_as_public_key(bytes: Seq<u8>) -> bool;

/// The compact encoding of the RFC 6979 ECDSA signature of a digest with a secret key.
pub uninterp spec fn ecdsa_signature(digest: Seq<u8>, secret: Seq<u8>) -> Seq<u8>;

/// Whether a compact signature of a digest checks against an encoded public key.
pub uninterp spec fn ecdsa_accepts(digest: Seq<u8>, signature: Seq<u8>, public: Seq<u8>) -> bool;

/// `sha2::Sha256::digest`: the SHA-256 hash of `data`.
#[verifier::external_body]
fn sha256(data: &[u8]) -> (digest: [u8; 32])
    ensures
        digest@ == sha256_of(data@),
{
    sha2::Sha256::digest(data).into()
}

/// `secp256k1::SecretKey::from_slice`: accepts exactly 32 bytes whose big-endian value is
/// neither zero nor at least the group order (the check of `secp256k1_ec_seckey_verify`).
#[verifier::external_body]
fn secret_key_accepted(bytes: &[u8]) -> (ok: bool)
    ensures
        ok == is_secret_key(bytes@),
{
    secp256k1::SecretKey::from_slice(bytes).is_ok()
}

/// `secp256k1::PublicKey::from_slice`: whether the bytes encode a point of the curve.
#[verifier::external_body]
fn public_key_accepted(bytes: &[u8]) -> (ok: bool)
    ensures
        ok == parses_as_public_key(bytes@),
{
    secp256k1::PublicKey::from_slice(bytes).is_ok()
}

/// `secp256k1::ecdsa::Signature::from_compact`: accepts 64 bytes whose two halves are
/// below the group order (the check of `secp256k1_ecdsa_signature_parse_compact`).
#[verifier::external_body]
fn compact_signature_accepted(bytes: &[u8]) -> (ok: bool)
    ensures
        ok == is_compact_signature(bytes@),
{
    secp256k1::ecdsa::Signature::from_compact(bytes).is_ok()
}

/// `secp256k1::PublicKey::from_secret_key`, serialized compressed: the public key of a
/// secret key, 33 bytes starting with the tag 0x02 or 0x03, which `PublicKey::from_slice`
/// reads back.
#[verifier::external_body]
fn public_key_from_secret(secret: &[u8]) -> (public: Vec<u8>)
    requires
        is_secret_key(secret@),
    ensures
        public@ == public_key_of(secret@),
        is_compressed_key(public@),
        parses_as_public_key(public@),
{
    let secp = secp256k1::Secp256k1::new();
    let sk = secp256k1::SecretKey::from_slice(secret).unwrap();
    secp256k1::PublicKey::from_secret_key(&secp, &sk).serialize().to_vec()
}

/// `Secp256k1::generate_keypair` with `rand::thread_rng`: a fresh random secret key and
/// its public key, serialized compressed (33 bytes, tag 0x02 or 0x03).  Which key comes
/// out is left open.
#[verifier::external_body]
fn generate_key_bytes() -> (keys: (Vec<u8>, Vec<u8>))
    ensures
        is_secret_key(keys.0@),
        keys.1@ == public_key_of(keys.0@),
        is_compressed_key(keys.1@),
        parses_as_public_key(keys.1@),
{
    let secp = secp256k1::Secp256k1::new();
    let (sk, pk) = secp.generate_keypair(&mut rand::thread_rng());
    (sk.secret_bytes().to_vec(), pk.serialize().to_vec())
}

/// `Secp256k1::sign_ecdsa` with the digest as message, serialized compact: the signature
/// is deterministic (RFC 6979), low-S, parses back as a compact signature and checks
/// against the public key of the signing secret.
#[verifier::external_body]
fn ecdsa_sign(digest: &[u8; 32], secret: &[u8]) -> (signature: Vec<u8>)
    requires
        is_secret_key(secret@),
    ensures
        signature@ == ecdsa_signature(digest@, secret@),
        is_compact_signature(signature@),
        ecdsa_accepts(digest@, signature@, public_key_of(secret@)),
{
    let secp = secp256k1::Secp256k1::new();
    let sk = secp256k1::SecretKey::from_slice(secret).unwrap();
    let msg = secp256k1::Message::from_digest(*digest);
    secp.sign_ecdsa(&msg, &sk).serialize_compact().to_vec()
}

/// `Secp256k1::verify_ecdsa` with the digest as message: whether the compact signature
/// checks against the encoded public key.
#[verifier::external_body]
fn ecdsa_verify(digest: &[u8; 32], signature: &[u8], public: &[u8]) -> (ok: bool)
    requires
        is_compact_signature(signature@),
        parses_as_public_key(public@),
    ensures
        ok == ecdsa_accepts(digest@, signature@, public@),
{
    let secp = secp256k1::Secp256k1::verification_only();
    let sig = secp256k1::ecdsa::Signature::from_compact(signature).unwrap();
    let pk = secp256k1::PublicKey::from_slice(public).unwrap();
    let msg = secp256k1::Message::from_digest(*digest);
    secp.verify_ecdsa(&msg, &sig, &pk).is_ok()
}

/// Why a key could not be read from its hex text.
#[derive(Debug, Clone, Copy, PartialEq, Eq, Structural)]
pub enum CryptoError {
    /// The text is not an even number of hex digits.
    InvalidHex,
    /// The bytes are not a valid secret key.
    InvalidSecretKey,
    /// The bytes are not a valid public key.
    InvalidPublicKey,
}

/// A secret key together with its public key.
pub struct KeyPair {
    secret: Vec<u8>,
    public: Vec<u8>,
}

impl KeyPair {
    /// The 32 secret bytes.
    pub closed spec fn secret_key(self) -> Seq<u8> {
        self.secret@
    }

    /// The compressed public key.
    pub closed spec fn public_key(self) -> Seq<u8> {
        self.public@
    }

    /// Every key pair holds a valid secret and the public key that belongs to it.
    #[verifier::type_invariant]
    pub open spec fn well_formed(self) -> bool {
        &&& is_secret_key(self.secret_key())
        &&& self.public_key() == public_key_of(self.secret_key())
        &&& is_compressed_key(self.public_key())
        &&& parses_as_public_key(self.public_key())
    }

    /// A fresh random key pair.
    pub fn generate() -> (kp: KeyPair)
        ensures
            is_secret_key(kp.secret_key()),
            kp.public_key() == public_key_of(kp.secret_key()),
    {
        let (secret, public) = generate_key_bytes();
        KeyPair { secret, public }
    }

    /// The key pair of a secret key written in hex.
    pub fn from_secret_hex(hex_str: &str) -> (r: Result<KeyPair, CryptoError>)
        ensures
            r is Ok <==> is_hex_text(hex_str@) && is_secret_key(hex_bytes(hex_str@)),
            r matches Ok(kp) ==> kp.secret_key() == hex_bytes(hex_str@) && kp.public_key()
                == public_key_of(hex_bytes(hex_str@)),
            r matches Err(e) ==> (e == CryptoError::InvalidHex <==> !is_hex_text(hex_str@)),
            r matches Err(e) ==> e != CryptoError::InvalidPublicKey,
    {
        let bytes = match hex_decode(hex_str) {
            Ok(b) => b,
            Err(_) => {
                return Err(CryptoError::InvalidHex);
            },
        };
        if !secret_key_accepted(bytes.as_slice()) {
            return Err(CryptoError::InvalidSecretKey);
        }
        let public = public_key_from_secret(bytes.as_slice());
        Ok(KeyPair { secret: bytes, public })
    }

    /// The secret key as lowercase hex.
    pub fn secret_hex(&self) -> (s: String)
        ensures
            s@ == hex_text(self.secret_key()),
    {
        hex_encode(self.secret.as_slice())
    }

    /// The compressed public key as lowercase hex: 66 characters, starting with "02" or
    /// "03".
    pub fn public_hex(&self) -> (s: String)
        ensures
            s@ == hex_text(self.public_key()),
            s@.len() == 66,
            s@[0] == '0',
            s@[1] == '2' || s@[1] == '3',
    {
        proof {
            use_type_invariant(self);
        }
        hex_encode(self.public.as_slice())
    }
}

impl Clone for KeyPair {
    fn clone(&self) -> (r: Self)
        ensures
            r.secret_key() == self.secret_key(),
            r.public_key() == self.public_key(),
    {
        proof {
            use_type_invariant(self);
        }
        let secret = self.secret.clone();
        let public = self.public.clone();
        assert(secret@ == self.secret@);
        assert(public@ == self.public@);
        KeyPair { secret, public }
    }
}

/// A public key read from its encoding.
pub struct PublicKey {
    bytes: Vec<u8>,
}

impl PublicKey {
    /// The encoding the key was read from.
    pub closed spec fn encoding(self) -> Seq<u8> {
        self.bytes@
    }

    /// Only encodings of curve points are held.
    #[verifier::type_invariant]
    closed spec fn well_formed(self) -> bool {
        parses_as_public_key(self.bytes@)
    }

    /// The encoding, as bytes.
    pub fn to_bytes(&self) -> (b: Vec<u8>)
        ensures
            b@ == self.encoding(),
    {
        self.bytes.clone()
    }
}

/// A public key from its hex text.
pub fn pubkey_from_hex(hex_str: &str) -> (r: Result<PublicKey, CryptoError>)
    ensures
        r is Ok <==> is_hex_text(hex_str@) && parses_as_public_key(hex_bytes(hex_str@)),
        r matches Ok(pk) ==> pk.encoding() == hex_bytes(hex_str@),
        r matches Err(e) ==> (e == CryptoError::InvalidHex <==> !is_hex_text(hex_str@)),
        r matches Err(e) ==> e != CryptoError::InvalidSecretKey,
{
    let bytes = match hex_decode(hex_str) {
        Ok(b) => b,
        Err(_) => {
            return Err(CryptoError::InvalidHex);
        },
    };
    if !public_key_accepted(bytes.as_slice()) {
        return Err(CryptoError::InvalidPublicKey);
    }
    Ok(PublicKey { bytes })
}

/// The SHA-256 digest of `data`.
pub fn hash_message(data: &[u8]) -> (digest: [u8; 32])
    ensures
        digest@ == sha256_of(data@),
{
    sha256(data)
}

/// The signature of `data` by `keypair`: hex of the compact ECDSA signature of the
/// SHA-256 digest of `data`.  It is always accepted by [`verify`] for the same data and
/// the key pair's public hex.
pub fn sign(data: &[u8], keypair: &KeyPair) -> (signature: String)
    ensures
        signature@ == hex_text(ecdsa_signature(sha256_of(data@), keypair.secret_key())),
        signature_checks(data@, signature@, hex_text(keypair.public_key())),
{
    proof {
        use_type_invariant(keypair);
    }
    let digest = sha256(data);
    let sig = ecdsa_sign(&digest, keypair.secret.as_slice());
    let text = hex_encode(sig.as_slice());
    proof {
        lemma_hex_roundtrip(sig@);
        lemma_hex_roundtrip(keypair.public@);
    }
    text
}

/// What [`verify`] accepts: both texts are hex, the signature is a valid compact signature,
/// the key is a valid public key, and the signature checks for the digest of `data`.
pub open spec fn signature_checks(data: Seq<u8>, signature_hex: Seq<char>, pubkey_hex: Seq<char>) -> bool {
    &&& is_hex_text(signature_hex)
    &&& is_compact_signature(hex_bytes(signature_hex))
    &&& is_hex_text(pubkey_hex)
    &&& parses_as_public_key(hex_bytes(pubkey_hex))
    &&& ecdsa_accepts(sha256_of(data), hex_bytes(signature_hex), hex_bytes(pubkey_hex))
}

/// Whether `signature_hex` is a signature of `data` by the key `pubkey_hex`.  Text that
/// does not decode gives `false`.
pub fn verify(data: &[u8], signature_hex: &str, pubkey_hex: &str) -> (ok: bool)
    ensures
        ok == signature_checks(data@, signature_hex@, pubkey_hex@),
{
    let sig_bytes = match hex_decode(signature_hex) {
        Ok(b) => b,
        Err(_) => {
            return false;
        },
    };
    if !compact_signature_accepted(sig_bytes.as_slice()) {
        return false;
    }
    let pubkey = match pubkey_from_hex(pubkey_hex) {
        Ok(pk) => pk,
        Err(_) => {
            return false;
        },
    };
    proof {
        use_type_invariant(&pubkey);
    }
    let digest = sha256(data);
    ecdsa_verify(&digest, sig_bytes.as_slice(), pubkey.bytes.as_slice())
}

/// Restoring a key pair from the hex of its secret gives back the same key pair:
/// the hex text decodes to the secret, which is valid, so `from_secret_hex` succeeds
/// with that secret and the public key that belongs to it.
pub proof fn lemma_secret_hex_restores(secret: Seq<u8>)
    requires
        is_secret_key(secret),
    ensures
        is_hex_text(hex_text(secret)),
        hex_bytes(hex_text(secret)) == secret,
        is_secret_key(hex_bytes(hex_text(secret))),
{
    lemma_hex_roundtrip(secret);
}

} // verus!
