use sha2::Digest;
use zeta::crypto::{hash_message, pubkey_from_hex, sign, verify, CryptoError, KeyPair};

#[test]
fn test_sign_verify() {
    let keypair = KeyPair::generate();
    let data = b"Hello Zeta Network!";
    let signature = sign(data, &keypair);
    assert!(verify(data, &signature, &keypair.public_hex()));
}

#[test]
fn test_keypair_serialization() {
    let keypair = KeyPair::generate();
    let secret_hex = keypair.secret_hex();
    let restored = KeyPair::from_secret_hex(&secret_hex).unwrap();
    assert_eq!(keypair.public_hex(), restored.public_hex());
}

const SECRET_ONE: &str = "0000000000000000000000000000000000000000000000000000000000000001";
const GENERATOR: &str = "0279be667ef9dcbbac55a06295ce870b07029bfcdb2dce28d959f2815b16f81798";

#[test]
fn secret_one_has_the_generator_as_public_key() {
    let kp = KeyPair::from_secret_hex(SECRET_ONE).unwrap();
    assert_eq!(kp.public_hex(), GENERATOR);
    assert_eq!(kp.secret_hex(), SECRET_ONE);
}

#[test]
fn uppercase_secret_hex_is_accepted_and_written_back_lowercase() {
    let upper = "00000000000000000000000000000000000000000000000000000000000000AB";
    let kp = KeyPair::from_secret_hex(upper).unwrap();
    assert_eq!(kp.secret_hex(), upper.to_lowercase());
}

#[test]
fn secret_hex_errors() {
    assert!(matches!(KeyPair::from_secret_hex("abc"), Err(CryptoError::InvalidHex)));
    assert!(matches!(KeyPair::from_secret_hex("zz"), Err(CryptoError::InvalidHex)));
    let zero = "0".repeat(64);
    assert!(matches!(KeyPair::from_secret_hex(&zero), Err(CryptoError::InvalidSecretKey)));
    assert!(matches!(KeyPair::from_secret_hex("0102"), Err(CryptoError::InvalidSecretKey)));
    let order = "fffffffffffffffffffffffffffffffebaaedce6af48a03bbfd25e8cd0364141";
    assert!(matches!(KeyPair::from_secret_hex(order), Err(CryptoError::InvalidSecretKey)));
    let below_order = "fffffffffffffffffffffffffffffffebaaedce6af48a03bbfd25e8cd0364140";
    assert!(KeyPair::from_secret_hex(below_order).is_ok());
}

#[test]
fn pubkey_from_hex_cases() {
    let pk = pubkey_from_hex(GENERATOR).unwrap();
    assert_eq!(hex::encode(pk.to_bytes()), GENERATOR);
    assert!(matches!(pubkey_from_hex("0g"), Err(CryptoError::InvalidHex)));
    assert!(matches!(pubkey_from_hex(""), Err(CryptoError::InvalidPublicKey)));
    assert!(matches!(pubkey_from_hex("05aa"), Err(CryptoError::InvalidPublicKey)));
}

#[test]
fn hash_message_known_vector() {
    let h = hash_message(b"abc");
    assert_eq!(
        hex::encode(h),
        "ba7816bf8f01cfea414140de5dae2223b00361a396177a9cb410ff61f20015ad"
    );
}

#[test]
fn signature_is_deterministic_hex_of_64_bytes() {
    let kp = KeyPair::from_secret_hex(SECRET_ONE).unwrap();
    let a = sign(b"data", &kp);
    let b = sign(b"data", &kp);
    assert_eq!(a, b);
    assert_eq!(a.len(), 128);
    assert!(a.chars().all(|c| c.is_ascii_hexdigit() && !c.is_ascii_uppercase()));
}

#[test]
fn signature_matches_secp256k1_directly() {
    let kp = KeyPair::from_secret_hex(SECRET_ONE).unwrap();
    let ours = sign(b"payload", &kp);
    let secp = secp256k1::Secp256k1::new();
    let sk = secp256k1::SecretKey::from_slice(&hex::decode(SECRET_ONE).unwrap()).unwrap();
    let digest: [u8; 32] = sha2::Sha256::digest(b"payload").into();
    let msg = secp256k1::Message::from_digest(digest);
    let theirs = hex::encode(secp.sign_ecdsa(&msg, &sk).serialize_compact());
    assert_eq!(ours, theirs);
}

#[test]
fn verify_rejects_wrong_inputs() {
    let kp = KeyPair::from_secret_hex(SECRET_ONE).unwrap();
    let other = KeyPair::generate();
    let sig = sign(b"data", &kp);
    assert!(verify(b"data", &sig, &kp.public_hex()));
    assert!(!verify(b"other data", &sig, &kp.public_hex()));
    assert!(!verify(b"data", &sig, &other.public_hex()));
    assert!(!verify(b"data", "not hex", &kp.public_hex()));
    assert!(!verify(b"data", &sig, "not hex"));
    assert!(!verify(b"data", &sig[..126], &kp.public_hex()));
    let overflow = "f".repeat(128);
    assert!(!verify(b"data", &overflow, &kp.public_hex()));
}

#[test]
fn uppercase_signature_and_key_hex_still_verify() {
    let kp = KeyPair::from_secret_hex(SECRET_ONE).unwrap();
    let sig = sign(b"data", &kp);
    assert!(verify(b"data", &sig.to_uppercase(), &kp.public_hex().to_uppercase()));
}

#[test]
fn uncompressed_public_key_verifies() {
    let kp = KeyPair::from_secret_hex(SECRET_ONE).unwrap();
    let sig = sign(b"data", &kp);
    let pk = secp256k1::PublicKey::from_slice(&hex::decode(GENERATOR).unwrap()).unwrap();
    let uncompressed = hex::encode(pk.serialize_uncompressed());
    assert!(verify(b"data", &sig, &uncompressed));
}

#[test]
fn cloned_keypair_keeps_keys() {
    let kp = KeyPair::generate();
    let c = kp.clone();
    assert_eq!(kp.secret_hex(), c.secret_hex());
    assert_eq!(kp.public_hex(), c.public_hex());
}
