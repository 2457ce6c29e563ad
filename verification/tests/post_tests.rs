use sha2::Digest;
use zeta::crypto::KeyPair;
use zeta::post::Post;

#[test]
fn test_post_creation_and_verification() {
    let keypair = KeyPair::generate();
    let post = Post::new("Hello Zeta!".to_string(), &keypair).expect("the clock reads after 1970");

    assert!(post.verify());
    assert_eq!(post.author_pubkey, keypair.public_hex());
    assert_eq!(post.id.len(), 32);
}

#[test]
fn test_tampered_post_fails_verification() {
    let keypair = KeyPair::generate();
    let mut post = Post::new("Hello Zeta!".to_string(), &keypair).expect("the clock reads after 1970");

    post.content = "Hacked!".to_string();
    assert!(!post.verify());
}

const SECRET_ONE: &str = "0000000000000000000000000000000000000000000000000000000000000001";

#[test]
fn post_fields_follow_the_signed_text() {
    let kp = KeyPair::from_secret_hex(SECRET_ONE).unwrap();
    let post = Post::new_at("Bonjour ☀".to_string(), &kp, 1_700_000_000);
    let author = kp.public_hex();
    let text = format!("{}:{}:{}", "Bonjour ☀", 1_700_000_000u64, author);
    let digest: [u8; 32] = sha2::Sha256::digest(text.as_bytes()).into();
    assert_eq!(post.id, hex::encode(&digest[..16]));
    assert_eq!(post.id.len(), 32);
    assert_eq!(post.author_pubkey, author);
    assert_eq!(post.content, "Bonjour ☀");
    assert_eq!(post.timestamp, 1_700_000_000);
    assert_eq!(post.signature, zeta::crypto::sign(text.as_bytes(), &kp));
    assert!(post.verify());
}

#[test]
fn timestamp_zero_and_max_are_signed_in_decimal() {
    let kp = KeyPair::from_secret_hex(SECRET_ONE).unwrap();
    for ts in [0u64, 9, 10, u64::MAX] {
        let post = Post::new_at("x".to_string(), &kp, ts);
        let text = format!("x:{}:{}", ts, kp.public_hex());
        assert_eq!(post.signature, zeta::crypto::sign(text.as_bytes(), &kp));
        assert!(post.verify());
    }
}

#[test]
fn changed_timestamp_or_author_fails_verification() {
    let kp = KeyPair::from_secret_hex(SECRET_ONE).unwrap();
    let mut post = Post::new_at("hi".to_string(), &kp, 5);
    post.timestamp = 6;
    assert!(!post.verify());
    let mut post = Post::new_at("hi".to_string(), &kp, 5);
    post.author_pubkey = KeyPair::generate().public_hex();
    assert!(!post.verify());
}

#[test]
fn short_author_cases() {
    let mut post = Post::new_at("c".to_string(), &KeyPair::generate(), 1);
    post.author_pubkey = "0123456789abcdef".to_string();
    assert_eq!(post.short_author(), "0123456789ab...");
    post.author_pubkey = "0123456789ab".to_string();
    assert_eq!(post.short_author(), "0123456789ab");
    post.author_pubkey = "short".to_string();
    assert_eq!(post.short_author(), "short");
    post.author_pubkey = "éééééééé".to_string();
    assert_eq!(post.short_author(), "éééééé...");
}

#[test]
fn post_clone_keeps_fields() {
    let post = Post::new_at("c".to_string(), &KeyPair::generate(), 1);
    let c = post.clone();
    assert_eq!(c.id, post.id);
    assert_eq!(c.signature, post.signature);
    assert_eq!(c.timestamp, post.timestamp);
}

#[test]
fn post_description() {
    let kp = KeyPair::from_secret_hex(SECRET_ONE).unwrap();
    let post = Post::new_at("Salut".to_string(), &kp, 0);
    assert_eq!(post.describe(), "[1970-01-01 00:00:00] 0279be667ef9... : Salut");
    let post = Post::new_at("Salut".to_string(), &kp, u64::MAX);
    assert_eq!(post.describe(), "[1969-12-31 23:59:59] 0279be667ef9... : Salut");
    let big = i64::MAX as u64;
    let post = Post::new_at("Salut".to_string(), &kp, big);
    assert_eq!(post.describe(), format!("[t={}] 0279be667ef9... : Salut", big));
}
