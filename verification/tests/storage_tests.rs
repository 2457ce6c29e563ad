use zeta::crypto::KeyPair;
use zeta::post::Post;
use zeta::storage::Storage;

#[test]
fn test_storage() {
    let mut storage = Storage::new(":memory:");

    let keypair = storage.get_or_create_keypair();
    let keypair2 = storage.get_or_create_keypair();
    assert_eq!(keypair.public_hex(), keypair2.public_hex());

    storage.add_subscription("abc123");
    storage.add_subscription("def456");
    let subs = storage.get_subscriptions();
    assert_eq!(subs.len(), 2);

    storage.remove_subscription("abc123");
    let subs = storage.get_subscriptions();
    assert_eq!(subs.len(), 1);
}

fn post_at(kp: &KeyPair, content: &str, ts: u64) -> Post {
    Post::new_at(content.to_string(), kp, ts)
}

#[test]
fn keypair_is_saved_loaded_and_replaced() {
    let mut storage = Storage::new("node.db");
    assert_eq!(storage.location_text(), "node.db");
    assert!(storage.load_keypair().is_none());
    let kp = KeyPair::generate();
    storage.save_keypair(&kp);
    assert_eq!(storage.load_keypair().unwrap().public_hex(), kp.public_hex());
    assert_eq!(storage.get_or_create_keypair().public_hex(), kp.public_hex());
    let kp2 = KeyPair::generate();
    storage.save_keypair(&kp2);
    assert_eq!(storage.load_keypair().unwrap().secret_hex(), kp2.secret_hex());
}

#[test]
fn posts_come_newest_first_and_ids_are_kept_once() {
    let kp = KeyPair::generate();
    let mut storage = Storage::new(":memory:");
    assert_eq!(storage.get_last_sync_timestamp(), None);
    let a = post_at(&kp, "a", 10);
    let b = post_at(&kp, "b", 30);
    let c = post_at(&kp, "c", 20);
    storage.save_post(&a);
    storage.save_post(&b);
    storage.save_post(&c);
    storage.save_post(&b);
    let all = storage.get_all_posts(10);
    let contents: Vec<&str> = all.iter().map(|p| p.content.as_str()).collect();
    assert_eq!(contents, vec!["b", "c", "a"]);
    assert_eq!(storage.get_all_posts(2).len(), 2);
    assert_eq!(storage.get_all_posts(0).len(), 0);
    assert_eq!(storage.get_last_sync_timestamp(), Some(30));

    let mut same_id = post_at(&kp, "changed", 99);
    same_id.id = a.id.clone();
    storage.save_post(&same_id);
    assert_eq!(storage.get_all_posts(10).len(), 3);
    assert_eq!(storage.get_last_sync_timestamp(), Some(30));
}

#[test]
fn equal_timestamps_keep_arrival_order() {
    let kp = KeyPair::generate();
    let mut storage = Storage::new(":memory:");
    storage.save_post(&post_at(&kp, "first", 5));
    storage.save_post(&post_at(&kp, "second", 5));
    let all = storage.get_all_posts(10);
    assert_eq!(all[0].content, "first");
    assert_eq!(all[1].content, "second");
}

#[test]
fn posts_by_authors_and_since() {
    let alice = KeyPair::generate();
    let bob = KeyPair::generate();
    let carol = KeyPair::generate();
    let mut storage = Storage::new(":memory:");
    storage.save_post(&post_at(&alice, "a1", 1));
    storage.save_post(&post_at(&bob, "b2", 2));
    storage.save_post(&post_at(&alice, "a3", 3));
    storage.save_post(&post_at(&carol, "c4", 4));

    assert!(storage.get_posts_by_authors(&[], 10).is_empty());
    let authors = vec![alice.public_hex(), bob.public_hex()];
    let got: Vec<String> = storage.get_posts_by_authors(&authors, 10).into_iter().map(|p| p.content).collect();
    assert_eq!(got, vec!["a3", "b2", "a1"]);
    let got: Vec<String> = storage.get_posts_by_authors(&authors, 2).into_iter().map(|p| p.content).collect();
    assert_eq!(got, vec!["a3", "b2"]);

    let since: Vec<String> = storage.get_posts_since(2).into_iter().map(|p| p.content).collect();
    assert_eq!(since, vec!["a3", "c4"]);
    assert!(storage.get_posts_since(4).is_empty());
}

#[test]
fn subscriptions_are_a_set() {
    let mut storage = Storage::new(":memory:");
    storage.add_subscription("k1");
    storage.add_subscription("k1");
    storage.add_subscription("k2");
    assert_eq!(storage.get_subscriptions(), vec!["k1".to_string(), "k2".to_string()]);
    storage.remove_subscription("absent");
    assert_eq!(storage.get_subscriptions().len(), 2);
    storage.remove_subscription("k1");
    assert_eq!(storage.get_subscriptions(), vec!["k2".to_string()]);
}

#[test]
fn peers_are_replaced_by_address_and_expire() {
    let mut storage = Storage::new(":memory:");
    storage.save_peer("1.2.3.4:5", Some("pk1"), 100);
    storage.save_peer("5.6.7.8:9", None, 200);
    storage.save_peer("1.2.3.4:5", Some("pk2"), 300);
    let peers = storage.get_peers();
    assert_eq!(
        peers,
        vec![
            ("5.6.7.8:9".to_string(), None, 200),
            ("1.2.3.4:5".to_string(), Some("pk2".to_string()), 300)
        ]
    );
    storage.delete_peers_seen_before(250);
    assert_eq!(storage.get_peers(), vec![("1.2.3.4:5".to_string(), Some("pk2".to_string()), 300)]);
    assert!(storage.delete_old_peers(u64::MAX));
    assert_eq!(storage.get_peers().len(), 1);
    assert!(storage.delete_old_peers(0));
    assert_eq!(storage.get_peers().len(), 0);
}
