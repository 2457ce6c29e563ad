use zeta::addr::SockAddr;
use zeta::crypto::KeyPair;
use zeta::network::NetworkState;
use zeta::p2p::{Message, NetworkNode};
use zeta::post::Post;
use zeta::storage::Storage;
use zeta::web::{
    add_subscription, create_post_at, get_identity, get_peers, get_posts, get_subscriptions,
    publish_post, remove_subscription, write_post_at, AddSubscriptionRequest, ApiError, CreatePostRequest, PostResponse,
};

fn addr(last: u8) -> SockAddr {
    SockAddr::V4 { ip: u32::from_be_bytes([10, 1, 1, last]), port: 9 }
}

fn state() -> NetworkState {
    NetworkState::new(Storage::new(":memory:"), KeyPair::generate(), addr(1), addr(2), false)
}

#[test]
fn identity_is_the_public_key() {
    let net = state();
    assert_eq!(get_identity(&net).pubkey, net.keypair().public_hex());
}

#[test]
fn create_post_checks_content() {
    let mut net = state();
    let (r, out) = create_post_at(&mut net, CreatePostRequest { content: " \t\n\u{3000}".to_string() }, 1);
    assert_eq!(r.err(), Some(ApiError::EmptyContent));
    assert!(out.is_empty());
    let (r, _) = create_post_at(&mut net, CreatePostRequest { content: "x".repeat(501) }, 1);
    assert_eq!(r.err(), Some(ApiError::ContentTooLong));
    let (r, _) = create_post_at(&mut net, CreatePostRequest { content: "é".repeat(501) }, 1);
    assert_eq!(r.err(), Some(ApiError::ContentTooLong));
    assert_eq!(ApiError::ContentTooLong.message(), "Content too long (max 500 chars)");
    assert_eq!(ApiError::EmptyContent.message(), "Content cannot be empty");
    assert_eq!(ApiError::EmptyPubkey.message(), "Pubkey cannot be empty");
    assert!(get_posts(&net).is_empty());

    net.handle_message(
        Message::AllNodesList {
            nodes: vec![
                NetworkNode { addr: addr(1), pubkey: "me".to_string(), is_relay: true, last_seen: 0 },
                NetworkNode { addr: addr(4), pubkey: "c".to_string(), is_relay: false, last_seen: 0 },
                NetworkNode { addr: addr(5), pubkey: "r".to_string(), is_relay: true, last_seen: 0 },
            ],
        },
        addr(2),
    );
    let (r, out) = create_post_at(&mut net, CreatePostRequest { content: "é".repeat(500) }, 7);
    let resp = r.unwrap();
    assert!(resp.verified);
    assert_eq!(resp.timestamp, 7);
    assert_eq!(resp.content, "é".repeat(500));
    assert_eq!(resp.author_pubkey, net.keypair().public_hex());
    assert_eq!(out.len(), 2);
    assert_eq!(out[0].to, addr(1));
    assert_eq!(out[1].to, addr(5));
    let feed = get_posts(&net);
    assert_eq!(feed.len(), 1);
    assert_eq!(feed[0].id, resp.id);
}

#[test]
fn written_post_is_published_only_when_asked() {
    let mut net = state();
    assert_eq!(
        write_post_at(&net, CreatePostRequest { content: "  ".to_string() }, 1).err(),
        Some(ApiError::EmptyContent)
    );
    assert_eq!(
        write_post_at(&net, CreatePostRequest { content: "y".repeat(501) }, 1).err(),
        Some(ApiError::ContentTooLong)
    );
    let post = write_post_at(&net, CreatePostRequest { content: "draft".to_string() }, 9).unwrap();
    assert!(post.verify());
    assert_eq!(post.timestamp, 9);
    assert!(get_posts(&net).is_empty());
    let (resp, out) = publish_post(&mut net, post.clone());
    assert!(out.is_empty());
    assert_eq!(resp.id, post.id);
    assert!(resp.verified);
    assert_eq!(get_posts(&net).len(), 1);
    assert!(net.handle_message(Message::PublishPost { post }, addr(7)).is_empty());
}

#[test]
fn feed_holds_followed_authors_and_own_posts() {
    let mut net = state();
    let alice = KeyPair::generate();
    let bob = KeyPair::generate();
    net.save_post(&Post::new_at("from alice".to_string(), &alice, 3));
    net.save_post(&Post::new_at("from bob".to_string(), &bob, 4));
    let own = Post::new_at("mine".to_string(), net.keypair(), 1);
    net.save_post(&own);
    let feed: Vec<String> = get_posts(&net).into_iter().map(|p| p.content).collect();
    assert_eq!(feed, vec!["mine"]);
    assert_eq!(add_subscription(&mut net, AddSubscriptionRequest { pubkey: alice.public_hex() }).unwrap(), alice.public_hex());
    let feed: Vec<String> = get_posts(&net).into_iter().map(|p| p.content).collect();
    assert_eq!(feed, vec!["from alice", "mine"]);
    assert_eq!(get_subscriptions(&net), vec![alice.public_hex()]);
    assert_eq!(add_subscription(&mut net, AddSubscriptionRequest { pubkey: "  ".to_string() }).err(), Some(ApiError::EmptyPubkey));
    remove_subscription(&mut net, alice.public_hex());
    assert!(get_subscriptions(&net).is_empty());
}

#[test]
fn shown_posts_say_whether_they_verify() {
    let kp = KeyPair::generate();
    let post = Post::new_at("ok".to_string(), &kp, 1);
    assert!(PostResponse::from(post.clone()).verified);
    let mut bad = post;
    bad.content = "no".to_string();
    let r = PostResponse::from(bad);
    assert!(!r.verified);
    assert_eq!(r.content, "no");
}

#[test]
fn peers_are_listed() {
    let mut net = state();
    net.add_peer_at(addr(3), "pk".to_string(), 1, 2);
    let peers = get_peers(&net);
    assert_eq!(peers.len(), 1);
    assert_eq!(peers[0].addr, "10.1.1.3:9");
    assert_eq!(peers[0].pubkey, Some("pk".to_string()));
    assert_eq!(peers[0].last_seen, 2);
}
