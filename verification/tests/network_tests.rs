use zeta::addr::SockAddr;
use zeta::crypto::KeyPair;
use zeta::network::NetworkState;
use zeta::p2p::{Message, NatType, NetworkNode, node_role};
use zeta::post::Post;
use zeta::storage::Storage;

fn addr(last: u8, port: u16) -> SockAddr {
    SockAddr::V4 { ip: u32::from_be_bytes([10, 0, 0, last]), port }
}

fn node(a: SockAddr, relay: bool) -> NetworkNode {
    NetworkNode { addr: a, pubkey: format!("pk{}", relay), is_relay: relay, last_seen: 1 }
}

fn state(is_relay: bool) -> NetworkState {
    NetworkState::new(Storage::new(":memory:"), KeyPair::generate(), addr(1, 1000), addr(254, 55555), is_relay)
}

fn dests(out: &[zeta::p2p::Outgoing]) -> Vec<SockAddr> {
    out.iter().map(|o| o.to).collect()
}

fn with_nodes(net: &mut NetworkState) {
    let nodes = vec![
        node(addr(1, 1000), true),
        node(addr(2, 1000), true),
        node(addr(3, 1000), false),
        node(addr(4, 1000), true),
    ];
    let out = net.handle_message(Message::AllNodesList { nodes }, addr(254, 55555));
    assert!(out.is_empty());
    assert_eq!(net.get_network_nodes().len(), 4);
}

#[test]
fn relay_passes_new_post_to_other_relays_and_peers_but_not_back() {
    let mut net = state(true);
    with_nodes(&mut net);
    let out = net.handle_message(
        Message::NodeAnnounce { addr: addr(7, 7), pubkey: "client".to_string(), is_relay: false, time: 5 },
        addr(7, 7),
    );
    assert!(out.is_empty());
    net.handle_message(
        Message::NodeAnnounce { addr: addr(2, 1000), pubkey: "relay2".to_string(), is_relay: true, time: 6 },
        addr(2, 1000),
    );
    let author = KeyPair::generate();
    let post = Post::new_at("hello".to_string(), &author, 42);
    let out = net.handle_message(Message::PublishPost { post: post.clone() }, addr(2, 1000));
    assert_eq!(dests(&out), vec![addr(4, 1000), addr(7, 7)]);
    assert_eq!(net.storage().get_all_posts(10).len(), 1);
    let again = net.handle_message(Message::PublishPost { post }, addr(4, 1000));
    assert!(again.is_empty());
}

#[test]
fn client_stores_but_does_not_pass_on() {
    let mut net = state(false);
    with_nodes(&mut net);
    let post = Post::new_at("hello".to_string(), &KeyPair::generate(), 42);
    let out = net.handle_message(Message::PublishPost { post }, addr(2, 1000));
    assert!(out.is_empty());
    assert_eq!(net.storage().get_all_posts(10).len(), 1);
}

#[test]
fn forged_post_is_not_stored_and_not_retried() {
    let mut net = state(true);
    with_nodes(&mut net);
    let mut post = Post::new_at("hello".to_string(), &KeyPair::generate(), 42);
    post.content = "forged".to_string();
    let out = net.handle_message(Message::PublishPost { post: post.clone() }, addr(2, 1000));
    assert!(out.is_empty());
    assert!(net.storage().get_all_posts(10).is_empty());
    post.content = "hello".to_string();
    let out = net.handle_message(Message::PublishPost { post }, addr(2, 1000));
    assert!(out.is_empty());
    assert!(net.storage().get_all_posts(10).is_empty());
}

#[test]
fn only_relays_answer_post_requests() {
    let author = KeyPair::generate();
    for relay in [true, false] {
        let mut net = state(relay);
        net.save_post(&Post::new_at("old".to_string(), &author, 10));
        net.save_post(&Post::new_at("new".to_string(), &author, 20));
        let out = net.handle_message(
            Message::RequestPosts { src_addr: addr(9, 9), since: 15, pubkeys: vec![] },
            addr(9, 9),
        );
        if relay {
            assert_eq!(out.len(), 1);
            assert_eq!(out[0].to, addr(9, 9));
            match &out[0].msg {
                Message::PostsBatch { posts } => {
                    assert_eq!(posts.len(), 1);
                    assert_eq!(posts[0].content, "new");
                }
                _ => panic!("expected a batch"),
            }
            let out = net.handle_message(
                Message::RequestPosts { src_addr: addr(9, 9), since: 5, pubkeys: vec![author.public_hex()] },
                addr(9, 9),
            );
            match &out[0].msg {
                Message::PostsBatch { posts } => {
                    let c: Vec<&str> = posts.iter().map(|p| p.content.as_str()).collect();
                    assert_eq!(c, vec!["new", "old"]);
                }
                _ => panic!("expected a batch"),
            }
        } else {
            assert!(out.is_empty());
        }
    }
}

#[test]
fn batch_stores_authentic_posts_only() {
    let mut net = state(false);
    let kp = KeyPair::generate();
    let good = Post::new_at("good".to_string(), &kp, 1);
    let mut bad = Post::new_at("bad".to_string(), &kp, 2);
    bad.content = "tampered".to_string();
    let out = net.handle_message(Message::PostsBatch { posts: vec![good.clone(), bad] }, addr(2, 1000));
    assert!(out.is_empty());
    let stored = net.storage().get_all_posts(10);
    assert_eq!(stored.len(), 1);
    assert_eq!(stored[0].content, "good");
    let again = net.handle_message(Message::PublishPost { post: good }, addr(2, 1000));
    assert!(again.is_empty());
}

#[test]
fn announcements_update_peers_and_peer_table() {
    let mut net = state(false);
    net.handle_message(
        Message::NodeAnnounce { addr: addr(7, 7), pubkey: "k1".to_string(), is_relay: false, time: 5 },
        addr(7, 7),
    );
    net.handle_message(
        Message::NodeAnnounce { addr: addr(7, 7), pubkey: "k2".to_string(), is_relay: false, time: 9 },
        addr(7, 7),
    );
    let rows = net.storage().get_peers();
    assert_eq!(rows, vec![("10.0.0.7:7".to_string(), Some("k2".to_string()), 9)]);
    let out = net.announce_self_at(100);
    assert_eq!(dests(&out), vec![addr(7, 7)]);
    match &out[0].msg {
        Message::NodeAnnounce { addr: a, pubkey, is_relay, time } => {
            assert_eq!(*a, addr(1, 1000));
            assert_eq!(*pubkey, net.keypair().public_hex());
            assert!(!*is_relay);
            assert_eq!(*time, 100);
        }
        _ => panic!("expected an announcement"),
    }
    net.cleanup_old_peers_at(5);
    assert_eq!(net.announce_self_at(1).len(), 1);
    net.cleanup_old_peers_at(309);
    assert_eq!(net.announce_self_at(1).len(), 1);
    net.cleanup_old_peers_at(310);
    assert!(net.announce_self_at(1).is_empty());
}

#[test]
fn broadcast_goes_to_every_relay_and_requests_to_other_relays() {
    let mut net = state(false);
    with_nodes(&mut net);
    let post = Post::new_at("mine".to_string(), net.keypair(), 3);
    let out = net.broadcast_post(&post);
    assert_eq!(dests(&out), vec![addr(1, 1000), addr(2, 1000), addr(4, 1000)]);
    let out = net.request_posts_from_peers(7, vec!["a".to_string()]);
    assert_eq!(dests(&out), vec![addr(2, 1000), addr(4, 1000)]);
    assert!(net.sync_request_at(10_000).is_empty());
    net.add_subscription("someone");
    let out = net.sync_request_at(10_000);
    assert_eq!(out.len(), 2);
    match &out[0].msg {
        Message::RequestPosts { since, pubkeys, .. } => {
            assert_eq!(*since, 10_000 - 3600);
            assert_eq!(pubkeys, &vec!["someone".to_string()]);
        }
        _ => panic!("expected a request"),
    }
    let out = net.sync_request_at(100);
    match &out[0].msg {
        Message::RequestPosts { since, .. } => assert_eq!(*since, 0),
        _ => panic!("expected a request"),
    }
    let hub = net.request_network_nodes_at(77);
    assert_eq!(hub.to, addr(254, 55555));
    assert!(matches!(hub.msg, Message::GetAllNodes { time: 77, .. }));
    let reg = net.announce_to_hub_at(78);
    assert_eq!(reg.to, addr(254, 55555));
}

#[test]
fn add_peer_records_peer() {
    let mut net = state(false);
    net.add_peer_at(addr(8, 8), "pk".to_string(), 3, 4);
    assert_eq!(net.storage().get_peers(), vec![("10.0.0.8:8".to_string(), Some("pk".to_string()), 4)]);
}

#[test]
fn roles_from_nat_types() {
    assert_eq!(node_role(NatType::Unknown), None);
    assert_eq!(node_role(NatType::UdpBlocked), None);
    assert_eq!(node_role(NatType::OpenInternet), Some(true));
    assert_eq!(node_role(NatType::FullCone), Some(true));
    assert_eq!(node_role(NatType::RestrictedCone), Some(true));
    assert_eq!(node_role(NatType::PortRestrictedCone), Some(true));
    assert_eq!(node_role(NatType::Symmetric), Some(false));
    assert_eq!(node_role(NatType::SymmetricUdpFirewall), Some(false));
}

#[test]
fn requests_are_answered_with_at_most_100_posts() {
    let mut net = state(true);
    let author = KeyPair::generate();
    for t in 0..105u64 {
        net.save_post(&Post::new_at(format!("p{}", t), &author, t + 1));
    }
    let out = net.handle_message(
        Message::RequestPosts { src_addr: addr(9, 9), since: 0, pubkeys: vec![author.public_hex()] },
        addr(9, 9),
    );
    match &out[0].msg {
        Message::PostsBatch { posts } => {
            assert_eq!(posts.len(), 100);
            assert_eq!(posts[0].timestamp, 105);
            assert_eq!(posts[99].timestamp, 6);
        }
        _ => panic!("expected a batch"),
    }
    let out = net.handle_message(
        Message::RequestPosts { src_addr: addr(9, 9), since: 0, pubkeys: vec![] },
        addr(9, 9),
    );
    match &out[0].msg {
        Message::PostsBatch { posts } => {
            assert_eq!(posts.len(), 100);
            assert_eq!(posts[0].timestamp, 1);
            assert_eq!(posts[99].timestamp, 100);
        }
        _ => panic!("expected a batch"),
    }
}

#[test]
fn hub_ignores_posts() {
    let mut hub = zeta::hub::HubDirectory::new();
    let post = Post::new_at("x".to_string(), &KeyPair::generate(), 1);
    assert!(hub.handle_message(Message::PublishPost { post }, addr(3, 3)).is_empty());
    assert_eq!(hub.stats(), (0, 0, 0));
}
