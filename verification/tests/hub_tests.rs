use zeta::addr::SockAddr;
use zeta::hub::{HubDirectory, NodeInfo};
use zeta::p2p::Message;

fn addr(last: u8) -> SockAddr {
    SockAddr::V4 { ip: u32::from_be_bytes([192, 168, 0, last]), port: 4000 }
}

fn announce(a: SockAddr, pk: &str, relay: bool, time: u64) -> Message {
    Message::NodeAnnounce { addr: a, pubkey: pk.to_string(), is_relay: relay, time }
}

#[test]
fn announced_nodes_are_listed_and_updated_in_place() {
    let mut hub = HubDirectory::new();
    assert!(hub.handle_message(announce(addr(1), "a", true, 10), addr(1)).is_empty());
    assert!(hub.handle_message(announce(addr(2), "b", false, 20), addr(2)).is_empty());
    assert!(hub.handle_message(announce(addr(1), "a2", false, 30), addr(1)).is_empty());
    let out = hub.handle_message(Message::GetAllNodes { src_addr: addr(9), time: 31 }, addr(9));
    assert_eq!(out.len(), 1);
    assert_eq!(out[0].to, addr(9));
    assert_eq!(out[0].msg.nodes_count(), 2);
    match &out[0].msg {
        Message::AllNodesList { nodes } => {
            assert_eq!(nodes[0].addr, addr(1));
            assert_eq!(nodes[0].pubkey, "a2");
            assert!(!nodes[0].is_relay);
            assert_eq!(nodes[0].last_seen, 30);
            assert_eq!(nodes[1].addr, addr(2));
        }
        _ => panic!("expected a node list"),
    }
    assert_eq!(hub.stats(), (2, 0, 2));
    let out = hub.handle_message(Message::PostsBatch { posts: vec![] }, addr(3));
    assert!(out.is_empty());
    assert_eq!(Message::PostsBatch { posts: vec![] }.nodes_count(), 0);
}

#[test]
fn inactive_nodes_are_forgotten() {
    let mut hub = HubDirectory::new();
    hub.announce(addr(1), "a".to_string(), true, 100);
    hub.announce(addr(2), "b".to_string(), true, 200);
    hub.announce(addr(3), "c".to_string(), false, 300);
    assert_eq!(hub.stats(), (3, 2, 1));
    assert_eq!(hub.cleanup_inactive_nodes(50), 0);
    assert_eq!(hub.cleanup_inactive_nodes(400), 0);
    assert_eq!(hub.cleanup_inactive_nodes(401), 1);
    assert_eq!(hub.stats(), (2, 1, 1));
    assert_eq!(hub.cleanup_inactive_nodes(600), 1);
    assert_eq!(hub.stats(), (1, 0, 1));
    assert_eq!(hub.cleanup_inactive_nodes(601), 1);
    assert_eq!(hub.stats(), (0, 0, 0));
}

#[test]
fn node_info_to_network_node() {
    let info = NodeInfo { pubkey: "k".to_string(), last_seen: 5, is_relay: true };
    let n = info.to_network_node(addr(4));
    assert_eq!(n.addr, addr(4));
    assert_eq!(n.pubkey, "k");
    assert!(n.is_relay);
    assert_eq!(n.last_seen, 5);
}
