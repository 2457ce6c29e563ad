//! What nodes say to each other, the command-line options, and the clock.

use vstd::prelude::*;
use crate::addr::SockAddr;
use crate::post::{Post, PostView};
use crate::storage::{posts_view, texts_view};

verus! {

/// The current time in whole seconds since the Unix epoch (`UNIX_EPOCH.elapsed()` of std),
/// or nothing when the system clock is set before 1970 (std's `elapsed` then returns an
/// error).  Nothing is promised of the value, nor of when the clock reads before 1970.
#[verifier::external_body]
pub fn now_secs() -> Option<u64> {
    match std::time::UNIX_EPOCH.elapsed() {
        Ok(d) => Some(d.as_secs()),
        Err(_) => None,
    }
}

/// The role the program is started in.
#[derive(Clone, Copy, Debug, PartialEq, Eq, Structural)]
pub enum Mode {
    Client,
    HubRelay,
}

/// Command-line options: the role and the node's name.
pub struct Opts {
    pub mode: Mode,
    pub peer_id: String,
}

/// A node of the network as the hub lists it.
pub struct NetworkNode {
    pub addr: SockAddr,
    pub pubkey: String,
    pub is_relay: bool,
    pub last_seen: u64,
}

/// The value of a network node.
pub struct NodeView {
    pub addr: SockAddr,
    pub pubkey: Seq<char>,
    pub is_relay: bool,
    pub last_seen: u64,
}

impl View for NetworkNode {
    type V = NodeView;

    open spec fn view(&self) -> NodeView {
        NodeView { addr: self.addr, pubkey: self.pubkey@, is_relay: self.is_relay, last_seen: self.last_seen }
    }
}

impl Clone for NetworkNode {
    fn clone(&self) -> (r: Self)
        ensures
            r@ == self@,
    {
        NetworkNode { addr: self.addr, pubkey: self.pubkey.clone(), is_relay: self.is_relay, last_seen: self.last_seen }
    }
}

/// The values of a list of nodes.
pub open spec fn nodes_view(v: Seq<NetworkNode>) -> Seq<NodeView> {
    v.map_values(|n: NetworkNode| n@)
}

/// A message between nodes.
pub enum Message {
    /// A new post, spread through the relays.
    PublishPost { post: Post },
    /// A request for the posts after `since` by the listed authors (all authors when none).
    RequestPosts { src_addr: SockAddr, since: u64, pubkeys: Vec<String> },
    /// The answer to a request.
    PostsBatch { posts: Vec<Post> },
    /// A node says where it is, its key and whether it relays.
    NodeAnnounce { addr: SockAddr, pubkey: String, is_relay: bool, time: u64 },
    /// A request to the hub for every node it knows.
    GetAllNodes { src_addr: SockAddr, time: u64 },
    /// The hub's list of nodes.
    AllNodesList { nodes: Vec<NetworkNode> },
}

/// The value of a message.
pub enum MessageView {
    PublishPost { post: PostView },
    RequestPosts { src_addr: SockAddr, since: u64, pubkeys: Seq<Seq<char>> },
    PostsBatch { posts: Seq<PostView> },
    NodeAnnounce { addr: SockAddr, pubkey: Seq<char>, is_relay: bool, time: u64 },
    GetAllNodes { src_addr: SockAddr, time: u64 },
    AllNodesList { nodes: Seq<NodeView> },
}

impl View for Message {
    type V = MessageView;

    open spec fn view(&self) -> MessageView {
        match self {
            Message::PublishPost { post } => MessageView::PublishPost { post: post@ },
            Message::RequestPosts { src_addr, since, pubkeys } => MessageView::RequestPosts {
                src_addr: *src_addr,
                since: *since,
                pubkeys: texts_view(pubkeys@),
            },
            Message::PostsBatch { posts } => MessageView::PostsBatch { posts: posts_view(posts@) },
            Message::NodeAnnounce { addr, pubkey, is_relay, time } => MessageView::NodeAnnounce {
                addr: *addr,
                pubkey: pubkey@,
                is_relay: *is_relay,
                time: *time,
            },
            Message::GetAllNodes { src_addr, time } => MessageView::GetAllNodes { src_addr: *src_addr, time: *time },
            Message::AllNodesList { nodes } => MessageView::AllNodesList { nodes: nodes_view(nodes@) },
        }
    }
}

/// A copy of a list of texts.
pub fn clone_texts(v: &Vec<String>) -> (r: Vec<String>)
    ensures
        texts_view(r@) == texts_view(v@),
{
    let mut r: Vec<String> = Vec::new();
    for i in 0..v.len()
        invariant
            texts_view(r@) == texts_view(v@).take(i as int),
    {
        r.push(v[i].clone());
        let ghost t = texts_view(v@);
        assert(texts_view(r@) =~= t.take(i as int).push(t[i as int]));
        assert(t.take(i as int).push(t[i as int]) =~= t.take(i + 1));
    }
    assert(texts_view(r@) =~= texts_view(v@));
    r
}

/// A copy of a list of posts.
pub fn clone_posts(v: &Vec<Post>) -> (r: Vec<Post>)
    ensures
        posts_view(r@) == posts_view(v@),
{
    let mut r: Vec<Post> = Vec::new();
    for i in 0..v.len()
        invariant
            posts_view(r@) == posts_view(v@).take(i as int),
    {
        r.push(v[i].clone());
        let ghost t = posts_view(v@);
        assert(posts_view(r@) =~= t.take(i as int).push(t[i as int]));
        assert(t.take(i as int).push(t[i as int]) =~= t.take(i + 1));
    }
    assert(posts_view(r@) =~= posts_view(v@));
    r
}

/// A copy of a list of nodes.
pub fn clone_nodes(v: &Vec<NetworkNode>) -> (r: Vec<NetworkNode>)
    ensures
        nodes_view(r@) == nodes_view(v@),
{
    let mut r: Vec<NetworkNode> = Vec::new();
    for i in 0..v.len()
        invariant
            nodes_view(r@) == nodes_view(v@).take(i as int),
    {
        r.push(v[i].clone());
        let ghost t = nodes_view(v@);
        assert(nodes_view(r@) =~= t.take(i as int).push(t[i as int]));
        assert(t.take(i as int).push(t[i as int]) =~= t.take(i + 1));
    }
    assert(nodes_view(r@) =~= nodes_view(v@));
    r
}

impl Clone for Message {
    fn clone(&self) -> (r: Self)
        ensures
            r@ == self@,
    {
        match self {
            Message::PublishPost { post } => Message::PublishPost { post: post.clone() },
            Message::RequestPosts { src_addr, since, pubkeys } => Message::RequestPosts {
                src_addr: *src_addr,
                since: *since,
                pubkeys: clone_texts(pubkeys),
            },
            Message::PostsBatch { posts } => Message::PostsBatch { posts: clone_posts(posts) },
            Message::NodeAnnounce { addr, pubkey, is_relay, time } => Message::NodeAnnounce {
                addr: *addr,
                pubkey: pubkey.clone(),
                is_relay: *is_relay,
                time: *time,
            },
            Message::GetAllNodes { src_addr, time } => Message::GetAllNodes { src_addr: *src_addr, time: *time },
            Message::AllNodesList { nodes } => Message::AllNodesList { nodes: clone_nodes(nodes) },
        }
    }
}

impl Message {
    /// How many nodes a node list holds; zero for any other message.
    pub fn nodes_count(&self) -> (n: usize)
        ensures
            n == match self@ {
                MessageView::AllNodesList { nodes } => nodes.len(),
                _ => 0,
            },
    {
        match self {
            Message::AllNodesList { nodes } => nodes.len(),
            _ => 0,
        }
    }
}

/// A message and where it is to be sent.
pub struct Outgoing {
    pub msg: Message,
    pub to: SockAddr,
}

/// The value of an outgoing message.
pub open spec fn outgoing_view(o: Outgoing) -> (MessageView, SockAddr) {
    (o.msg@, o.to)
}

/// The values of a list of outgoing messages.
pub open spec fn outgoing_list(v: Seq<Outgoing>) -> Seq<(MessageView, SockAddr)> {
    v.map_values(|o: Outgoing| outgoing_view(o))
}

/// The kind of NAT in front of a node, as STUN detection reports it.
#[derive(Clone, Copy, Debug, PartialEq, Eq, Structural)]
pub enum NatType {
    UdpBlocked,
    OpenInternet,
    SymmetricUdpFirewall,
    FullCone,
    RestrictedCone,
    PortRestrictedCone,
    Symmetric,
    Unknown,
}

/// Whether a node behind `nat_type` can take part, and if so whether it relays: nodes that can
/// be reached from outside (open internet or a cone NAT) relay, others are plain clients,
/// and nodes whose NAT is unknown or blocks UDP stay out.
pub fn node_role(nat_type: NatType) -> (role: Option<bool>)
    ensures
        role is None <==> (nat_type == NatType::Unknown || nat_type == NatType::UdpBlocked),
        role matches Some(relay) ==> (relay <==> (nat_type == NatType::OpenInternet || nat_type == NatType::FullCone
            || nat_type == NatType::RestrictedCone || nat_type == NatType::PortRestrictedCone)),
{
    match nat_type {
        NatType::Unknown | NatType::UdpBlocked => None,
        NatType::OpenInternet | NatType::FullCone | NatType::RestrictedCone | NatType::PortRestrictedCone => Some(true),
        _ => Some(false),
    }
}

} // verus!
