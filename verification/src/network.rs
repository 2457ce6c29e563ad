//! What a node does with each message it receives, and what it sends on its own.
//!
//! The node's state and its decisions live here; every function returns the messages to
//! send, and the application sends them.  Peers and seen post ids are kept in lists
//! (each address, each id once) where the application keeps hash tables: the order in
//! which a peer list is walked is the list's order.

use vstd::prelude::*;
use crate::addr::{SockAddr, addr_text};
use crate::crypto::KeyPair;
use crate::hexcode::hex_text;
use crate::p2p::{Message, MessageView, NetworkNode, NodeView, Outgoing, outgoing_list, nodes_view,
    clone_nodes, now_secs};
use crate::post::{Post, PostView, post_is_authentic};
use crate::seqs::{keep, at_most, reversed, lemma_keep_step, lemma_keep_all, lemma_keep_members,
    lemma_keep_all_kept, lemma_keep_position, lemma_keep_origin};
use crate::storage::{Storage, StorageView, has_id, insert_by_time, by_authors, newer_than,
    other_addr, posts_view, texts_view, contains_text, lemma_push_no_duplicates, newest_first};

verus! {

/// A known peer: address, public key, and when it was last heard from.
pub type PeerEntry = (SockAddr, String, u64);

/// The value of a known peer.
pub type PeerEntryView = (SockAddr, Seq<char>, u64);

/// The value of a known peer.
pub open spec fn peer_entry_view(p: PeerEntry) -> PeerEntryView {
    (p.0, p.1@, p.2)
}

/// The values of a list of known peers.
pub open spec fn peer_entries_view(v: Seq<PeerEntry>) -> Seq<PeerEntryView> {
    v.map_values(|p: PeerEntry| peer_entry_view(p))
}

/// No two known peers share an address.
pub open spec fn distinct_peer_addrs(s: Seq<PeerEntryView>) -> bool {
    forall|i: int, j: int|
        0 <= i < s.len() && 0 <= j < s.len() && i != j ==> (#[trigger] s[i]).0 != (#[trigger] s[j]).0
}

/// The value of a node's state.
pub struct NetView {
    pub store: StorageView,
    pub peers: Seq<PeerEntryView>,
    pub nodes: Seq<NodeView>,
    pub seen: Seq<Seq<char>>,
    pub secret_key: Seq<u8>,
    pub public_key: Seq<u8>,
    pub public_addr: SockAddr,
    pub hub_addr: SockAddr,
    pub is_relay: bool,
}

/// The posts after `p` is stored: unchanged when its id is known, else placed by time.
pub open spec fn stored_after(posts: Seq<PostView>, p: PostView) -> Seq<PostView> {
    if has_id(posts, p.id) {
        posts
    } else {
        insert_by_time(posts, p)
    }
}

/// The seen ids after `id` is seen.
pub open spec fn seen_after(seen: Seq<Seq<char>>, id: Seq<char>) -> Seq<Seq<char>> {
    if seen.contains(id) {
        seen
    } else {
        seen.push(id)
    }
}

/// The posts after a batch: each authentic post of the batch stored, in order.
pub open spec fn batch_posts(posts: Seq<PostView>, batch: Seq<PostView>) -> Seq<PostView>
    decreases batch.len(),
{
    if batch.len() == 0 {
        posts
    } else {
        let before = batch_posts(posts, batch.drop_last());
        if post_is_authentic(batch.last()) {
            stored_after(before, batch.last())
        } else {
            before
        }
    }
}

/// The seen ids after a batch: the id of each authentic post of the batch.
pub open spec fn batch_seen(seen: Seq<Seq<char>>, batch: Seq<PostView>) -> Seq<Seq<char>>
    decreases batch.len(),
{
    if batch.len() == 0 {
        seen
    } else {
        let before = batch_seen(seen, batch.drop_last());
        if post_is_authentic(batch.last()) {
            seen_after(before, batch.last().id)
        } else {
            before
        }
    }
}

/// The posts a relay answers a request with, at most 100: when no author is named, the
/// oldest 100 posts newer than `since`, oldest first; else the newest 100 posts by the
/// named authors, of which those newer than `since`.
pub open spec fn requested_posts(posts: Seq<PostView>, since: u64, pubkeys: Seq<Seq<char>>) -> Seq<PostView> {
    if pubkeys.len() == 0 {
        at_most(reversed(keep(posts, newer_than(since))), 100)
    } else {
        keep(at_most(keep(posts, by_authors(pubkeys)), 100), newer_than(since))
    }
}

/// Relays, but for `public` when `skip_self` and but for `skip` when there is one.
pub open spec fn relay_to(public: SockAddr, skip_self: bool, skip: Option<SockAddr>) -> spec_fn(NodeView) -> bool {
    |n: NodeView|
        n.is_relay && (skip_self ==> n.addr != public) && match skip {
            Some(a) => n.addr != a,
            None => true,
        }
}

/// Relays in `nodes` other than `public` and `sender`.
pub open spec fn other_relay(public: SockAddr, sender: SockAddr) -> spec_fn(NodeView) -> bool {
    relay_to(public, true, Some(sender))
}

/// Relays.
pub open spec fn relay() -> spec_fn(NodeView) -> bool {
    |n: NodeView| n.is_relay
}

/// Relays in `nodes` other than `public`.
pub open spec fn relay_not(public: SockAddr) -> spec_fn(NodeView) -> bool {
    relay_to(public, true, None)
}

/// Addresses of nodes.
pub open spec fn node_addrs(nodes: Seq<NodeView>) -> Seq<SockAddr> {
    nodes.map_values(|n: NodeView| n.addr)
}

/// Known peers, but for the one at `skip` when there is one.
pub open spec fn peer_except(skip: Option<SockAddr>) -> spec_fn(PeerEntryView) -> bool {
    |p: PeerEntryView|
        match skip {
            Some(a) => p.0 != a,
            None => true,
        }
}

/// Known peers at another address than `sender`.
pub open spec fn peer_not(sender: SockAddr) -> spec_fn(PeerEntryView) -> bool {
    peer_except(Some(sender))
}

/// Addresses of known peers.
pub open spec fn peer_addrs(peers: Seq<PeerEntryView>) -> Seq<SockAddr> {
    peers.map_values(|p: PeerEntryView| p.0)
}

/// One message sent to each address.
pub open spec fn send_all(m: MessageView, dests: Seq<SockAddr>) -> Seq<(MessageView, SockAddr)> {
    dests.map_values(|d: SockAddr| (m, d))
}

/// Known peers after hearing from `addr` at `time`: its entry replaced and placed last.
pub open spec fn peers_after(peers: Seq<PeerEntryView>, addr: SockAddr, pubkey: Seq<char>, time: u64) -> Seq<PeerEntryView> {
    keep(peers, peer_not(addr)).push((addr, pubkey, time))
}

/// The state after hearing from the peer at `addr` with key `pubkey`: it is remembered as
/// heard from at `peer_time`, and recorded in the peer table, under the text of its
/// address, as heard from at `store_time`.
pub open spec fn peer_added(pre: NetView, addr: SockAddr, pubkey: Seq<char>, peer_time: u64, store_time: u64) -> NetView {
    NetView {
        peers: peers_after(pre.peers, addr, pubkey, peer_time),
        store: StorageView {
            peers: keep(pre.store.peers, other_addr(addr_text(addr))).push((addr_text(addr), Some(pubkey), store_time)),
            ..pre.store
        },
        ..pre
    }
}

/// Known peers heard from at most 300 seconds before `now` (or after it).
pub open spec fn recent_peer(now: u64) -> spec_fn(PeerEntryView) -> bool {
    |p: PeerEntryView| now - p.2 <= 300
}

/// A node's state.
pub struct NetworkState {
    storage: Storage,
    peers: Vec<PeerEntry>,
    network_nodes: Vec<NetworkNode>,
    seen_posts: Vec<String>,
    keypair: KeyPair,
    public_addr: SockAddr,
    hub_addr: SockAddr,
    is_relay: bool,
}

impl View for NetworkState {
    type V = NetView;

    closed spec fn view(&self) -> NetView {
        NetView {
            store: self.storage@,
            peers: peer_entries_view(self.peers@),
            nodes: nodes_view(self.network_nodes@),
            seen: texts_view(self.seen_posts@),
            secret_key: self.keypair.secret_key(),
            public_key: self.keypair.public_key(),
            public_addr: self.public_addr,
            hub_addr: self.hub_addr,
            is_relay: self.is_relay,
        }
    }
}

impl NetworkState {
    /// The state's invariant: each peer address and each seen id once.
    #[verifier::type_invariant]
    closed spec fn wf(self) -> bool {
        &&& distinct_peer_addrs(peer_entries_view(self.peers@))
        &&& texts_view(self.seen_posts@).no_duplicates()
    }

    /// A node with these tables and key pair, at `public_addr`, using the hub at
    /// `hub_addr`; it knows no peers, no nodes and no posts yet.
    pub fn new(storage: Storage, keypair: KeyPair, public_addr: SockAddr, hub_addr: SockAddr, is_relay: bool) -> (s: NetworkState)
        ensures
            s@.store == storage@,
            s@.peers == Seq::<PeerEntryView>::empty(),
            s@.nodes == Seq::<NodeView>::empty(),
            s@.seen == Seq::<Seq<char>>::empty(),
            s@.secret_key == keypair.secret_key(),
            s@.public_key == keypair.public_key(),
            s@.public_addr == public_addr,
            s@.hub_addr == hub_addr,
            s@.is_relay == is_relay,
    {
        let peers: Vec<PeerEntry> = Vec::new();
        let network_nodes: Vec<NetworkNode> = Vec::new();
        let seen_posts: Vec<String> = Vec::new();
        assert(peer_entries_view(peers@) =~= Seq::<PeerEntryView>::empty());
        assert(nodes_view(network_nodes@) =~= Seq::<NodeView>::empty());
        assert(texts_view(seen_posts@) =~= Seq::<Seq<char>>::empty());
        NetworkState { storage, peers, network_nodes, seen_posts, keypair, public_addr, hub_addr, is_relay }
    }

    /// The node's tables.
    pub fn storage(&self) -> (s: &Storage)
        ensures
            s@ == self@.store,
    {
        &self.storage
    }

    /// The node's key pair.
    pub fn keypair(&self) -> (k: &KeyPair)
        ensures
            k.secret_key() == self@.secret_key,
            k.public_key() == self@.public_key,
    {
        &self.keypair
    }

    /// Whether the node relays.
    pub fn is_relay(&self) -> (r: bool)
        ensures
            r == self@.is_relay,
    {
        self.is_relay
    }

    /// The node's public address.
    pub fn public_addr(&self) -> (a: SockAddr)
        ensures
            a == self@.public_addr,
    {
        self.public_addr
    }

    /// The hub's address.
    pub fn hub_addr(&self) -> (a: SockAddr)
        ensures
            a == self@.hub_addr,
    {
        self.hub_addr
    }

    /// Follows an author.
    pub fn add_subscription(&mut self, pubkey: &str)
        ensures
            final(self)@ == (NetView {
                store: StorageView {
                    subscriptions: if old(self)@.store.subscriptions.contains(pubkey@) {
                        old(self)@.store.subscriptions
                    } else {
                        old(self)@.store.subscriptions.push(pubkey@)
                    },
                    ..old(self)@.store
                },
                ..old(self)@
            }),
    {
        proof {
            use_type_invariant(&*self);
        }
        let mut storage = Storage::new("");
        std::mem::swap(&mut storage, &mut self.storage);
        storage.add_subscription(pubkey);
        self.storage = storage;
    }

    /// Stops following an author.
    pub fn remove_subscription(&mut self, pubkey: &str)
        ensures
            final(self)@ == (NetView {
                store: StorageView {
                    subscriptions: keep(old(self)@.store.subscriptions, crate::storage::other_text(pubkey@)),
                    ..old(self)@.store
                },
                ..old(self)@
            }),
    {
        proof {
            use_type_invariant(&*self);
        }
        let mut storage = Storage::new("");
        std::mem::swap(&mut storage, &mut self.storage);
        storage.remove_subscription(pubkey);
        self.storage = storage;
    }

    /// Stores a post, as `Storage::save_post` does.
    pub fn save_post(&mut self, post: &Post)
        ensures
            final(self)@ == (NetView {
                store: StorageView { posts: stored_after(old(self)@.store.posts, post@), ..old(self)@.store },
                ..old(self)@
            }),
    {
        proof {
            use_type_invariant(&*self);
        }
        let mut storage = Storage::new("");
        std::mem::swap(&mut storage, &mut self.storage);
        storage.save_post(post);
        self.storage = storage;
    }

    /// Records that a post id has been seen; returns whether it is new.
    fn mark_seen(&mut self, id: &String) -> (is_new: bool)
        ensures
            is_new == !old(self)@.seen.contains(id@),
            final(self)@ == (NetView { seen: seen_after(old(self)@.seen, id@), ..old(self)@ }),
    {
        proof {
            use_type_invariant(&*self);
        }
        if contains_text(self.seen_posts.as_slice(), id) {
            return false;
        }
        let ghost s = texts_view(self.seen_posts@);
        let mut seen: Vec<String> = Vec::new();
        assert(texts_view(seen@) =~= Seq::<Seq<char>>::empty());
        std::mem::swap(&mut seen, &mut self.seen_posts);
        seen.push(id.clone());
        proof {
            assert(texts_view(seen@) =~= s.push(id@));
            lemma_push_no_duplicates(s, id@);
        }
        self.seen_posts = seen;
        true
    }

    /// `m` to every relay in the node list, in list order, but for this node when
    /// `skip_self` and but for the address `skip` when there is one.
    fn to_relays_where(&self, m: &Message, skip_self: bool, skip: Option<SockAddr>) -> (out: Vec<Outgoing>)
        ensures
            outgoing_list(out@) == send_all(m@, node_addrs(keep(self@.nodes, relay_to(self@.public_addr, skip_self, skip)))),
    {
        let ghost nodes = self@.nodes;
        let ghost pred = relay_to(self.public_addr, skip_self, skip);
        let mut out: Vec<Outgoing> = Vec::new();
        let n = self.network_nodes.len();
        for i in 0..n
            invariant
                n == self.network_nodes@.len(),
                nodes == self@.nodes,
                pred == relay_to(self@.public_addr, skip_self, skip),
                outgoing_list(out@) == send_all(m@, node_addrs(keep(nodes.take(i as int), pred))),
        {
            proof {
                lemma_keep_step(nodes, pred, i as int);
            }
            let node = &self.network_nodes[i];
            let not_skipped = match skip {
                Some(a) => node.addr != a,
                None => true,
            };
            if node.is_relay && (!skip_self || node.addr != self.public_addr) && not_skipped {
                let ghost before = keep(nodes.take(i as int), pred);
                let ghost prev = outgoing_list(out@);
                out.push(Outgoing { msg: m.clone(), to: node.addr });
                assert(outgoing_list(out@) =~= prev.push((m@, node.addr)));
                assert(send_all(m@, node_addrs(before.push(nodes[i as int]))) =~= send_all(m@, node_addrs(before)).push((m@, nodes[i as int].addr)));
            }
        }
        proof {
            lemma_keep_all(nodes, pred);
        }
        out
    }

    /// `m` to every known peer, in list order, but for the address `skip` when there is one.
    fn to_peers_where(&self, m: &Message, skip: Option<SockAddr>) -> (out: Vec<Outgoing>)
        ensures
            outgoing_list(out@) == send_all(m@, peer_addrs(keep(self@.peers, peer_except(skip)))),
    {
        let ghost peers = self@.peers;
        let ghost pred = peer_except(skip);
        let mut out: Vec<Outgoing> = Vec::new();
        let n = self.peers.len();
        for i in 0..n
            invariant
                n == self.peers@.len(),
                peers == self@.peers,
                pred == peer_except(skip),
                outgoing_list(out@) == send_all(m@, peer_addrs(keep(peers.take(i as int), pred))),
        {
            proof {
                lemma_keep_step(peers, pred, i as int);
            }
            let addr = self.peers[i].0;
            let not_skipped = match skip {
                Some(a) => addr != a,
                None => true,
            };
            if not_skipped {
                let ghost before = keep(peers.take(i as int), pred);
                let ghost prev = outgoing_list(out@);
                out.push(Outgoing { msg: m.clone(), to: addr });
                assert(outgoing_list(out@) =~= prev.push((m@, addr)));
                assert(send_all(m@, peer_addrs(before.push(peers[i as int]))) =~= send_all(m@, peer_addrs(before)).push((m@, peers[i as int].0)));
            }
        }
        proof {
            lemma_keep_all(peers, pred);
        }
        out
    }

    /// Marks the post as seen and sends it to every relay in the node list, this node
    /// included.
    pub fn broadcast_post(&mut self, post: &Post) -> (out: Vec<Outgoing>)
        ensures
            final(self)@ == (NetView { seen: seen_after(old(self)@.seen, post.id@), ..old(self)@ }),
            outgoing_list(out@) == send_all(
                MessageView::PublishPost { post: post@ },
                node_addrs(keep(old(self)@.nodes, relay())),
            ),
    {
        self.mark_seen(&post.id);
        let msg = Message::PublishPost { post: post.clone() };
        let out = self.to_relays_where(&msg, false, None);
        assert(relay_to(self@.public_addr, false, None) =~= relay());
        out
    }

    /// A request, from this node, for the posts after `since` by `pubkeys`, to every relay
    /// in the node list other than this node.
    pub fn request_posts_from_peers(&self, since: u64, pubkeys: Vec<String>) -> (out: Vec<Outgoing>)
        ensures
            outgoing_list(out@) == send_all(
                MessageView::RequestPosts { src_addr: self@.public_addr, since, pubkeys: texts_view(pubkeys@) },
                node_addrs(keep(self@.nodes, relay_not(self@.public_addr))),
            ),
    {
        let msg = Message::RequestPosts { src_addr: self.public_addr, since, pubkeys };
        self.to_relays_where(&msg, true, None)
    }

    /// This node's announcement, stamped `time`.
    pub fn announcement(&self, time: u64) -> (m: Message)
        ensures
            m@ == (MessageView::NodeAnnounce {
                addr: self@.public_addr,
                pubkey: hex_text(self@.public_key),
                is_relay: self@.is_relay,
                time,
            }),
    {
        Message::NodeAnnounce {
            addr: self.public_addr,
            pubkey: self.keypair.public_hex(),
            is_relay: self.is_relay,
            time,
        }
    }

    /// This node's announcement, stamped `time`, to every known peer.
    pub fn announce_self_at(&self, time: u64) -> (out: Vec<Outgoing>)
        ensures
            outgoing_list(out@) == send_all(
                MessageView::NodeAnnounce {
                    addr: self@.public_addr,
                    pubkey: hex_text(self@.public_key),
                    is_relay: self@.is_relay,
                    time,
                },
                peer_addrs(self@.peers),
            ),
    {
        let msg = self.announcement(time);
        let out = self.to_peers_where(&msg, None);
        proof {
            lemma_keep_all_kept(self@.peers, peer_except(None));
        }
        out
    }

    /// This node's announcement, stamped with the current time, to every known peer;
    /// nothing when the clock cannot be read.
    pub fn announce_self(&self) -> (r: Option<Vec<Outgoing>>)
        ensures
            r matches Some(out) ==> exists|time: u64| outgoing_list(out@) == #[trigger] send_all(
                MessageView::NodeAnnounce {
                    addr: self@.public_addr,
                    pubkey: hex_text(self@.public_key),
                    is_relay: self@.is_relay,
                    time,
                },
                peer_addrs(self@.peers),
            ),
    {
        match now_secs() {
            Some(time) => Some(self.announce_self_at(time)),
            None => None,
        }
    }

    /// This node's announcement, stamped `time`, to the hub.
    pub fn announce_to_hub_at(&self, time: u64) -> (out: Outgoing)
        ensures
            outgoing_list(seq![out]) == seq![(
                MessageView::NodeAnnounce {
                    addr: self@.public_addr,
                    pubkey: hex_text(self@.public_key),
                    is_relay: self@.is_relay,
                    time,
                },
                self@.hub_addr,
            )],
    {
        let out = Outgoing { msg: self.announcement(time), to: self.hub_addr };
        assert(outgoing_list(seq![out]) =~= seq![(out.msg@, self@.hub_addr)]);
        out
    }

    /// A request to the hub, stamped `time`, for every node it knows.
    pub fn request_network_nodes_at(&self, time: u64) -> (out: Outgoing)
        ensures
            out.msg@ == (MessageView::GetAllNodes { src_addr: self@.public_addr, time }),
            out.to == self@.hub_addr,
    {
        Outgoing { msg: Message::GetAllNodes { src_addr: self.public_addr, time }, to: self.hub_addr }
    }

    /// A request to the hub, stamped with the current time, for every node it knows;
    /// nothing when the clock cannot be read.
    pub fn request_network_nodes(&self) -> (r: Option<Outgoing>)
        ensures
            r matches Some(out) ==> (out.msg matches Message::GetAllNodes { src_addr, time: _ } && src_addr
                == self@.public_addr) && out.to == self@.hub_addr,
    {
        match now_secs() {
            Some(time) => Some(self.request_network_nodes_at(time)),
            None => None,
        }
    }

    /// The node list last received from the hub.
    pub fn get_network_nodes(&self) -> (nodes: Vec<NetworkNode>)
        ensures
            nodes_view(nodes@) == self@.nodes,
    {
        clone_nodes(&self.network_nodes)
    }

    /// The periodic synchronisation: when the node follows anyone, a request for the posts
    /// of the last hour (counted back from `now`, saturating at zero) by the followed
    /// authors, to every relay other than this node; else nothing.
    pub fn sync_request_at(&self, now: u64) -> (out: Vec<Outgoing>)
        ensures
            self@.store.subscriptions.len() == 0 ==> out@.len() == 0,
            self@.store.subscriptions.len() > 0 ==> outgoing_list(out@) == send_all(
                MessageView::RequestPosts {
                    src_addr: self@.public_addr,
                    since: if now >= 3600 { (now - 3600) as u64 } else { 0 },
                    pubkeys: self@.store.subscriptions,
                },
                node_addrs(keep(self@.nodes, relay_not(self@.public_addr))),
            ),
    {
        let subscriptions = self.storage.get_subscriptions();
        if subscriptions.len() == 0 {
            return Vec::new();
        }
        let since = now.saturating_sub(3600);
        self.request_posts_from_peers(since, subscriptions)
    }

    /// Remembers the peer at `addr` with key `pubkey` as heard from at `peer_time`, and
    /// records it in the peer table as heard from at `store_time`.
    pub fn add_peer_at(&mut self, addr: SockAddr, pubkey: String, peer_time: u64, store_time: u64)
        ensures
            final(self)@ == peer_added(old(self)@, addr, pubkey@, peer_time, store_time),
    {
        self.upsert_peer(addr, pubkey.clone(), peer_time);
        let text = addr.to_text();
        proof {
            use_type_invariant(&*self);
        }
        let mut storage = Storage::new("");
        std::mem::swap(&mut storage, &mut self.storage);
        storage.save_peer(text.as_str(), Some(pubkey.as_str()), store_time);
        self.storage = storage;
    }

    /// Remembers the peer at `addr` with key `pubkey`, stamped with the current time (read
    /// once for the peer list and once for the peer table); returns whether it did, which
    /// it does not when the clock cannot be read, and then changes nothing.
    pub fn add_peer(&mut self, addr: SockAddr, pubkey: String) -> (added: bool)
        ensures
            added ==> exists|t1: u64, t2: u64| final(self)@ == #[trigger] peer_added(old(self)@, addr, pubkey@, t1, t2),
            !added ==> final(self)@ == old(self)@,
    {
        let t1 = match now_secs() {
            Some(t) => t,
            None => {
                return false;
            },
        };
        let t2 = match now_secs() {
            Some(t) => t,
            None => {
                return false;
            },
        };
        self.add_peer_at(addr, pubkey, t1, t2);
        true
    }

    /// Replaces the entry of the peer at `addr`, placing it last.
    fn upsert_peer(&mut self, addr: SockAddr, pubkey: String, time: u64)
        ensures
            final(self)@ == (NetView { peers: peers_after(old(self)@.peers, addr, pubkey@, time), ..old(self)@ }),
    {
        proof {
            use_type_invariant(&*self);
        }
        let ghost s = self@.peers;
        let ghost pred = peer_not(addr);
        let mut kept: Vec<PeerEntry> = Vec::new();
        let n = self.peers.len();
        for i in 0..n
            invariant
                n == self.peers@.len(),
                s == peer_entries_view(self.peers@),
                pred == peer_not(addr),
                peer_entries_view(kept@) == keep(s.take(i as int), pred),
        {
            proof {
                lemma_keep_step(s, pred, i as int);
            }
            if self.peers[i].0 != addr {
                let e = &self.peers[i];
                kept.push((e.0, e.1.clone(), e.2));
                assert(peer_entries_view(kept@) =~= keep(s.take(i as int), pred).push(s[i as int]));
            }
        }
        proof {
            lemma_keep_all(s, pred);
            lemma_keep_members(s, pred);
            lemma_keep_distinct_peers(s, pred);
        }
        let ghost before = peer_entries_view(kept@);
        kept.push((addr, pubkey, time));
        proof {
            let t = peer_entries_view(kept@);
            assert(t =~= before.push((addr, pubkey@, time)));
            assert forall|a: int, b: int| 0 <= a < t.len() && 0 <= b < t.len() && a != b implies (
            #[trigger] t[a]).0 != (#[trigger] t[b]).0 by {
                if a == t.len() - 1 {
                    assert(before.contains(t[b]));
                } else if b == t.len() - 1 {
                    assert(before.contains(t[a]));
                }
            }
        }
        self.peers = kept;
    }

    /// Forgets the peers heard from more than 300 seconds before `now`.
    pub fn cleanup_old_peers_at(&mut self, now: u64)
        ensures
            final(self)@ == (NetView { peers: keep(old(self)@.peers, recent_peer(now)), ..old(self)@ }),
    {
        proof {
            use_type_invariant(&*self);
        }
        let ghost s = self@.peers;
        let ghost pred = recent_peer(now);
        let mut kept: Vec<PeerEntry> = Vec::new();
        let n = self.peers.len();
        for i in 0..n
            invariant
                n == self.peers@.len(),
                s == peer_entries_view(self.peers@),
                pred == recent_peer(now),
                peer_entries_view(kept@) == keep(s.take(i as int), pred),
        {
            proof {
                lemma_keep_step(s, pred, i as int);
            }
            let e = &self.peers[i];
            if e.2 >= now || now - e.2 <= 300 {
                kept.push((e.0, e.1.clone(), e.2));
                assert(peer_entries_view(kept@) =~= keep(s.take(i as int), pred).push(s[i as int]));
            }
        }
        proof {
            lemma_keep_all(s, pred);
            lemma_keep_distinct_peers(s, pred);
        }
        self.peers = kept;
    }

    /// The posts a relay sends in answer to a request.
    fn answer_request(&self, since: u64, pubkeys: &Vec<String>) -> (posts: Vec<Post>)
        ensures
            posts_view(posts@) == requested_posts(self@.store.posts, since, texts_view(pubkeys@)),
    {
        if pubkeys.len() == 0 {
            let mut oldest = self.storage.get_posts_since(since);
            oldest.truncate(100);
            proof {
                if oldest@.len() < 100 {
                    assert(posts_view(oldest@) =~= requested_posts(self@.store.posts, since, texts_view(pubkeys@)));
                } else {
                    assert(posts_view(oldest@) =~= requested_posts(self@.store.posts, since, texts_view(pubkeys@)));
                }
            }
            return oldest;
        }
        let by_author = self.storage.get_posts_by_authors(pubkeys.as_slice(), 100);
        let ghost s = posts_view(by_author@);
        let ghost pred = newer_than(since);
        let mut r: Vec<Post> = Vec::new();
        let n = by_author.len();
        for i in 0..n
            invariant
                n == by_author@.len(),
                s == posts_view(by_author@),
                pred == newer_than(since),
                posts_view(r@) == keep(s.take(i as int), pred),
        {
            proof {
                lemma_keep_step(s, pred, i as int);
            }
            if by_author[i].timestamp > since {
                r.push(by_author[i].clone());
                assert(posts_view(r@) =~= keep(s.take(i as int), pred).push(s[i as int]));
            }
        }
        proof {
            lemma_keep_all(s, pred);
        }
        r
    }

    /// Stores each authentic post of a batch and marks it seen.
    fn absorb_batch(&mut self, posts: &Vec<Post>)
        ensures
            final(self)@ == (NetView {
                store: StorageView { posts: batch_posts(old(self)@.store.posts, posts_view(posts@)), ..old(self)@.store },
                seen: batch_seen(old(self)@.seen, posts_view(posts@)),
                ..old(self)@
            }),
    {
        let ghost b = posts_view(posts@);
        let n = posts.len();
        for i in 0..n
            invariant
                n == posts@.len(),
                b == posts_view(posts@),
                self@ == (NetView {
                    store: StorageView { posts: batch_posts(old(self)@.store.posts, b.take(i as int)), ..old(self)@.store },
                    seen: batch_seen(old(self)@.seen, b.take(i as int)),
                    ..old(self)@
                }),
        {
            proof {
                assert(b.take(i + 1).drop_last() =~= b.take(i as int));
                assert(b.take(i + 1).last() == b[i as int]);
            }
            let p = &posts[i];
            if p.verify() {
                self.save_post(p);
                self.mark_seen(&p.id);
            }
        }
        assert(b.take(n as int) =~= b);
    }

    /// What the node does with a message from `sender`; returns the messages to send.
    ///
    /// - A post already seen is ignored.  A new post is marked seen; if its signature does
    ///   not check it goes no further, else it is stored, and a relay passes it on to every
    ///   other relay in its node list except the sender, then to every known peer except
    ///   the sender.
    /// - A request for posts is answered by relays only, with the requested posts.
    /// - Each authentic post of a batch is stored and marked seen.
    /// - An announcement updates the known peers and the peer table.
    /// - A node list from the hub replaces the node list.
    /// - A request for the node list is for the hub and is ignored.
    pub fn handle_message(&mut self, msg: Message, sender_addr: SockAddr) -> (out: Vec<Outgoing>)
        ensures
            match msg@ {
                MessageView::PublishPost { post } => {
                    if old(self)@.seen.contains(post.id) {
                        &&& final(self)@ == old(self)@
                        &&& out@.len() == 0
                    } else if !post_is_authentic(post) {
                        &&& final(self)@ == (NetView { seen: old(self)@.seen.push(post.id), ..old(self)@ })
                        &&& out@.len() == 0
                    } else {
                        &&& final(self)@ == (NetView {
                            seen: old(self)@.seen.push(post.id),
                            store: StorageView { posts: stored_after(old(self)@.store.posts, post), ..old(self)@.store },
                            ..old(self)@
                        })
                        &&& outgoing_list(out@) == if old(self)@.is_relay {
                            send_all(
                                MessageView::PublishPost { post },
                                node_addrs(keep(old(self)@.nodes, other_relay(old(self)@.public_addr, sender_addr)))
                                    + peer_addrs(keep(old(self)@.peers, peer_not(sender_addr))),
                            )
                        } else {
                            Seq::empty()
                        }
                    }
                },
                MessageView::RequestPosts { src_addr, since, pubkeys } => {
                    &&& final(self)@ == old(self)@
                    &&& outgoing_list(out@) == if old(self)@.is_relay {
                        seq![(
                            MessageView::PostsBatch { posts: requested_posts(old(self)@.store.posts, since, pubkeys) },
                            src_addr,
                        )]
                    } else {
                        Seq::empty()
                    }
                },
                MessageView::PostsBatch { posts } => {
                    &&& final(self)@ == (NetView {
                        store: StorageView { posts: batch_posts(old(self)@.store.posts, posts), ..old(self)@.store },
                        seen: batch_seen(old(self)@.seen, posts),
                        ..old(self)@
                    })
                    &&& out@.len() == 0
                },
                MessageView::NodeAnnounce { addr, pubkey, is_relay: _, time } => {
                    &&& final(self)@ == peer_added(old(self)@, addr, pubkey, time, time)
                    &&& out@.len() == 0
                },
                MessageView::AllNodesList { nodes } => {
                    &&& final(self)@ == (NetView { nodes, ..old(self)@ })
                    &&& out@.len() == 0
                },
                MessageView::GetAllNodes { .. } => {
                    &&& final(self)@ == old(self)@
                    &&& out@.len() == 0
                },
            },
    {
        match msg {
            Message::PublishPost { post } => {
                let is_new = self.mark_seen(&post.id);
                if !is_new {
                    return Vec::new();
                }
                if !post.verify() {
                    return Vec::new();
                }
                self.save_post(&post);
                if self.is_relay {
                    let relay_msg = Message::PublishPost { post };
                    let mut out = self.to_relays_where(&relay_msg, true, Some(sender_addr));
                    let mut to_peers = self.to_peers_where(&relay_msg, Some(sender_addr));
                    let ghost a = outgoing_list(out@);
                    let ghost b = outgoing_list(to_peers@);
                    out.append(&mut to_peers);
                    assert(outgoing_list(out@) =~= a + b);
                    out
                } else {
                    Vec::new()
                }
            },
            Message::RequestPosts { src_addr, since, pubkeys } => {
                if !self.is_relay {
                    return Vec::new();
                }
                let posts = self.answer_request(since, &pubkeys);
                let mut out: Vec<Outgoing> = Vec::new();
                out.push(Outgoing { msg: Message::PostsBatch { posts }, to: src_addr });
                assert(outgoing_list(out@) =~= seq![(out@[0].msg@, src_addr)]);
                out
            },
            Message::PostsBatch { posts } => {
                self.absorb_batch(&posts);
                Vec::new()
            },
            Message::NodeAnnounce { addr, pubkey, is_relay: _, time } => {
                self.add_peer_at(addr, pubkey, time, time);
                Vec::new()
            },
            Message::AllNodesList { nodes } => {
                proof {
                    use_type_invariant(&*self);
                }
                self.network_nodes = nodes;
                Vec::new()
            },
            Message::GetAllNodes { .. } => Vec::new(),
        }
    }
}

/// A relay never passes a post back to the node it came from, nor to itself through its
/// node list.
pub proof fn lemma_forwarding_skips_sender(
    nodes: Seq<NodeView>,
    peers: Seq<PeerEntryView>,
    public: SockAddr,
    sender: SockAddr,
)
    ensures
        forall|i: int|
            0 <= i < node_addrs(keep(nodes, other_relay(public, sender))).len() ==> {
                let d = #[trigger] node_addrs(keep(nodes, other_relay(public, sender)))[i];
                d != sender && d != public
            },
        forall|i: int|
            0 <= i < peer_addrs(keep(peers, peer_not(sender))).len() ==> #[trigger] peer_addrs(
                keep(peers, peer_not(sender)),
            )[i] != sender,
{
    let kn = keep(nodes, other_relay(public, sender));
    let kp = keep(peers, peer_not(sender));
    lemma_keep_members(nodes, other_relay(public, sender));
    lemma_keep_members(peers, peer_not(sender));
    assert forall|i: int| 0 <= i < node_addrs(kn).len() implies {
        let d = #[trigger] node_addrs(kn)[i];
        d != sender && d != public
    } by {
        assert(kn.contains(kn[i]));
    }
    assert forall|i: int| 0 <= i < peer_addrs(kp).len() implies #[trigger] peer_addrs(kp)[i] != sender by {
        assert(kp.contains(kp[i]));
    }
}

/// Once a post has been handled, its id is among the seen ids, so the same post coming
/// again is ignored.
pub proof fn lemma_handled_post_is_seen(seen: Seq<Seq<char>>, id: Seq<char>)
    ensures
        seen_after(seen, id).contains(id),
        !seen.contains(id) ==> seen.push(id).contains(id),
{
    assert(seen.push(id)[seen.len() as int] == id);
}

/// Storing a post adds only that post.
pub proof fn lemma_stored_after_members(posts: Seq<PostView>, q: PostView)
    ensures
        forall|p: PostView| #[trigger] stored_after(posts, q).contains(p) ==> posts.contains(p) || p == q,
{
    lemma_insert_by_time_members(posts, q);
}

/// Placing a post by time adds only that post.
pub proof fn lemma_insert_by_time_members(posts: Seq<PostView>, q: PostView)
    ensures
        forall|p: PostView| #[trigger] insert_by_time(posts, q).contains(p) ==> posts.contains(p) || p == q,
    decreases posts.len(),
{
    if posts.len() > 0 && posts[0].timestamp >= q.timestamp {
        let d = posts.drop_first();
        lemma_insert_by_time_members(d, q);
        assert forall|p: PostView| #[trigger] insert_by_time(posts, q).contains(p) implies posts.contains(p) || p == q by {
            let t = insert_by_time(posts, q);
            let j = choose|j: int| 0 <= j < t.len() && t[j] == p;
            if j == 0 {
                assert(posts[0] == p);
            } else {
                assert(insert_by_time(d, q)[j - 1] == p);
                assert(insert_by_time(d, q).contains(p));
                if d.contains(p) {
                    let k = choose|k: int| 0 <= k < d.len() && d[k] == p;
                    assert(posts[k + 1] == p);
                }
            }
        }
    } else if posts.len() > 0 {
        assert forall|p: PostView| #[trigger] insert_by_time(posts, q).contains(p) implies posts.contains(p) || p == q by {
            let t = insert_by_time(posts, q);
            let j = choose|j: int| 0 <= j < t.len() && t[j] == p;
            if j > 0 {
                assert(posts[j - 1] == p);
            }
        }
    }
}

/// A batch from the network adds to the posts only authentic posts of the batch.
pub proof fn lemma_batch_stores_only_authentic(posts: Seq<PostView>, batch: Seq<PostView>)
    ensures
        forall|p: PostView|
            #[trigger] batch_posts(posts, batch).contains(p) ==> posts.contains(p) || (batch.contains(p)
                && post_is_authentic(p)),
    decreases batch.len(),
{
    if batch.len() > 0 {
        let d = batch.drop_last();
        lemma_batch_stores_only_authentic(posts, d);
        let before = batch_posts(posts, d);
        lemma_stored_after_members(before, batch.last());
        assert forall|p: PostView| #[trigger] batch_posts(posts, batch).contains(p) implies posts.contains(p) || (
        batch.contains(p) && post_is_authentic(p)) by {
            if before.contains(p) {
                if d.contains(p) {
                    let k = choose|k: int| 0 <= k < d.len() && d[k] == p;
                    assert(batch[k] == p);
                }
            } else {
                assert(p == batch.last());
                assert(batch[batch.len() - 1] == p);
            }
        }
    }
}

/// Placing a post by time loses no stored post, and the placed post is then stored.
pub proof fn lemma_insert_by_time_keeps(posts: Seq<PostView>, q: PostView)
    ensures
        forall|p: PostView| #[trigger] posts.contains(p) ==> insert_by_time(posts, q).contains(p),
        insert_by_time(posts, q).contains(q),
    decreases posts.len(),
{
    if posts.len() == 0 {
        assert(insert_by_time(posts, q)[0] == q);
    } else if posts[0].timestamp < q.timestamp {
        let t = insert_by_time(posts, q);
        assert(t[0] == q);
        assert forall|p: PostView| #[trigger] posts.contains(p) implies t.contains(p) by {
            let j = choose|j: int| 0 <= j < posts.len() && posts[j] == p;
            assert(t[j + 1] == p);
        }
    } else {
        let d = posts.drop_first();
        let t = insert_by_time(posts, q);
        lemma_insert_by_time_keeps(d, q);
        let td = insert_by_time(d, q);
        assert(t =~= seq![posts[0]] + td);
        let kq = choose|k: int| 0 <= k < td.len() && td[k] == q;
        assert(t[kq + 1] == q);
        assert forall|p: PostView| #[trigger] posts.contains(p) implies t.contains(p) by {
            let j = choose|j: int| 0 <= j < posts.len() && posts[j] == p;
            if j == 0 {
                assert(t[0] == p);
            } else {
                assert(d[j - 1] == p);
                assert(d.contains(p));
                let k = choose|k: int| 0 <= k < td.len() && td[k] == p;
                assert(t[k + 1] == p);
            }
        }
    }
}

/// After a batch, every post stored before is still stored and every authentic post of
/// the batch is stored (it, or a stored post with its id); every id seen before is still
/// seen and the id of every authentic post of the batch is seen, so the same post arriving
/// again is ignored.  Nothing else is added to the seen ids.
pub proof fn lemma_batch_stores_and_marks_authentic(posts: Seq<PostView>, seen: Seq<Seq<char>>, batch: Seq<PostView>)
    ensures
        forall|p: PostView| #[trigger] posts.contains(p) ==> batch_posts(posts, batch).contains(p),
        forall|i: int|
            0 <= i < batch.len() && post_is_authentic(#[trigger] batch[i]) ==> has_id(batch_posts(posts, batch), batch[i].id),
        forall|id: Seq<char>| #[trigger] seen.contains(id) ==> batch_seen(seen, batch).contains(id),
        forall|i: int|
            0 <= i < batch.len() && post_is_authentic(#[trigger] batch[i]) ==> batch_seen(seen, batch).contains(batch[i].id),
        forall|id: Seq<char>| #[trigger]
            batch_seen(seen, batch).contains(id) ==> seen.contains(id) || exists|i: int|
                #![trigger batch[i]]
                0 <= i < batch.len() && post_is_authentic(batch[i]) && batch[i].id == id,
    decreases batch.len(),
{
    if batch.len() > 0 {
        let d = batch.drop_last();
        let q = batch.last();
        lemma_batch_stores_and_marks_authentic(posts, seen, d);
        let bp = batch_posts(posts, d);
        let bs = batch_seen(seen, d);
        if post_is_authentic(q) {
            if !has_id(bp, q.id) {
                lemma_insert_by_time_keeps(bp, q);
            }
            if !bs.contains(q.id) {
                assert(bs.push(q.id)[bs.len() as int] == q.id);
                assert forall|id: Seq<char>| #[trigger] bs.contains(id) implies bs.push(q.id).contains(id) by {
                    let j = choose|j: int| 0 <= j < bs.len() && bs[j] == id;
                    assert(bs.push(q.id)[j] == id);
                }
            }
        }
        assert forall|p: PostView| #[trigger] posts.contains(p) implies batch_posts(posts, batch).contains(p) by {
            assert(bp.contains(p));
        }
        assert forall|i: int| 0 <= i < batch.len() && post_is_authentic(#[trigger] batch[i]) implies has_id(
            batch_posts(posts, batch),
            batch[i].id,
        ) by {
            if i < d.len() {
                assert(d[i] == batch[i]);
                assert(has_id(bp, d[i].id));
                let j = choose|j: int| 0 <= j < bp.len() && (#[trigger] bp[j]).id == d[i].id;
                assert(bp.contains(bp[j]));
                let t = batch_posts(posts, batch);
                assert(t.contains(bp[j]));
                let k = choose|k: int| 0 <= k < t.len() && t[k] == bp[j];
                assert(t[k].id == batch[i].id);
            } else {
                assert(batch[i] == q);
                let t = batch_posts(posts, batch);
                if !has_id(bp, q.id) {
                    let k = choose|k: int| 0 <= k < t.len() && t[k] == q;
                    assert(t[k].id == q.id);
                }
            }
        }
        assert forall|id: Seq<char>| #[trigger] seen.contains(id) implies batch_seen(seen, batch).contains(id) by {
            assert(bs.contains(id));
        }
        assert forall|i: int| 0 <= i < batch.len() && post_is_authentic(#[trigger] batch[i]) implies batch_seen(
            seen,
            batch,
        ).contains(batch[i].id) by {
            if i < d.len() {
                assert(d[i] == batch[i]);
                assert(bs.contains(d[i].id));
            } else {
                assert(batch[i] == q);
            }
        }
        assert forall|id: Seq<char>| #[trigger] batch_seen(seen, batch).contains(id) implies seen.contains(id)
            || exists|i: int| #![trigger batch[i]] 0 <= i < batch.len() && post_is_authentic(batch[i]) && batch[i].id
            == id by {
            if bs.contains(id) {
                if !seen.contains(id) {
                    let i = choose|i: int| #![trigger d[i]] 0 <= i < d.len() && post_is_authentic(d[i]) && d[i].id == id;
                    assert(batch[i] == d[i]);
                }
            } else {
                let t = batch_seen(seen, batch);
                assert(post_is_authentic(q) && !bs.contains(q.id));
                let j = choose|j: int| 0 <= j < t.len() && t[j] == id;
                assert(t == bs.push(q.id));
                if j < bs.len() {
                    assert(bs[j] == id);
                }
                assert(batch[batch.len() - 1] == q);
            }
        }
    }
}

/// A relay's answer to a request holds at most 100 posts, each of them stored and newer
/// than the requested time, and by one of the named authors when authors are named.
pub proof fn lemma_request_bounded(posts: Seq<PostView>, since: u64, pubkeys: Seq<Seq<char>>)
    ensures
        requested_posts(posts, since, pubkeys).len() <= 100,
        forall|p: PostView| #[trigger] requested_posts(posts, since, pubkeys).contains(p) ==> posts.contains(p)
            && p.timestamp > since && (pubkeys.len() > 0 ==> pubkeys.contains(p.author_pubkey)),
{
    if pubkeys.len() == 0 {
        let newer = keep(posts, newer_than(since));
        let rev = reversed(newer);
        lemma_keep_members(posts, newer_than(since));
        assert forall|p: PostView| #[trigger] requested_posts(posts, since, pubkeys).contains(p) implies posts.contains(p)
            && p.timestamp > since by {
            let r = requested_posts(posts, since, pubkeys);
            let j = choose|j: int| 0 <= j < r.len() && r[j] == p;
            assert(rev[j] == p);
            assert(newer[newer.len() - 1 - j] == p);
            assert(newer.contains(p));
        }
    } else {
        let by = keep(posts, by_authors(pubkeys));
        let top = at_most(by, 100);
        lemma_keep_members(posts, by_authors(pubkeys));
        lemma_keep_members(top, newer_than(since));
        assert forall|p: PostView| #[trigger] requested_posts(posts, since, pubkeys).contains(p) implies posts.contains(p)
            && pubkeys.contains(p.author_pubkey) && p.timestamp > since by {
            assert(top.contains(p));
            let j = choose|j: int| 0 <= j < top.len() && top[j] == p;
            assert(by[j] == p);
            assert(by.contains(p));
        }
    }
}

/// A relay's answer to a request naming authors holds exactly the stored posts by those
/// authors that are newer than `since` and have fewer than 100 posts by those authors
/// stored before them (the stored posts being newest first, those among the 100 newest
/// by the named authors); and when the stored posts are newest first, so is the answer.
pub proof fn lemma_named_request_exact(posts: Seq<PostView>, since: u64, pubkeys: Seq<Seq<char>>)
    requires
        pubkeys.len() > 0,
    ensures
        forall|i: int|
            0 <= i < posts.len() && pubkeys.contains(posts[i].author_pubkey) && posts[i].timestamp > since && keep(
                posts.take(i),
                by_authors(pubkeys),
            ).len() < 100 ==> requested_posts(posts, since, pubkeys).contains(#[trigger] posts[i]),
        forall|p: PostView| #[trigger]
            requested_posts(posts, since, pubkeys).contains(p) ==> exists|i: int|
                #![trigger posts[i]]
                0 <= i < posts.len() && posts[i] == p && pubkeys.contains(p.author_pubkey) && p.timestamp > since
                    && keep(posts.take(i), by_authors(pubkeys)).len() < 100,
        newest_first(posts) ==> newest_first(requested_posts(posts, since, pubkeys)),
{
    let pred = by_authors(pubkeys);
    let by = keep(posts, pred);
    let top = at_most(by, 100);
    lemma_keep_members(top, newer_than(since));
    assert forall|i: int|
        0 <= i < posts.len() && pubkeys.contains(posts[i].author_pubkey) && posts[i].timestamp > since && keep(
            posts.take(i),
            pred,
        ).len() < 100 implies requested_posts(posts, since, pubkeys).contains(#[trigger] posts[i]) by {
        lemma_keep_position(posts, pred, i);
        let k = keep(posts.take(i), pred).len() as int;
        assert(top[k] == by[k]);
        assert(top.contains(posts[i]));
    }
    assert forall|p: PostView| #[trigger] requested_posts(posts, since, pubkeys).contains(p) implies exists|i: int|
        #![trigger posts[i]]
        0 <= i < posts.len() && posts[i] == p && pubkeys.contains(p.author_pubkey) && p.timestamp > since && keep(
            posts.take(i),
            pred,
        ).len() < 100 by {
        assert(top.contains(p));
        let j = choose|j: int| 0 <= j < top.len() && top[j] == p;
        assert(by[j] == p);
        let i = lemma_keep_origin(posts, pred, j);
        assert(posts[i] == p);
    }
    if newest_first(posts) {
        crate::storage::lemma_newest_first_keep(posts, pred);
        assert(newest_first(top)) by {
            assert forall|a: int, b: int| 0 <= a < b < top.len() implies (#[trigger] top[a]).timestamp
                >= (#[trigger] top[b]).timestamp by {
                assert(top[a] == by[a] && top[b] == by[b]);
            }
        }
        crate::storage::lemma_newest_first_keep(top, newer_than(since));
    }
}

/// A relay's answer to a request naming no author holds exactly the stored posts newer
/// than `since` that have fewer than 100 such posts stored after them (the stored posts
/// being newest first, the 100 oldest posts newer than `since`); and when the stored
/// posts are newest first, the answer is oldest first.
pub proof fn lemma_open_request_exact(posts: Seq<PostView>, since: u64, pubkeys: Seq<Seq<char>>)
    requires
        pubkeys.len() == 0,
    ensures
        forall|i: int|
            0 <= i < posts.len() && posts[i].timestamp > since && keep(posts, newer_than(since)).len() - keep(
                posts.take(i),
                newer_than(since),
            ).len() <= 100 ==> requested_posts(posts, since, pubkeys).contains(#[trigger] posts[i]),
        forall|p: PostView| #[trigger]
            requested_posts(posts, since, pubkeys).contains(p) ==> exists|i: int|
                #![trigger posts[i]]
                0 <= i < posts.len() && posts[i] == p && p.timestamp > since && keep(posts, newer_than(since)).len()
                    - keep(posts.take(i), newer_than(since)).len() <= 100,
        newest_first(posts) ==> forall|a: int, b: int|
            0 <= a < b < requested_posts(posts, since, pubkeys).len() ==> (#[trigger] requested_posts(
                posts,
                since,
                pubkeys,
            )[a]).timestamp <= (#[trigger] requested_posts(posts, since, pubkeys)[b]).timestamp,
{
    let pred = newer_than(since);
    let newer = keep(posts, pred);
    let rev = reversed(newer);
    let r = at_most(rev, 100);
    let len = newer.len() as int;
    assert(r == requested_posts(posts, since, pubkeys));
    assert forall|i: int|
        0 <= i < posts.len() && posts[i].timestamp > since && keep(posts, pred).len() - keep(posts.take(i), pred).len()
            <= 100 implies requested_posts(posts, since, pubkeys).contains(#[trigger] posts[i]) by {
        lemma_keep_position(posts, pred, i);
        let k = keep(posts.take(i), pred).len() as int;
        let j = len - 1 - k;
        assert(rev[j] == newer[k]);
        assert(r[j] == rev[j]);
        assert(r.contains(posts[i]));
    }
    assert forall|p: PostView| #[trigger] requested_posts(posts, since, pubkeys).contains(p) implies exists|i: int|
        #![trigger posts[i]]
        0 <= i < posts.len() && posts[i] == p && p.timestamp > since && keep(posts, pred).len() - keep(
            posts.take(i),
            pred,
        ).len() <= 100 by {
        let j = choose|j: int| 0 <= j < r.len() && r[j] == p;
        assert(rev[j] == p);
        assert(newer[len - 1 - j] == p);
        let i = lemma_keep_origin(posts, pred, len - 1 - j);
        assert(posts[i] == p);
    }
    if newest_first(posts) {
        crate::storage::lemma_newest_first_keep(posts, pred);
        assert forall|a: int, b: int| 0 <= a < b < r.len() implies (#[trigger] r[a]).timestamp
            <= (#[trigger] r[b]).timestamp by {
            assert(r[a] == newer[len - 1 - a]);
            assert(r[b] == newer[len - 1 - b]);
        }
    }
}

/// Selecting peers keeps their addresses distinct.
pub proof fn lemma_keep_distinct_peers(s: Seq<PeerEntryView>, pred: spec_fn(PeerEntryView) -> bool)
    requires
        distinct_peer_addrs(s),
    ensures
        distinct_peer_addrs(keep(s, pred)),
{
    let key = |p: PeerEntryView| p.0;
    crate::seqs::lemma_keep_distinct_keys(s, pred, key);
    let k = keep(s, pred);
    assert forall|a: int, b: int| 0 <= a < k.len() && 0 <= b < k.len() && a != b implies (
    #[trigger] k[a]).0 != (#[trigger] k[b]).0 by {
        assert(key(k[a]) != key(k[b]));
    }
}

} // verus!
