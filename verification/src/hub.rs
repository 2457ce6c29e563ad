//! The hub: the directory of every node of the network.
//!
//! Nodes announce themselves to the hub; the hub hands the whole list to any node that
//! asks, and forgets nodes it has not heard from for five minutes.

use vstd::prelude::*;
use crate::addr::SockAddr;
use crate::p2p::{Message, MessageView, NetworkNode, NodeView, Outgoing, outgoing_list, nodes_view};
use crate::seqs::{keep, lemma_keep_step, lemma_keep_all};

verus! {

/// What the hub knows of a node.
pub struct NodeInfo {
    /// The node's public key.
    pub pubkey: String,
    /// When the node last announced itself.
    pub last_seen: u64,
    /// Whether the node relays.
    pub is_relay: bool,
}

/// The value of what the hub knows of a node.
pub struct NodeInfoView {
    pub pubkey: Seq<char>,
    pub last_seen: u64,
    pub is_relay: bool,
}

impl View for NodeInfo {
    type V = NodeInfoView;

    open spec fn view(&self) -> NodeInfoView {
        NodeInfoView { pubkey: self.pubkey@, last_seen: self.last_seen, is_relay: self.is_relay }
    }
}

/// A directory entry: a node's address and what the hub knows of it.
pub type EntryView = (SockAddr, NodeInfoView);

/// The node list entry of a directory entry.
pub open spec fn entry_node(e: EntryView) -> NodeView {
    NodeView { addr: e.0, pubkey: e.1.pubkey, is_relay: e.1.is_relay, last_seen: e.1.last_seen }
}

/// No two entries share an address.
pub open spec fn distinct_entries(s: Seq<EntryView>) -> bool {
    forall|i: int, j: int|
        0 <= i < s.len() && 0 <= j < s.len() && i != j ==> (#[trigger] s[i]).0 != (#[trigger] s[j]).0
}

/// The entries after a node at `addr` announces itself: its entry is updated where it
/// stands, or added last when the address is new.
pub open spec fn announced(s: Seq<EntryView>, addr: SockAddr, info: NodeInfoView) -> Seq<EntryView> {
    if exists|i: int| 0 <= i < s.len() && (#[trigger] s[i]).0 == addr {
        let i = choose|i: int| 0 <= i < s.len() && (#[trigger] s[i]).0 == addr;
        s.update(i, (addr, info))
    } else {
        s.push((addr, info))
    }
}

/// Entries heard from at most 300 seconds before `now` (or after it).
pub open spec fn active_at(now: u64) -> spec_fn(EntryView) -> bool {
    |e: EntryView| now - e.1.last_seen <= 300
}

/// Relay entries.
pub open spec fn is_relay_entry() -> spec_fn(EntryView) -> bool {
    |e: EntryView| e.1.is_relay
}

/// A node that announced itself is in the directory with what it announced, each address
/// still once, and the node list handed out afterwards shows it.
pub proof fn lemma_announced_is_listed(s: Seq<EntryView>, addr: SockAddr, info: NodeInfoView)
    requires
        distinct_entries(s),
    ensures
        announced(s, addr, info).contains((addr, info)),
        announced(s, addr, info).map_values(|e: EntryView| entry_node(e)).contains(entry_node((addr, info))),
{
    let t = announced(s, addr, info);
    if exists|i: int| 0 <= i < s.len() && (#[trigger] s[i]).0 == addr {
        let i = choose|i: int| 0 <= i < s.len() && (#[trigger] s[i]).0 == addr;
        assert(t[i] == (addr, info));
        assert(t.map_values(|e: EntryView| entry_node(e))[i] == entry_node((addr, info)));
    } else {
        assert(t[s.len() as int] == (addr, info));
        assert(t.map_values(|e: EntryView| entry_node(e))[s.len() as int] == entry_node((addr, info)));
    }
}

impl NodeInfo {
    /// The node list entry for this node at `addr`.
    pub fn to_network_node(&self, addr: SockAddr) -> (n: NetworkNode)
        ensures
            n@ == entry_node((addr, self@)),
    {
        NetworkNode { addr, pubkey: self.pubkey.clone(), is_relay: self.is_relay, last_seen: self.last_seen }
    }
}

/// The hub's directory of nodes.
pub struct HubDirectory {
    nodes: Vec<(SockAddr, NodeInfo)>,
}

/// The values of directory entries.
pub open spec fn entries_view(v: Seq<(SockAddr, NodeInfo)>) -> Seq<EntryView> {
    v.map_values(|e: (SockAddr, NodeInfo)| (e.0, e.1@))
}

impl View for HubDirectory {
    type V = Seq<EntryView>;

    closed spec fn view(&self) -> Seq<EntryView> {
        entries_view(self.nodes@)
    }
}

impl HubDirectory {
    /// Each address once.
    #[verifier::type_invariant]
    closed spec fn wf(self) -> bool {
        distinct_entries(entries_view(self.nodes@))
    }

    /// An empty directory.
    pub fn new() -> (d: HubDirectory)
        ensures
            d@ == Seq::<EntryView>::empty(),
    {
        let nodes: Vec<(SockAddr, NodeInfo)> = Vec::new();
        assert(entries_view(nodes@) =~= Seq::<EntryView>::empty());
        HubDirectory { nodes }
    }

    /// Takes the entries out, leaving the directory empty.
    fn take_nodes(&mut self) -> (nodes: Vec<(SockAddr, NodeInfo)>)
        ensures
            entries_view(nodes@) == old(self)@,
            distinct_entries(entries_view(nodes@)),
            final(self)@ == Seq::<EntryView>::empty(),
    {
        proof {
            use_type_invariant(&*self);
        }
        let mut nodes: Vec<(SockAddr, NodeInfo)> = Vec::new();
        assert(entries_view(nodes@) =~= Seq::<EntryView>::empty());
        std::mem::swap(&mut nodes, &mut self.nodes);
        nodes
    }

    /// Records that the node at `addr` announced itself with `pubkey`, its role and `time`.
    pub fn announce(&mut self, addr: SockAddr, pubkey: String, is_relay: bool, time: u64)
        ensures
            final(self)@ == announced(
                old(self)@,
                addr,
                NodeInfoView { pubkey: pubkey@, last_seen: time, is_relay },
            ),
    {
        let mut nodes = self.take_nodes();
        let ghost s = entries_view(nodes@);
        let ghost info = NodeInfoView { pubkey: pubkey@, last_seen: time, is_relay };
        let n = nodes.len();
        let mut i: usize = 0;
        while i < n
            invariant
                n == nodes@.len(),
                s == entries_view(nodes@),
                s == old(self)@,
                info == (NodeInfoView { pubkey: pubkey@, last_seen: time, is_relay }),
                distinct_entries(s),
                0 <= i <= n,
                forall|j: int| 0 <= j < i ==> (#[trigger] s[j]).0 != addr,
            decreases n - i,
        {
            if nodes[i].0 == addr {
                let ghost k = choose|k: int| 0 <= k < s.len() && (#[trigger] s[k]).0 == addr;
                assert(s[i as int].0 == addr);
                assert(k == i) by {
                    if k != i {
                        assert(s[k].0 != s[i as int].0);
                    }
                }
                let ghost raw = nodes@;
                let entry = (addr, NodeInfo { pubkey, last_seen: time, is_relay });
                assert((entry.0, entry.1@) == (addr, info));
                nodes.set(i, entry);
                assert(nodes@ == raw.update(i as int, entry));
                let ghost t = entries_view(nodes@);
                assert(t =~= s.update(i as int, (addr, info)));
                assert forall|a: int, b: int| 0 <= a < t.len() && 0 <= b < t.len() && a != b implies (#[trigger] t[a]).0
                    != (#[trigger] t[b]).0 by {
                    if a != i && b != i {
                        assert(t[a] == s[a] && t[b] == s[b]);
                    } else if a == i {
                        assert(t[b] == s[b]);
                    } else {
                        assert(t[a] == s[a]);
                    }
                }
                self.nodes = nodes;
                return;
            }
            i = i + 1;
        }
        nodes.push((addr, NodeInfo { pubkey, last_seen: time, is_relay }));
        let ghost t = entries_view(nodes@);
        assert(t =~= s.push((addr, info)));
        assert forall|a: int, b: int| 0 <= a < t.len() && 0 <= b < t.len() && a != b implies (#[trigger] t[a]).0
            != (#[trigger] t[b]).0 by {
            if a == s.len() {
                assert(t[b] == s[b]);
            } else if b == s.len() {
                assert(t[a] == s[a]);
            } else {
                assert(t[a] == s[a] && t[b] == s[b]);
            }
        }
        self.nodes = nodes;
    }

    /// The node list: every entry, in directory order.
    pub fn all_nodes(&self) -> (nodes: Vec<NetworkNode>)
        ensures
            nodes_view(nodes@) == self@.map_values(|e: EntryView| entry_node(e)),
    {
        let ghost s = self@;
        let mut out: Vec<NetworkNode> = Vec::new();
        let n = self.nodes.len();
        for i in 0..n
            invariant
                n == self.nodes@.len(),
                s == self@,
                nodes_view(out@) == s.take(i as int).map_values(|e: EntryView| entry_node(e)),
        {
            let e = &self.nodes[i];
            let ghost prev = nodes_view(out@);
            out.push(e.1.to_network_node(e.0));
            assert(s[i as int] == (e.0, e.1@));
            assert(nodes_view(out@) =~= prev.push(entry_node(s[i as int])));
            assert(s.take(i + 1) =~= s.take(i as int).push(s[i as int]));
            assert(nodes_view(out@) =~= s.take(i + 1).map_values(|e: EntryView| entry_node(e)));
        }
        assert(s.take(n as int) =~= s);
        out
    }

    /// What the hub does with a message: an announcement updates the directory, a request
    /// for the node list is answered with every entry, anything else is ignored.
    pub fn handle_message(&mut self, msg: Message, sender_addr: SockAddr) -> (out: Vec<Outgoing>)
        ensures
            match msg@ {
                MessageView::NodeAnnounce { addr, pubkey, is_relay, time } => {
                    &&& final(self)@ == announced(
                        old(self)@,
                        addr,
                        NodeInfoView { pubkey, last_seen: time, is_relay },
                    )
                    &&& out@.len() == 0
                },
                MessageView::GetAllNodes { src_addr, time: _ } => {
                    &&& final(self)@ == old(self)@
                    &&& outgoing_list(out@) == seq![(
                        MessageView::AllNodesList { nodes: old(self)@.map_values(|e: EntryView| entry_node(e)) },
                        src_addr,
                    )]
                },
                _ => {
                    &&& final(self)@ == old(self)@
                    &&& out@.len() == 0
                },
            },
    {
        match msg {
            Message::NodeAnnounce { addr, pubkey, is_relay, time } => {
                self.announce(addr, pubkey, is_relay, time);
                Vec::new()
            },
            Message::GetAllNodes { src_addr, time: _ } => {
                let nodes = self.all_nodes();
                let mut out: Vec<Outgoing> = Vec::new();
                out.push(Outgoing { msg: Message::AllNodesList { nodes }, to: src_addr });
                assert(outgoing_list(out@) =~= seq![(out@[0].msg@, src_addr)]);
                out
            },
            _ => Vec::new(),
        }
    }

    /// Forgets the nodes not heard from for more than 300 seconds before `now`; returns
    /// how many were forgotten.
    pub fn cleanup_inactive_nodes(&mut self, now: u64) -> (removed: usize)
        ensures
            final(self)@ == keep(old(self)@, active_at(now)),
            removed == old(self)@.len() - final(self)@.len(),
    {
        let nodes = self.take_nodes();
        let ghost s = entries_view(nodes@);
        let ghost pred = active_at(now);
        let mut kept: Vec<(SockAddr, NodeInfo)> = Vec::new();
        let n = nodes.len();
        for i in 0..n
            invariant
                n == nodes@.len(),
                s == entries_view(nodes@),
                pred == active_at(now),
                entries_view(kept@) == keep(s.take(i as int), pred),
        {
            proof {
                lemma_keep_step(s, pred, i as int);
            }
            let e = &nodes[i];
            if e.1.last_seen >= now || now - e.1.last_seen <= 300 {
                let info = NodeInfo { pubkey: e.1.pubkey.clone(), last_seen: e.1.last_seen, is_relay: e.1.is_relay };
                kept.push((e.0, info));
                assert(entries_view(kept@) =~= keep(s.take(i as int), pred).push(s[i as int]));
            }
        }
        proof {
            lemma_keep_all(s, pred);
            crate::seqs::lemma_keep_members(s, pred);
            let k = keep(s, pred);
            let key = |e: EntryView| e.0;
            crate::seqs::lemma_keep_distinct_keys(s, pred, key);
            assert forall|a: int, b: int| 0 <= a < k.len() && 0 <= b < k.len() && a != b implies (
            #[trigger] k[a]).0 != (#[trigger] k[b]).0 by {
                assert(key(k[a]) != key(k[b]));
            }
        }
        let kept_len = kept.len();
        self.nodes = kept;
        n - kept_len
    }

    /// The number of nodes, of relays among them, and of clients.
    pub fn stats(&self) -> (r: (usize, usize, usize))
        ensures
            r.0 == self@.len(),
            r.1 == keep(self@, is_relay_entry()).len(),
            r.2 == r.0 - r.1,
    {
        let ghost s = self@;
        let ghost pred = is_relay_entry();
        let n = self.nodes.len();
        let mut relays: usize = 0;
        for i in 0..n
            invariant
                n == self.nodes@.len(),
                s == self@,
                pred == is_relay_entry(),
                relays == keep(s.take(i as int), pred).len(),
                relays <= i,
        {
            proof {
                lemma_keep_step(s, pred, i as int);
            }
            if self.nodes[i].1.is_relay {
                relays = relays + 1;
            }
        }
        proof {
            lemma_keep_all(s, pred);
        }
        (n, relays, n - relays)
    }
}

} // verus!
