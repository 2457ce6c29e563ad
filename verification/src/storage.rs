//! The node's tables: its key pair, the posts it knows, the authors it follows and the
//! peers it has heard from.
//!
//! Posts are kept newest first, so that every feed is a selection of the table in its own
//! order.  Keeping the tables in a database file is the application's business: a store
//! starts empty and is told where it belongs.

use vstd::prelude::*;
use crate::crypto::KeyPair;
use crate::post::{Post, PostView};
use crate::seqs::{keep, at_most, reversed, lemma_keep_step, lemma_keep_all, lemma_keep_members,
    lemma_keep_no_duplicates, lemma_keep_ordered, lemma_keep_all_kept, lemma_keep_distinct_keys};
use crate::p2p::now_secs;

verus! {

/// A peer row: address, public key if known, and when it was last heard from.
pub type PeerRow = (String, Option<String>, u64);

/// The value of a peer row.
pub type PeerView = (Seq<char>, Option<Seq<char>>, u64);

/// The value of an optional text.
pub open spec fn opt_text(o: Option<String>) -> Option<Seq<char>> {
    match o {
        Some(s) => Some(s@),
        None => None,
    }
}

/// The value of a peer row.
pub open spec fn peer_view(p: PeerRow) -> PeerView {
    (p.0@, opt_text(p.1), p.2)
}

/// The values of a list of posts.
pub open spec fn posts_view(v: Seq<Post>) -> Seq<PostView> {
    v.map_values(|p: Post| p@)
}

/// The values of a list of texts.
pub open spec fn texts_view(v: Seq<String>) -> Seq<Seq<char>> {
    v.map_values(|s: String| s@)
}

/// The values of a list of peer rows.
pub open spec fn peers_view(v: Seq<PeerRow>) -> Seq<PeerView> {
    v.map_values(|p: PeerRow| peer_view(p))
}

/// Posts ordered from the newest to the oldest.
pub open spec fn newest_first(s: Seq<PostView>) -> bool {
    forall|i: int, j: int| 0 <= i < j < s.len() ==> (#[trigger] s[i]).timestamp >= (#[trigger] s[j]).timestamp
}

/// No two posts share an id.
pub open spec fn distinct_ids(s: Seq<PostView>) -> bool {
    forall|i: int, j: int|
        0 <= i < s.len() && 0 <= j < s.len() && i != j ==> (#[trigger] s[i]).id != (#[trigger] s[j]).id
}

/// Some post has this id.
pub open spec fn has_id(s: Seq<PostView>, id: Seq<char>) -> bool {
    exists|i: int| 0 <= i < s.len() && (#[trigger] s[i]).id == id
}

/// No two peer rows share an address.
pub open spec fn distinct_addrs(s: Seq<PeerView>) -> bool {
    forall|i: int, j: int|
        0 <= i < s.len() && 0 <= j < s.len() && i != j ==> (#[trigger] s[i]).0 != (#[trigger] s[j]).0
}

/// `p` placed into newest-first `s` after every post at least as new as it.
pub open spec fn insert_by_time(s: Seq<PostView>, p: PostView) -> Seq<PostView>
    decreases s.len(),
{
    if s.len() == 0 {
        seq![p]
    } else if s[0].timestamp < p.timestamp {
        seq![p] + s
    } else {
        seq![s[0]] + insert_by_time(s.drop_first(), p)
    }
}

/// Posts by one of `authors`.
pub open spec fn by_authors(authors: Seq<Seq<char>>) -> spec_fn(PostView) -> bool {
    |p: PostView| authors.contains(p.author_pubkey)
}

/// Posts newer than `since`.
pub open spec fn newer_than(since: u64) -> spec_fn(PostView) -> bool {
    |p: PostView| p.timestamp > since
}

/// Rows of peers heard from at `cutoff` or later.
pub open spec fn seen_since(cutoff: u64) -> spec_fn(PeerView) -> bool {
    |p: PeerView| p.2 >= cutoff
}

/// The oldest time still within `max_age` seconds of `now`, zero when `now` is earlier.
pub open spec fn age_cutoff(now: u64, max_age: u64) -> u64 {
    if now >= max_age {
        (now - max_age) as u64
    } else {
        0
    }
}

/// Rows at any other address.
pub open spec fn other_addr(addr: Seq<char>) -> spec_fn(PeerView) -> bool {
    |p: PeerView| p.0 != addr
}

/// Texts other than `x`.
pub open spec fn other_text(x: Seq<char>) -> spec_fn(Seq<char>) -> bool {
    |y: Seq<char>| y != x
}

/// `insert_by_time` puts the post at the first place whose post is older than it.
pub proof fn lemma_insert_by_time(s: Seq<PostView>, p: PostView, k: int)
    requires
        0 <= k <= s.len(),
        forall|j: int| 0 <= j < k ==> (#[trigger] s[j]).timestamp >= p.timestamp,
        k < s.len() ==> s[k].timestamp < p.timestamp,
    ensures
        insert_by_time(s, p) == s.insert(k, p),
    decreases k,
{
    if k == 0 {
        if s.len() == 0 {
            assert(s.insert(0, p) =~= seq![p]);
        } else {
            assert(s.insert(0, p) =~= seq![p] + s);
        }
    } else {
        let d = s.drop_first();
        assert forall|j: int| 0 <= j < k - 1 implies (#[trigger] d[j]).timestamp >= p.timestamp by {
            assert(d[j] == s[j + 1]);
        }
        lemma_insert_by_time(d, p, k - 1);
        assert(s.insert(k, p) =~= seq![s[0]] + d.insert(k - 1, p));
    }
}

/// The value of the node's tables.
pub struct StorageView {
    pub location: Seq<char>,
    pub keypair: Option<(Seq<u8>, Seq<u8>)>,
    pub posts: Seq<PostView>,
    pub subscriptions: Seq<Seq<char>>,
    pub peers: Seq<PeerView>,
}

/// The node's tables.
pub struct Storage {
    location: String,
    keypair: Option<KeyPair>,
    posts: Vec<Post>,
    subscriptions: Vec<String>,
    peers: Vec<PeerRow>,
}

impl View for Storage {
    type V = StorageView;

    open spec fn view(&self) -> StorageView {
        StorageView {
            location: self.location(),
            keypair: self.stored_keypair(),
            posts: self.posts(),
            subscriptions: self.subscriptions(),
            peers: self.peers(),
        }
    }
}

impl Storage {
    /// Where the tables are kept (`:memory:` for nowhere).
    pub closed spec fn location(self) -> Seq<char> {
        self.location@
    }

    /// The stored key pair, as its secret and public keys.
    pub closed spec fn stored_keypair(self) -> Option<(Seq<u8>, Seq<u8>)> {
        match self.keypair {
            Some(k) => Some((k.secret_key(), k.public_key())),
            None => None,
        }
    }

    /// The stored posts, newest first.
    pub closed spec fn posts(self) -> Seq<PostView> {
        posts_view(self.posts@)
    }

    /// The public keys of the followed authors.
    pub closed spec fn subscriptions(self) -> Seq<Seq<char>> {
        texts_view(self.subscriptions@)
    }

    /// The peer rows.
    pub closed spec fn peers(self) -> Seq<PeerView> {
        peers_view(self.peers@)
    }

    /// The tables' invariant: posts newest first with distinct ids, each author followed
    /// once, each peer address once.
    #[verifier::type_invariant]
    pub open spec fn wf(self) -> bool {
        &&& newest_first(self.posts())
        &&& distinct_ids(self.posts())
        &&& self.subscriptions().no_duplicates()
        &&& distinct_addrs(self.peers())
    }

    /// Empty tables that belong at `db_path`.
    pub fn new(db_path: &str) -> (s: Storage)
        ensures
            s.location() == db_path@,
            s.stored_keypair() is None,
            s.posts() == Seq::<PostView>::empty(),
            s.subscriptions() == Seq::<Seq<char>>::empty(),
            s.peers() == Seq::<PeerView>::empty(),
    {
        let posts: Vec<Post> = Vec::new();
        let subscriptions: Vec<String> = Vec::new();
        let peers: Vec<PeerRow> = Vec::new();
        assert(posts_view(posts@) =~= Seq::<PostView>::empty());
        assert(texts_view(subscriptions@) =~= Seq::<Seq<char>>::empty());
        assert(peers_view(peers@) =~= Seq::<PeerView>::empty());
        Storage { location: String::from_str(db_path), keypair: None, posts, subscriptions, peers }
    }

    /// Where the tables belong.
    pub fn location_text(&self) -> (s: String)
        ensures
            s@ == self.location(),
    {
        self.location.clone()
    }

    // ========== Key pair ==========

    /// Stores `keypair`, replacing any stored one.
    pub fn save_keypair(&mut self, keypair: &KeyPair)
        ensures
            final(self).stored_keypair() == Some((keypair.secret_key(), keypair.public_key())),
            final(self).location() == old(self).location(),
            final(self).posts() == old(self).posts(),
            final(self).subscriptions() == old(self).subscriptions(),
            final(self).peers() == old(self).peers(),
    {
        proof {
            use_type_invariant(&*self);
        }
        self.keypair = Some(keypair.clone());
    }

    /// The stored key pair, if any.
    pub fn load_keypair(&self) -> (r: Option<KeyPair>)
        ensures
            r is Some <==> self.stored_keypair() is Some,
            r matches Some(k) ==> self.stored_keypair() == Some((k.secret_key(), k.public_key())),
    {
        match &self.keypair {
            Some(k) => Some(k.clone()),
            None => None,
        }
    }

    /// The stored key pair; when there is none, a fresh one is generated and stored.
    /// Once a key pair is stored, every call returns it.
    pub fn get_or_create_keypair(&mut self) -> (kp: KeyPair)
        ensures
            final(self).stored_keypair() == Some((kp.secret_key(), kp.public_key())),
            old(self).stored_keypair() is Some ==> final(self).stored_keypair() == old(self).stored_keypair(),
            final(self).location() == old(self).location(),
            final(self).posts() == old(self).posts(),
            final(self).subscriptions() == old(self).subscriptions(),
            final(self).peers() == old(self).peers(),
    {
        match self.load_keypair() {
            Some(k) => k,
            None => {
                let k = KeyPair::generate();
                self.save_keypair(&k);
                k
            },
        }
    }

    // ========== Posts ==========

    /// Stores `post` unless a post with the same id is stored already; the posts stay
    /// newest first, the new one after every post at least as new.
    pub fn save_post(&mut self, post: &Post)
        ensures
            final(self).posts() == if has_id(old(self).posts(), post.id@) {
                old(self).posts()
            } else {
                insert_by_time(old(self).posts(), post@)
            },
            final(self).stored_keypair() == old(self).stored_keypair(),
            final(self).location() == old(self).location(),
            final(self).subscriptions() == old(self).subscriptions(),
            final(self).peers() == old(self).peers(),
    {
        proof {
            use_type_invariant(&*self);
        }
        let ghost s = self.posts();
        let n = self.posts.len();
        let mut i: usize = 0;
        while i < n
            invariant
                n == self.posts@.len(),
                s == self.posts(),
                0 <= i <= n,
                forall|j: int| 0 <= j < i ==> (#[trigger] s[j]).id != post.id@,
            decreases n - i,
        {
            if self.posts[i].id == post.id {
                assert(s[i as int].id == post.id@);
                return;
            }
            i = i + 1;
        }
        assert(!has_id(s, post.id@));
        let mut k: usize = 0;
        while k < n && self.posts[k].timestamp >= post.timestamp
            invariant
                n == self.posts@.len(),
                s == self.posts(),
                0 <= k <= n,
                forall|j: int| 0 <= j < k ==> (#[trigger] s[j]).timestamp >= post.timestamp,
            decreases n - k,
        {
            k = k + 1;
        }
        let mut posts: Vec<Post> = Vec::new();
        assert(posts_view(posts@) =~= Seq::<PostView>::empty());
        std::mem::swap(&mut posts, &mut self.posts);
        posts.insert(k, post.clone());
        proof {
            lemma_insert_by_time(s, post@, k as int);
            assert(posts_view(posts@) =~= s.insert(k as int, post@));
            let t = posts_view(posts@);
            assert forall|a: int, b: int| 0 <= a < b < t.len() implies (#[trigger] t[a]).timestamp
                >= (#[trigger] t[b]).timestamp by {
                if b < k {
                } else if a < k && b == k {
                } else if a < k {
                    assert(t[b] == s[b - 1]);
                    assert(s[a].timestamp >= s[b - 1].timestamp);
                } else if a == k {
                    assert(t[b] == s[b - 1]);
                } else {
                    assert(t[a] == s[a - 1]);
                    assert(t[b] == s[b - 1]);
                }
            }
            assert forall|a: int, b: int| 0 <= a < t.len() && 0 <= b < t.len() && a != b implies (
            #[trigger] t[a]).id != (#[trigger] t[b]).id by {
                if a == k {
                    assert(t[b] == if b < k { s[b] } else { s[b - 1] });
                } else if b == k {
                    assert(t[a] == if a < k { s[a] } else { s[a - 1] });
                } else {
                    let a2 = if a < k { a } else { a - 1 };
                    let b2 = if b < k { b } else { b - 1 };
                    assert(t[a] == s[a2]);
                    assert(t[b] == s[b2]);
                }
            }
        }
        self.posts = posts;
    }

    /// Up to `limit` stored posts by the authors in `pubkeys`, newest first.  No authors
    /// give no posts.
    pub fn get_posts_by_authors(&self, pubkeys: &[String], limit: usize) -> (r: Vec<Post>)
        ensures
            posts_view(r@) == if pubkeys@.len() == 0 {
                Seq::<PostView>::empty()
            } else {
                at_most(keep(self.posts(), by_authors(texts_view(pubkeys@))), limit as int)
            },
            newest_first(posts_view(r@)),
    {
        proof {
            use_type_invariant(self);
        }
        let ghost authors = texts_view(pubkeys@);
        let ghost pred = by_authors(authors);
        let ghost s = self.posts();
        let mut r: Vec<Post> = Vec::new();
        if pubkeys.len() == 0 {
            assert(posts_view(r@) =~= Seq::<PostView>::empty());
            return r;
        }
        let n = self.posts.len();
        for i in 0..n
            invariant
                n == self.posts@.len(),
                s == self.posts(),
                authors == texts_view(pubkeys@),
                pred == by_authors(authors),
                posts_view(r@) == keep(s.take(i as int), pred),
        {
            proof {
                lemma_keep_step(s, pred, i as int);
            }
            let p = &self.posts[i];
            if contains_text(pubkeys, &p.author_pubkey) {
                r.push(p.clone());
                assert(posts_view(r@) =~= keep(s.take(i as int), pred).push(s[i as int]));
            } else {
                assert(!pred(s[i as int]));
            }
        }
        proof {
            lemma_keep_all(s, pred);
        }
        let ghost all = posts_view(r@);
        r.truncate(limit);
        proof {
            lemma_newest_first_keep(s, pred);
            assert(posts_view(r@) =~= at_most(all, limit as int));
            let t = posts_view(r@);
            assert forall|a: int, b: int| 0 <= a < b < t.len() implies (#[trigger] t[a]).timestamp
                >= (#[trigger] t[b]).timestamp by {
                assert(t[a] == all[a] && t[b] == all[b]);
            }
        }
        r
    }

    /// Up to `limit` stored posts, newest first.
    pub fn get_all_posts(&self, limit: usize) -> (r: Vec<Post>)
        ensures
            posts_view(r@) == at_most(self.posts(), limit as int),
            newest_first(posts_view(r@)),
    {
        proof {
            use_type_invariant(self);
        }
        let mut r: Vec<Post> = Vec::new();
        let n = self.posts.len();
        let m = if limit < n { limit } else { n };
        let ghost s = self.posts();
        for i in 0..m
            invariant
                m <= n,
                n == self.posts@.len(),
                s == self.posts(),
                posts_view(r@) == s.take(i as int),
        {
            r.push(self.posts[i].clone());
            assert(posts_view(r@) =~= s.take(i as int).push(s[i as int]));
            assert(s.take(i as int).push(s[i as int]) =~= s.take(i + 1));
        }
        assert(posts_view(r@) =~= at_most(s, limit as int));
        r
    }

    /// The stored posts newer than `since`, oldest first.
    pub fn get_posts_since(&self, since_timestamp: u64) -> (r: Vec<Post>)
        ensures
            posts_view(r@) == reversed(keep(self.posts(), newer_than(since_timestamp))),
    {
        let ghost pred = newer_than(since_timestamp);
        let ghost s = self.posts();
        let mut newest: Vec<Post> = Vec::new();
        let n = self.posts.len();
        for i in 0..n
            invariant
                n == self.posts@.len(),
                s == self.posts(),
                pred == newer_than(since_timestamp),
                posts_view(newest@) == keep(s.take(i as int), pred),
        {
            proof {
                lemma_keep_step(s, pred, i as int);
            }
            if self.posts[i].timestamp > since_timestamp {
                newest.push(self.posts[i].clone());
                assert(posts_view(newest@) =~= keep(s.take(i as int), pred).push(s[i as int]));
            }
        }
        proof {
            lemma_keep_all(s, pred);
        }
        let ghost kept = posts_view(newest@);
        let mut r: Vec<Post> = Vec::new();
        let m = newest.len();
        for j in 0..m
            invariant
                m == newest@.len(),
                kept == posts_view(newest@),
                posts_view(r@) == reversed(kept).take(j as int),
        {
            r.push(newest[m - 1 - j].clone());
            assert(posts_view(r@) =~= reversed(kept).take(j as int).push(reversed(kept)[j as int]));
            assert(reversed(kept).take(j as int).push(reversed(kept)[j as int]) =~= reversed(kept).take(j + 1));
        }
        assert(posts_view(r@) =~= reversed(kept));
        r
    }

    /// The timestamp of the newest stored post, or nothing when no post is stored.
    pub fn get_last_sync_timestamp(&self) -> (r: Option<u64>)
        ensures
            r is None <==> self.posts().len() == 0,
            r matches Some(t) ==> (exists|i: int| 0 <= i < self.posts().len() && (#[trigger] self.posts()[i]).timestamp == t)
                && (forall|i: int| 0 <= i < self.posts().len() ==> (#[trigger] self.posts()[i]).timestamp <= t),
    {
        proof {
            use_type_invariant(self);
        }
        if self.posts.len() == 0 {
            None
        } else {
            let t = self.posts[0].timestamp;
            proof {
                let s = self.posts();
                assert(s[0].timestamp == t);
                assert forall|i: int| 0 <= i < s.len() implies (#[trigger] s[i]).timestamp <= t by {
                    if i > 0 {
                        assert(s[0].timestamp >= s[i].timestamp);
                    }
                }
            }
            Some(t)
        }
    }

    // ========== Subscriptions ==========

    /// Follows `pubkey`; following an author twice changes nothing.
    pub fn add_subscription(&mut self, pubkey: &str)
        ensures
            final(self).subscriptions() == if old(self).subscriptions().contains(pubkey@) {
                old(self).subscriptions()
            } else {
                old(self).subscriptions().push(pubkey@)
            },
            final(self).stored_keypair() == old(self).stored_keypair(),
            final(self).location() == old(self).location(),
            final(self).posts() == old(self).posts(),
            final(self).peers() == old(self).peers(),
    {
        proof {
            use_type_invariant(&*self);
        }
        let key = String::from_str(pubkey);
        if contains_text(self.subscriptions.as_slice(), &key) {
            return;
        }
        let ghost s = self.subscriptions();
        let mut subscriptions: Vec<String> = Vec::new();
        assert(texts_view(subscriptions@) =~= Seq::<Seq<char>>::empty());
        std::mem::swap(&mut subscriptions, &mut self.subscriptions);
        subscriptions.push(key);
        proof {
            assert(texts_view(subscriptions@) =~= s.push(pubkey@));
            lemma_push_no_duplicates(s, pubkey@);
        }
        self.subscriptions = subscriptions;
    }

    /// Stops following `pubkey`.
    pub fn remove_subscription(&mut self, pubkey: &str)
        ensures
            final(self).subscriptions() == keep(old(self).subscriptions(), other_text(pubkey@)),
            final(self).stored_keypair() == old(self).stored_keypair(),
            final(self).location() == old(self).location(),
            final(self).posts() == old(self).posts(),
            final(self).peers() == old(self).peers(),
    {
        proof {
            use_type_invariant(&*self);
        }
        let ghost s = self.subscriptions();
        let ghost pred = other_text(pubkey@);
        let key = String::from_str(pubkey);
        let mut kept: Vec<String> = Vec::new();
        let n = self.subscriptions.len();
        for i in 0..n
            invariant
                n == self.subscriptions@.len(),
                s == self.subscriptions(),
                key@ == pubkey@,
                pred == other_text(pubkey@),
                texts_view(kept@) == keep(s.take(i as int), pred),
        {
            proof {
                lemma_keep_step(s, pred, i as int);
            }
            if self.subscriptions[i] != key {
                kept.push(self.subscriptions[i].clone());
                assert(texts_view(kept@) =~= keep(s.take(i as int), pred).push(s[i as int]));
            }
        }
        proof {
            lemma_keep_all(s, pred);
            lemma_keep_no_duplicates(s, pred);
        }
        self.subscriptions = kept;
    }

    /// The followed authors' public keys.
    pub fn get_subscriptions(&self) -> (r: Vec<String>)
        ensures
            texts_view(r@) == self.subscriptions(),
    {
        crate::p2p::clone_texts(&self.subscriptions)
    }

    // ========== Peers ==========

    /// Records that the peer at `addr` was heard from at `last_seen`, replacing the row
    /// held for that address; the row goes last.
    pub fn save_peer(&mut self, addr: &str, pubkey: Option<&str>, last_seen: u64)
        ensures
            final(self).peers() == keep(old(self).peers(), other_addr(addr@)).push(
                (addr@, match pubkey { Some(k) => Some(k@), None => None }, last_seen),
            ),
            final(self).stored_keypair() == old(self).stored_keypair(),
            final(self).location() == old(self).location(),
            final(self).posts() == old(self).posts(),
            final(self).subscriptions() == old(self).subscriptions(),
    {
        proof {
            use_type_invariant(&*self);
        }
        let ghost s = self.peers();
        let ghost pred = other_addr(addr@);
        let key = String::from_str(addr);
        let mut kept: Vec<PeerRow> = Vec::new();
        let n = self.peers.len();
        for i in 0..n
            invariant
                n == self.peers@.len(),
                s == self.peers(),
                key@ == addr@,
                pred == other_addr(addr@),
                peers_view(kept@) == keep(s.take(i as int), pred),
        {
            proof {
                lemma_keep_step(s, pred, i as int);
            }
            if self.peers[i].0 != key {
                let row = clone_peer_row(&self.peers[i]);
                kept.push(row);
                assert(peers_view(kept@) =~= keep(s.take(i as int), pred).push(s[i as int]));
            }
        }
        proof {
            lemma_keep_all(s, pred);
            lemma_keep_members(s, pred);
            lemma_keep_distinct_addrs(s, pred);
        }
        let pk = match pubkey {
            Some(k) => Some(String::from_str(k)),
            None => None,
        };
        let ghost before = peers_view(kept@);
        kept.push((key, pk, last_seen));
        proof {
            let t = peers_view(kept@);
            assert(t =~= before.push((addr@, match pubkey { Some(k) => Some(k@), None => None }, last_seen)));
            assert forall|a: int, b: int| 0 <= a < t.len() && 0 <= b < t.len() && a != b implies (
            #[trigger] t[a]).0 != (#[trigger] t[b]).0 by {
                if a == t.len() - 1 {
                    assert(before.contains(t[b]));
                } else if b == t.len() - 1 {
                    assert(before.contains(t[a]));
                }
            }
        }
        self.peers = kept;
    }

    /// The peer rows.
    pub fn get_peers(&self) -> (r: Vec<PeerRow>)
        ensures
            peers_view(r@) == self.peers(),
    {
        let mut r: Vec<PeerRow> = Vec::new();
        let n = self.peers.len();
        for i in 0..n
            invariant
                n == self.peers@.len(),
                peers_view(r@) == self.peers().take(i as int),
        {
            r.push(clone_peer_row(&self.peers[i]));
            let ghost t = self.peers();
            assert(peers_view(r@) =~= t.take(i as int).push(t[i as int]));
            assert(t.take(i as int).push(t[i as int]) =~= t.take(i + 1));
        }
        assert(peers_view(r@) =~= self.peers());
        r
    }

    /// Drops the rows of peers last heard from before `cutoff`.
    pub fn delete_peers_seen_before(&mut self, cutoff: u64)
        ensures
            final(self).peers() == keep(old(self).peers(), seen_since(cutoff)),
            final(self).stored_keypair() == old(self).stored_keypair(),
            final(self).location() == old(self).location(),
            final(self).posts() == old(self).posts(),
            final(self).subscriptions() == old(self).subscriptions(),
    {
        proof {
            use_type_invariant(&*self);
        }
        let ghost s = self.peers();
        let ghost pred = seen_since(cutoff);
        let mut kept: Vec<PeerRow> = Vec::new();
        let n = self.peers.len();
        for i in 0..n
            invariant
                n == self.peers@.len(),
                s == self.peers(),
                pred == seen_since(cutoff),
                peers_view(kept@) == keep(s.take(i as int), pred),
        {
            proof {
                lemma_keep_step(s, pred, i as int);
            }
            if self.peers[i].2 >= cutoff {
                let row = clone_peer_row(&self.peers[i]);
                kept.push(row);
                assert(peers_view(kept@) =~= keep(s.take(i as int), pred).push(s[i as int]));
            }
        }
        proof {
            lemma_keep_all(s, pred);
            lemma_keep_distinct_addrs(s, pred);
        }
        self.peers = kept;
    }

    /// Drops the rows of peers not heard from in the last `max_age_secs` seconds, counted
    /// back (saturating at zero) from the current time; returns whether it did, which it
    /// does not when the clock cannot be read, and then changes nothing.
    pub fn delete_old_peers(&mut self, max_age_secs: u64) -> (done: bool)
        ensures
            done ==> exists|now: u64| final(self).peers() == #[trigger] keep(
                old(self).peers(),
                seen_since(age_cutoff(now, max_age_secs)),
            ),
            !done ==> final(self).peers() == old(self).peers(),
            final(self).stored_keypair() == old(self).stored_keypair(),
            final(self).location() == old(self).location(),
            final(self).posts() == old(self).posts(),
            final(self).subscriptions() == old(self).subscriptions(),
    {
        let now = match now_secs() {
            Some(t) => t,
            None => {
                return false;
            },
        };
        let cutoff = now.saturating_sub(max_age_secs);
        self.delete_peers_seen_before(cutoff);
        assert(cutoff == age_cutoff(now, max_age_secs));
        true
    }
}

/// A copy of a peer row.
fn clone_peer_row(row: &PeerRow) -> (r: PeerRow)
    ensures
        peer_view(r) == peer_view(*row),
{
    let pk = match &row.1 {
        Some(k) => Some(k.clone()),
        None => None,
    };
    (row.0.clone(), pk, row.2)
}

/// Whether `x` is one of `list`.
pub fn contains_text(list: &[String], x: &String) -> (b: bool)
    ensures
        b == texts_view(list@).contains(x@),
{
    let n = list.len();
    for i in 0..n
        invariant
            n == list@.len(),
            forall|j: int| 0 <= j < i ==> (#[trigger] texts_view(list@)[j]) != x@,
    {
        if list[i] == *x {
            assert(texts_view(list@)[i as int] == x@);
            return true;
        }
    }
    false
}

/// A new element keeps a sequence free of duplicates.
pub proof fn lemma_push_no_duplicates<T>(s: Seq<T>, x: T)
    requires
        s.no_duplicates(),
        !s.contains(x),
    ensures
        s.push(x).no_duplicates(),
{
    let t = s.push(x);
    assert forall|i: int, j: int| 0 <= i < t.len() && 0 <= j < t.len() && i != j implies t[i] != t[j] by {
        if i == s.len() {
            assert(s[j] == t[j]);
        } else if j == s.len() {
            assert(s[i] == t[i]);
        }
    }
}

/// A post with a new id that is saved is stored, and the table grows by one; a post whose id
/// is stored leaves the table as it was.
pub proof fn lemma_saved_post_is_stored(posts: Seq<PostView>, p: PostView)
    ensures
        !has_id(posts, p.id) ==> insert_by_time(posts, p).contains(p) && insert_by_time(posts, p).len() == posts.len()
            + 1,
    decreases posts.len(),
{
    if posts.len() == 0 {
        assert(insert_by_time(posts, p)[0] == p);
    } else if posts[0].timestamp < p.timestamp {
        assert(insert_by_time(posts, p)[0] == p);
    } else if !has_id(posts, p.id) {
        let d = posts.drop_first();
        assert(!has_id(d, p.id)) by {
            if has_id(d, p.id) {
                let j = choose|j: int| 0 <= j < d.len() && (#[trigger] d[j]).id == p.id;
                assert(posts[j + 1].id == p.id);
            }
        }
        lemma_saved_post_is_stored(d, p);
        let k = choose|k: int| 0 <= k < insert_by_time(d, p).len() && insert_by_time(d, p)[k] == p;
        assert(insert_by_time(posts, p)[k + 1] == p);
    }
}

/// Following a new author adds one subscription, and the author is then followed.
pub proof fn lemma_subscribe_adds_one(subs: Seq<Seq<char>>, key: Seq<char>)
    requires
        subs.no_duplicates(),
        !subs.contains(key),
    ensures
        subs.push(key).contains(key),
        subs.push(key).len() == subs.len() + 1,
        subs.push(key).no_duplicates(),
{
    assert(subs.push(key)[subs.len() as int] == key);
    lemma_push_no_duplicates(subs, key);
}

/// Unfollowing a followed author removes exactly one subscription, and the author is no
/// longer followed.
pub proof fn lemma_unsubscribe_removes_one(subs: Seq<Seq<char>>, key: Seq<char>)
    requires
        subs.no_duplicates(),
        subs.contains(key),
    ensures
        !keep(subs, other_text(key)).contains(key),
        keep(subs, other_text(key)).len() == subs.len() - 1,
    decreases subs.len(),
{
    lemma_keep_members(subs, other_text(key));
    let d = subs.drop_last();
    if subs.last() == key {
        assert(!d.contains(key)) by {
            if d.contains(key) {
                let j = choose|j: int| 0 <= j < d.len() && d[j] == key;
                assert(subs[j] == subs[subs.len() - 1]);
            }
        }
        lemma_keep_members(d, other_text(key));
        lemma_keep_all_kept(d, other_text(key));
    } else {
        assert(d.no_duplicates());
        let j = choose|j: int| 0 <= j < subs.len() && subs[j] == key;
        assert(d[j] == key);
        lemma_unsubscribe_removes_one(d, key);
    }
}

/// Selecting rows keeps their addresses distinct.
pub proof fn lemma_keep_distinct_addrs(s: Seq<PeerView>, pred: spec_fn(PeerView) -> bool)
    requires
        distinct_addrs(s),
    ensures
        distinct_addrs(keep(s, pred)),
{
    let key = |p: PeerView| p.0;
    lemma_keep_distinct_keys(s, pred, key);
    let k = keep(s, pred);
    assert forall|a: int, b: int| 0 <= a < k.len() && 0 <= b < k.len() && a != b implies (
    #[trigger] k[a]).0 != (#[trigger] k[b]).0 by {
        assert(key(k[a]) != key(k[b]));
    }
}

/// A selection of newest-first posts is newest first.
pub proof fn lemma_newest_first_keep(s: Seq<PostView>, pred: spec_fn(PostView) -> bool)
    requires
        newest_first(s),
    ensures
        newest_first(keep(s, pred)),
{
    let later = |a: PostView, b: PostView| a.timestamp >= b.timestamp;
    lemma_keep_ordered(s, pred, later);
    let k = keep(s, pred);
    assert forall|a: int, b: int| 0 <= a < b < k.len() implies (#[trigger] k[a]).timestamp
        >= (#[trigger] k[b]).timestamp by {
        assert(later(k[a], k[b]));
    }
}

} // verus!
