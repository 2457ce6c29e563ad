//! What the node's web interface answers, apart from the HTTP plumbing.

use vstd::prelude::*;
use crate::hexcode::hex_text;
use crate::network::{NetView, NetworkState, send_all, node_addrs, relay, seen_after, stored_after};
use crate::p2p::{MessageView, Outgoing, outgoing_list, now_secs};
use crate::post::{Post, PostView, post_is_authentic, written_post};
use crate::seqs::{keep, at_most};
use crate::storage::{by_authors, posts_view, texts_view, PeerView, StorageView};
use crate::text::{is_blank, is_white_space, char_count_exceeds};

verus! {

/// A request to publish a post.
pub struct CreatePostRequest {
    pub content: String,
}

/// A request to follow an author.
pub struct AddSubscriptionRequest {
    pub pubkey: String,
}

/// This node's identity.
pub struct IdentityResponse {
    pub pubkey: String,
}

/// A post as the web interface shows it.
pub struct PostResponse {
    pub id: String,
    pub author_pubkey: String,
    pub content: String,
    pub timestamp: u64,
    pub verified: bool,
}

/// A peer as the web interface shows it.
pub struct PeerResponse {
    pub addr: String,
    pub pubkey: Option<String>,
    pub last_seen: u64,
}

/// The value of a shown post.
pub struct PostResponseView {
    pub id: Seq<char>,
    pub author_pubkey: Seq<char>,
    pub content: Seq<char>,
    pub timestamp: u64,
    pub verified: bool,
}

impl View for PostResponse {
    type V = PostResponseView;

    open spec fn view(&self) -> PostResponseView {
        PostResponseView {
            id: self.id@,
            author_pubkey: self.author_pubkey@,
            content: self.content@,
            timestamp: self.timestamp,
            verified: self.verified,
        }
    }
}

/// How a post is shown: its fields, and whether its signature checks.
pub open spec fn shown(p: PostView) -> PostResponseView {
    PostResponseView {
        id: p.id,
        author_pubkey: p.author_pubkey,
        content: p.content,
        timestamp: p.timestamp,
        verified: post_is_authentic(p),
    }
}

/// The values of shown posts.
pub open spec fn responses_view(v: Seq<PostResponse>) -> Seq<PostResponseView> {
    v.map_values(|r: PostResponse| r@)
}

/// The values of shown peers.
pub open spec fn peer_responses_view(v: Seq<PeerResponse>) -> Seq<PeerView> {
    v.map_values(|r: PeerResponse| (r.addr@, crate::storage::opt_text(r.pubkey), r.last_seen))
}

impl From<Post> for PostResponse {
    /// How `p` is shown: its fields, and whether its signature checks.
    fn from(p: Post) -> (r: PostResponse) {
        let verified = p.verify();
        PostResponse {
            id: p.id,
            author_pubkey: p.author_pubkey,
            content: p.content,
            timestamp: p.timestamp,
            verified,
        }
    }
}

impl vstd::std_specs::convert::FromSpecImpl<Post> for PostResponse {
    open spec fn obeys_from_spec() -> bool {
        true
    }

    open spec fn from_spec(v: Post) -> PostResponse {
        PostResponse {
            id: v.id,
            author_pubkey: v.author_pubkey,
            content: v.content,
            timestamp: v.timestamp,
            verified: post_is_authentic(v@),
        }
    }
}

/// Why a request was refused.
#[derive(Debug, Clone, Copy, PartialEq, Eq, Structural)]
pub enum ApiError {
    /// The post is empty or white space only.
    EmptyContent,
    /// The post is longer than 500 characters.
    ContentTooLong,
    /// The author key is empty or white space only.
    EmptyPubkey,
}

/// The text of a refusal.
pub open spec fn error_text(e: ApiError) -> Seq<char> {
    match e {
        ApiError::EmptyContent => "Content cannot be empty"@,
        ApiError::ContentTooLong => "Content too long (max 500 chars)"@,
        ApiError::EmptyPubkey => "Pubkey cannot be empty"@,
    }
}

impl ApiError {
    /// The text of the refusal.
    pub fn message(&self) -> (s: String)
        ensures
            s@ == error_text(*self),
    {
        match self {
            ApiError::EmptyContent => String::from_str("Content cannot be empty"),
            ApiError::ContentTooLong => String::from_str("Content too long (max 500 chars)"),
            ApiError::EmptyPubkey => String::from_str("Pubkey cannot be empty"),
        }
    }
}

/// A text made of white space only (or empty).
pub open spec fn blank(s: Seq<char>) -> bool {
    forall|i: int| 0 <= i < s.len() ==> is_white_space(#[trigger] s[i])
}

/// The authors of the feed: the followed ones and this node itself.
pub open spec fn feed_authors(v: NetView) -> Seq<Seq<char>> {
    v.store.subscriptions.push(hex_text(v.public_key))
}

/// This node's public key.
pub fn get_identity(network: &NetworkState) -> (r: IdentityResponse)
    ensures
        r.pubkey@ == hex_text(network@.public_key),
{
    IdentityResponse { pubkey: network.keypair().public_hex() }
}

/// The feed: the 100 newest posts by followed authors and by this node, newest first.
pub fn get_posts(network: &NetworkState) -> (r: Vec<PostResponse>)
    ensures
        responses_view(r@) == at_most(keep(network@.store.posts, by_authors(feed_authors(network@))), 100).map_values(
            |p: PostView| shown(p),
        ),
{
    let storage = network.storage();
    let mut all_authors = storage.get_subscriptions();
    all_authors.push(network.keypair().public_hex());
    assert(texts_view(all_authors@) =~= feed_authors(network@));
    let posts = storage.get_posts_by_authors(all_authors.as_slice(), 100);
    let ghost pv = posts_view(posts@);
    let mut out: Vec<PostResponse> = Vec::new();
    let n = posts.len();
    for i in 0..n
        invariant
            n == posts@.len(),
            pv == posts_view(posts@),
            responses_view(out@) == pv.take(i as int).map_values(|p: PostView| shown(p)),
    {
        let p = posts[i].clone();
        let ghost prev = responses_view(out@);
        let resp = PostResponse::from(p);
        assert(resp@ == shown(pv[i as int]));
        out.push(resp);
        assert(responses_view(out@) =~= prev.push(shown(pv[i as int])));
        assert(pv.take(i + 1) =~= pv.take(i as int).push(pv[i as int]));
        assert(responses_view(out@) =~= pv.take(i + 1).map_values(|p: PostView| shown(p)));
    }
    assert(pv.take(n as int) =~= pv);
    out
}

/// The state after this node publishes `post`: it is stored and marked seen.
pub open spec fn published(v: NetView, post: PostView) -> NetView {
    NetView {
        store: StorageView { posts: stored_after(v.store.posts, post), ..v.store },
        seen: seen_after(v.seen, post.id),
        ..v
    }
}

/// Writes a post for publishing, without publishing it: refused when it is blank or
/// longer than 500 characters; else written and signed by this node at `timestamp`.
pub fn write_post_at(network: &NetworkState, req: CreatePostRequest, timestamp: u64) -> (r: Result<Post, ApiError>)
    ensures
        blank(req.content@) ==> r == Err::<Post, ApiError>(ApiError::EmptyContent),
        !blank(req.content@) && req.content@.len() > 500 ==> r == Err::<Post, ApiError>(ApiError::ContentTooLong),
        !blank(req.content@) && req.content@.len() <= 500 ==> (r matches Ok(post) && post@ == written_post(
            req.content@,
            network@.secret_key,
            network@.public_key,
            timestamp,
        ) && post_is_authentic(post@)),
{
    if is_blank(req.content.as_str()) {
        return Err(ApiError::EmptyContent);
    }
    if char_count_exceeds(req.content.as_str(), 500) {
        return Err(ApiError::ContentTooLong);
    }
    Ok(Post::new_at(req.content, network.keypair(), timestamp))
}

/// Publishes a written post: stored, marked seen, sent to every relay in the node list
/// (this node included), and shown.
pub fn publish_post(network: &mut NetworkState, post: Post) -> (r: (PostResponse, Vec<Outgoing>))
    ensures
        final(network)@ == published(old(network)@, post@),
        r.0@ == shown(post@),
        outgoing_list(r.1@) == send_all(
            MessageView::PublishPost { post: post@ },
            node_addrs(keep(old(network)@.nodes, relay())),
        ),
{
    network.save_post(&post);
    let out = network.broadcast_post(&post);
    (PostResponse::from(post), out)
}

/// Publishes a post written now: refused when it is blank or longer than 500 characters;
/// else written by this node at `timestamp`, stored, marked seen, sent to every relay in
/// the node list (this node included), and shown as verified.
pub fn create_post_at(network: &mut NetworkState, req: CreatePostRequest, timestamp: u64) -> (r: (
    Result<PostResponse, ApiError>,
    Vec<Outgoing>,
))
    ensures
        blank(req.content@) ==> r.0 == Err::<PostResponse, ApiError>(ApiError::EmptyContent) && r.1@.len() == 0
            && final(network)@ == old(network)@,
        !blank(req.content@) && req.content@.len() > 500 ==> r.0 == Err::<PostResponse, ApiError>(
            ApiError::ContentTooLong,
        ) && r.1@.len() == 0 && final(network)@ == old(network)@,
        !blank(req.content@) && req.content@.len() <= 500 ==> {
            let post = written_post(req.content@, old(network)@.secret_key, old(network)@.public_key, timestamp);
            &&& post_is_authentic(post)
            &&& r.0 matches Ok(resp) && resp@ == shown(post) && resp@.verified
            &&& final(network)@ == published(old(network)@, post)
            &&& outgoing_list(r.1@) == send_all(
                MessageView::PublishPost { post },
                node_addrs(keep(old(network)@.nodes, relay())),
            )
        },
{
    match write_post_at(network, req, timestamp) {
        Err(e) => (Err(e), Vec::new()),
        Ok(post) => {
            let (resp, out) = publish_post(network, post);
            (Ok(resp), out)
        },
    }
}

/// Publishes a post, stamped with the current time: refused as `create_post_at` refuses;
/// else nothing, and no change, when the clock cannot be read; else published as
/// `create_post_at` publishes at the time read.
pub fn create_post(network: &mut NetworkState, req: CreatePostRequest) -> (r: Option<
    (Result<PostResponse, ApiError>, Vec<Outgoing>),
>)
    ensures
        blank(req.content@) ==> (r matches Some(x) && x.0 == Err::<PostResponse, ApiError>(ApiError::EmptyContent)
            && x.1@.len() == 0) && final(network)@ == old(network)@,
        !blank(req.content@) && req.content@.len() > 500 ==> (r matches Some(x) && x.0 == Err::<PostResponse, ApiError>(
            ApiError::ContentTooLong,
        ) && x.1@.len() == 0) && final(network)@ == old(network)@,
        r is None ==> final(network)@ == old(network)@,
        !blank(req.content@) && req.content@.len() <= 500 ==> (r matches Some(x) ==> exists|timestamp: u64|
            #![trigger written_post(req.content@, old(network)@.secret_key, old(network)@.public_key, timestamp)]
            {
            let post = written_post(req.content@, old(network)@.secret_key, old(network)@.public_key, timestamp);
            &&& post_is_authentic(post)
            &&& x.0 matches Ok(resp) && resp@ == shown(post) && resp@.verified
            &&& final(network)@ == published(old(network)@, post)
            &&& outgoing_list(x.1@) == send_all(
                MessageView::PublishPost { post },
                node_addrs(keep(old(network)@.nodes, relay())),
            )
        }),
{
    if is_blank(req.content.as_str()) {
        return Some((Err(ApiError::EmptyContent), Vec::new()));
    }
    if char_count_exceeds(req.content.as_str(), 500) {
        return Some((Err(ApiError::ContentTooLong), Vec::new()));
    }
    match now_secs() {
        Some(timestamp) => Some(create_post_at(network, req, timestamp)),
        None => None,
    }
}

/// The followed authors.
pub fn get_subscriptions(network: &NetworkState) -> (r: Vec<String>)
    ensures
        texts_view(r@) == network@.store.subscriptions,
{
    network.storage().get_subscriptions()
}

/// Follows an author: refused when the key is blank; else followed, and the key echoed.
pub fn add_subscription(network: &mut NetworkState, req: AddSubscriptionRequest) -> (r: Result<String, ApiError>)
    ensures
        blank(req.pubkey@) ==> r == Err::<String, ApiError>(ApiError::EmptyPubkey) && final(network)@ == old(network)@,
        !blank(req.pubkey@) ==> (r matches Ok(k) && k@ == req.pubkey@) && final(network)@ == (NetView {
            store: StorageView {
                subscriptions: if old(network)@.store.subscriptions.contains(req.pubkey@) {
                    old(network)@.store.subscriptions
                } else {
                    old(network)@.store.subscriptions.push(req.pubkey@)
                },
                ..old(network)@.store
            },
            ..old(network)@
        }),
{
    if is_blank(req.pubkey.as_str()) {
        return Err(ApiError::EmptyPubkey);
    }
    network.add_subscription(req.pubkey.as_str());
    Ok(req.pubkey)
}

/// Stops following an author.
pub fn remove_subscription(network: &mut NetworkState, pubkey: String)
    ensures
        final(network)@ == (NetView {
            store: StorageView {
                subscriptions: keep(old(network)@.store.subscriptions, crate::storage::other_text(pubkey@)),
                ..old(network)@.store
            },
            ..old(network)@
        }),
{
    network.remove_subscription(pubkey.as_str());
}

/// The peer table.
pub fn get_peers(network: &NetworkState) -> (r: Vec<PeerResponse>)
    ensures
        peer_responses_view(r@) == network@.store.peers,
{
    let rows = network.storage().get_peers();
    let ghost rv = crate::storage::peers_view(rows@);
    let n = rows.len();
    let mut out: Vec<PeerResponse> = Vec::new();
    for i in 0..n
        invariant
            n == rows@.len(),
            rv == crate::storage::peers_view(rows@),
            peer_responses_view(out@) == rv.take(i as int),
    {
        let row = &rows[i];
        let pk = match &row.1 {
            Some(k) => Some(k.clone()),
            None => None,
        };
        out.push(PeerResponse { addr: row.0.clone(), pubkey: pk, last_seen: row.2 });
        assert(rv.take(i + 1) =~= rv.take(i as int).push(rv[i as int]));
        assert(peer_responses_view(out@) =~= rv.take(i + 1));
    }
    assert(rv.take(n as int) =~= rv);
    out
}

} // verus!
