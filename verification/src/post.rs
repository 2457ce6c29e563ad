//! Signed posts.

use vstd::prelude::*;
use vstd::utf8::{decode_utf8, encode_utf8, encode_utf8_decode_utf8, is_char_boundary};
use vstd::slice::slice_to_vec;
use crate::crypto::{KeyPair, hash_message, sign, verify, sha256_of, ecdsa_signature, signature_checks};
use crate::hexcode::{hex_encode, hex_text};
use crate::text::{decimal_ascii, decimal_bytes, utf8_len, utf8_len_exceeds};
use crate::p2p::now_secs;

verus! {

/// A post: some text, who wrote it, when, and the author's signature.
pub struct Post {
    /// Hex of the first 16 bytes of the digest of the signed text.
    pub id: String,
    /// The author's public key, in hex.
    pub author_pubkey: String,
    /// What the post says.
    pub content: String,
    /// The author's signature of `content:timestamp:author_pubkey`, in hex.
    pub signature: String,
    /// Seconds since the Unix epoch when the post was written.
    pub timestamp: u64,
}

/// The mathematical value of a post.
pub struct PostView {
    pub id: Seq<char>,
    pub author_pubkey: Seq<char>,
    pub content: Seq<char>,
    pub signature: Seq<char>,
    pub timestamp: u64,
}

impl View for Post {
    type V = PostView;

    open spec fn view(&self) -> PostView {
        PostView {
            id: self.id@,
            author_pubkey: self.author_pubkey@,
            content: self.content@,
            signature: self.signature@,
            timestamp: self.timestamp,
        }
    }
}

impl Clone for Post {
    fn clone(&self) -> (r: Self)
        ensures
            r@ == self@,
    {
        Post {
            id: self.id.clone(),
            author_pubkey: self.author_pubkey.clone(),
            content: self.content.clone(),
            signature: self.signature.clone(),
            timestamp: self.timestamp,
        }
    }
}

/// The bytes that are signed: the UTF-8 text `content:timestamp:author`, with the
/// timestamp in decimal.
pub open spec fn signed_text(content: Seq<char>, timestamp: u64, author: Seq<char>) -> Seq<u8> {
    encode_utf8(content) + seq![58u8] + decimal_ascii(timestamp as nat) + seq![58u8]
        + encode_utf8(author)
}

/// The id of a post: hex of the first 16 bytes of the SHA-256 digest of its signed text.
pub open spec fn post_id(signed: Seq<u8>) -> Seq<char> {
    hex_text(sha256_of(signed).subrange(0, 16))
}

/// The post that `keypair` writes with `content` at `timestamp`.
pub open spec fn written_post(content: Seq<char>, secret: Seq<u8>, public: Seq<u8>, timestamp: u64) -> PostView {
    let author = hex_text(public);
    let signed = signed_text(content, timestamp, author);
    PostView {
        id: post_id(signed),
        author_pubkey: author,
        content: content,
        signature: hex_text(ecdsa_signature(sha256_of(signed), secret)),
        timestamp: timestamp,
    }
}

/// Whether the signature of a post checks against its author's key.
pub open spec fn post_is_authentic(p: PostView) -> bool {
    signature_checks(signed_text(p.content, p.timestamp, p.author_pubkey), p.signature, p.author_pubkey)
}

/// What `short_author` shows: the first 12 bytes of the author key and `...` when the key
/// is longer than 12 bytes, else the whole key.
pub open spec fn shortened(author: Seq<char>) -> Seq<char> {
    if utf8_len(author) > 12 {
        decode_utf8(encode_utf8(author).subrange(0, 12)) + seq!['.', '.', '.']
    } else {
        author
    }
}

/// The bytes of `content:timestamp:author`.
fn signed_bytes(content: &str, timestamp: u64, author: &str) -> (r: Vec<u8>)
    ensures
        r@ == signed_text(content@, timestamp, author@),
{
    let mut v = slice_to_vec(content.as_bytes());
    v.push(58u8);
    let mut digits = decimal_bytes(timestamp);
    v.append(&mut digits);
    v.push(58u8);
    let mut tail = slice_to_vec(author.as_bytes());
    v.append(&mut tail);
    assert(v@ =~= signed_text(content@, timestamp, author@));
    v
}

impl Post {
    /// A post by `keypair`, stamped with the current time; nothing when the clock cannot
    /// be read.
    pub fn new(content: String, keypair: &KeyPair) -> (r: Option<Post>)
        ensures
            r matches Some(p) ==> p@ == written_post(content@, keypair.secret_key(), keypair.public_key(), p.timestamp)
                && post_is_authentic(p@) && p.id@.len() == 32,
    {
        match now_secs() {
            Some(timestamp) => Some(Post::new_at(content, keypair, timestamp)),
            None => None,
        }
    }

    /// A post by `keypair` stamped with `timestamp`: signed over `content:timestamp:author`,
    /// with its id taken from the digest of that text.  The post always verifies.
    pub fn new_at(content: String, keypair: &KeyPair, timestamp: u64) -> (p: Post)
        ensures
            p@ == written_post(content@, keypair.secret_key(), keypair.public_key(), timestamp),
            post_is_authentic(p@),
            p.id@.len() == 32,
    {
        let author_pubkey = keypair.public_hex();
        let data = signed_bytes(content.as_str(), timestamp, author_pubkey.as_str());
        let signature = sign(data.as_slice(), keypair);
        let hash = hash_message(data.as_slice());
        let mut head: Vec<u8> = Vec::new();
        let mut i: usize = 0;
        while i < 16
            invariant
                0 <= i <= 16,
                hash@.len() == 32,
                head@ =~= hash@.subrange(0, i as int),
            decreases 16 - i,
        {
            head.push(hash[i]);
            i = i + 1;
        }
        let id = hex_encode(head.as_slice());
        Post { id, author_pubkey, content, signature, timestamp }
    }

    /// Whether the signature checks against the author key for this post's content and time.
    pub fn verify(&self) -> (ok: bool)
        ensures
            ok == post_is_authentic(self@),
    {
        let data = signed_bytes(self.content.as_str(), self.timestamp, self.author_pubkey.as_str());
        verify(data.as_slice(), self.signature.as_str(), self.author_pubkey.as_str())
    }

    /// The author key cut to its first 12 bytes followed by `...`, or the whole key when it
    /// is not longer than 12 bytes.
    pub fn short_author(&self) -> (s: String)
        requires
            utf8_len(self.author_pubkey@) > 12 ==> is_char_boundary(encode_utf8(self.author_pubkey@), 12),
        ensures
            s@ == shortened(self.author_pubkey@),
    {
        let a = self.author_pubkey.as_str();
        if utf8_len_exceeds(a, 12) {
            let (head, _) = a.split_at(12);
            let mut s = String::from_str(head);
            let dots = "...";
            proof {
                reveal_strlit("...");
                encode_utf8_decode_utf8(head@);
            }
            s.append(dots);
            assert(s@ =~= shortened(self.author_pubkey@));
            s
        } else {
            self.author_pubkey.clone()
        }
    }
}

} // verus!
