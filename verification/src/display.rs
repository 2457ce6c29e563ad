//! The one-line descriptions of posts and messages that nodes print as they work.

use vstd::prelude::*;
use vstd::utf8::{decode_utf8, encode_utf8, encode_utf8_decode_utf8, is_char_boundary};
use crate::addr::{addr_text, decimal_text, push_decimal};
use crate::p2p::{Message, MessageView, NodeView};
use crate::post::{Post, PostView, shortened};
use crate::seqs::{keep, lemma_keep_step, lemma_keep_all};
use crate::text::{utf8_len, utf8_len_exceeds};

verus! {

/// The seconds after the Unix epoch that `chrono` can date: from -262143-01-01 00:00:00
/// to 262142-12-31 23:59:59, UTC.
pub open spec fn chrono_in_range(secs: i64) -> bool {
    -8_334_601_228_800 <= secs <= 8_210_266_876_799
}

/// Two decimal digits.
pub open spec fn two_digits(n: int) -> Seq<char> {
    seq![(48 + n / 10) as char, (48 + n % 10) as char]
}

/// Four decimal digits, with leading zeros.
pub open spec fn four_digits(n: int) -> Seq<char> {
    two_digits(n / 100) + two_digits(n % 100)
}

/// `HH:MM:SS` of the time of day, in UTC, `secs` seconds after the Unix epoch.
pub open spec fn clock_text(secs: i64) -> Seq<char> {
    let t = secs as int % 86400;
    two_digits(t / 3600) + seq![':'] + two_digits(t % 3600 / 60) + seq![':'] + two_digits(t % 60)
}

/// The proleptic Gregorian (year, month, day) of the day `days` after 1970-01-01, with
/// year 0 before year 1.
pub open spec fn civil_date(days: int) -> (int, int, int) {
    let z = days + 719468;
    let era = z / 146097;
    let doe = z - era * 146097;
    let yoe = (doe - doe / 1460 + doe / 36524 - doe / 146096) / 365;
    let doy = doe - (365 * yoe + yoe / 4 - yoe / 100);
    let mp = (5 * doy + 2) / 153;
    let day = doy - (153 * mp + 2) / 5 + 1;
    let month = if mp < 10 { mp + 3 } else { mp - 9 };
    let year = yoe + era * 400 + if month <= 2 { 1int } else { 0int };
    (year, month, day)
}

/// A year as `%Y` writes it: four digits from 0 to 9999, else a sign and at least four
/// digits.
pub open spec fn year_text(y: int) -> Seq<char> {
    if 0 <= y < 10000 {
        four_digits(y)
    } else {
        let a: nat = if y < 0 { (-y) as nat } else { y as nat };
        (if y < 0 { seq!['-'] } else { seq!['+'] }) + if a < 10000 { four_digits(a as int) } else { decimal_text(a) }
    }
}

/// `YYYY-MM-DD HH:MM:SS` of the moment `secs` seconds after the Unix epoch, in UTC.
pub open spec fn date_time_text(secs: i64) -> Seq<char> {
    let (y, m, d) = civil_date(secs as int / 86400);
    year_text(y) + seq!['-'] + two_digits(m) + seq!['-'] + two_digits(d) + seq![' '] + clock_text(secs)
}

/// `DateTime::<Utc>::from_timestamp(secs, 0)`, then `format(pattern)`: nothing when the
/// date is out of `chrono`'s range; else the formatted text: for `%H:%M:%S` the time of
/// day, for `%Y-%m-%d %H:%M:%S` the proleptic Gregorian date and the time of day.
#[verifier::external_body]
fn utc_format(secs: i64, pattern: &str) -> (r: Option<String>)
    requires
        pattern@ == "%H:%M:%S"@ || pattern@ == "%Y-%m-%d %H:%M:%S"@,
    ensures
        r is Some <==> chrono_in_range(secs),
        pattern@ == "%H:%M:%S"@ ==> (r matches Some(s) ==> s@ == clock_text(secs)),
        pattern@ == "%Y-%m-%d %H:%M:%S"@ ==> (r matches Some(s) ==> s@ == date_time_text(secs)),
{
    match chrono::DateTime::from_timestamp(secs, 0) {
        Some(dt) => Some(dt.format(pattern).to_string()),
        None => None,
    }
}

/// A timestamp as a date and time, or `t=` and the number when out of range.
pub open spec fn date_time_or_raw(t: u64) -> Seq<char> {
    if chrono_in_range(t as i64) {
        date_time_text(t as i64)
    } else {
        "t="@ + decimal_text(t as nat)
    }
}

/// A timestamp as a time of day, or `t=` and the number when out of range.
pub open spec fn time_or_raw(t: u64) -> Seq<char> {
    if chrono_in_range(t as i64) {
        clock_text(t as i64)
    } else {
        "t="@ + decimal_text(t as nat)
    }
}

/// How a post is printed: `[date time] author : content`.
pub open spec fn post_text(p: PostView) -> Seq<char> {
    "["@ + date_time_or_raw(p.timestamp) + "] "@ + shortened(p.author_pubkey) + " : "@ + p.content
}

/// A key cut to its first 12 bytes when it is longer.
pub open spec fn key_head(k: Seq<char>) -> Seq<char> {
    if utf8_len(k) > 12 {
        decode_utf8(encode_utf8(k).subrange(0, 12))
    } else {
        k
    }
}

/// Keys that can be cut at byte 12 when they are longer.
pub open spec fn cuttable(k: Seq<char>) -> bool {
    utf8_len(k) > 12 ==> is_char_boundary(encode_utf8(k), 12)
}

/// Relay nodes.
pub open spec fn relay_node() -> spec_fn(NodeView) -> bool {
    |n: NodeView| n.is_relay
}

/// How a message is printed.
pub open spec fn message_text(m: MessageView) -> Seq<char> {
    match m {
        MessageView::PublishPost { post } => "[PublishPost] "@ + post_text(post),
        MessageView::RequestPosts { src_addr, since, pubkeys } => "[RequestPosts] "@ + addr_text(src_addr)
            + " demande posts depuis "@ + decimal_text(since as nat) + " pour "@ + decimal_text(pubkeys.len())
            + " auteurs"@,
        MessageView::PostsBatch { posts } => "[PostsBatch] "@ + decimal_text(posts.len()) + " posts"@,
        MessageView::NodeAnnounce { addr, pubkey, is_relay, time } => "[NodeAnnounce] "@ + addr_text(addr) + " ("@
            + key_head(pubkey) + "...) ["@ + (if is_relay {
            "relay"@
        } else {
            "client"@
        }) + "] ("@ + time_or_raw(time) + ")"@,
        MessageView::GetAllNodes { src_addr, time } => "[GetAllNodes] "@ + addr_text(src_addr) + " ("@ + time_or_raw(time)
            + ")"@,
        MessageView::AllNodesList { nodes } => "[AllNodesList] "@ + decimal_text(nodes.len()) + " nodes ("@
            + decimal_text(keep(nodes, relay_node()).len()) + " relays)"@,
    }
}

/// Messages whose keys can be cut where they are printed cut.
pub open spec fn printable(m: MessageView) -> bool {
    match m {
        MessageView::PublishPost { post } => cuttable(post.author_pubkey),
        MessageView::NodeAnnounce { pubkey, .. } => cuttable(pubkey),
        _ => true,
    }
}

/// Appends a timestamp as a date and time, or `t=` and the number.
fn push_date_time(s: &mut String, t: u64)
    ensures
        final(s)@ == old(s)@ + date_time_or_raw(t),
{
    match utc_format(t as i64, "%Y-%m-%d %H:%M:%S") {
        Some(text) => {
            s.append(text.as_str());
        },
        None => {
            s.append("t=");
            push_decimal(s, t);
            assert(s@ =~= old(s)@ + date_time_or_raw(t));
        },
    }
}

/// Appends a timestamp as a time of day, or `t=` and the number.
fn push_time(s: &mut String, t: u64)
    ensures
        final(s)@ == old(s)@ + time_or_raw(t),
{
    match utc_format(t as i64, "%H:%M:%S") {
        Some(text) => {
            s.append(text.as_str());
        },
        None => {
            s.append("t=");
            push_decimal(s, t);
            assert(s@ =~= old(s)@ + time_or_raw(t));
        },
    }
}

/// Appends a key, cut to 12 bytes when longer.
fn push_key_head(s: &mut String, k: &String)
    requires
        cuttable(k@),
    ensures
        final(s)@ == old(s)@ + key_head(k@),
{
    let a = k.as_str();
    if utf8_len_exceeds(a, 12) {
        let (head, _) = a.split_at(12);
        proof {
            encode_utf8_decode_utf8(head@);
        }
        s.append(head);
    } else {
        s.append(a);
    }
}

impl Post {
    /// The post as printed: `[date time] author : content`.
    pub fn describe(&self) -> (s: String)
        requires
            cuttable(self.author_pubkey@),
        ensures
            s@ == post_text(self@),
    {
        let mut s = String::new();
        s.append("[");
        push_date_time(&mut s, self.timestamp);
        s.append("] ");
        let author = self.short_author();
        s.append(author.as_str());
        s.append(" : ");
        s.append(self.content.as_str());
        assert(s@ =~= post_text(self@));
        s
    }
}

impl Message {
    /// The message as printed.
    pub fn describe(&self) -> (s: String)
        requires
            printable(self@),
        ensures
            s@ == message_text(self@),
    {
        let mut s = String::new();
        match self {
            Message::PublishPost { post } => {
                s.append("[PublishPost] ");
                let p = post.describe();
                s.append(p.as_str());
            },
            Message::RequestPosts { src_addr, since, pubkeys } => {
                s.append("[RequestPosts] ");
                let a = src_addr.to_text();
                s.append(a.as_str());
                s.append(" demande posts depuis ");
                push_decimal(&mut s, *since);
                s.append(" pour ");
                push_decimal(&mut s, pubkeys.len() as u64);
                s.append(" auteurs");
            },
            Message::PostsBatch { posts } => {
                s.append("[PostsBatch] ");
                push_decimal(&mut s, posts.len() as u64);
                s.append(" posts");
            },
            Message::NodeAnnounce { addr, pubkey, is_relay, time } => {
                s.append("[NodeAnnounce] ");
                let a = addr.to_text();
                s.append(a.as_str());
                s.append(" (");
                push_key_head(&mut s, pubkey);
                s.append("...) [");
                if *is_relay {
                    s.append("relay");
                } else {
                    s.append("client");
                }
                s.append("] (");
                push_time(&mut s, *time);
                s.append(")");
            },
            Message::GetAllNodes { src_addr, time } => {
                s.append("[GetAllNodes] ");
                let a = src_addr.to_text();
                s.append(a.as_str());
                s.append(" (");
                push_time(&mut s, *time);
                s.append(")");
            },
            Message::AllNodesList { nodes } => {
                s.append("[AllNodesList] ");
                push_decimal(&mut s, nodes.len() as u64);
                s.append(" nodes (");
                let ghost nv = crate::p2p::nodes_view(nodes@);
                let ghost pred = relay_node();
                let mut relays: usize = 0;
                let n = nodes.len();
                for i in 0..n
                    invariant
                        n == nodes@.len(),
                        nv == crate::p2p::nodes_view(nodes@),
                        pred == relay_node(),
                        relays == keep(nv.take(i as int), pred).len(),
                        relays <= i,
                {
                    proof {
                        lemma_keep_step(nv, pred, i as int);
                    }
                    if nodes[i].is_relay {
                        relays = relays + 1;
                    }
                }
                proof {
                    lemma_keep_all(nv, pred);
                }
                push_decimal(&mut s, relays as u64);
                s.append(" relays)");
            },
        }
        assert(s@ =~= message_text(self@));
        s
    }
}

} // verus!
