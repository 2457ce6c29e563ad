use zeta::addr::SockAddr;
use zeta::crypto::KeyPair;
use zeta::p2p::{Message, NetworkNode};
use zeta::post::Post;

fn addr() -> SockAddr {
    SockAddr::V4 { ip: u32::from_be_bytes([1, 2, 3, 4]), port: 5 }
}

#[test]
fn message_descriptions() {
    let m = Message::RequestPosts { src_addr: addr(), since: 12, pubkeys: vec!["a".into(), "b".into()] };
    assert_eq!(m.describe(), "[RequestPosts] 1.2.3.4:5 demande posts depuis 12 pour 2 auteurs");
    let m = Message::PostsBatch { posts: vec![] };
    assert_eq!(m.describe(), "[PostsBatch] 0 posts");
    let m = Message::NodeAnnounce { addr: addr(), pubkey: "0123456789abcdef".into(), is_relay: true, time: 3661 };
    assert_eq!(m.describe(), "[NodeAnnounce] 1.2.3.4:5 (0123456789ab...) [relay] (01:01:01)");
    let m = Message::NodeAnnounce { addr: addr(), pubkey: "short".into(), is_relay: false, time: i64::MAX as u64 };
    assert_eq!(m.describe(), format!("[NodeAnnounce] 1.2.3.4:5 (short...) [client] (t={})", i64::MAX));
    let m = Message::GetAllNodes { src_addr: addr(), time: 86399 };
    assert_eq!(m.describe(), "[GetAllNodes] 1.2.3.4:5 (23:59:59)");
    let node = |r: bool| NetworkNode { addr: addr(), pubkey: "k".into(), is_relay: r, last_seen: 0 };
    let m = Message::AllNodesList { nodes: vec![node(true), node(false), node(true)] };
    assert_eq!(m.describe(), "[AllNodesList] 3 nodes (2 relays)");
    let kp = KeyPair::generate();
    let post = Post::new_at("yo".into(), &kp, 1_000_000_000);
    let m = Message::PublishPost { post: post.clone() };
    assert_eq!(m.describe(), format!("[PublishPost] [2001-09-09 01:46:40] {}... : yo", &kp.public_hex()[..12]));
    assert_eq!(post.describe(), format!("[2001-09-09 01:46:40] {}... : yo", &kp.public_hex()[..12]));
}

#[test]
fn negative_times_wrap_like_the_cast() {
    let m = Message::GetAllNodes { src_addr: addr(), time: u64::MAX };
    assert_eq!(m.describe(), "[GetAllNodes] 1.2.3.4:5 (23:59:59)");
}

#[test]
fn times_are_written_within_the_calendar_range_only() {
    let last: i64 = 8_210_266_876_799;
    let first: i64 = -8_334_601_228_800;
    assert!(chrono::DateTime::from_timestamp(last, 0).is_some());
    assert!(chrono::DateTime::from_timestamp(last + 1, 0).is_none());
    assert!(chrono::DateTime::from_timestamp(first, 0).is_some());
    assert!(chrono::DateTime::from_timestamp(first - 1, 0).is_none());
    let at = |t: u64| Message::GetAllNodes { src_addr: addr(), time: t }.describe();
    assert_eq!(at(last as u64), "[GetAllNodes] 1.2.3.4:5 (23:59:59)");
    assert_eq!(at(last as u64 + 1), format!("[GetAllNodes] 1.2.3.4:5 (t={})", last + 1));
    assert_eq!(at(first as u64), "[GetAllNodes] 1.2.3.4:5 (00:00:00)");
    assert_eq!(at((first - 1) as u64), format!("[GetAllNodes] 1.2.3.4:5 (t={})", (first - 1) as u64));
    let kp = KeyPair::generate();
    let post = Post::new_at("zero".into(), &kp, 0);
    assert_eq!(post.describe(), format!("[1970-01-01 00:00:00] {}... : zero", &kp.public_hex()[..12]));
}

/// Dates written by the calendar formula of the library's contract, checked against what
/// the node prints.
const DATES: [(i64, &str); 55] = [
        (-8334601228800i64, "-262143-01-01 00:00:00"),
        (8210266876799i64, "+262142-12-31 23:59:59"),
        (0i64, "1970-01-01 00:00:00"),
        (-1i64, "1969-12-31 23:59:59"),
        (951782400i64, "2000-02-29 00:00:00"),
        (951868800i64, "2000-03-01 00:00:00"),
        (-62135596800i64, "0001-01-01 00:00:00"),
        (-62135596801i64, "0000-12-31 23:59:59"),
        (-62167219200i64, "0000-01-01 00:00:00"),
        (-62167219201i64, "-0001-12-31 23:59:59"),
        (253402300799i64, "9999-12-31 23:59:59"),
        (253402300800i64, "+10000-01-01 00:00:00"),
        (-62198755200i64, "-0001-01-01 00:00:00"),
        (-315619200000i64, "-8032-06-05 00:00:00"),
        (1000000000i64, "2001-09-09 01:46:40"),
        (-1388991218889i64, "-42046-08-15 17:51:51"),
        (-7485696929200i64, "-235243-09-16 05:53:20"),
        (6109684899123i64, "+195578-03-17 14:12:03"),
        (-6678737224149i64, "-209671-03-30 15:30:51"),
        (1919056328696i64, "+62782-06-23 02:24:56"),
        (7668696019573i64, "+244981-04-20 18:46:13"),
        (-4557145555723i64, "-142441-10-22 18:31:17"),
        (-6822611697960i64, "-214230-01-15 19:54:00"),
        (-979754724006i64, "-29078-10-23 05:59:54"),
        (-4103758415473i64, "-128073-01-28 02:48:47"),
        (1359529567705i64, "+45051-10-11 22:08:25"),
        (-7293395847130i64, "-229149-06-27 05:07:50"),
        (1616094331567i64, "+53181-12-28 12:06:07"),
        (2760258100825i64, "+89439-02-05 17:20:25"),
        (1920180511925i64, "+62818-02-05 11:32:05"),
        (-7243904123991i64, "-227581-10-26 02:00:09"),
        (1967208985295i64, "+64308-05-16 12:21:35"),
        (-7461019138028i64, "-234461-09-19 19:52:52"),
        (-4443462842164i64, "-138838-04-08 22:03:56"),
        (1458124277168i64, "+48176-02-13 09:26:08"),
        (-61953167669i64, "0006-10-13 10:45:31"),
        (12913012118i64, "2379-03-14 03:48:38"),
        (46648458916i64, "3448-03-25 17:15:16"),
        (55124736448i64, "3716-10-31 18:47:28"),
        (51648774712i64, "3606-09-07 17:51:52"),
        (88188829743i64, "4764-08-05 01:09:03"),
        (-73453982325i64, "-0358-05-03 04:01:15"),
        (57116776337i64, "3779-12-16 19:12:17"),
        (-45716279993i64, "0521-04-23 09:20:07"),
        (-72630760957i64, "-0332-06-03 04:37:23"),
        (95626072873i64, "5000-04-09 06:01:13"),
        (54888499255i64, "3709-05-07 13:20:55"),
        (67759709620i64, "4117-03-21 21:33:40"),
        (34028572127i64, "3048-04-28 05:08:47"),
        (48951183700i64, "3521-03-15 15:01:40"),
        (25903303407i64, "2790-11-04 18:03:27"),
        (730659888i64, "1993-02-25 17:04:48"),
        (-34288001107i64, "0883-06-16 03:14:53"),
        (-49343525849i64, "0406-05-14 09:02:31"),
        (-77476776965i64, "-0486-11-11 01:03:55"),
];

#[test]
fn dates_follow_the_proleptic_gregorian_calendar() {
    let kp = KeyPair::generate();
    let head = format!("{}...", &kp.public_hex()[..12]);
    for (secs, text) in DATES {
        let post = Post::new_at("d".into(), &kp, secs as u64);
        assert_eq!(post.describe(), format!("[{}] {} : d", text, head), "{}", secs);
    }
}
